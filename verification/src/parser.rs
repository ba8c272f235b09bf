//! Reel scripts: the text format, the blur setting and the naming rules.
use vstd::prelude::*;
use crate::text;
use crate::patterns;

verus! {

// ---------------------------------------------------------------------------
// Blur strength
// ---------------------------------------------------------------------------

/// How strongly the background video is blurred.
#[derive(Debug, Clone, Copy, PartialEq, Eq, Structural)]
pub enum BlurStrength {
    Off,
    Light,
    Middle,
    Heavy,
}

/// The name under which a blur strength is shown and parsed.
pub open spec fn blur_name(b: BlurStrength) -> Seq<char> {
    match b {
        BlurStrength::Off => "none"@,
        BlurStrength::Light => "light"@,
        BlurStrength::Middle => "middle"@,
        BlurStrength::Heavy => "heavy"@,
    }
}

/// The blur strength that a trimmed, lower-cased setting names; anything
/// unknown means no blur.
pub open spec fn blur_from_key(k: Seq<char>) -> BlurStrength {
    if k == "light"@ {
        BlurStrength::Light
    } else if k == "middle"@ || k == "medium"@ {
        BlurStrength::Middle
    } else if k == "heavy"@ {
        BlurStrength::Heavy
    } else {
        BlurStrength::Off
    }
}

pub open spec fn blur_from_text(v: Seq<char>) -> BlurStrength {
    blur_from_key(text::unicode_lowercase(text::trim_ws(v)))
}

impl BlurStrength {
    pub fn as_str(self) -> (s: &'static str)
        ensures
            s@ == blur_name(self),
    {
        match self {
            BlurStrength::Off => "none",
            BlurStrength::Light => "light",
            BlurStrength::Middle => "middle",
            BlurStrength::Heavy => "heavy",
        }
    }

    pub fn from_str(value: &str) -> (b: Self)
        ensures
            b == blur_from_text(value@),
    {
        let v = text::chars_of(value);
        let key = text::lowercase(&text::trim(&v));
        if text::eq_str(&key, "light") {
            BlurStrength::Light
        } else if text::eq_str(&key, "middle") || text::eq_str(&key, "medium") {
            BlurStrength::Middle
        } else if text::eq_str(&key, "heavy") {
            BlurStrength::Heavy
        } else {
            BlurStrength::Off
        }
    }
}

// ---------------------------------------------------------------------------
// Slugs
// ---------------------------------------------------------------------------

/// The file-name slug of a text: runs of characters other than ASCII letters
/// and digits become `-`, the result is lower-cased and stripped of `-` at
/// both ends; an empty slug becomes `reel`.
pub open spec fn slug_of(v: Seq<char>) -> Seq<char> {
    let t = text::trim_char(
        text::unicode_lowercase(patterns::replace_runs(v, patterns::ascii_alnum_pred(), '-')),
        '-',
    );
    if t.len() == 0 {
        "reel"@
    } else {
        t
    }
}

pub fn slugify_chars(v: &Vec<char>) -> (r: Vec<char>)
    ensures
        r@ == slug_of(v@),
{
    let dashed = patterns::dash_runs(v);
    let lower = text::lowercase(&dashed);
    let trimmed = text::trim_matches_char(&lower, '-');
    if trimmed.len() == 0 {
        text::chars_of("reel")
    } else {
        trimmed
    }
}

pub fn slugify(value: &str) -> (r: String)
    ensures
        r@ == slug_of(value@),
{
    let v = text::chars_of(value);
    text::string_of(&slugify_chars(&v))
}

// ---------------------------------------------------------------------------
// Layout names
// ---------------------------------------------------------------------------

/// The layout key of a setting: lower-cased, runs of characters other than
/// `[a-z0-9]` turned into `_`, `_` stripped at both ends.
pub open spec fn layout_key(v: Seq<char>) -> Seq<char> {
    text::trim_char(
        patterns::replace_runs(text::unicode_lowercase(v), patterns::lower_alnum_pred(), '_'),
        '_',
    )
}

/// The layouts that name themselves.
pub open spec fn is_named_layout(k: Seq<char>) -> bool {
    ||| k == "two_column_split"@
    ||| k == "grid_layout"@
    ||| k == "masonry_layout"@
    ||| k == "hero_list"@
    ||| k == "alternating_rows"@
    ||| k == "sidebar_layout"@
    ||| k == "collage_layout"@
    ||| k == "auto_fit_tiles"@
    ||| k == "tabbed_layout"@
    ||| k == "magazine_layout"@
    ||| k == "template_rotation_layout"@
    ||| k == "priority_based_layout"@
    ||| k == "adaptive_smart_layout"@
    ||| k == "fallback_universal_layout"@
}

/// The canonical layout that a layout key selects; unknown keys select
/// `center_stack`.
pub open spec fn canonical_layout(k: Seq<char>) -> Seq<char> {
    if k == "question_answer"@ || k == "question"@ || k == "answer"@ {
        "question_answer"@
    } else if k == "advice"@ || k == "list"@ || k == "list_style"@ {
        "list_style"@
    } else if k == "reels"@ || k == "center"@ || k == "center_stack"@ {
        "center_stack"@
    } else if k == "left"@ || k == "left_stack"@ {
        "left_stack"@
    } else if k == "right"@ || k == "right_stack"@ {
        "right_stack"@
    } else if k == "top_bottom"@ {
        "top_bottom"@
    } else if k == "one_word"@ || k == "one_word_hook"@ {
        "one_word_hook"@
    } else if k == "quote"@ || k == "quote_style"@ {
        "quote_style"@
    } else if k == "story"@ || k == "story_block"@ {
        "story_block"@
    } else if k == "full_text"@ || k == "full_list"@ || k == "all_at_once"@ || k == "static_text"@ {
        "story_block"@
    } else if k == "progress"@ || k == "progress_reveal"@ {
        "progress_reveal"@
    } else if k == "card"@ || k == "center_card"@ {
        "center_card"@
    } else if is_named_layout(k) {
        k
    } else {
        "center_stack"@
    }
}

pub open spec fn normalized_layout(v: Seq<char>) -> Seq<char> {
    canonical_layout(layout_key(v))
}

fn is_named_layout_exec(k: &Vec<char>) -> (b: bool)
    ensures
        b == is_named_layout(k@),
{
    text::eq_str(k, "two_column_split") || text::eq_str(k, "grid_layout") || text::eq_str(
        k,
        "masonry_layout",
    ) || text::eq_str(k, "hero_list") || text::eq_str(k, "alternating_rows") || text::eq_str(
        k,
        "sidebar_layout",
    ) || text::eq_str(k, "collage_layout") || text::eq_str(k, "auto_fit_tiles") || text::eq_str(
        k,
        "tabbed_layout",
    ) || text::eq_str(k, "magazine_layout") || text::eq_str(k, "template_rotation_layout")
        || text::eq_str(k, "priority_based_layout") || text::eq_str(k, "adaptive_smart_layout")
        || text::eq_str(k, "fallback_universal_layout")
}

fn canonical_layout_exec(k: &Vec<char>) -> (r: Vec<char>)
    ensures
        r@ == canonical_layout(k@),
{
    let name = if text::eq_str(k, "question_answer") || text::eq_str(k, "question")
        || text::eq_str(k, "answer") {
        "question_answer"
    } else if text::eq_str(k, "advice") || text::eq_str(k, "list") || text::eq_str(k, "list_style") {
        "list_style"
    } else if text::eq_str(k, "reels") || text::eq_str(k, "center") || text::eq_str(
        k,
        "center_stack",
    ) {
        "center_stack"
    } else if text::eq_str(k, "left") || text::eq_str(k, "left_stack") {
        "left_stack"
    } else if text::eq_str(k, "right") || text::eq_str(k, "right_stack") {
        "right_stack"
    } else if text::eq_str(k, "top_bottom") {
        "top_bottom"
    } else if text::eq_str(k, "one_word") || text::eq_str(k, "one_word_hook") {
        "one_word_hook"
    } else if text::eq_str(k, "quote") || text::eq_str(k, "quote_style") {
        "quote_style"
    } else if text::eq_str(k, "story") || text::eq_str(k, "story_block") {
        "story_block"
    } else if text::eq_str(k, "full_text") || text::eq_str(k, "full_list") || text::eq_str(
        k,
        "all_at_once",
    ) || text::eq_str(k, "static_text") {
        "story_block"
    } else if text::eq_str(k, "progress") || text::eq_str(k, "progress_reveal") {
        "progress_reveal"
    } else if text::eq_str(k, "card") || text::eq_str(k, "center_card") {
        "center_card"
    } else if is_named_layout_exec(k) {
        return text::slice(k, 0, k.len());
    } else {
        "center_stack"
    };
    text::chars_of(name)
}

pub fn normalize_layout_chars(v: &Vec<char>) -> (r: Vec<char>)
    ensures
        r@ == normalized_layout(v@),
{
    let lower = text::lowercase(v);
    let joined = patterns::underscore_runs(&lower);
    let key = text::trim_matches_char(&joined, '_');
    canonical_layout_exec(&key)
}

/// The canonical name of a layout setting.
pub fn normalize_layout(value: &str) -> (r: String)
    ensures
        r@ == normalized_layout(value@),
{
    let v = text::chars_of(value);
    text::string_of(&normalize_layout_chars(&v))
}


// ---------------------------------------------------------------------------
// Scripts
// ---------------------------------------------------------------------------

/// One reel: a title, the points revealed one by one, the call to action,
/// and the settings of its header lines.
pub struct Script {
    pub title: String,
    pub points: Vec<String>,
    /// For each point, how many pause markers stood just before it.
    pub point_pause_counts_before: Vec<u32>,
    /// How many pause markers followed the last point.
    pub cta_pause_count_before: u32,
    pub cta: String,
    pub code: String,
    /// The requested length of the reel, in microseconds.
    pub duration_us: Option<u64>,
    pub layout: String,
    pub all_at_once: bool,
    pub video: Option<String>,
    pub audio: Option<String>,
}

/// The mathematical value of a script. While a block is being read, the
/// field `cta_pause_count_before` holds the pause markers seen since the last
/// point.
#[verifier::ext_equal]
pub struct ScriptView {
    pub title: Seq<char>,
    pub points: Seq<Seq<char>>,
    pub point_pause_counts_before: Seq<u32>,
    pub cta_pause_count_before: u32,
    pub cta: Seq<char>,
    pub code: Seq<char>,
    pub duration_us: Option<u64>,
    pub layout: Seq<char>,
    pub all_at_once: bool,
    pub video: Option<Seq<char>>,
    pub audio: Option<Seq<char>>,
}

pub open spec fn opt_string(o: Option<String>) -> Option<Seq<char>> {
    match o {
        Some(s) => Some(s@),
        None => None,
    }
}

pub open spec fn opt_chars(o: Option<Vec<char>>) -> Option<Seq<char>> {
    match o {
        Some(s) => Some(s@),
        None => None,
    }
}

impl View for Script {
    type V = ScriptView;

    open spec fn view(&self) -> ScriptView {
        ScriptView {
            title: self.title@,
            points: patterns::strings(self.points@),
            point_pause_counts_before: self.point_pause_counts_before@,
            cta_pause_count_before: self.cta_pause_count_before,
            cta: self.cta@,
            code: self.code@,
            duration_us: self.duration_us,
            layout: self.layout@,
            all_at_once: self.all_at_once,
            video: opt_string(self.video),
            audio: opt_string(self.audio),
        }
    }
}

/// Each point has its pause count.
pub open spec fn well_formed(s: ScriptView) -> bool {
    s.points.len() == s.point_pause_counts_before.len()
}

// ---------------------------------------------------------------------------
// Numbers in a duration setting
// ---------------------------------------------------------------------------

pub open spec fn all_digits(s: Seq<char>) -> bool {
    forall|i: int| 0 <= i < s.len() ==> text::is_ascii_digit(#[trigger] s[i])
}

/// The value of a run of ASCII digits.
pub open spec fn digits_value(s: Seq<char>) -> nat
    decreases s.len(),
{
    if s.len() == 0 {
        0
    } else {
        digits_value(s.drop_last()) * 10 + ((s.last() as u32) - 48) as nat
    }
}

/// An ASCII decimal literal `D+` or `D+.D+`: what `f32` parsing accepts of a
/// match of `\d+(?:\.\d+)?`.
pub open spec fn decimal_literal(m: Seq<char>) -> bool {
    match text::first_index_of(m, '.') {
        None => m.len() > 0 && all_digits(m),
        Some(p) => 0 < p && p + 1 < m.len() && all_digits(m.take(p)) && all_digits(m.skip(p + 1)),
    }
}

/// The first six fraction digits as millionths, missing digits as zeros.
pub open spec fn fraction_micros(f: Seq<char>) -> nat {
    if f.len() >= 6 {
        digits_value(f.take(6))
    } else {
        digits_value(f) * pow10((6 - f.len()) as nat)
    }
}

pub open spec fn saturate(n: nat) -> u64 {
    if n > u64::MAX {
        u64::MAX
    } else {
        n as u64
    }
}

/// A decimal literal of seconds in microseconds: digits after the sixth
/// fraction digit are dropped, and a value beyond `u64` saturates.
pub open spec fn literal_micros(m: Seq<char>) -> u64 {
    match text::first_index_of(m, '.') {
        None => saturate(digits_value(m) * 1000000),
        Some(p) => saturate(digits_value(m.take(p)) * 1000000 + fraction_micros(m.skip(p + 1))),
    }
}

pub(crate) fn all_digits_exec(v: &Vec<char>, lo: usize, hi: usize) -> (b: bool)
    requires
        lo <= hi <= v.len(),
    ensures
        b == all_digits(v@.subrange(lo as int, hi as int)),
{
    let mut i = lo;
    while i < hi
        invariant
            lo <= i <= hi <= v.len(),
            forall|j: int| lo <= j < i ==> text::is_ascii_digit(v@[j]),
        decreases hi - i,
    {
        let code: u32 = v[i] as u32;
        if !(48 <= code && code <= 57) {
            assert(v@.subrange(lo as int, hi as int)[i - lo] == v@[i as int]);
            return false;
        }
        i += 1;
    }
    assert forall|k: int| 0 <= k < hi - lo implies text::is_ascii_digit(
        #[trigger] v@.subrange(lo as int, hi as int)[k],
    ) by {
        assert(v@.subrange(lo as int, hi as int)[k] == v@[lo + k]);
    }
    true
}

pub open spec fn pow10(n: nat) -> nat
    decreases n,
{
    if n == 0 {
        1
    } else {
        10 * pow10((n - 1) as nat)
    }
}

proof fn lemma_digits_bound(s: Seq<char>)
    requires
        all_digits(s),
    ensures
        digits_value(s) < pow10(s.len()),
    decreases s.len(),
{
    if s.len() > 0 {
        assert(all_digits(s.drop_last())) by {
            assert forall|i: int| 0 <= i < s.len() - 1 implies text::is_ascii_digit(
                #[trigger] s.drop_last()[i],
            ) by {
                assert(s.drop_last()[i] == s[i]);
            }
        }
        lemma_digits_bound(s.drop_last());
        assert(text::is_ascii_digit(s[s.len() - 1]));
    }
}

proof fn lemma_saturate_scale(a: nat, k: nat, f: nat)
    requires
        k >= 1,
    ensures
        saturate((saturate(a) * k + f) as nat) == saturate(a * k + f),
{
    if a > u64::MAX {
        assert(saturate(a) * k >= u64::MAX) by (nonlinear_arith)
            requires
                saturate(a) == u64::MAX,
                k >= 1,
        ;
        assert(a * k >= a) by (nonlinear_arith)
            requires
                k >= 1,
        ;
    }
}

proof fn lemma_digits_push(s: Seq<char>, c: char)
    ensures
        digits_value(s.push(c)) == digits_value(s) * 10 + ((c as u32) - 48) as nat,
{
    assert(s.push(c).drop_last() =~= s);
}

/// The value of the digits `v[lo..hi]`, saturated at `u64::MAX`.
pub(crate) fn digits_value_exec(v: &Vec<char>, lo: usize, hi: usize) -> (r: u64)
    requires
        lo <= hi <= v.len(),
        all_digits(v@.subrange(lo as int, hi as int)),
    ensures
        r == saturate(digits_value(v@.subrange(lo as int, hi as int))),
{
    let mut r: u64 = 0;
    let mut i = lo;
    while i < hi
        invariant
            lo <= i <= hi <= v.len(),
            all_digits(v@.subrange(lo as int, hi as int)),
            r == saturate(digits_value(v@.subrange(lo as int, i as int))),
        decreases hi - i,
    {
        assert(v@.subrange(lo as int, hi as int)[i - lo] == v@[i as int]);
        let c = v[i];
        let code: u32 = c as u32;
        let d: u128 = (code - 48) as u128;
        proof {
            lemma_digits_push(v@.subrange(lo as int, i as int), c);
            assert(v@.subrange(lo as int, i as int).push(c) =~= v@.subrange(lo as int, i + 1));
        }
        proof {
            lemma_saturate_scale(digits_value(v@.subrange(lo as int, i as int)), 10, d as nat);
        }
        let next: u128 = (r as u128) * 10 + d;
        if next > u64::MAX as u128 {
            r = u64::MAX;
        } else {
            r = next as u64;
        }
        i += 1;
    }
    r
}

fn literal_micros_exec(m: &Vec<char>) -> (r: Option<u64>)
    ensures
        r == (if decimal_literal(m@) {
            Some(literal_micros(m@))
        } else {
            None::<u64>
        }),
{
    match text::find_char(m, '.') {
        None => {
            if m.len() > 0 && all_digits_exec(m, 0, m.len()) {
                assert(m@.subrange(0, m.len() as int) =~= m@);
                let w = digits_value_exec(m, 0, m.len());
                proof {
                    lemma_saturate_scale(digits_value(m@), 1000000, 0);
                }
                let us: u128 = (w as u128) * 1000000;
                Some(if us > u64::MAX as u128 { u64::MAX } else { us as u64 })
            } else {
                assert(m@.subrange(0, m.len() as int) =~= m@);
                None
            }
        },
        Some(p) => {
            assert(m@.take(p as int) =~= m@.subrange(0, p as int));
            assert(m@.skip(p + 1) =~= m@.subrange(p + 1, m.len() as int));
            if 0 < p && p + 1 < m.len() && all_digits_exec(m, 0, p) && all_digits_exec(
                m,
                p + 1,
                m.len(),
            ) {
                let w = digits_value_exec(m, 0, p);
                let flen = m.len() - (p + 1);
                let ghost fr = m@.skip(p + 1);
                let f: u64 = if flen >= 6 {
                    assert(fr.take(6) =~= m@.subrange(p + 1, p + 7));
                    assert(all_digits(m@.subrange(p + 1, p + 7))) by {
                        assert forall|i: int| 0 <= i < 6 implies text::is_ascii_digit(
                            #[trigger] m@.subrange(p + 1, p + 7)[i],
                        ) by {
                            assert(m@.subrange(p + 1, p + 7)[i] == fr[i]);
                        }
                    }
                    proof {
                        lemma_digits_bound(m@.subrange(p + 1, p + 7));
                        reveal_with_fuel(pow10, 7);
                    }
                    digits_value_exec(m, p + 1, p + 7)
                } else {
                    proof {
                        lemma_digits_bound(fr);
                        reveal_with_fuel(pow10, 7);
                        assert(1 <= flen <= 5);
                        if flen == 1 {
                            assert(pow10(1) == 10 && pow10(5) == 100000);
                            assert(pow10(flen as nat) * pow10((6 - flen) as nat) == 10 * 100000);
                        } else if flen == 2 {
                            assert(pow10(2) == 100 && pow10(4) == 10000);
                            assert(pow10(flen as nat) * pow10((6 - flen) as nat) == 100 * 10000);
                        } else if flen == 3 {
                            assert(pow10(3) == 1000);
                            assert(pow10(flen as nat) * pow10((6 - flen) as nat) == 1000 * 1000);
                        } else if flen == 4 {
                            assert(pow10(4) == 10000 && pow10(2) == 100);
                            assert(pow10(flen as nat) * pow10((6 - flen) as nat) == 10000 * 100);
                        } else {
                            assert(pow10(5) == 100000 && pow10(1) == 10);
                            assert(pow10(flen as nat) * pow10((6 - flen) as nat) == 100000 * 10);
                        }
                        assert(pow10(flen as nat) * pow10((6 - flen) as nat) == 1000000);
                        assert(digits_value(fr) * pow10((6 - flen) as nat) < 1000000) by (nonlinear_arith)
                            requires
                                digits_value(fr) < pow10(flen as nat),
                                pow10(flen as nat) * pow10((6 - flen) as nat) == 1000000,
                        ;
                    }
                    let scale: u64 = if flen == 5 {
                        10
                    } else if flen == 4 {
                        100
                    } else if flen == 3 {
                        1000
                    } else if flen == 2 {
                        10000
                    } else {
                        100000
                    };
                    assert(scale == pow10((6 - flen) as nat));
                    digits_value_exec(m, p + 1, m.len()) * scale
                };
                assert(f == fraction_micros(fr));
                proof {
                    lemma_saturate_scale(digits_value(m@.take(p as int)), 1000000, f as nat);
                }
                let us: u128 = (w as u128) * 1000000 + (f as u128);
                Some(if us > u64::MAX as u128 { u64::MAX } else { us as u64 })
            } else {
                None
            }
        },
    }
}


// ---------------------------------------------------------------------------
// Reading a block line by line
// ---------------------------------------------------------------------------

/// Before the first line: nothing read, layout `center_stack`.
pub open spec fn initial_state() -> ScriptView {
    ScriptView {
        title: seq![],
        points: seq![],
        point_pause_counts_before: seq![],
        cta_pause_count_before: 0,
        cta: seq![],
        code: seq![],
        duration_us: None,
        layout: "center_stack"@,
        all_at_once: false,
        video: None,
        audio: None,
    }
}

/// A pause marker: `(pause)` or `[pause]`, ASCII case ignored.
pub open spec fn is_pause_marker(t: Seq<char>) -> bool {
    text::eq_ignore_ascii_case_spec(t, "(pause)"@) || text::eq_ignore_ascii_case_spec(t, "[pause]"@)
}

/// One more pause, saturating at `u32::MAX`.
pub open spec fn bump(n: u32) -> u32 {
    if n < u32::MAX {
        (n + 1) as u32
    } else {
        n
    }
}

/// A line of content: without its list marker and trimmed, a pause marker
/// counts a pause, any other non-empty text becomes the next point and
/// carries the pauses counted before it.
pub open spec fn push_point(st: ScriptView, raw: Seq<char>) -> ScriptView {
    let cleaned = text::trim_ws(patterns::without_list_marker(raw));
    if is_pause_marker(cleaned) {
        ScriptView { cta_pause_count_before: bump(st.cta_pause_count_before), ..st }
    } else if cleaned.len() > 0 {
        ScriptView {
            points: st.points.push(cleaned),
            point_pause_counts_before: st.point_pause_counts_before.push(st.cta_pause_count_before),
            cta_pause_count_before: 0,
            ..st
        }
    } else {
        st
    }
}

/// The value of a `format:` / `layout:` line asks to show everything at once.
pub open spec fn asks_full_text(lower: Seq<char>) -> bool {
    text::has_infix(lower, "full"@) || text::has_infix(lower, "static"@) || text::has_infix(
        lower,
        "all at once"@,
    )
}

/// The value of a `text_animation:` line turns the animation off.
pub open spec fn asks_static(lower: Seq<char>) -> bool {
    text::has_infix(lower, "static"@) || text::has_infix(lower, "all at once"@) || text::has_infix(
        lower,
        "no pop"@,
    ) || text::has_infix(lower, "no popping"@) || text::has_infix(lower, "none"@)
}

/// A `key: value` line. Known keys set fields; numbered line keys add a
/// point; style keys are skipped; other keys that read like labels are
/// ignored, and anything else is content.
pub open spec fn apply_field(st: ScriptView, line: Seq<char>, key: Seq<char>, value: Seq<char>) -> ScriptView {
    if key == "title"@ || key == "question"@ {
        ScriptView { title: value, ..st }
    } else if key == "cta"@ || key == "caption"@ || key == "fb_caption"@ {
        ScriptView { cta: value, ..st }
    } else if key == "code"@ {
        ScriptView { code: value, ..st }
    } else if key == "video"@ || key == "vid"@ {
        if value.len() > 0 {
            ScriptView { video: Some(value), ..st }
        } else {
            st
        }
    } else if key == "audio"@ {
        if value.len() > 0 {
            ScriptView { audio: Some(value), ..st }
        } else {
            st
        }
    } else if key == "duration"@ {
        match patterns::first_number(value) {
            Some(m) => if decimal_literal(m) {
                ScriptView { duration_us: Some(literal_micros(m)), ..st }
            } else {
                st
            },
            None => st,
        }
    } else if key == "format"@ || key == "layout"@ {
        ScriptView {
            layout: normalized_layout(value),
            all_at_once: st.all_at_once || asks_full_text(text::unicode_lowercase(value)),
            ..st
        }
    } else if key == "text_animation"@ {
        let lower = text::unicode_lowercase(value);
        if asks_static(lower) {
            ScriptView { all_at_once: true, ..st }
        } else if text::has_infix(lower, "question"@) && text::has_infix(lower, "answer"@) {
            ScriptView { layout: "question_answer"@, ..st }
        } else if text::has_infix(lower, "fade"@) || text::has_infix(lower, "line"@) {
            ScriptView { layout: "list_style"@, ..st }
        } else {
            st
        }
    } else if patterns::numbered_line_key(key) {
        push_point(st, value)
    } else if key == "style"@ || key == "niche"@ || key == "sub_style"@ {
        st
    } else if !patterns::metadata_key(key) {
        push_point(st, line)
    } else {
        st
    }
}

/// A line without surrounding whitespace and leading byte-order marks.
pub open spec fn clean_line(raw: Seq<char>) -> Seq<char> {
    text::trim_ws(text::strip_start(text::trim_ws(raw), text::char_pred('\u{feff}')))
}

/// Reading one line of a block.
pub open spec fn read_line(st: ScriptView, raw: Seq<char>) -> ScriptView {
    let line = clean_line(raw);
    if line.len() == 0 {
        st
    } else {
        match text::first_index_of(line, ':') {
            None => push_point(st, line),
            Some(pos) => apply_field(
                st,
                line,
                text::unicode_lowercase(text::trim_ws(line.take(pos))),
                text::trim_ws(line.skip(pos + 1)),
            ),
        }
    }
}

pub open spec fn read_line_fn() -> spec_fn(ScriptView, Seq<char>) -> ScriptView {
    |st: ScriptView, raw: Seq<char>| read_line(st, raw)
}

/// After the last line: without a title the first point becomes the title,
/// and failing that the title is `Video <index + 1>`.
pub open spec fn finish(st: ScriptView, index: nat) -> ScriptView {
    let st2 = if st.title.len() == 0 && st.points.len() > 0 {
        ScriptView {
            title: st.points[0],
            points: st.points.drop_first(),
            point_pause_counts_before: st.point_pause_counts_before.drop_first(),
            ..st
        }
    } else {
        st
    };
    if st2.title.len() == 0 {
        ScriptView { title: "Video "@ + text::decimal(index + 1), ..st2 }
    } else {
        st2
    }
}

/// The script that a block of a script file describes.
pub open spec fn parsed_block(block: Seq<char>, index: nat) -> ScriptView {
    finish(text::text_lines(block).fold_left(initial_state(), read_line_fn()), index)
}

struct BlockState {
    title: Vec<char>,
    points: Vec<Vec<char>>,
    counts: Vec<u32>,
    pending: u32,
    cta: Vec<char>,
    code: Vec<char>,
    duration_us: Option<u64>,
    layout: Vec<char>,
    all_at_once: bool,
    video: Option<Vec<char>>,
    audio: Option<Vec<char>>,
}

impl BlockState {
    spec fn model(&self) -> ScriptView {
        ScriptView {
            title: self.title@,
            points: text::views(self.points@),
            point_pause_counts_before: self.counts@,
            cta_pause_count_before: self.pending,
            cta: self.cta@,
            code: self.code@,
            duration_us: self.duration_us,
            layout: self.layout@,
            all_at_once: self.all_at_once,
            video: opt_chars(self.video),
            audio: opt_chars(self.audio),
        }
    }
}

fn push_point_exec(st: &mut BlockState, raw: &Vec<char>)
    ensures
        final(st).model() == push_point(old(st).model(), raw@),
        old(st).points.len() == old(st).counts.len() ==> final(st).points.len() == final(st).counts.len(),
{
    let unmarked = patterns::strip_list_marker(raw);
    let cleaned = text::trim(&unmarked);
    if text::eq_ignore_ascii_case(&cleaned, "(pause)") || text::eq_ignore_ascii_case(
        &cleaned,
        "[pause]",
    ) {
        if st.pending < u32::MAX {
            st.pending = st.pending + 1;
        }
        return;
    }
    if cleaned.len() > 0 {
        let ghost before = text::views(st.points@);
        let ghost cl = cleaned@;
        st.points.push(cleaned);
        assert(text::views(st.points@) =~= before.push(cl));
        st.counts.push(st.pending);
        st.pending = 0;
    }
}

fn apply_field_exec(st: &mut BlockState, line: &Vec<char>, key: &Vec<char>, value: &Vec<char>)
    ensures
        final(st).model() == apply_field(old(st).model(), line@, key@, value@),
        old(st).points.len() == old(st).counts.len() ==> final(st).points.len() == final(st).counts.len(),
{
    if text::eq_str(key, "title") || text::eq_str(key, "question") {
        st.title = text::slice(value, 0, value.len());
    } else if text::eq_str(key, "cta") || text::eq_str(key, "caption") || text::eq_str(key, "fb_caption") {
        st.cta = text::slice(value, 0, value.len());
    } else if text::eq_str(key, "code") {
        st.code = text::slice(value, 0, value.len());
    } else if text::eq_str(key, "video") || text::eq_str(key, "vid") {
        if value.len() > 0 {
            st.video = Some(text::slice(value, 0, value.len()));
        }
    } else if text::eq_str(key, "audio") {
        if value.len() > 0 {
            st.audio = Some(text::slice(value, 0, value.len()));
        }
    } else if text::eq_str(key, "duration") {
        match patterns::first_number_of(value) {
            Some(m) => {
                match literal_micros_exec(&m) {
                    Some(us) => {
                        st.duration_us = Some(us);
                    },
                    None => {},
                }
            },
            None => {},
        }
    } else if text::eq_str(key, "format") || text::eq_str(key, "layout") {
        st.layout = normalize_layout_chars(value);
        let lower = text::lowercase(value);
        if text::contains_str(&lower, "full") || text::contains_str(&lower, "static")
            || text::contains_str(&lower, "all at once") {
            st.all_at_once = true;
        }
    } else if text::eq_str(key, "text_animation") {
        let lower = text::lowercase(value);
        if text::contains_str(&lower, "static") || text::contains_str(&lower, "all at once")
            || text::contains_str(&lower, "no pop") || text::contains_str(&lower, "no popping")
            || text::contains_str(&lower, "none") {
            st.all_at_once = true;
        } else if text::contains_str(&lower, "question") && text::contains_str(&lower, "answer") {
            st.layout = text::chars_of("question_answer");
        } else if text::contains_str(&lower, "fade") || text::contains_str(&lower, "line") {
            st.layout = text::chars_of("list_style");
        }
    } else if patterns::is_numbered_line_key(key) {
        push_point_exec(st, value);
    } else if text::eq_str(key, "style") || text::eq_str(key, "niche") || text::eq_str(key, "sub_style") {
    } else if !patterns::is_metadata_key(key) {
        push_point_exec(st, line);
    }
}

fn read_line_exec(st: &mut BlockState, raw: &Vec<char>)
    ensures
        final(st).model() == read_line(old(st).model(), raw@),
        old(st).points.len() == old(st).counts.len() ==> final(st).points.len() == final(st).counts.len(),
{
    let t1 = text::trim(raw);
    let t2 = text::trim_start_char(&t1, '\u{feff}');
    let line = text::trim(&t2);
    if line.len() == 0 {
        return;
    }
    match text::find_char(&line, ':') {
        None => push_point_exec(st, &line),
        Some(pos) => {
            let head = text::slice(&line, 0, pos);
            assert(head@ == line@.take(pos as int));
            let key = text::lowercase(&text::trim(&head));
            let tail = text::slice(&line, pos + 1, line.len());
            assert(tail@ == line@.skip(pos + 1));
            let value = text::trim(&tail);
            apply_field_exec(st, &line, &key, &value);
        },
    }
}


fn opt_string_of(o: &Option<Vec<char>>) -> (r: Option<String>)
    ensures
        opt_string(r) == opt_chars(*o),
{
    match o {
        Some(v) => Some(text::string_of(v)),
        None => None,
    }
}

pub fn strings_of(v: &Vec<Vec<char>>) -> (r: Vec<String>)
    ensures
        patterns::strings(r@) == text::views(v@),
{
    let mut r: Vec<String> = Vec::new();
    let mut i: usize = 0;
    while i < v.len()
        invariant
            i <= v.len(),
            patterns::strings(r@) == text::views(v@).take(i as int),
        decreases v.len() - i,
    {
        let s = text::string_of(&v[i]);
        let ghost before = patterns::strings(r@);
        r.push(s);
        assert(patterns::strings(r@) =~= before.push(v@[i as int]@));
        assert(text::views(v@).take(i as int).push(v@[i as int]@) =~= text::views(v@).take(i + 1));
        i += 1;
    }
    assert(text::views(v@).take(v.len() as int) =~= text::views(v@));
    r
}

fn remove_first(v: &mut Vec<Vec<char>>) -> (first: Vec<char>)
    requires
        old(v).len() > 0,
    ensures
        first@ == text::views(old(v)@)[0],
        text::views(final(v)@) == text::views(old(v)@).drop_first(),
        final(v).len() == old(v).len() - 1,
{
    let ghost before = text::views(v@);
    let first = v.remove(0);
    assert(text::views(v@) =~= before.drop_first());
    first
}

/// Reads one block of a script file; `index` is its position among the
/// non-empty blocks.
pub fn parse_script_block(block: &str, index: usize) -> (r: Script)
    ensures
        r@ == parsed_block(block@, index as nat),
        well_formed(r@),
{
    let chars = text::chars_of(block);
    let lines = text::lines(&chars);
    let mut st = BlockState {
        title: Vec::new(),
        points: Vec::new(),
        counts: Vec::new(),
        pending: 0,
        cta: Vec::new(),
        code: Vec::new(),
        duration_us: None,
        layout: text::chars_of("center_stack"),
        all_at_once: false,
        video: None,
        audio: None,
    };
    assert(st.model() =~= initial_state());
    let ghost all = text::views(lines@);
    let mut i: usize = 0;
    while i < lines.len()
        invariant
            i <= lines.len(),
            all == text::views(lines@),
            all == text::text_lines(block@),
            st.model() == all.take(i as int).fold_left(initial_state(), read_line_fn()),
            st.points.len() == st.counts.len(),
        decreases lines.len() - i,
    {
        read_line_exec(&mut st, &lines[i]);
        assert(all.take(i + 1).drop_last() =~= all.take(i as int));
        assert(all.take(i + 1).last() == lines@[i as int]@);
        i += 1;
    }
    assert(all.take(lines.len() as int) =~= all);
    let ghost read = st.model();
    if st.title.len() == 0 && st.points.len() > 0 {
        st.title = remove_first(&mut st.points);
        st.counts.remove(0);
    }
    if st.title.len() == 0 {
        let mut t = text::chars_of("Video ");
        text::push_decimal(&mut t, (index as u128) + 1);
        st.title = t;
    }
    assert(st.model() =~= finish(read, index as nat));
    Script {
        title: text::string_of(&st.title),
        points: strings_of(&st.points),
        point_pause_counts_before: st.counts,
        cta_pause_count_before: st.pending,
        cta: text::string_of(&st.cta),
        code: text::string_of(&st.code),
        duration_us: st.duration_us,
        layout: text::string_of(&st.layout),
        all_at_once: st.all_at_once,
        video: opt_string_of(&st.video),
        audio: opt_string_of(&st.audio),
    }
}


// ---------------------------------------------------------------------------
// Script files
// ---------------------------------------------------------------------------

/// The blocks of a file that hold text, trimmed.
pub open spec fn kept_blocks(bs: Seq<Seq<char>>) -> Seq<Seq<char>>
    decreases bs.len(),
{
    if bs.len() == 0 {
        seq![]
    } else {
        let rest = kept_blocks(bs.drop_last());
        let t = text::trim_ws(bs.last());
        if t.len() > 0 {
            rest.push(t)
        } else {
            rest
        }
    }
}

pub open spec fn script_views(s: Seq<Script>) -> Seq<ScriptView> {
    s.map_values(|x: Script| x@)
}

// ---------------------------------------------------------------------------
// Pipe rows
// ---------------------------------------------------------------------------

/// The layouts that pipe-row reels take in turn.
pub open spec fn rotation() -> Seq<Seq<char>> {
    seq![
        "question_answer"@,
        "left_stack"@,
        "right_stack"@,
        "list_style"@,
        "top_bottom"@,
        "one_word_hook"@,
        "quote_style"@,
        "story_block"@,
        "progress_reveal"@,
        "center_card"@,
        "center_stack"@,
    ]
}

/// The layout of the `k`-th pipe-row reel: the layouts one by one, starting
/// over after the last.
pub open spec fn rotation_layout(k: nat) -> Seq<char> {
    rotation()[(k % 11) as int]
}

fn rotation_layout_exec(k: usize) -> (r: Vec<char>)
    ensures
        r@ == rotation_layout(k as nat),
{
    let i = k % 11;
    let name = if i == 0 {
        "question_answer"
    } else if i == 1 {
        "left_stack"
    } else if i == 2 {
        "right_stack"
    } else if i == 3 {
        "list_style"
    } else if i == 4 {
        "top_bottom"
    } else if i == 5 {
        "one_word_hook"
    } else if i == 6 {
        "quote_style"
    } else if i == 7 {
        "story_block"
    } else if i == 8 {
        "progress_reveal"
    } else if i == 9 {
        "center_card"
    } else {
        "center_stack"
    };
    text::chars_of(name)
}

/// The non-empty lines of a block, cleaned.
pub open spec fn kept_lines(ls: Seq<Seq<char>>) -> Seq<Seq<char>>
    decreases ls.len(),
{
    if ls.len() == 0 {
        seq![]
    } else {
        let rest = kept_lines(ls.drop_last());
        let t = clean_line(ls.last());
        if t.len() > 0 {
            rest.push(t)
        } else {
            rest
        }
    }
}

pub open spec fn pipe_rows(block: Seq<char>) -> Seq<Seq<char>> {
    kept_lines(text::text_lines(block))
}

/// A block of pipe rows: every non-empty line holds a `|`.
pub open spec fn is_pipe_block(block: Seq<char>) -> bool {
    let rows = pipe_rows(block);
    rows.len() > 0 && forall|i: int| 0 <= i < rows.len() ==> (#[trigger] rows[i]).contains('|')
}

/// A middle field of a pipe row: `Duration: ...` sets the duration, other
/// text is content.
pub open spec fn read_pipe_field(st: ScriptView, field: Seq<char>) -> ScriptView {
    let t = text::trim_ws(field);
    if t.len() == 0 {
        st
    } else {
        match text::first_index_of(t, ':') {
            Some(pos) => if text::unicode_lowercase(text::trim_ws(t.take(pos))) == "duration"@ {
                apply_field(st, t, "duration"@, text::trim_ws(t.skip(pos + 1)))
            } else {
                push_point(st, t)
            },
            None => push_point(st, t),
        }
    }
}

pub open spec fn read_pipe_field_fn() -> spec_fn(ScriptView, Seq<char>) -> ScriptView {
    |st: ScriptView, f: Seq<char>| read_pipe_field(st, f)
}

/// The reel of a pipe row `niche|Title|Line 1|...|Duration: 14 seconds|code`:
/// the first field is a style label, the second the title, the last the
/// output code, and the fields between them the lines and the duration. The
/// reel takes layout `rotation` of the turn.
pub open spec fn parsed_pipe_row(row: Seq<char>, index: nat, turn: nat) -> ScriptView {
    let f = text::split_fields(row, '|');
    let start = ScriptView {
        title: if f.len() >= 2 {
            text::trim_ws(f[1])
        } else {
            seq![]
        },
        code: if f.len() >= 3 {
            text::trim_ws(f.last())
        } else {
            seq![]
        },
        layout: rotation_layout(turn),
        ..initial_state()
    };
    let middle = if f.len() >= 3 {
        f.subrange(2, f.len() - 1)
    } else {
        seq![]
    };
    finish(middle.fold_left(start, read_pipe_field_fn()), index)
}

fn keep_lines(ls: &Vec<Vec<char>>) -> (r: Vec<Vec<char>>)
    ensures
        text::views(r@) == kept_lines(text::views(ls@)),
{
    let ghost all = text::views(ls@);
    let mut r: Vec<Vec<char>> = Vec::new();
    let mut i: usize = 0;
    while i < ls.len()
        invariant
            i <= ls.len(),
            all == text::views(ls@),
            text::views(r@) == kept_lines(all.take(i as int)),
        decreases ls.len() - i,
    {
        let t1 = text::trim(&ls[i]);
        let t2 = text::trim_start_char(&t1, '\u{feff}');
        let t = text::trim(&t2);
        assert(all.take(i + 1).drop_last() =~= all.take(i as int));
        assert(all.take(i + 1).last() == ls@[i as int]@);
        if t.len() > 0 {
            let ghost before = text::views(r@);
            let ghost tv = t@;
            r.push(t);
            assert(text::views(r@) =~= before.push(tv));
        }
        i += 1;
    }
    assert(all.take(ls.len() as int) =~= all);
    r
}

fn has_bar(v: &Vec<char>) -> (b: bool)
    ensures
        b == v@.contains('|'),
{
    match text::find_char(v, '|') {
        Some(i) => {
            assert(v@[i as int] == '|');
            true
        },
        None => false,
    }
}

fn read_pipe_field_exec(st: &mut BlockState, field: &Vec<char>)
    ensures
        final(st).model() == read_pipe_field(old(st).model(), field@),
        old(st).points.len() == old(st).counts.len() ==> final(st).points.len() == final(st).counts.len(),
{
    let t = text::trim(field);
    if t.len() == 0 {
        return;
    }
    match text::find_char(&t, ':') {
        Some(pos) => {
            let head = text::slice(&t, 0, pos);
            assert(head@ == t@.take(pos as int));
            let key = text::lowercase(&text::trim(&head));
            if text::eq_str(&key, "duration") {
                let tail = text::slice(&t, pos + 1, t.len());
                assert(tail@ == t@.skip(pos + 1));
                let value = text::trim(&tail);
                let dkey = text::chars_of("duration");
                apply_field_exec(st, &t, &dkey, &value);
            } else {
                push_point_exec(st, &t);
            }
        },
        None => push_point_exec(st, &t),
    }
}

fn script_of_state(st: BlockState) -> (r: Script)
    ensures
        r@ == st.model(),
{
    Script {
        title: text::string_of(&st.title),
        points: strings_of(&st.points),
        point_pause_counts_before: st.counts,
        cta_pause_count_before: st.pending,
        cta: text::string_of(&st.cta),
        code: text::string_of(&st.code),
        duration_us: st.duration_us,
        layout: text::string_of(&st.layout),
        all_at_once: st.all_at_once,
        video: opt_string_of(&st.video),
        audio: opt_string_of(&st.audio),
    }
}

fn finish_exec(st: &mut BlockState, index: usize)
    requires
        old(st).points.len() == old(st).counts.len(),
    ensures
        final(st).model() == finish(old(st).model(), index as nat),
        final(st).points.len() == final(st).counts.len(),
{
    let ghost read = st.model();
    if st.title.len() == 0 && st.points.len() > 0 {
        st.title = remove_first(&mut st.points);
        st.counts.remove(0);
    }
    if st.title.len() == 0 {
        let mut t = text::chars_of("Video ");
        text::push_decimal(&mut t, (index as u128) + 1);
        st.title = t;
    }
    assert(st.model() =~= finish(read, index as nat));
}

/// Reads one pipe row; `index` is its position among the file's reels and
/// `turn` its position among the file's pipe rows.
pub fn parse_pipe_row(row: &str, index: usize, turn: usize) -> (r: Script)
    ensures
        r@ == parsed_pipe_row(row@, index as nat, turn as nat),
        well_formed(r@),
{
    let v = text::chars_of(row);
    let f = text::split_on(&v, '|');
    let ghost fv = text::views(f@);
    let title = if f.len() >= 2 {
        text::trim(&f[1])
    } else {
        Vec::new()
    };
    let code = if f.len() >= 3 {
        text::trim(&f[f.len() - 1])
    } else {
        Vec::new()
    };
    let mut st = BlockState {
        title,
        points: Vec::new(),
        counts: Vec::new(),
        pending: 0,
        cta: Vec::new(),
        code,
        duration_us: None,
        layout: rotation_layout_exec(turn),
        all_at_once: false,
        video: None,
        audio: None,
    };
    let ghost start = st.model();
    let ghost middle = if fv.len() >= 3 {
        fv.subrange(2, fv.len() - 1)
    } else {
        Seq::<Seq<char>>::empty()
    };
    assert(start == ScriptView {
        title: if fv.len() >= 2 { text::trim_ws(fv[1]) } else { seq![] },
        code: if fv.len() >= 3 { text::trim_ws(fv.last()) } else { seq![] },
        layout: rotation_layout(turn as nat),
        ..initial_state()
    });
    if f.len() >= 3 {
        let end = f.len() - 1;
        let mut i: usize = 2;
        while i < end
            invariant
                2 <= i <= end,
                end == f.len() - 1,
                fv == text::views(f@),
                middle == fv.subrange(2, fv.len() - 1),
                st.model() == middle.take(i - 2).fold_left(start, read_pipe_field_fn()),
                st.points.len() == st.counts.len(),
            decreases end - i,
        {
            read_pipe_field_exec(&mut st, &f[i]);
            assert(middle.take(i - 1).drop_last() =~= middle.take(i - 2));
            assert(middle.take(i - 1).last() == f@[i as int]@);
            i += 1;
        }
        assert(middle.take(end - 2) =~= middle);
    } else {
        assert(middle.fold_left(start, read_pipe_field_fn()) == start);
    }
    finish_exec(&mut st, index);
    script_of_state(st)
}

// ---------------------------------------------------------------------------
// Script files
// ---------------------------------------------------------------------------

/// The reels of the kept blocks of a file, with the number of pipe rows
/// among them: a block of pipe rows gives one reel per row, any other block
/// one reel.
pub open spec fn scripts_of(bs: Seq<Seq<char>>) -> (Seq<ScriptView>, nat)
    decreases bs.len(),
{
    if bs.len() == 0 {
        (seq![], 0)
    } else {
        let prev = scripts_of(bs.drop_last());
        let b = bs.last();
        if is_pipe_block(b) {
            let rows = pipe_rows(b);
            (
                prev.0 + rows.map(
                    |j: int, row: Seq<char>|
                        parsed_pipe_row(row, (prev.0.len() + j) as nat, (prev.1 + j) as nat),
                ),
                prev.1 + rows.len(),
            )
        } else {
            (prev.0.push(parsed_block(b, prev.0.len())), prev.1)
        }
    }
}

/// The reels of a script file: the blocks between separator lines that hold
/// text, read in order; reels are numbered from zero across the file.
pub open spec fn parsed_scripts(content: Seq<char>) -> Seq<ScriptView> {
    scripts_of(kept_blocks(patterns::script_blocks(content))).0
}

proof fn lemma_scripts_count(bs: Seq<Seq<char>>)
    ensures
        scripts_of(bs).1 <= scripts_of(bs).0.len(),
    decreases bs.len(),
{
    if bs.len() > 0 {
        lemma_scripts_count(bs.drop_last());
    }
}

/// Reads every reel of a script file's content.
pub fn parse_scripts(content: &str) -> (r: Vec<Script>)
    ensures
        script_views(r@) == parsed_scripts(content@),
        forall|i: int| 0 <= i < r.len() ==> well_formed(#[trigger] r@[i]@),
{
    let blocks = patterns::split_script_blocks(content);
    let ghost bs = patterns::strings(blocks@);
    let mut kept: Vec<Vec<char>> = Vec::new();
    let mut i: usize = 0;
    while i < blocks.len()
        invariant
            i <= blocks.len(),
            bs == patterns::strings(blocks@),
            text::views(kept@) == kept_blocks(bs.take(i as int)),
        decreases blocks.len() - i,
    {
        let b = text::chars_of(blocks[i].as_str());
        let t = text::trim(&b);
        assert(bs.take(i + 1).drop_last() =~= bs.take(i as int));
        assert(bs.take(i + 1).last() == blocks@[i as int]@);
        if t.len() > 0 {
            let ghost before = text::views(kept@);
            let ghost tv = t@;
            kept.push(t);
            assert(text::views(kept@) =~= before.push(tv));
        }
        i += 1;
    }
    assert(bs.take(blocks.len() as int) =~= bs);
    let ghost ks = text::views(kept@);
    let mut r: Vec<Script> = Vec::new();
    let mut turn: usize = 0;
    let mut j: usize = 0;
    while j < kept.len()
        invariant
            j <= kept.len(),
            ks == text::views(kept@),
            ks == kept_blocks(patterns::script_blocks(content@)),
            (script_views(r@), turn as nat) == scripts_of(ks.take(j as int)),
            turn <= r.len(),
            forall|k: int| 0 <= k < r.len() ==> well_formed(#[trigger] r@[k]@),
        decreases kept.len() - j,
    {
        assert(ks.take(j + 1).drop_last() =~= ks.take(j as int));
        assert(ks.take(j + 1).last() == kept@[j as int]@);
        let ghost prev = scripts_of(ks.take(j as int));
        let lines = text::lines(&kept[j]);
        let rows = keep_lines(&lines);
        let mut all_bars = rows.len() > 0;
        let mut k: usize = 0;
        while k < rows.len()
            invariant
                k <= rows.len(),
                all_bars == (rows.len() > 0 && forall|m: int| 0 <= m < k ==> rows@[m]@.contains('|')),
            decreases rows.len() - k,
        {
            if !has_bar(&rows[k]) {
                all_bars = false;
            }
            k += 1;
        }
        let ghost rv = text::views(rows@);
        assert(rv == pipe_rows(ks[j as int]));
        assert(all_bars == is_pipe_block(ks[j as int])) by {
            if all_bars {
                assert forall|m: int| 0 <= m < rv.len() implies (#[trigger] rv[m]).contains('|') by {
                    assert(rv[m] == rows@[m]@);
                }
            }
            if is_pipe_block(ks[j as int]) {
                assert forall|m: int| 0 <= m < rows.len() implies rows@[m]@.contains('|') by {
                    assert(rv[m] == rows@[m]@);
                }
            }
        }
        if all_bars {
            let ghost base = script_views(r@);
            let ghost turn0 = turn as nat;
            let mut m: usize = 0;
            while m < rows.len()
                invariant
                    m <= rows.len(),
                    rv == text::views(rows@),
                    base.len() + m == r.len(),
                    turn as nat == turn0 + m,
                    turn <= r.len(),
                    script_views(r@) == base + rv.take(m as int).map(
                        |q: int, row: Seq<char>| parsed_pipe_row(row, (base.len() + q) as nat, (turn0 + q) as nat),
                    ),
                    forall|q: int| 0 <= q < r.len() ==> well_formed(#[trigger] r@[q]@),
                decreases rows.len() - m,
            {
                let row = text::string_of(&rows[m]);
                let sc = parse_pipe_row(row.as_str(), r.len(), turn);
                let ghost before = script_views(r@);
                r.push(sc);
                assert(script_views(r@) =~= before.push(sc@));
                assert(rv.take(m + 1).map(
                    |q: int, row: Seq<char>| parsed_pipe_row(row, (base.len() + q) as nat, (turn0 + q) as nat),
                ) =~= rv.take(m as int).map(
                    |q: int, row: Seq<char>| parsed_pipe_row(row, (base.len() + q) as nat, (turn0 + q) as nat),
                ).push(parsed_pipe_row(rv[m as int], (base.len() + m) as nat, (turn0 + m) as nat)));
                assert(turn < r.len());
                turn = turn + 1;
                m += 1;
            }
            assert(rv.take(rows.len() as int) =~= rv);
        } else {
            let block = text::string_of(&kept[j]);
            let sc = parse_script_block(block.as_str(), r.len());
            let ghost before = script_views(r@);
            r.push(sc);
            assert(script_views(r@) =~= before.push(sc@));
        }
        j += 1;
    }
    assert(ks.take(kept.len() as int) =~= ks);
    r
}

// ---------------------------------------------------------------------------
// Comparing a title with the first point
// ---------------------------------------------------------------------------

/// Letters and digits kept (ASCII ones lower-cased), anything else a space.
pub open spec fn key_char(c: char) -> char {
    if text::unicode_alphanumeric(c) {
        text::ascii_lower(c)
    } else {
        ' '
    }
}

pub open spec fn word_piece(cur: Seq<char>) -> Seq<Seq<char>> {
    if cur.len() > 0 {
        seq![cur]
    } else {
        seq![]
    }
}

/// The words of `s[i..]` when the word being read so far is `cur`.
pub open spec fn words_from(s: Seq<char>, cur: Seq<char>, i: int) -> Seq<Seq<char>>
    decreases s.len() - i,
{
    if i < 0 || i >= s.len() {
        word_piece(cur)
    } else if text::unicode_white_space(s[i]) {
        word_piece(cur) + words_from(s, seq![], i + 1)
    } else {
        words_from(s, cur.push(s[i]), i + 1)
    }
}

/// `str::split_whitespace`: the maximal runs of non-whitespace characters.
pub open spec fn split_words(s: Seq<char>) -> Seq<Seq<char>> {
    words_from(s, seq![], 0)
}

/// Words joined by single spaces.
pub open spec fn join_words(ws: Seq<Seq<char>>) -> Seq<char>
    decreases ws.len(),
{
    if ws.len() == 0 {
        seq![]
    } else if ws.len() == 1 {
        ws[0]
    } else {
        join_words(ws.drop_last()) + seq![' '] + ws.last()
    }
}

/// The loose comparison key of a text: its letters and digits, ASCII lower
/// case, words separated by single spaces.
pub open spec fn loose_key(v: Seq<char>) -> Seq<char> {
    join_words(split_words(v.map_values(|c: char| key_char(c))))
}

fn push_word(words: &mut Vec<Vec<char>>, cur: Vec<char>)
    ensures
        text::views(final(words)@) == text::views(old(words)@) + word_piece(cur@),
{
    if cur.len() > 0 {
        let ghost before = text::views(words@);
        let ghost cv = cur@;
        words.push(cur);
        assert(text::views(words@) =~= before + word_piece(cv));
    } else {
        assert(text::views(words@) =~= text::views(words@) + word_piece(cur@));
    }
}

pub fn split_words_exec(s: &Vec<char>) -> (r: Vec<Vec<char>>)
    ensures
        text::views(r@) == split_words(s@),
{
    let mut words: Vec<Vec<char>> = Vec::new();
    let mut cur: Vec<char> = Vec::new();
    let mut i: usize = 0;
    while i < s.len()
        invariant
            i <= s.len(),
            text::views(words@) + words_from(s@, cur@, i as int) == split_words(s@),
        decreases s.len() - i,
    {
        if text::is_whitespace(s[i]) {
            let ghost w0 = text::views(words@);
            let ghost c0 = cur@;
            push_word(&mut words, cur);
            cur = Vec::new();
            assert(w0 + words_from(s@, c0, i as int) =~= text::views(words@) + words_from(s@, cur@, i + 1));
        } else {
            cur.push(s[i]);
        }
        i += 1;
    }
    let ghost w0 = text::views(words@);
    push_word(&mut words, cur);
    assert(text::views(words@) =~= w0 + words_from(s@, cur@, i as int)) by {
        assert(cur@ =~= cur@);
    }
    words
}

pub fn join_words_exec(ws: &Vec<Vec<char>>) -> (r: Vec<char>)
    ensures
        r@ == join_words(text::views(ws@)),
{
    let mut r: Vec<char> = Vec::new();
    let ghost all = text::views(ws@);
    let mut i: usize = 0;
    while i < ws.len()
        invariant
            i <= ws.len(),
            all == text::views(ws@),
            r@ == join_words(all.take(i as int)),
        decreases ws.len() - i,
    {
        assert(all.take(i + 1).drop_last() =~= all.take(i as int));
        if i > 0 {
            r.push(' ');
        } else {
            assert(all.take(1) =~= seq![ws@[0]@]);
            assert(r@ + ws@[0]@ =~= ws@[0]@);
        }
        let ghost r0 = r@;
        text::extend(&mut r, &ws[i]);
        i += 1;
    }
    assert(all.take(ws.len() as int) =~= all);
    r
}

fn loose_key_chars(v: &Vec<char>) -> (r: Vec<char>)
    ensures
        r@ == loose_key(v@),
{
    let mut mapped: Vec<char> = Vec::new();
    let mut i: usize = 0;
    while i < v.len()
        invariant
            i <= v.len(),
            mapped@ == v@.take(i as int).map_values(|c: char| key_char(c)),
        decreases v.len() - i,
    {
        let c = v[i];
        let k = if text::is_alphanumeric(c) {
            text::ascii_lower_char(c)
        } else {
            ' '
        };
        mapped.push(k);
        assert(v@.take(i + 1).map_values(|c: char| key_char(c)) =~= v@.take(i as int).map_values(
            |c: char| key_char(c),
        ).push(key_char(c)));
        i += 1;
    }
    assert(v@.take(v.len() as int) =~= v@);
    let words = split_words_exec(&mapped);
    join_words_exec(&words)
}

/// The loose comparison key of a text.
pub fn loose_text_key(value: &str) -> (r: String)
    ensures
        r@ == loose_key(value@),
{
    let v = text::chars_of(value);
    text::string_of(&loose_key_chars(&v))
}

fn copy_strings(v: &Vec<String>) -> (r: Vec<String>)
    ensures
        patterns::strings(r@) == patterns::strings(v@),
{
    let mut r: Vec<String> = Vec::new();
    let mut i: usize = 0;
    while i < v.len()
        invariant
            i <= v.len(),
            patterns::strings(r@) == patterns::strings(v@).take(i as int),
        decreases v.len() - i,
    {
        let ghost before = patterns::strings(r@);
        r.push(v[i].clone());
        assert(patterns::strings(r@) =~= before.push(v@[i as int]@));
        assert(patterns::strings(v@).take(i as int).push(v@[i as int]@) =~= patterns::strings(v@).take(i + 1));
        i += 1;
    }
    assert(patterns::strings(v@).take(v.len() as int) =~= patterns::strings(v@));
    r
}

fn copy_counts(v: &Vec<u32>) -> (r: Vec<u32>)
    ensures
        r@ == v@,
{
    let mut r: Vec<u32> = Vec::new();
    let mut i: usize = 0;
    while i < v.len()
        invariant
            i <= v.len(),
            r@ == v@.take(i as int),
        decreases v.len() - i,
    {
        r.push(v[i]);
        assert(v@.take(i as int).push(v@[i as int]) =~= v@.take(i + 1));
        i += 1;
    }
    assert(v@.take(v.len() as int) =~= v@);
    r
}

fn copy_opt(o: &Option<String>) -> (r: Option<String>)
    ensures
        opt_string(r) == opt_string(*o),
{
    match o {
        Some(s) => Some(s.clone()),
        None => None,
    }
}

fn copy_script(s: &Script) -> (r: Script)
    ensures
        r@ == s@,
{
    Script {
        title: s.title.clone(),
        points: copy_strings(&s.points),
        point_pause_counts_before: copy_counts(&s.point_pause_counts_before),
        cta_pause_count_before: s.cta_pause_count_before,
        cta: s.cta.clone(),
        code: s.code.clone(),
        duration_us: s.duration_us,
        layout: s.layout.clone(),
        all_at_once: s.all_at_once,
        video: copy_opt(&s.video),
        audio: copy_opt(&s.audio),
    }
}

/// A script whose first point repeats its title (compared loosely) loses
/// that point and its pause count.
pub open spec fn collapsed(s: ScriptView) -> ScriptView {
    if s.points.len() > 0 && loose_key(s.title) == loose_key(s.points[0]) {
        ScriptView {
            points: s.points.drop_first(),
            point_pause_counts_before: if s.point_pause_counts_before.len() > 0 {
                s.point_pause_counts_before.drop_first()
            } else {
                s.point_pause_counts_before
            },
            ..s
        }
    } else {
        s
    }
}

pub fn collapse_duplicate_title_point(script: &Script) -> (r: Script)
    ensures
        r@ == collapsed(script@),
{
    if script.points.len() == 0 {
        return copy_script(script);
    }
    let t = text::chars_of(script.title.as_str());
    let p = text::chars_of(script.points[0].as_str());
    let kt = loose_key_chars(&t);
    let kp = loose_key_chars(&p);
    if !text::eq_chars(&kt, &kp) {
        return copy_script(script);
    }
    let mut normalized = copy_script(script);
    let ghost before = patterns::strings(normalized.points@);
    normalized.points.remove(0);
    assert(patterns::strings(normalized.points@) =~= before.drop_first());
    if normalized.point_pause_counts_before.len() > 0 {
        normalized.point_pause_counts_before.remove(0);
    }
    assert(normalized@ =~= collapsed(script@));
    normalized
}

} // verus!
