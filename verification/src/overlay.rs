//! The text overlays of a reel: where each layer's text goes, what it says,
//! and how its file is named. Fonts and pixels stay with the caller.
use vstd::prelude::*;
use crate::text;
use crate::patterns;
use crate::parser::{Script, slugify_chars, normalize_layout_chars};
use crate::parser;

verus! {

/// Width of the overlay canvas, in pixels.
pub const WIDTH: u32 = 1080;

/// Height of the overlay canvas, in pixels.
pub const HEIGHT: u32 = 1920;

/// Where and how one kind of text is drawn. Positions and sizes are whole
/// pixels.
pub struct LayoutParam {
    pub x: u32,
    pub y: u32,
    pub width: u32,
    pub align: String,
    pub font_size: u32,
}

/// The placement of the title, of the first point (later points move down by
/// `point_offset_y` each) and of the call to action, and the marker written
/// before each point.
pub struct LayoutSpec {
    pub title: LayoutParam,
    pub point: LayoutParam,
    pub point_offset_y: u32,
    pub cta: LayoutParam,
    pub marker: String,
}

pub struct ParamView {
    pub x: u32,
    pub y: u32,
    pub width: u32,
    pub align: Seq<char>,
    pub font_size: u32,
}

pub struct SpecView {
    pub title: ParamView,
    pub point: ParamView,
    pub point_offset_y: u32,
    pub cta: ParamView,
    pub marker: Seq<char>,
}

impl View for LayoutParam {
    type V = ParamView;

    open spec fn view(&self) -> ParamView {
        ParamView {
            x: self.x,
            y: self.y,
            width: self.width,
            align: self.align@,
            font_size: self.font_size,
        }
    }
}

impl View for LayoutSpec {
    type V = SpecView;

    open spec fn view(&self) -> SpecView {
        SpecView {
            title: self.title@,
            point: self.point@,
            point_offset_y: self.point_offset_y,
            cta: self.cta@,
            marker: self.marker@,
        }
    }
}

pub open spec fn pv(x: u32, y: u32, width: u32, align: Seq<char>, font_size: u32) -> ParamView {
    ParamView { x, y, width, align, font_size }
}

/// The layout table: each canonical layout's placements; any other name gets
/// the `center_stack` placements.
pub open spec fn layout_table(layout: Seq<char>) -> SpecView {
    if layout == "question_answer"@ {
        SpecView {
            title: pv(105, 500, 870, "center"@, 76),
            point: pv(145, 825, 790, "center"@, 52),
            point_offset_y: 118,
            cta: pv(110, 1515, 860, "center"@, 33),
            marker: ""@,
        }
    } else if layout == "left_stack"@ {
        SpecView {
            title: pv(92, 350, 820, "left"@, 72),
            point: pv(105, 710, 850, "left"@, 48),
            point_offset_y: 118,
            cta: pv(105, 1510, 850, "left"@, 33),
            marker: "- "@,
        }
    } else if layout == "right_stack"@ {
        SpecView {
            title: pv(155, 680, 820, "right"@, 70),
            point: pv(155, 930, 820, "right"@, 46),
            point_offset_y: 108,
            cta: pv(155, 1510, 820, "right"@, 33),
            marker: ""@,
        }
    } else if layout == "list_style"@ {
        SpecView {
            title: pv(90, 340, 900, "left"@, 70),
            point: pv(110, 690, 850, "left"@, 48),
            point_offset_y: 116,
            cta: pv(105, 1510, 850, "left"@, 33),
            marker: "- "@,
        }
    } else if layout == "top_bottom"@ {
        SpecView {
            title: pv(90, 250, 900, "left"@, 68),
            point: pv(90, 1180, 900, "left"@, 54),
            point_offset_y: 94,
            cta: pv(90, 1510, 900, "left"@, 33),
            marker: ""@,
        }
    } else if layout == "one_word_hook"@ {
        SpecView {
            title: pv(80, 420, 920, "center"@, 118),
            point: pv(145, 760, 790, "left"@, 48),
            point_offset_y: 112,
            cta: pv(110, 1510, 860, "center"@, 33),
            marker: "- "@,
        }
    } else if layout == "quote_style"@ {
        SpecView {
            title: pv(90, 660, 900, "center"@, 78),
            point: pv(125, 1080, 830, "center"@, 42),
            point_offset_y: 90,
            cta: pv(110, 1450, 860, "center"@, 33),
            marker: ""@,
        }
    } else if layout == "story_block"@ {
        SpecView {
            title: pv(90, 270, 900, "left"@, 68),
            point: pv(100, 560, 880, "left"@, 43),
            point_offset_y: 150,
            cta: pv(100, 1510, 880, "left"@, 33),
            marker: ""@,
        }
    } else if layout == "progress_reveal"@ {
        SpecView {
            title: pv(90, 420, 900, "left"@, 54),
            point: pv(90, 770, 900, "center"@, 92),
            point_offset_y: 0,
            cta: pv(110, 1510, 860, "center"@, 33),
            marker: ""@,
        }
    } else if layout == "center_card"@ {
        SpecView {
            title: pv(100, 480, 880, "center"@, 70),
            point: pv(155, 830, 770, "center"@, 50),
            point_offset_y: 112,
            cta: pv(110, 1510, 860, "center"@, 33),
            marker: ""@,
        }
    } else {
        SpecView {
            title: pv(90, 520, 900, "center"@, 84),
            point: pv(150, 790, 780, "center"@, 50),
            point_offset_y: 112,
            cta: pv(110, 1510, 860, "center"@, 33),
            marker: ""@,
        }
    }
}

fn param(x: u32, y: u32, width: u32, align: &str, font_size: u32) -> (p: LayoutParam)
    ensures
        p@ == pv(x, y, width, align@, font_size),
{
    LayoutParam { x, y, width, align: align.to_owned(), font_size }
}

fn spec_of(
    title: LayoutParam,
    point: LayoutParam,
    point_offset_y: u32,
    cta: LayoutParam,
    marker: &str,
) -> (s: LayoutSpec)
    ensures
        s@ == (SpecView { title: title@, point: point@, point_offset_y, cta: cta@, marker: marker@ }),
{
    LayoutSpec { title, point, point_offset_y, cta, marker: marker.to_owned() }
}

/// The placements of a layout.
pub fn get_layout_spec(layout: &str) -> (s: LayoutSpec)
    ensures
        s@ == layout_table(layout@),
{
    let k = text::chars_of(layout);
    if text::eq_str(&k, "question_answer") {
        spec_of(
            param(105, 500, 870, "center", 76),
            param(145, 825, 790, "center", 52),
            118,
            param(110, 1515, 860, "center", 33),
            "",
        )
    } else if text::eq_str(&k, "left_stack") {
        spec_of(
            param(92, 350, 820, "left", 72),
            param(105, 710, 850, "left", 48),
            118,
            param(105, 1510, 850, "left", 33),
            "- ",
        )
    } else if text::eq_str(&k, "right_stack") {
        spec_of(
            param(155, 680, 820, "right", 70),
            param(155, 930, 820, "right", 46),
            108,
            param(155, 1510, 820, "right", 33),
            "",
        )
    } else if text::eq_str(&k, "list_style") {
        spec_of(
            param(90, 340, 900, "left", 70),
            param(110, 690, 850, "left", 48),
            116,
            param(105, 1510, 850, "left", 33),
            "- ",
        )
    } else if text::eq_str(&k, "top_bottom") {
        spec_of(
            param(90, 250, 900, "left", 68),
            param(90, 1180, 900, "left", 54),
            94,
            param(90, 1510, 900, "left", 33),
            "",
        )
    } else if text::eq_str(&k, "one_word_hook") {
        spec_of(
            param(80, 420, 920, "center", 118),
            param(145, 760, 790, "left", 48),
            112,
            param(110, 1510, 860, "center", 33),
            "- ",
        )
    } else if text::eq_str(&k, "quote_style") {
        spec_of(
            param(90, 660, 900, "center", 78),
            param(125, 1080, 830, "center", 42),
            90,
            param(110, 1450, 860, "center", 33),
            "",
        )
    } else if text::eq_str(&k, "story_block") {
        spec_of(
            param(90, 270, 900, "left", 68),
            param(100, 560, 880, "left", 43),
            150,
            param(100, 1510, 880, "left", 33),
            "",
        )
    } else if text::eq_str(&k, "progress_reveal") {
        spec_of(
            param(90, 420, 900, "left", 54),
            param(90, 770, 900, "center", 92),
            0,
            param(110, 1510, 860, "center", 33),
            "",
        )
    } else if text::eq_str(&k, "center_card") {
        spec_of(
            param(100, 480, 880, "center", 70),
            param(155, 830, 770, "center", 50),
            112,
            param(110, 1510, 860, "center", 33),
            "",
        )
    } else {
        spec_of(
            param(90, 520, 900, "center", 84),
            param(150, 790, 780, "center", 50),
            112,
            param(110, 1510, 860, "center", 33),
            "",
        )
    }
}

/// The hook of a title: its first word of three or more characters that
/// starts with an ASCII letter, upper-cased, with `?`; without such a word,
/// the whole title upper-cased.
pub open spec fn hook_word(v: Seq<char>) -> Seq<char> {
    match patterns::first_hook(v) {
        Some(m) => text::unicode_uppercase(m).push('?'),
        None => text::unicode_uppercase(v),
    }
}

pub fn first_hook_word_chars(v: &Vec<char>) -> (r: Vec<char>)
    ensures
        r@ == hook_word(v@),
{
    match patterns::first_hook_of(v) {
        Some(m) => {
            let mut u = text::uppercase(&m);
            u.push('?');
            u
        },
        None => text::uppercase(v),
    }
}

pub fn first_hook_word(value: &str) -> (r: String)
    ensures
        r@ == hook_word(value@),
{
    let v = text::chars_of(value);
    text::string_of(&first_hook_word_chars(&v))
}


// ---------------------------------------------------------------------------
// What each layer shows
// ---------------------------------------------------------------------------

/// The text of one overlay layer and where it is drawn. `alpha` is the
/// opacity of the text, `shadow_alpha` that of its black drop shadow.
pub struct OverlayText {
    pub text: String,
    pub x: u32,
    pub y: u64,
    pub width: u32,
    pub align: String,
    pub font_size: u32,
    pub alpha: u8,
    pub shadow_alpha: u8,
}

pub struct OverlayView {
    pub text: Seq<char>,
    pub x: u32,
    pub y: u64,
    pub width: u32,
    pub align: Seq<char>,
    pub font_size: u32,
    pub alpha: u8,
    pub shadow_alpha: u8,
}

impl View for OverlayText {
    type V = OverlayView;

    open spec fn view(&self) -> OverlayView {
        OverlayView {
            text: self.text@,
            x: self.x,
            y: self.y,
            width: self.width,
            align: self.align@,
            font_size: self.font_size,
            alpha: self.alpha,
            shadow_alpha: self.shadow_alpha,
        }
    }
}

/// The title as drawn: the hook word in the one-word layout, wrapped in
/// quotes (inner quotes at its ends dropped) in the quote layout.
pub open spec fn title_text(title: Seq<char>, layout: Seq<char>) -> Seq<char> {
    let t = if layout == "one_word_hook"@ {
        hook_word(title)
    } else {
        title
    };
    if layout == "quote_style"@ {
        seq!['"'] + text::trim_char(t, '"') + seq!['"']
    } else {
        t
    }
}

/// Point `i` as drawn: the layout's marker, then in the progress layout a
/// counter `k/n  ` before the point.
pub open spec fn point_text(points: Seq<Seq<char>>, i: int, layout: Seq<char>, marker: Seq<char>) -> Seq<char> {
    let n: nat = if points.len() > 1 { points.len() } else { 1 };
    if layout == "progress_reveal"@ {
        marker + text::decimal((i + 1) as nat) + "/"@ + text::decimal(n) + "  "@ + points[i]
    } else {
        marker + points[i]
    }
}

pub open spec fn saturate_u64(n: int) -> u64 {
    if n > u64::MAX {
        u64::MAX
    } else {
        n as u64
    }
}

pub open spec fn placed(text: Seq<char>, p: ParamView, y: u64, alpha: u8, shadow_alpha: u8) -> OverlayView {
    OverlayView { text, x: p.x, y, width: p.width, align: p.align, font_size: p.font_size, alpha, shadow_alpha }
}

/// Layer 0 is the title; layer `i + 1` is point `i`, moved down by
/// `i * point_offset_y` (a position past `u64::MAX` saturates); the layer
/// after the last point is the call to action when there is one; any other
/// layer is blank.
pub open spec fn overlay_plan(s: parser::ScriptView, layer: nat) -> Option<OverlayView> {
    let layout = parser::normalized_layout(s.layout);
    let spec = layout_table(layout);
    if layer == 0 {
        Some(placed(title_text(s.title, layout), spec.title, spec.title.y as u64, 255, 180))
    } else if layer - 1 < s.points.len() {
        let i = layer - 1;
        Some(placed(
            point_text(s.points, i, layout, spec.marker),
            spec.point,
            saturate_u64(spec.point.y + i * spec.point_offset_y),
            255,
            185,
        ))
    } else if layer - 1 == s.points.len() && s.cta.len() > 0 {
        Some(placed(s.cta, spec.cta, spec.cta.y as u64, 240, 180))
    } else {
        None
    }
}

fn place(text: Vec<char>, p: &LayoutParam, y: u64, alpha: u8, shadow_alpha: u8) -> (o: OverlayText)
    ensures
        o@ == placed(text@, p@, y, alpha, shadow_alpha),
{
    OverlayText {
        text: text::string_of(&text),
        x: p.x,
        y,
        width: p.width,
        align: p.align.clone(),
        font_size: p.font_size,
        alpha,
        shadow_alpha,
    }
}

/// What layer `layer_index` of a script's overlays shows, if anything.
pub fn overlay_text(script: &Script, layer_index: usize) -> (r: Option<OverlayText>)
    ensures
        match r {
            Some(o) => overlay_plan(script@, layer_index as nat) == Some(o@),
            None => overlay_plan(script@, layer_index as nat) is None,
        },
{
    let layout_v = text::chars_of(script.layout.as_str());
    let layout = normalize_layout_chars(&layout_v);
    let layout_s = text::string_of(&layout);
    let spec = get_layout_spec(layout_s.as_str());
    if layer_index == 0 {
        let title = text::chars_of(script.title.as_str());
        let t = if text::eq_str(&layout, "one_word_hook") {
            first_hook_word_chars(&title)
        } else {
            title
        };
        let t = if text::eq_str(&layout, "quote_style") {
            let mut q: Vec<char> = Vec::new();
            q.push('"');
            let inner = text::trim_matches_char(&t, '"');
            text::extend(&mut q, &inner);
            q.push('"');
            assert(q@ =~= seq!['"'] + inner@ + seq!['"']);
            q
        } else {
            t
        };
        return Some(place(t, &spec.title, spec.title.y as u64, 255, 180));
    }
    let i = layer_index - 1;
    if i < script.points.len() {
        let point = text::chars_of(script.points[i].as_str());
        let mut t = text::chars_of(spec.marker.as_str());
        if text::eq_str(&layout, "progress_reveal") {
            let n: usize = if script.points.len() > 1 { script.points.len() } else { 1 };
            text::push_decimal(&mut t, (i as u128) + 1);
            t.push('/');
            text::push_decimal(&mut t, n as u128);
            t.push(' ');
            t.push(' ');
        }
        text::extend(&mut t, &point);
        proof {
            reveal_strlit("/");
            reveal_strlit("  ");
            let n: nat = if script@.points.len() > 1 { script@.points.len() } else { 1 };
            if layout@ == "progress_reveal"@ {
                assert(t@ =~= spec.marker@ + text::decimal((i + 1) as nat) + "/"@ + text::decimal(n) + "  "@ + script@.points[i as int]);
            } else {
                assert(t@ =~= spec.marker@ + script@.points[i as int]);
            }
        }
        let y: u128 = (spec.point.y as u128) + (i as u128) * (spec.point_offset_y as u128);
        let y: u64 = if y > u64::MAX as u128 { u64::MAX } else { y as u64 };
        return Some(place(t, &spec.point, y, 255, 185));
    }
    if i == script.points.len() && !script.cta.as_str().is_empty() {
        let c = text::chars_of(script.cta.as_str());
        return Some(place(c, &spec.cta, spec.cta.y as u64, 240, 180));
    }
    None
}

/// How many overlay layers a script has: its title, one per point, and one
/// for the call to action when there is one.
pub open spec fn layer_count(s: parser::ScriptView) -> nat {
    1 + s.points.len() + if s.cta.len() > 0 {
        1nat
    } else {
        0nat
    }
}

/// The number of overlay layers to draw; exactly the layers below it show
/// something.
pub fn overlay_layer_count(script: &Script) -> (n: usize)
    requires
        script@.points.len() + 2 <= usize::MAX,
    ensures
        n == layer_count(script@),
        forall|layer: nat| #![trigger overlay_plan(script@, layer)]
            layer < n <==> overlay_plan(script@, layer) is Some,
{
    let n = script.points.len() + 1;
    if script.cta.as_str().is_empty() {
        n
    } else {
        n + 1
    }
}

/// The file name of an overlay layer: `<title slug>-<stamp>-<layer + 1>.png`.
pub open spec fn overlay_file_name_of(title: Seq<char>, stamp: Seq<char>, layer: nat) -> Seq<char> {
    parser::slug_of(title) + "-"@ + stamp + "-"@ + text::decimal(layer + 1) + ".png"@
}

pub fn overlay_file_name(title: &str, stamp: &str, layer_index: usize) -> (r: String)
    ensures
        r@ == overlay_file_name_of(title@, stamp@, layer_index as nat),
{
    let t = text::chars_of(title);
    let mut n = slugify_chars(&t);
    n.push('-');
    let st = text::chars_of(stamp);
    text::extend(&mut n, &st);
    n.push('-');
    text::push_decimal(&mut n, (layer_index as u128) + 1);
    let ext = text::chars_of(".png");
    text::extend(&mut n, &ext);
    proof {
        reveal_strlit("-");
    }
    assert(n@ =~= parser::slug_of(title@) + "-"@ + stamp@ + "-"@ + text::decimal(layer_index as nat + 1) + ".png"@);
    text::string_of(&n)
}


// ---------------------------------------------------------------------------
// Wrapping text into lines
// ---------------------------------------------------------------------------

/// The words of a text: its maximal runs of non-whitespace characters.
pub fn text_words(value: &str) -> (r: Vec<String>)
    ensures
        patterns::strings(r@) == parser::split_words(value@),
{
    let v = text::chars_of(value);
    let ws = parser::split_words_exec(&v);
    parser::strings_of(&ws)
}

/// The line that adding `word` to the line `cur` would give.
pub open spec fn candidate_line(cur: Seq<char>, word: Seq<char>) -> Seq<char> {
    if cur.len() == 0 {
        word
    } else {
        cur + seq![' '] + word
    }
}

pub fn wrap_candidate(current: &str, word: &str) -> (r: String)
    ensures
        r@ == candidate_line(current@, word@),
{
    let mut v = text::chars_of(current);
    let w = text::chars_of(word);
    if v.len() > 0 {
        v.push(' ');
    }
    text::extend(&mut v, &w);
    assert(v@ =~= candidate_line(current@, word@));
    text::string_of(&v)
}

/// One word of greedy wrapping: when the candidate line is too wide and the
/// current line holds text, the current line is finished and the word starts
/// the next one; otherwise the candidate becomes the current line.
pub open spec fn wrap_step_of(lines: Seq<Seq<char>>, cur: Seq<char>, word: Seq<char>, too_wide: bool) -> (Seq<Seq<char>>, Seq<char>) {
    if too_wide && cur.len() > 0 {
        (lines.push(cur), word)
    } else {
        (lines, candidate_line(cur, word))
    }
}

/// `too_wide` tells whether `wrap_candidate(current, word)` is wider than the
/// line may be.
pub fn wrap_step(lines: &mut Vec<String>, current: &mut String, word: &str, too_wide: bool)
    ensures
        (patterns::strings(final(lines)@), final(current)@) == wrap_step_of(
            patterns::strings(old(lines)@),
            old(current)@,
            word@,
            too_wide,
        ),
{
    if too_wide && !current.as_str().is_empty() {
        let ghost before = patterns::strings(lines@);
        let ghost cur = current@;
        let finished = current.clone();
        lines.push(finished);
        assert(patterns::strings(lines@) =~= before.push(cur));
        *current = word.to_owned();
    } else {
        let cand = wrap_candidate(current.as_str(), word);
        *current = cand;
    }
}

/// The lines once the last word is placed: the current line is kept if it
/// holds text.
pub open spec fn wrap_end_of(lines: Seq<Seq<char>>, cur: Seq<char>) -> Seq<Seq<char>> {
    if cur.len() > 0 {
        lines.push(cur)
    } else {
        lines
    }
}

pub fn wrap_finish(lines: &mut Vec<String>, current: String)
    ensures
        patterns::strings(final(lines)@) == wrap_end_of(patterns::strings(old(lines)@), current@),
{
    if !current.as_str().is_empty() {
        let ghost before = patterns::strings(lines@);
        let ghost cur = current@;
        lines.push(current);
        assert(patterns::strings(lines@) =~= before.push(cur));
    }
}

} // verus!
