//! Character-level text handling shared by the parser, the layout code and
//! the render planner. Text is handled as `Vec<char>`, whose view is the
//! `Seq<char>` of its Unicode scalar values.
use vstd::prelude::*;

verus! {

// ---------------------------------------------------------------------------
// Character classes
// ---------------------------------------------------------------------------

/// The characters outside ASCII that have the Unicode White_Space property:
/// NEXT LINE, NO-BREAK SPACE, OGHAM SPACE MARK, the spaces U+2000 to U+200A,
/// LINE and PARAGRAPH SEPARATOR, NARROW NO-BREAK SPACE, MEDIUM MATHEMATICAL
/// SPACE and IDEOGRAPHIC SPACE.
pub open spec fn non_ascii_white_space(c: char) -> bool {
    let u = c as u32;
    ||| u == 0x85
    ||| u == 0xa0
    ||| u == 0x1680
    ||| (0x2000 <= u && u <= 0x200a)
    ||| u == 0x2028
    ||| u == 0x2029
    ||| u == 0x202f
    ||| u == 0x205f
    ||| u == 0x3000
}

/// For a character outside ASCII that is not White_Space: what
/// `char::is_alphanumeric` reports, the Unicode Alphabetic or Numeric
/// property.
pub uninterp spec fn non_ascii_alphanumeric(c: char) -> bool;

/// The Unicode White_Space property.
pub open spec fn unicode_white_space(c: char) -> bool {
    if is_ascii_char(c) {
        ascii_white_space(c)
    } else {
        non_ascii_white_space(c)
    }
}

/// The Unicode Alphabetic-or-Numeric property. No White_Space character
/// has it.
pub open spec fn unicode_alphanumeric(c: char) -> bool {
    if is_ascii_char(c) {
        is_ascii_alnum(c)
    } else {
        !non_ascii_white_space(c) && non_ascii_alphanumeric(c)
    }
}

pub open spec fn is_ascii_char(c: char) -> bool {
    (c as u32) < 128
}

/// The ASCII members of the White_Space property: TAB, LF, VT, FF, CR and SPACE.
pub open spec fn ascii_white_space(c: char) -> bool {
    c == ' ' || (9 <= (c as u32) && (c as u32) <= 13)
}

pub open spec fn is_ascii_upper(c: char) -> bool {
    65 <= (c as u32) && (c as u32) <= 90
}

pub open spec fn is_ascii_lower(c: char) -> bool {
    97 <= (c as u32) && (c as u32) <= 122
}

pub open spec fn is_ascii_letter(c: char) -> bool {
    is_ascii_upper(c) || is_ascii_lower(c)
}

pub open spec fn is_ascii_digit(c: char) -> bool {
    48 <= (c as u32) && (c as u32) <= 57
}

pub open spec fn is_ascii_alnum(c: char) -> bool {
    is_ascii_letter(c) || is_ascii_digit(c)
}

/// `char::to_ascii_lowercase`: ASCII upper-case letters become lower case,
/// every other character is unchanged.
pub open spec fn ascii_lower(c: char) -> char {
    if is_ascii_upper(c) {
        ((c as u32) + 32) as char
    } else {
        c
    }
}

pub open spec fn ascii_upper(c: char) -> char {
    if is_ascii_lower(c) {
        ((c as u32) - 32) as char
    } else {
        c
    }
}

pub open spec fn all_ascii(s: Seq<char>) -> bool {
    forall|i: int| 0 <= i < s.len() ==> is_ascii_char(#[trigger] s[i])
}

pub open spec fn ascii_lower_seq(s: Seq<char>) -> Seq<char> {
    s.map_values(|c: char| ascii_lower(c))
}

pub open spec fn ascii_upper_seq(s: Seq<char>) -> Seq<char> {
    s.map_values(|c: char| ascii_upper(c))
}

/// `char::is_whitespace`: the White_Space property.
pub(crate) fn is_whitespace(c: char) -> (b: bool)
    ensures
        b == unicode_white_space(c),
{
    let u = c as u32;
    if u < 128 {
        u == 32 || (9 <= u && u <= 13)
    } else {
        u == 0x85 || u == 0xa0 || u == 0x1680 || (0x2000 <= u && u <= 0x200a) || u == 0x2028 || u
            == 0x2029 || u == 0x202f || u == 0x205f || u == 0x3000
    }
}

/// `char::is_alphanumeric`: Alphabetic or Numeric; on ASCII exactly the
/// letters and digits, never on a White_Space character, elsewhere named.
#[verifier::external_body]
pub(crate) fn is_alphanumeric(c: char) -> (b: bool)
    ensures
        b == unicode_alphanumeric(c),
        !is_ascii_char(c) && !non_ascii_white_space(c) ==> b == non_ascii_alphanumeric(c),
{
    c.is_alphanumeric()
}

pub fn ascii_lower_char(c: char) -> (r: char)
    ensures
        r == ascii_lower(c),
{
    if 'A' <= c && c <= 'Z' {
        let b: u8 = c as u8;
        (b + 32) as char
    } else {
        c
    }
}

// ---------------------------------------------------------------------------
// Conversions between `str`, `String` and `Vec<char>`
// ---------------------------------------------------------------------------

/// `String::push`: appends one character.
#[verifier::external_body]
pub(crate) fn push_char(s: &mut String, c: char)
    ensures
        final(s)@ == old(s)@.push(c),
{
    s.push(c)
}

/// The characters of `s`, in order.
pub fn chars_of(s: &str) -> (v: Vec<char>)
    ensures
        v@ == s@,
{
    let mut v: Vec<char> = Vec::new();
    for c in it: s.chars()
        invariant
            v@ == it.seq().take(it.index() as int),
            it.seq() == s@,
    {
        v.push(c);
    }
    v
}

/// The string made of the characters of `v`.
pub fn string_of(v: &Vec<char>) -> (s: String)
    ensures
        s@ == v@,
{
    let mut s = String::new();
    let mut i: usize = 0;
    while i < v.len()
        invariant
            i <= v.len(),
            s@ == v@.take(i as int),
        decreases v.len() - i,
    {
        push_char(&mut s, v[i]);
        assert(v@.take(i as int).push(v@[i as int]) =~= v@.take(i + 1));
        i += 1;
    }
    assert(v@.take(v.len() as int) =~= v@);
    s
}

/// The characters of `v` from `lo` up to, not including, `hi`.
pub fn slice(v: &Vec<char>, lo: usize, hi: usize) -> (r: Vec<char>)
    requires
        lo <= hi <= v.len(),
    ensures
        r@ == v@.subrange(lo as int, hi as int),
{
    let mut r: Vec<char> = Vec::new();
    let mut i: usize = lo;
    while i < hi
        invariant
            lo <= i <= hi <= v.len(),
            r@ == v@.subrange(lo as int, i as int),
        decreases hi - i,
    {
        r.push(v[i]);
        assert(v@.subrange(lo as int, i as int).push(v@[i as int]) =~= v@.subrange(
            lo as int,
            i + 1,
        ));
        i += 1;
    }
    r
}

/// Appends the characters of `b` to `a`.
pub fn extend(a: &mut Vec<char>, b: &Vec<char>)
    ensures
        final(a)@ == old(a)@ + b@,
{
    let mut i: usize = 0;
    while i < b.len()
        invariant
            i <= b.len(),
            a@ == old(a)@ + b@.take(i as int),
        decreases b.len() - i,
    {
        a.push(b[i]);
        assert(old(a)@ + b@.take(i as int).push(b@[i as int]) =~= old(a)@ + b@.take(i + 1));
        i += 1;
    }
    assert(b@.take(b.len() as int) =~= b@);
}

pub fn eq_chars(a: &Vec<char>, b: &Vec<char>) -> (r: bool)
    ensures
        r == (a@ == b@),
{
    if a.len() != b.len() {
        return false;
    }
    let mut i: usize = 0;
    while i < a.len()
        invariant
            a.len() == b.len(),
            i <= a.len(),
            forall|j: int| 0 <= j < i ==> a@[j] == b@[j],
        decreases a.len() - i,
    {
        if a[i] != b[i] {
            return false;
        }
        i += 1;
    }
    assert(a@ =~= b@);
    true
}

/// Whether `a` equals the text `lit`.
pub fn eq_str(a: &Vec<char>, lit: &str) -> (r: bool)
    ensures
        r == (a@ == lit@),
{
    let b = chars_of(lit);
    eq_chars(a, &b)
}

// ---------------------------------------------------------------------------
// Trimming
// ---------------------------------------------------------------------------

pub open spec fn strip_start(s: Seq<char>, p: spec_fn(char) -> bool) -> Seq<char>
    decreases s.len(),
{
    if s.len() > 0 && p(s[0]) {
        strip_start(s.drop_first(), p)
    } else {
        s
    }
}

pub open spec fn strip_end(s: Seq<char>, p: spec_fn(char) -> bool) -> Seq<char>
    decreases s.len(),
{
    if s.len() > 0 && p(s.last()) {
        strip_end(s.drop_last(), p)
    } else {
        s
    }
}

pub open spec fn ws_pred() -> spec_fn(char) -> bool {
    |c: char| unicode_white_space(c)
}

pub open spec fn char_pred(x: char) -> spec_fn(char) -> bool {
    |c: char| c == x
}

/// `str::trim`: removes leading and trailing White_Space characters.
pub open spec fn trim_ws(s: Seq<char>) -> Seq<char> {
    strip_end(strip_start(s, ws_pred()), ws_pred())
}

/// `str::trim_matches(x)` for a single character `x`.
pub open spec fn trim_char(s: Seq<char>, x: char) -> Seq<char> {
    strip_end(strip_start(s, char_pred(x)), char_pred(x))
}

proof fn lemma_strip_start_step(s: Seq<char>, i: int, p: spec_fn(char) -> bool)
    requires
        0 <= i < s.len(),
        p(s[i]),
    ensures
        strip_start(s.subrange(i, s.len() as int), p) == strip_start(
            s.subrange(i + 1, s.len() as int),
            p,
        ),
{
    assert(s.subrange(i, s.len() as int).drop_first() =~= s.subrange(i + 1, s.len() as int));
}

proof fn lemma_strip_end_step(s: Seq<char>, lo: int, j: int, p: spec_fn(char) -> bool)
    requires
        0 <= lo < j <= s.len(),
        p(s[j - 1]),
    ensures
        strip_end(s.subrange(lo, j), p) == strip_end(s.subrange(lo, j - 1), p),
{
    assert(s.subrange(lo, j).drop_last() =~= s.subrange(lo, j - 1));
}

/// Index of the first character from which the rest has no leading whitespace.
fn ws_start(v: &Vec<char>) -> (i: usize)
    ensures
        i <= v.len(),
        strip_start(v@, ws_pred()) == v@.subrange(i as int, v.len() as int),
{
    let mut i: usize = 0;
    assert(v@.subrange(0, v.len() as int) =~= v@);
    while i < v.len() && is_whitespace(v[i])
        invariant
            i <= v.len(),
            strip_start(v@, ws_pred()) == strip_start(v@.subrange(i as int, v.len() as int), ws_pred()),
        decreases v.len() - i,
    {
        proof {
            lemma_strip_start_step(v@, i as int, ws_pred());
        }
        i += 1;
    }
    i
}

/// `str::trim`.
pub fn trim(v: &Vec<char>) -> (r: Vec<char>)
    ensures
        r@ == trim_ws(v@),
{
    let i = ws_start(v);
    let mut j: usize = v.len();
    while j > i && is_whitespace(v[j - 1])
        invariant
            i <= j <= v.len(),
            strip_end(v@.subrange(i as int, v.len() as int), ws_pred()) == strip_end(
                v@.subrange(i as int, j as int),
                ws_pred(),
            ),
        decreases j,
    {
        proof {
            lemma_strip_end_step(v@, i as int, j as int, ws_pred());
        }
        j -= 1;
    }
    slice(v, i, j)
}

/// `str::trim_start_matches(x)` for a single character `x`.
pub fn trim_start_char(v: &Vec<char>, x: char) -> (r: Vec<char>)
    ensures
        r@ == strip_start(v@, char_pred(x)),
{
    let mut i: usize = 0;
    assert(v@.subrange(0, v.len() as int) =~= v@);
    while i < v.len() && v[i] == x
        invariant
            i <= v.len(),
            strip_start(v@, char_pred(x)) == strip_start(
                v@.subrange(i as int, v.len() as int),
                char_pred(x),
            ),
        decreases v.len() - i,
    {
        proof {
            lemma_strip_start_step(v@, i as int, char_pred(x));
        }
        i += 1;
    }
    slice(v, i, v.len())
}

/// `str::trim_matches(x)` for a single character `x`.
pub fn trim_matches_char(v: &Vec<char>, x: char) -> (r: Vec<char>)
    ensures
        r@ == trim_char(v@, x),
{
    let mut i: usize = 0;
    assert(v@.subrange(0, v.len() as int) =~= v@);
    while i < v.len() && v[i] == x
        invariant
            i <= v.len(),
            strip_start(v@, char_pred(x)) == strip_start(
                v@.subrange(i as int, v.len() as int),
                char_pred(x),
            ),
        decreases v.len() - i,
    {
        proof {
            lemma_strip_start_step(v@, i as int, char_pred(x));
        }
        i += 1;
    }
    let mut j: usize = v.len();
    while j > i && v[j - 1] == x
        invariant
            i <= j <= v.len(),
            strip_start(v@, char_pred(x)) == v@.subrange(i as int, v.len() as int),
            strip_end(v@.subrange(i as int, v.len() as int), char_pred(x)) == strip_end(
                v@.subrange(i as int, j as int),
                char_pred(x),
            ),
        decreases j,
    {
        proof {
            lemma_strip_end_step(v@, i as int, j as int, char_pred(x));
        }
        j -= 1;
    }
    slice(v, i, j)
}


// ---------------------------------------------------------------------------
// Searching
// ---------------------------------------------------------------------------

/// Index of the first occurrence of `x` in `s`, if any.
pub open spec fn first_index_of(s: Seq<char>, x: char) -> Option<int> {
    if exists|i: int| 0 <= i < s.len() && s[i] == x {
        Some(choose|i: int| 0 <= i < s.len() && s[i] == x && forall|j: int| 0 <= j < i ==> s[j] != x)
    } else {
        None
    }
}

/// `str::find(x)` for a single character, as a character index.
pub fn find_char(v: &Vec<char>, x: char) -> (r: Option<usize>)
    ensures
        r == (match first_index_of(v@, x) {
            Some(i) => Some(i as usize),
            None => None::<usize>,
        }),
        r matches Some(i) ==> i < v.len() && v@[i as int] == x && forall|j: int|
            0 <= j < i ==> v@[j] != x,
        r is None ==> forall|j: int| 0 <= j < v.len() ==> v@[j] != x,
{
    let mut i: usize = 0;
    while i < v.len()
        invariant
            i <= v.len(),
            forall|j: int| 0 <= j < i ==> v@[j] != x,
        decreases v.len() - i,
    {
        if v[i] == x {
            proof {
                let w = choose|k: int| 0 <= k < v@.len() && v@[k] == x && forall|j: int| 0 <= j < k ==> v@[j] != x;
                assert(0 <= i < v@.len() && v@[i as int] == x && forall|j: int| 0 <= j < i ==> v@[j] != x);
                if w < i {
                } else if w > i {
                    assert(v@[i as int] != x);
                }
            }
            return Some(i);
        }
        i += 1;
    }
    None
}

/// `str::contains` for a text needle.
pub open spec fn has_infix(h: Seq<char>, n: Seq<char>) -> bool {
    exists|i: int| 0 <= i && i + n.len() <= h.len() && #[trigger] h.subrange(i, i + n.len()) == n
}

fn matches_at(h: &Vec<char>, n: &Vec<char>, i: usize) -> (r: bool)
    requires
        i + n.len() <= h.len(),
    ensures
        r == (h@.subrange(i as int, i + n.len()) == n@),
{
    let mut k: usize = 0;
    while k < n.len()
        invariant
            i + n.len() <= h.len(),
            k <= n.len(),
            forall|j: int| 0 <= j < k ==> h@[i + j] == n@[j],
        decreases n.len() - k,
    {
        if h[i + k] != n[k] {
            assert(h@.subrange(i as int, i + n.len())[k as int] != n@[k as int]);
            return false;
        }
        k += 1;
    }
    assert(h@.subrange(i as int, i + n.len()) =~= n@);
    true
}

pub fn contains(h: &Vec<char>, n: &Vec<char>) -> (r: bool)
    ensures
        r == has_infix(h@, n@),
{
    if n.len() > h.len() {
        return false;
    }
    let mut i: usize = 0;
    while i <= h.len() - n.len()
        invariant
            n.len() <= h.len(),
            i <= h.len() - n.len() + 1,
            forall|j: int| 0 <= j < i ==> #[trigger] h@.subrange(j, j + n.len()) != n@,
        decreases h.len() - n.len() + 1 - i,
    {
        if matches_at(h, n, i) {
            return true;
        }
        if i == h.len() - n.len() {
            return false;
        }
        i += 1;
    }
    false
}

pub fn contains_str(h: &Vec<char>, lit: &str) -> (r: bool)
    ensures
        r == has_infix(h@, lit@),
{
    let n = chars_of(lit);
    contains(h, &n)
}

/// `str::eq_ignore_ascii_case`.
pub open spec fn eq_ignore_ascii_case_spec(a: Seq<char>, b: Seq<char>) -> bool {
    a.len() == b.len() && forall|i: int| 0 <= i < a.len() ==> ascii_lower(a[i]) == ascii_lower(b[i])
}

pub fn eq_ignore_ascii_case(a: &Vec<char>, lit: &str) -> (r: bool)
    ensures
        r == eq_ignore_ascii_case_spec(a@, lit@),
{
    let b = chars_of(lit);
    if a.len() != b.len() {
        return false;
    }
    let mut i: usize = 0;
    while i < a.len()
        invariant
            a.len() == b.len(),
            b@ == lit@,
            i <= a.len(),
            forall|j: int| 0 <= j < i ==> ascii_lower(a@[j]) == ascii_lower(b@[j]),
        decreases a.len() - i,
    {
        if ascii_lower_char(a[i]) != ascii_lower_char(b[i]) {
            return false;
        }
        i += 1;
    }
    true
}

/// The texts held by a sequence of character vectors.
pub open spec fn views(r: Seq<Vec<char>>) -> Seq<Seq<char>> {
    r.map_values(|x: Vec<char>| x@)
}

// ---------------------------------------------------------------------------
// Lines
// ---------------------------------------------------------------------------

pub open spec fn strip_cr(s: Seq<char>) -> Seq<char> {
    if s.len() > 0 && s.last() == '\r' {
        s.drop_last()
    } else {
        s
    }
}

/// The lines of `s` from position `i` on, when the current line began at `start`.
pub open spec fn lines_from(s: Seq<char>, start: int, i: int) -> Seq<Seq<char>>
    decreases s.len() - i,
{
    if i >= s.len() || i < start || start < 0 {
        if 0 <= start < s.len() {
            seq![s.subrange(start, s.len() as int)]
        } else {
            seq![]
        }
    } else if s[i] == '\n' {
        seq![strip_cr(s.subrange(start, i))] + lines_from(s, i + 1, i + 1)
    } else {
        lines_from(s, start, i + 1)
    }
}

/// `str::lines`: split at `\n`, a `\r` just before the `\n` dropped, and no
/// empty line after a final line ending.
pub open spec fn text_lines(s: Seq<char>) -> Seq<Seq<char>> {
    lines_from(s, 0, 0)
}

pub fn lines(v: &Vec<char>) -> (r: Vec<Vec<char>>)
    ensures
        views(r@) == text_lines(v@),
{
    let mut r: Vec<Vec<char>> = Vec::new();
    let mut start: usize = 0;
    let mut i: usize = 0;
    while i < v.len()
        invariant
            start <= i <= v.len(),
            views(r@) + lines_from(v@, start as int, i as int) == text_lines(v@),
        decreases v.len() - i,
    {
        if v[i] == '\n' {
            let mut line = slice(v, start, i);
            if line.len() > 0 && line[line.len() - 1] == '\r' {
                line.pop();
            }
            assert(line@ == strip_cr(v@.subrange(start as int, i as int)));
            let ghost before = views(r@);
            r.push(line);
            assert(views(r@) =~= before.push(line@));
            assert(before + lines_from(v@, start as int, i as int) =~= views(r@) + lines_from(v@, i + 1, i + 1));
            start = i + 1;
        }
        i += 1;
    }
    if start < v.len() {
        let line = slice(v, start, v.len());
        let ghost before = views(r@);
        r.push(line);
        assert(views(r@) =~= before.push(line@));
        assert(before + lines_from(v@, start as int, i as int) =~= views(r@));
    } else {
        assert(views(r@) + lines_from(v@, start as int, i as int) =~= views(r@));
    }
    r
}


// ---------------------------------------------------------------------------
// Case mapping of whole strings
// ---------------------------------------------------------------------------

/// What `str::to_lowercase` returns for a string that holds a character
/// outside ASCII (the Unicode mapping, context-dependent for a final sigma).
pub uninterp spec fn non_ascii_lowercase(s: Seq<char>) -> Seq<char>;

/// What `str::to_uppercase` returns for a string that holds a character
/// outside ASCII.
pub uninterp spec fn non_ascii_uppercase(s: Seq<char>) -> Seq<char>;

/// `str::to_lowercase`: on an ASCII string the ASCII mapping.
pub open spec fn unicode_lowercase(s: Seq<char>) -> Seq<char> {
    if all_ascii(s) {
        ascii_lower_seq(s)
    } else {
        non_ascii_lowercase(s)
    }
}

/// `str::to_uppercase`: on an ASCII string the ASCII mapping.
pub open spec fn unicode_uppercase(s: Seq<char>) -> Seq<char> {
    if all_ascii(s) {
        ascii_upper_seq(s)
    } else {
        non_ascii_uppercase(s)
    }
}

/// `str::to_lowercase`. On ASCII text the Unicode mapping is the ASCII one,
/// which the contract states; on other text the result is named.
#[verifier::external_body]
fn str_to_lowercase(s: &str) -> (r: String)
    ensures
        r@ == unicode_lowercase(s@),
        !all_ascii(s@) ==> r@ == non_ascii_lowercase(s@),
{
    s.to_lowercase()
}

/// `str::to_uppercase`. On ASCII text the Unicode mapping is the ASCII one,
/// which the contract states; on other text the result is named.
#[verifier::external_body]
fn str_to_uppercase(s: &str) -> (r: String)
    ensures
        r@ == unicode_uppercase(s@),
        !all_ascii(s@) ==> r@ == non_ascii_uppercase(s@),
{
    s.to_uppercase()
}

pub fn lowercase(v: &Vec<char>) -> (r: Vec<char>)
    ensures
        r@ == unicode_lowercase(v@),
{
    let s = string_of(v);
    let l = str_to_lowercase(s.as_str());
    chars_of(l.as_str())
}

pub fn uppercase(v: &Vec<char>) -> (r: Vec<char>)
    ensures
        r@ == unicode_uppercase(v@),
{
    let s = string_of(v);
    let u = str_to_uppercase(s.as_str());
    chars_of(u.as_str())
}

// ---------------------------------------------------------------------------
// Decimal numbers
// ---------------------------------------------------------------------------

pub open spec fn digit_char(d: nat) -> char {
    (48 + d) as char
}

/// The decimal representation of `n`, without leading zeros.
pub open spec fn decimal(n: nat) -> Seq<char>
    decreases n,
{
    if n < 10 {
        seq![digit_char(n)]
    } else {
        decimal(n / 10).push(digit_char(n % 10))
    }
}

pub fn digit(d: u128) -> (c: char)
    requires
        d < 10,
    ensures
        c == digit_char(d as nat),
{
    let b: u8 = (48 + d) as u8;
    b as char
}

/// Appends the decimal representation of `n`.
pub fn push_decimal(out: &mut Vec<char>, n: u128)
    ensures
        final(out)@ == old(out)@ + decimal(n as nat),
    decreases n,
{
    if n >= 10 {
        push_decimal(out, n / 10);
    }
    out.push(digit(n % 10));
}

/// Appends `n` written with exactly `width` digits, zeros in front.
pub open spec fn padded(n: nat, width: nat) -> Seq<char>
    decreases width,
{
    if width == 0 {
        seq![]
    } else {
        padded(n / 10, (width - 1) as nat).push(digit_char(n % 10))
    }
}

pub fn push_padded(out: &mut Vec<char>, n: u128, width: u64)
    ensures
        final(out)@ == old(out)@ + padded(n as nat, width as nat),
    decreases width,
{
    if width > 0 {
        push_padded(out, n / 10, width - 1);
        out.push(digit(n % 10));
    }
}


/// Appends the text `lit`.
pub fn push_str(v: &mut Vec<char>, lit: &str)
    ensures
        final(v)@ == old(v)@ + lit@,
{
    let l = chars_of(lit);
    extend(v, &l);
}

/// The texts joined with `sep` between neighbours.
pub open spec fn join_with(ws: Seq<Seq<char>>, sep: Seq<char>) -> Seq<char>
    decreases ws.len(),
{
    if ws.len() == 0 {
        seq![]
    } else if ws.len() == 1 {
        ws[0]
    } else {
        join_with(ws.drop_last(), sep) + sep + ws.last()
    }
}

pub fn join(ws: &Vec<Vec<char>>, sep: &str) -> (r: Vec<char>)
    ensures
        r@ == join_with(views(ws@), sep@),
{
    let mut r: Vec<char> = Vec::new();
    let ghost all = views(ws@);
    let mut i: usize = 0;
    while i < ws.len()
        invariant
            i <= ws.len(),
            all == views(ws@),
            r@ == join_with(all.take(i as int), sep@),
        decreases ws.len() - i,
    {
        assert(all.take(i + 1).drop_last() =~= all.take(i as int));
        if i > 0 {
            push_str(&mut r, sep);
        } else {
            assert(all.take(1) =~= seq![ws@[0]@]);
            assert(r@ + ws@[0]@ =~= ws@[0]@);
        }
        extend(&mut r, &ws[i]);
        i += 1;
    }
    assert(all.take(ws.len() as int) =~= all);
    r
}


/// The fields of `s[start..]` cut at `sep`, scanning from `i`.
pub open spec fn fields_from(s: Seq<char>, sep: char, start: int, i: int) -> Seq<Seq<char>>
    decreases s.len() - i,
{
    if i >= s.len() || i < start || start < 0 {
        seq![s.subrange(start, s.len() as int)]
    } else if s[i] == sep {
        seq![s.subrange(start, i)] + fields_from(s, sep, i + 1, i + 1)
    } else {
        fields_from(s, sep, start, i + 1)
    }
}

/// `str::split` at a character: the pieces between separators, empty ones
/// included.
pub open spec fn split_fields(s: Seq<char>, sep: char) -> Seq<Seq<char>> {
    fields_from(s, sep, 0, 0)
}

pub fn split_on(v: &Vec<char>, sep: char) -> (r: Vec<Vec<char>>)
    ensures
        views(r@) == split_fields(v@, sep),
{
    let mut r: Vec<Vec<char>> = Vec::new();
    let mut start: usize = 0;
    let mut i: usize = 0;
    while i < v.len()
        invariant
            start <= i <= v.len(),
            views(r@) + fields_from(v@, sep, start as int, i as int) == split_fields(v@, sep),
        decreases v.len() - i,
    {
        if v[i] == sep {
            let piece = slice(v, start, i);
            let ghost before = views(r@);
            let ghost pv = piece@;
            r.push(piece);
            assert(views(r@) =~= before.push(pv));
            assert(before + fields_from(v@, sep, start as int, i as int) =~= views(r@) + fields_from(
                v@,
                sep,
                i + 1,
                i + 1,
            ));
            start = i + 1;
        }
        i += 1;
    }
    let piece = slice(v, start, v.len());
    let ghost before = views(r@);
    let ghost pv = piece@;
    r.push(piece);
    assert(views(r@) =~= before.push(pv));
    assert(before + fields_from(v@, sep, start as int, i as int) =~= views(r@));
    r
}

} // verus!
