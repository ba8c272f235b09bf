//! The text patterns of the script format and of the naming rules. Each
//! pattern is matched by the `regex` crate; the contracts state what a match
//! gives where a few lines can say it, and name it where Unicode classes
//! (`\s`, `\d`, case folding) make the statement a table.
use vstd::prelude::*;
use crate::text;

verus! {

/// The texts of a sequence of strings.
pub open spec fn strings(s: Seq<String>) -> Seq<Seq<char>> {
    s.map_values(|x: String| x@)
}

/// Every maximal run of characters outside `keep` replaced by one `sep`.
pub open spec fn replace_runs(s: Seq<char>, keep: spec_fn(char) -> bool, sep: char) -> Seq<char>
    decreases s.len(),
{
    if s.len() == 0 {
        seq![]
    } else if keep(s.last()) {
        replace_runs(s.drop_last(), keep, sep).push(s.last())
    } else if s.len() >= 2 && !keep(s[s.len() - 2]) {
        replace_runs(s.drop_last(), keep, sep)
    } else {
        replace_runs(s.drop_last(), keep, sep).push(sep)
    }
}

/// `[a-zA-Z0-9]`
pub open spec fn ascii_alnum_pred() -> spec_fn(char) -> bool {
    |c: char| text::is_ascii_alnum(c)
}

/// `[a-z0-9]`
pub open spec fn lower_alnum_pred() -> spec_fn(char) -> bool {
    |c: char| text::is_ascii_lower(c) || text::is_ascii_digit(c)
}

/// `Regex::replace_all` with the pattern `[^a-zA-Z0-9]+` and the replacement
/// `-`: each maximal run of other characters becomes one `-`.
#[verifier::external_body]
fn replace_non_alnum_runs(value: &str) -> (r: String)
    ensures
        r@ == replace_runs(value@, ascii_alnum_pred(), '-'),
{
    regex::Regex::new(r"[^a-zA-Z0-9]+").unwrap().replace_all(value, "-").into_owned()
}

/// `Regex::replace_all` with the pattern `[^a-z0-9]+` and the replacement
/// `_`: each maximal run of other characters becomes one `_`.
#[verifier::external_body]
fn replace_non_lower_alnum_runs(value: &str) -> (r: String)
    ensures
        r@ == replace_runs(value@, lower_alnum_pred(), '_'),
{
    regex::Regex::new(r"[^a-z0-9]+").unwrap().replace_all(value, "_").into_owned()
}

pub fn dash_runs(v: &Vec<char>) -> (r: Vec<char>)
    ensures
        r@ == replace_runs(v@, ascii_alnum_pred(), '-'),
{
    let s = text::string_of(v);
    let t = replace_non_alnum_runs(s.as_str());
    text::chars_of(t.as_str())
}

pub fn underscore_runs(v: &Vec<char>) -> (r: Vec<char>)
    ensures
        r@ == replace_runs(v@, lower_alnum_pred(), '_'),
{
    let s = text::string_of(v);
    let t = replace_non_lower_alnum_runs(s.as_str());
    text::chars_of(t.as_str())
}

/// The pieces of a script file between separator lines: what
/// `Regex::split` gives with the pattern `(?m)^\s*---+\s*$`.
pub uninterp spec fn script_blocks(content: Seq<char>) -> Seq<Seq<char>>;

/// `Regex::split` with `(?m)^\s*---+\s*$`: the script file cut at lines made
/// of three or more dashes (with optional whitespace, which `\s` takes from
/// the Unicode table). The pieces are named.
#[verifier::external_body]
pub(crate) fn split_script_blocks(content: &str) -> (r: Vec<String>)
    ensures
        strings(r@) == script_blocks(content@),
{
    regex::Regex::new(r"(?m)^\s*---+\s*$").unwrap().split(content).map(|b| b.to_string()).collect()
}

/// What `Regex::replace` with `^\s*(?:[-*]|\d+[.)])\s*` and an empty
/// replacement leaves of a line: the line without a leading bullet or number.
pub uninterp spec fn without_list_marker(raw: Seq<char>) -> Seq<char>;

/// `Regex::replace` with `^\s*(?:[-*]|\d+[.)])\s*` and `""`: drops a leading
/// list marker (`-`, `*`, `12.` or `3)`) with the whitespace around it. The
/// result is named, as `\s` and `\d` are Unicode classes.
#[verifier::external_body]
fn remove_list_marker(raw: &str) -> (r: String)
    ensures
        r@ == without_list_marker(raw@),
{
    regex::Regex::new(r"^\s*(?:[-*]|\d+[.)])\s*").unwrap().replace(raw, "").into_owned()
}

pub fn strip_list_marker(v: &Vec<char>) -> (r: Vec<char>)
    ensures
        r@ == without_list_marker(v@),
{
    let s = text::string_of(v);
    let t = remove_list_marker(s.as_str());
    text::chars_of(t.as_str())
}

/// Whether `(?i)^line_?\d+$` matches the whole key (`line1`, `line_2`, ...).
pub uninterp spec fn numbered_line_key(key: Seq<char>) -> bool;

/// `Regex::is_match` with `(?i)^line_?\d+$`. The answer is named, as `\d`
/// and case folding follow Unicode tables.
#[verifier::external_body]
fn match_numbered_line_key(key: &str) -> (b: bool)
    ensures
        b == numbered_line_key(key@),
{
    regex::Regex::new(r"(?i)^line_?\d+$").unwrap().is_match(key)
}

pub fn is_numbered_line_key(v: &Vec<char>) -> (b: bool)
    ensures
        b == numbered_line_key(v@),
{
    let s = text::string_of(v);
    match_numbered_line_key(s.as_str())
}

/// A letter of `(?i)[a-z]`: an ASCII letter, or one that simple case
/// folding maps to one (U+017F LONG S, U+212A KELVIN SIGN).
pub open spec fn folded_letter(c: char) -> bool {
    text::is_ascii_letter(c) || c == '\u{17f}' || c == '\u{212a}'
}

/// Whether `(?i)^[a-z][a-z0-9_ -]*$` matches the whole key: a letter, then
/// letters, digits, `_`, spaces and `-`; it reads like a metadata label.
#[verifier::opaque]
pub open spec fn metadata_key(key: Seq<char>) -> bool {
    &&& key.len() > 0
    &&& folded_letter(key[0])
    &&& forall|i: int|
        1 <= i < key.len() ==> folded_letter(#[trigger] key[i]) || text::is_ascii_digit(key[i])
            || key[i] == '_' || key[i] == ' ' || key[i] == '-'
}

/// `Regex::is_match` with `(?i)^[a-z][a-z0-9_ -]*$`.
#[verifier::external_body]
fn match_metadata_key(key: &str) -> (b: bool)
    ensures
        b == metadata_key(key@),
{
    regex::Regex::new(r"(?i)^[a-z][a-z0-9_ -]*$").unwrap().is_match(key)
}

pub fn is_metadata_key(v: &Vec<char>) -> (b: bool)
    ensures
        b == metadata_key(v@),
{
    let s = text::string_of(v);
    match_metadata_key(s.as_str())
}

/// The leftmost match of `\d+(?:\.\d+)?` in the text, if any.
pub uninterp spec fn first_number(value: Seq<char>) -> Option<Seq<char>>;

/// `Regex::find` with `\d+(?:\.\d+)?`: the first number in the text. The
/// match is named, as `\d` is the Unicode class of decimal digits.
#[verifier::external_body]
fn find_first_number(value: &str) -> (r: Option<String>)
    ensures
        r matches Some(m) ==> first_number(value@) == Some(m@),
        r is None ==> first_number(value@) is None,
{
    regex::Regex::new(r"\d+(?:\.\d+)?").unwrap().find(value).map(|m| m.as_str().to_string())
}

pub fn first_number_of(v: &Vec<char>) -> (r: Option<Vec<char>>)
    ensures
        r matches Some(m) ==> first_number(v@) == Some(m@),
        r is None ==> first_number(v@) is None,
{
    let s = text::string_of(v);
    match find_first_number(s.as_str()) {
        Some(m) => Some(text::chars_of(m.as_str())),
        None => None,
    }
}

/// A character that may follow the first letter of a hook word: `[A-Za-z'-]`.
pub open spec fn hook_tail_char(c: char) -> bool {
    text::is_ascii_letter(c) || c == '\'' || c == '-'
}

/// A match of `[A-Za-z][A-Za-z'-]{2,}` can start at `i`.
pub open spec fn hook_starts_at(s: Seq<char>, i: int) -> bool {
    0 <= i && i + 3 <= s.len() && text::is_ascii_letter(s[i]) && hook_tail_char(s[i + 1])
        && hook_tail_char(s[i + 2])
}

/// `e` ends the greedy match that starts at `i`.
pub open spec fn hook_ends_at(s: Seq<char>, i: int, e: int) -> bool {
    i + 3 <= e <= s.len() && (forall|k: int| i + 1 <= k < e ==> hook_tail_char(#[trigger] s[k]))
        && (e == s.len() || !hook_tail_char(s[e]))
}

/// The leftmost-first, greedy match of `[A-Za-z][A-Za-z'-]{2,}`.
pub open spec fn first_hook(s: Seq<char>) -> Option<Seq<char>> {
    if exists|i: int| hook_starts_at(s, i) {
        let i = choose|i: int|
            hook_starts_at(s, i) && forall|k: int| 0 <= k < i ==> !hook_starts_at(s, k);
        let e = choose|e: int| hook_ends_at(s, i, e);
        Some(s.subrange(i, e))
    } else {
        None
    }
}

/// `Regex::find` with `[A-Za-z][A-Za-z'-]{2,}`: the leftmost word of at
/// least three characters that starts with an ASCII letter.
#[verifier::external_body]
fn find_hook_word(value: &str) -> (r: Option<String>)
    ensures
        r matches Some(m) ==> first_hook(value@) == Some(m@),
        r is None ==> first_hook(value@) is None,
{
    regex::Regex::new(r"[A-Za-z][A-Za-z'-]{2,}").unwrap().find(value).map(|m| m.as_str().to_string())
}

pub fn first_hook_of(v: &Vec<char>) -> (r: Option<Vec<char>>)
    ensures
        r matches Some(m) ==> first_hook(v@) == Some(m@),
        r is None ==> first_hook(v@) is None,
{
    let s = text::string_of(v);
    match find_hook_word(s.as_str()) {
        Some(m) => Some(text::chars_of(m.as_str())),
        None => None,
    }
}

/// The successive matches of `\d+|\D+`: the text cut into maximal runs of
/// decimal digits and of other characters.
pub uninterp spec fn digit_runs(s: Seq<char>) -> Seq<Seq<char>>;

/// `Regex::find_iter` with `\d+|\D+`. The runs are named, as `\d` is the
/// Unicode class of decimal digits.
#[verifier::external_body]
fn find_digit_runs(value: &str) -> (r: Vec<String>)
    ensures
        strings(r@) == digit_runs(value@),
{
    regex::Regex::new(r"\d+|\D+").unwrap().find_iter(value).map(|m| m.as_str().to_string()).collect()
}

pub fn digit_runs_of(v: &Vec<char>) -> (r: Vec<Vec<char>>)
    ensures
        text::views(r@) == digit_runs(v@),
{
    let s = text::string_of(v);
    let runs = find_digit_runs(s.as_str());
    let mut r: Vec<Vec<char>> = Vec::new();
    let mut i: usize = 0;
    while i < runs.len()
        invariant
            i <= runs.len(),
            text::views(r@) == strings(runs@).take(i as int),
            strings(runs@) == digit_runs(v@),
        decreases runs.len() - i,
    {
        let c = text::chars_of(runs[i].as_str());
        let ghost before = text::views(r@);
        r.push(c);
        assert(text::views(r@) =~= before.push(c@));
        assert(strings(runs@).take(i as int).push(runs@[i as int]@) =~= strings(runs@).take(i + 1));
        i += 1;
    }
    assert(strings(runs@).take(runs.len() as int) =~= strings(runs@));
    r
}

} // verus!
