//! Properties of the library that span its functions: what the naming
//! rules always produce, what parsing always guarantees, how reveal times
//! and background treatments are bounded, and how names are ordered.
use vstd::prelude::*;
use crate::text;
use crate::patterns;
use crate::parser;
use crate::parser::BlurStrength;
use crate::render;
use crate::overlay;
use crate::natural;
use crate::natural::Rank;
use crate::batch;

verus! {

// ---------------------------------------------------------------------------
// Runs replaced by a separator
// ---------------------------------------------------------------------------

/// Every character is kept or is the separator, and no two separators are
/// neighbours.
pub open spec fn runs_collapsed(s: Seq<char>, keep: spec_fn(char) -> bool, sep: char) -> bool {
    &&& forall|i: int| 0 <= i < s.len() ==> keep(#[trigger] s[i]) || s[i] == sep
    &&& forall|i: int| 0 <= i < s.len() - 1 ==> !(#[trigger] s[i] == sep && s[i + 1] == sep)
}

proof fn lemma_runs_collapsed_drop_last(s: Seq<char>, keep: spec_fn(char) -> bool, sep: char)
    requires
        runs_collapsed(s, keep, sep),
        s.len() > 0,
    ensures
        runs_collapsed(s.drop_last(), keep, sep),
{
    let d = s.drop_last();
    assert forall|i: int| 0 <= i < d.len() implies keep(#[trigger] d[i]) || d[i] == sep by {
        assert(d[i] == s[i]);
    }
    assert forall|i: int| 0 <= i < d.len() - 1 implies !(#[trigger] d[i] == sep && d[i + 1] == sep) by {
        assert(d[i] == s[i]);
        assert(d[i + 1] == s[i + 1]);
    }
}

/// Replacing runs in a text whose runs are already single separators
/// changes nothing.
proof fn lemma_replace_runs_fixed(s: Seq<char>, keep: spec_fn(char) -> bool, sep: char)
    requires
        runs_collapsed(s, keep, sep),
        !keep(sep),
    ensures
        patterns::replace_runs(s, keep, sep) == s,
    decreases s.len(),
{
    if s.len() > 0 {
        lemma_runs_collapsed_drop_last(s, keep, sep);
        lemma_replace_runs_fixed(s.drop_last(), keep, sep);
        assert(keep(s.last()) || s.last() == sep);
        if !keep(s.last()) && s.len() >= 2 {
            assert(!(s[s.len() - 2] == sep && s[s.len() - 1] == sep));
            assert(keep(s[s.len() - 2]) || s[s.len() - 2] == sep);
        }
        assert(s.drop_last().push(s.last()) =~= s);
    }
}

/// The result of replacing runs has single separators between kept
/// characters, and it ends with the last character when that is kept.
proof fn lemma_replace_runs_shape(s: Seq<char>, keep: spec_fn(char) -> bool, sep: char)
    requires
        !keep(sep),
    ensures
        runs_collapsed(patterns::replace_runs(s, keep, sep), keep, sep),
        s.len() > 0 && keep(s.last()) ==> patterns::replace_runs(s, keep, sep).len() > 0
            && patterns::replace_runs(s, keep, sep).last() == s.last(),
        s.len() > 0 && !keep(s.last()) ==> patterns::replace_runs(s, keep, sep).len() > 0
            && patterns::replace_runs(s, keep, sep).last() == sep,
    decreases s.len(),
{
    if s.len() > 0 {
        let d = s.drop_last();
        let r0 = patterns::replace_runs(d, keep, sep);
        lemma_replace_runs_shape(d, keep, sep);
        let r = patterns::replace_runs(s, keep, sep);
        if keep(s.last()) {
            assert(r == r0.push(s.last()));
            assert forall|i: int| 0 <= i < r.len() - 1 implies !(#[trigger] r[i] == sep && r[i + 1] == sep) by {
                if i < r0.len() - 1 {
                    assert(r[i] == r0[i] && r[i + 1] == r0[i + 1]);
                }
            }
            assert forall|i: int| 0 <= i < r.len() implies keep(#[trigger] r[i]) || r[i] == sep by {
                if i < r0.len() {
                    assert(r[i] == r0[i]);
                }
            }
        } else if s.len() >= 2 && !keep(s[s.len() - 2]) {
            assert(d.last() == s[s.len() - 2]);
        } else {
            assert(r == r0.push(sep));
            if s.len() >= 2 {
                assert(d.last() == s[s.len() - 2]);
            }
            assert forall|i: int| 0 <= i < r.len() - 1 implies !(#[trigger] r[i] == sep && r[i + 1] == sep) by {
                if i < r0.len() - 1 {
                    assert(r[i] == r0[i] && r[i + 1] == r0[i + 1]);
                } else {
                    assert(r[i] == r0.last());
                }
            }
            assert forall|i: int| 0 <= i < r.len() implies keep(#[trigger] r[i]) || r[i] == sep by {
                if i < r0.len() {
                    assert(r[i] == r0[i]);
                }
            }
        }
    }
}


// ---------------------------------------------------------------------------
// Trimming and case
// ---------------------------------------------------------------------------

proof fn lemma_strip_start(s: Seq<char>, p: spec_fn(char) -> bool) -> (k: int)
    ensures
        0 <= k <= s.len(),
        text::strip_start(s, p) == s.subrange(k, s.len() as int),
        k < s.len() ==> !p(s[k]),
    decreases s.len(),
{
    if s.len() > 0 && p(s[0]) {
        let k0 = lemma_strip_start(s.drop_first(), p);
        assert(s.drop_first().subrange(k0, s.len() - 1) =~= s.subrange(k0 + 1, s.len() as int));
        if k0 < s.len() - 1 {
            assert(s.drop_first()[k0] == s[k0 + 1]);
        }
        k0 + 1
    } else {
        assert(s.subrange(0, s.len() as int) =~= s);
        0
    }
}

proof fn lemma_strip_end(s: Seq<char>, p: spec_fn(char) -> bool) -> (k: int)
    ensures
        0 <= k <= s.len(),
        text::strip_end(s, p) == s.subrange(0, k),
        k > 0 ==> !p(s[k - 1]),
    decreases s.len(),
{
    if s.len() > 0 && p(s.last()) {
        let k0 = lemma_strip_end(s.drop_last(), p);
        assert(s.drop_last().subrange(0, k0) =~= s.subrange(0, k0));
        if k0 > 0 {
            assert(s.drop_last()[k0 - 1] == s[k0 - 1]);
        }
        k0
    } else {
        assert(s.subrange(0, s.len() as int) =~= s);
        s.len() as int
    }
}

/// Trimming by a predicate keeps a stretch of the text that neither starts
/// nor ends with a character it matches.
proof fn lemma_trim_pred(s: Seq<char>, p: spec_fn(char) -> bool) -> (bounds: (int, int))
    ensures
        0 <= bounds.0 <= bounds.1 <= s.len(),
        text::strip_end(text::strip_start(s, p), p) == s.subrange(bounds.0, bounds.1),
        bounds.0 < bounds.1 ==> !p(s[bounds.0]) && !p(s[bounds.1 - 1]),
{
    let a = lemma_strip_start(s, p);
    let mid = s.subrange(a, s.len() as int);
    let b = lemma_strip_end(mid, p);
    assert(mid.subrange(0, b) =~= s.subrange(a, a + b));
    if b > 0 {
        assert(mid[0] == s[a]);
        assert(mid[b - 1] == s[a + b - 1]);
    }
    (a, a + b)
}

/// Trimming whitespace twice is trimming it once.
proof fn lemma_trim_ws_fixed(s: Seq<char>)
    ensures
        text::trim_ws(text::trim_ws(s)) == text::trim_ws(s),
{
    let (a, b) = lemma_trim_pred(s, text::ws_pred());
    let t = s.subrange(a, b);
    if t.len() > 0 {
        assert(t[0] == s[a]);
        assert(t.last() == s[b - 1]);
        assert(text::strip_start(t, text::ws_pred()) == t);
        assert(text::strip_end(t, text::ws_pred()) == t);
    }
}

/// Trimming a character keeps a stretch of the text that neither starts nor
/// ends with it.
proof fn lemma_trim_char(s: Seq<char>, x: char) -> (bounds: (int, int))
    ensures
        0 <= bounds.0 <= bounds.1 <= s.len(),
        text::trim_char(s, x) == s.subrange(bounds.0, bounds.1),
        bounds.0 < bounds.1 ==> s[bounds.0] != x && s[bounds.1 - 1] != x,
{
    let a = lemma_strip_start(s, text::char_pred(x));
    let mid = s.subrange(a, s.len() as int);
    let b = lemma_strip_end(mid, text::char_pred(x));
    assert(mid.subrange(0, b) =~= s.subrange(a, a + b));
    if b > 0 {
        assert(mid[0] == s[a]);
        assert(mid[b - 1] == s[a + b - 1]);
    }
    (a, a + b)
}

proof fn lemma_collapsed_subrange(s: Seq<char>, keep: spec_fn(char) -> bool, sep: char, a: int, b: int)
    requires
        runs_collapsed(s, keep, sep),
        0 <= a <= b <= s.len(),
    ensures
        runs_collapsed(s.subrange(a, b), keep, sep),
{
    let t = s.subrange(a, b);
    assert forall|i: int| 0 <= i < t.len() implies keep(#[trigger] t[i]) || t[i] == sep by {
        assert(t[i] == s[a + i]);
    }
    assert forall|i: int| 0 <= i < t.len() - 1 implies !(#[trigger] t[i] == sep && t[i + 1] == sep) by {
        assert(t[i] == s[a + i]);
        assert(t[i + 1] == s[a + i + 1]);
    }
}

/// A text that neither starts nor ends with `x` is its own trim.
proof fn lemma_trim_char_fixed(s: Seq<char>, x: char)
    requires
        s.len() > 0,
        s[0] != x,
        s.last() != x,
    ensures
        text::trim_char(s, x) == s,
{
    assert(text::strip_start(s, text::char_pred(x)) == s);
    assert(text::strip_end(s, text::char_pred(x)) == s);
}

/// Text made of lower-case letters, digits and separators is its own lower
/// case.
proof fn lemma_lowercase_fixed(s: Seq<char>, sep: char)
    requires
        runs_collapsed(s, patterns::lower_alnum_pred(), sep),
        text::is_ascii_char(sep),
        !text::is_ascii_upper(sep),
    ensures
        text::unicode_lowercase(s) == s,
{
    assert forall|i: int| 0 <= i < s.len() implies text::is_ascii_char(#[trigger] s[i]) by {
        assert(patterns::lower_alnum_pred()(s[i]) || s[i] == sep);
    }
    assert(text::ascii_lower_seq(s) =~= s) by {
        assert forall|i: int| 0 <= i < s.len() implies text::ascii_lower_seq(s)[i] == s[i] by {
            assert(patterns::lower_alnum_pred()(s[i]) || s[i] == sep);
        }
    }
}

// ---------------------------------------------------------------------------
// Slugs
// ---------------------------------------------------------------------------

/// A slug: non-empty lower-case letters and digits, single `-` between
/// them, no `-` at either end.
pub open spec fn is_slug(t: Seq<char>) -> bool {
    &&& t.len() > 0
    &&& runs_collapsed(t, patterns::lower_alnum_pred(), '-')
    &&& t[0] != '-'
    &&& t.last() != '-'
}

/// Whatever the text, `slugify` gives a slug.
pub proof fn law_slugify_gives_slug(v: Seq<char>)
    ensures
        is_slug(parser::slug_of(v)),
{
    let keep = patterns::ascii_alnum_pred();
    let r = patterns::replace_runs(v, keep, '-');
    lemma_replace_runs_shape(v, keep, '-');
    assert forall|i: int| 0 <= i < r.len() implies text::is_ascii_char(#[trigger] r[i]) by {
        assert(keep(r[i]) || r[i] == '-');
    }
    let l = text::unicode_lowercase(r);
    assert(l == text::ascii_lower_seq(r));
    assert(runs_collapsed(l, patterns::lower_alnum_pred(), '-')) by {
        assert forall|i: int| 0 <= i < l.len() implies patterns::lower_alnum_pred()(#[trigger] l[i]) || l[i] == '-' by {
            assert(l[i] == text::ascii_lower(r[i]));
            assert(keep(r[i]) || r[i] == '-');
        }
        assert forall|i: int| 0 <= i < l.len() - 1 implies !(#[trigger] l[i] == '-' && l[i + 1] == '-') by {
            assert(l[i] == text::ascii_lower(r[i]));
            assert(l[i + 1] == text::ascii_lower(r[i + 1]));
            assert(keep(r[i]) || r[i] == '-');
            assert(keep(r[i + 1]) || r[i + 1] == '-');
            assert(!(r[i] == '-' && r[i + 1] == '-'));
        }
    }
    let (a, b) = lemma_trim_char(l, '-');
    let t = text::trim_char(l, '-');
    if t.len() > 0 {
        lemma_collapsed_subrange(l, patterns::lower_alnum_pred(), '-', a, b);
        assert(t[0] == l[a]);
        assert(t.last() == l[b - 1]);
    } else {
        reveal_strlit("reel");
        let reel = parser::slug_of(v);
        assert(reel == "reel"@);
        assert(runs_collapsed(reel, patterns::lower_alnum_pred(), '-')) by {
            assert forall|i: int| 0 <= i < reel.len() implies patterns::lower_alnum_pred()(#[trigger] reel[i]) || reel[i] == '-' by {
            }
        }
    }
}

/// A slug is its own slug.
pub proof fn law_slug_is_fixed(t: Seq<char>)
    requires
        is_slug(t),
    ensures
        parser::slug_of(t) == t,
{
    let keep = patterns::ascii_alnum_pred();
    assert(runs_collapsed(t, keep, '-')) by {
        assert forall|i: int| 0 <= i < t.len() implies keep(#[trigger] t[i]) || t[i] == '-' by {
            assert(patterns::lower_alnum_pred()(t[i]) || t[i] == '-');
        }
    }
    lemma_replace_runs_fixed(t, keep, '-');
    lemma_lowercase_fixed(t, '-');
    lemma_trim_char_fixed(t, '-');
}

/// Slugifying twice gives the same slug as once.
pub proof fn law_slugify_idempotent(v: Seq<char>)
    ensures
        parser::slug_of(parser::slug_of(v)) == parser::slug_of(v),
{
    law_slugify_gives_slug(v);
    law_slug_is_fixed(parser::slug_of(v));
}


/// The maximal runs of characters that `keep` accepts, in order.
pub open spec fn runs(s: Seq<char>, keep: spec_fn(char) -> bool) -> Seq<Seq<char>>
    decreases s.len(),
{
    if s.len() == 0 {
        seq![]
    } else {
        let r = runs(s.drop_last(), keep);
        if !keep(s.last()) {
            r
        } else if s.len() >= 2 && keep(s[s.len() - 2]) && r.len() > 0 {
            r.drop_last().push(r.last().push(s.last()))
        } else {
            r.push(seq![s.last()])
        }
    }
}

/// Each run is non-empty and made of accepted characters; a text ending in
/// an accepted character has a run.
proof fn lemma_runs_shape(s: Seq<char>, keep: spec_fn(char) -> bool)
    ensures
        s.len() > 0 && keep(s.last()) ==> runs(s, keep).len() > 0,
        forall|k: int| 0 <= k < runs(s, keep).len() ==> (#[trigger] runs(s, keep)[k]).len() > 0,
        forall|k: int, j: int|
            0 <= k < runs(s, keep).len() && 0 <= j < runs(s, keep)[k].len() ==> keep(
                #[trigger] runs(s, keep)[k][j],
            ),
    decreases s.len(),
{
    if s.len() > 0 {
        let d = s.drop_last();
        lemma_runs_shape(d, keep);
        let r = runs(d, keep);
        let rs = runs(s, keep);
        if !keep(s.last()) {
        } else if s.len() >= 2 && keep(s[s.len() - 2]) && r.len() > 0 {
            assert forall|k: int| 0 <= k < rs.len() implies (#[trigger] rs[k]).len() > 0 by {
                if k < r.len() - 1 {
                    assert(rs[k] == r[k]);
                }
            }
            assert forall|k: int, j: int| 0 <= k < rs.len() && 0 <= j < rs[k].len() implies keep(#[trigger] rs[k][j]) by {
                if k < r.len() - 1 {
                    assert(rs[k] == r[k]);
                } else {
                    assert(rs[k] == r[k].push(s.last()));
                    if j < r[k].len() {
                        assert(rs[k][j] == r[k][j]);
                    }
                }
            }
        } else {
            assert forall|k: int| 0 <= k < rs.len() implies (#[trigger] rs[k]).len() > 0 by {
                if k < r.len() {
                    assert(rs[k] == r[k]);
                }
            }
            assert forall|k: int, j: int| 0 <= k < rs.len() && 0 <= j < rs[k].len() implies keep(#[trigger] rs[k][j]) by {
                if k < r.len() {
                    assert(rs[k] == r[k]);
                }
            }
        }
    }
}

proof fn lemma_strip_start_push(x: Seq<char>, c: char, p: spec_fn(char) -> bool)
    ensures
        text::strip_start(x.push(c), p) == if text::strip_start(x, p).len() == 0 && p(c) {
            seq![]
        } else {
            text::strip_start(x, p).push(c)
        },
    decreases x.len(),
{
    let xc = x.push(c);
    assert(xc[0] == if x.len() == 0 { c } else { x[0] });
    if x.len() == 0 {
        assert(xc.drop_first() =~= Seq::<char>::empty());
        assert(text::strip_start(x, p) == x);
        if p(c) {
            assert(text::strip_start(xc, p) == text::strip_start(xc.drop_first(), p));
        } else {
            assert(text::strip_start(xc, p) == xc);
        }
    } else if p(x[0]) {
        assert(xc.drop_first() =~= x.drop_first().push(c));
        lemma_strip_start_push(x.drop_first(), c, p);
        assert(text::strip_start(xc, p) == text::strip_start(xc.drop_first(), p));
        assert(text::strip_start(x, p) == text::strip_start(x.drop_first(), p));
    } else {
        assert(text::strip_start(xc, p) == xc);
        assert(text::strip_start(x, p) == x);
    }
}

proof fn lemma_join_extend(ws: Seq<Seq<char>>, c: char, sep: Seq<char>)
    requires
        ws.len() > 0,
    ensures
        text::join_with(ws.drop_last().push(ws.last().push(c)), sep) == text::join_with(ws, sep).push(c),
{
    let nw = ws.drop_last().push(ws.last().push(c));
    if ws.len() > 1 {
        assert(nw.drop_last() =~= ws.drop_last());
        assert(text::join_with(ws.drop_last(), sep) + sep + ws.last().push(c) =~= (text::join_with(
            ws.drop_last(),
            sep,
        ) + sep + ws.last()).push(c));
    }
}

pub open spec fn lower_runs(s: Seq<char>) -> Seq<Seq<char>> {
    runs(s, patterns::ascii_alnum_pred()).map_values(|w: Seq<char>| text::ascii_lower_seq(w))
}

/// The slug before its ends are trimmed, with its leading `-` dropped: the
/// lower-cased runs joined by `-`, followed by `-` when the text ends in
/// other characters.
proof fn lemma_slug_core(s: Seq<char>)
    ensures
        text::strip_start(
            text::ascii_lower_seq(patterns::replace_runs(s, patterns::ascii_alnum_pred(), '-')),
            text::char_pred('-'),
        ) == if lower_runs(s).len() == 0 {
            seq![]
        } else if text::is_ascii_alnum(s.last()) {
            text::join_with(lower_runs(s), seq!['-'])
        } else {
            text::join_with(lower_runs(s), seq!['-']).push('-')
        },
    decreases s.len(),
{
    let keep = patterns::ascii_alnum_pred();
    let p = text::char_pred('-');
    let f = |w: Seq<char>| text::ascii_lower_seq(w);
    if s.len() > 0 {
        let d = s.drop_last();
        let c = s.last();
        lemma_slug_core(d);
        lemma_runs_shape(d, keep);
        let r0 = patterns::replace_runs(d, keep, '-');
        let l0 = text::ascii_lower_seq(r0);
        let r = runs(d, keep);
        let lr0 = lower_runs(d);
        let j0 = text::join_with(lr0, seq!['-']);
        let lc = text::ascii_lower(c);
        if keep(c) {
            assert(text::ascii_lower_seq(r0.push(c)) =~= l0.push(lc));
            lemma_strip_start_push(l0, lc, p);
            if s.len() >= 2 && keep(s[s.len() - 2]) && r.len() > 0 {
                assert(d.last() == s[s.len() - 2]);
                assert(runs(s, keep) == r.drop_last().push(r.last().push(c)));
                assert(text::ascii_lower_seq(r.last().push(c)) =~= text::ascii_lower_seq(r.last()).push(lc));
                assert(lr0.last() == text::ascii_lower_seq(r.last()));
                assert(lower_runs(s) =~= lr0.drop_last().push(lr0.last().push(lc)));
                lemma_join_extend(lr0, lc, seq!['-']);
            } else {
                assert(runs(s, keep) == r.push(seq![c]));
                assert(text::ascii_lower_seq(seq![c]) =~= seq![lc]);
                assert(lower_runs(s) =~= lr0.push(seq![lc]));
                assert(lr0.len() == r.len());
                if d.len() == 0 {
                    assert(r =~= Seq::<Seq<char>>::empty());
                }
                if lr0.len() > 0 {
                    assert(d.len() > 0);
                    assert(!keep(d.last()));
                    assert(lower_runs(s).drop_last() =~= lr0);
                    assert(j0.push('-').push(lc) =~= j0 + seq!['-'] + seq![lc]);
                } else {
                    assert(d.len() > 0 ==> !keep(d.last()));
                    assert(seq![lc] =~= Seq::<char>::empty().push(lc));
                }
            }
        } else {
            assert(lower_runs(s) =~= lr0);
            if s.len() >= 2 && !keep(s[s.len() - 2]) {
                assert(d.last() == s[s.len() - 2]);
            } else {
                assert(text::ascii_lower_seq(r0.push('-')) =~= l0.push('-'));
                lemma_strip_start_push(l0, '-', p);
                if lr0.len() > 0 {
                    assert(d.len() > 0);
                }
            }
        }
    }
}

proof fn lemma_join_last(ws: Seq<Seq<char>>, sep: Seq<char>)
    requires
        ws.len() > 0,
        ws.last().len() > 0,
    ensures
        text::join_with(ws, sep).len() > 0,
        text::join_with(ws, sep).last() == ws.last().last(),
{
    if ws.len() > 1 {
        let a = text::join_with(ws.drop_last(), sep) + sep;
        assert((a + ws.last()).last() == ws.last().last());
    }
}

/// The parts of a slug are the runs of ASCII letters and digits of the
/// text, lower-cased, in order, joined by `-`; a text without any gives
/// `reel`.
pub proof fn law_slug_parts(v: Seq<char>)
    ensures
        lower_runs(v).len() == runs(v, patterns::ascii_alnum_pred()).len(),
        lower_runs(v).len() == 0 ==> parser::slug_of(v) == "reel"@,
        lower_runs(v).len() > 0 ==> parser::slug_of(v) == text::join_with(lower_runs(v), seq!['-']),
{
    let keep = patterns::ascii_alnum_pred();
    let r = patterns::replace_runs(v, keep, '-');
    lemma_replace_runs_shape(v, keep, '-');
    assert forall|i: int| 0 <= i < r.len() implies text::is_ascii_char(#[trigger] r[i]) by {
        assert(keep(r[i]) || r[i] == '-');
    }
    assert(text::unicode_lowercase(r) == text::ascii_lower_seq(r));
    lemma_slug_core(v);
    lemma_runs_shape(v, keep);
    let lr = lower_runs(v);
    let j = text::join_with(lr, seq!['-']);
    if lr.len() > 0 {
        let rv = runs(v, keep);
        let w = rv.last();
        assert(w == rv[rv.len() - 1]);
        assert(w.len() > 0);
        assert(keep(w[w.len() - 1]));
        assert(lr.last() == text::ascii_lower_seq(w));
        assert(lr.last().last() == text::ascii_lower(w.last()));
        lemma_join_last(lr, seq!['-']);
        assert(j.last() != '-');
        assert(text::strip_end(j, text::char_pred('-')) == j);
        if !text::is_ascii_alnum(v.last()) {
            assert(j.push('-').drop_last() =~= j);
            assert(text::strip_end(j.push('-'), text::char_pred('-')) == text::strip_end(j, text::char_pred('-')));
        }
    }
}

// ---------------------------------------------------------------------------
// Layout names
// ---------------------------------------------------------------------------

/// The names `normalize_layout` can give.
pub open spec fn is_canonical_layout(k: Seq<char>) -> bool {
    ||| k == "question_answer"@
    ||| k == "list_style"@
    ||| k == "center_stack"@
    ||| k == "left_stack"@
    ||| k == "right_stack"@
    ||| k == "top_bottom"@
    ||| k == "one_word_hook"@
    ||| k == "quote_style"@
    ||| k == "story_block"@
    ||| k == "progress_reveal"@
    ||| k == "center_card"@
    ||| parser::is_named_layout(k)
}

/// Lower-case letters with single `_` between them.
pub open spec fn underscored(s: Seq<char>) -> bool
    decreases s.len(),
{
    if s.len() == 0 {
        true
    } else {
        (text::is_ascii_lower(s[0]) || (s[0] == '_' && s.len() > 1 && s[1] != '_')) && underscored(
            s.drop_first(),
        )
    }
}

proof fn lemma_underscored(s: Seq<char>)
    requires
        underscored(s),
    ensures
        runs_collapsed(s, patterns::lower_alnum_pred(), '_'),
        s.len() > 0 ==> s.last() != '_',
    decreases s.len(),
{
    if s.len() > 0 {
        let t = s.drop_first();
        lemma_underscored(t);
        assert forall|i: int| 0 <= i < s.len() implies patterns::lower_alnum_pred()(#[trigger] s[i]) || s[i] == '_' by {
            if i > 0 {
                assert(s[i] == t[i - 1]);
            }
        }
        assert forall|i: int| 0 <= i < s.len() - 1 implies !(#[trigger] s[i] == '_' && s[i + 1] == '_') by {
            if i > 0 {
                assert(s[i] == t[i - 1]);
                assert(s[i + 1] == t[i]);
            }
        }
        if s.len() > 1 {
            assert(s.last() == t.last());
        }
    }
}

proof fn lemma_layout_name_ok(k: Seq<char>)
    requires
        k.len() > 0,
        k[0] != '_',
        underscored(k),
    ensures
        parser::layout_key(k) == k,
{
    lemma_underscored(k);
    lemma_lowercase_fixed(k, '_');
    lemma_replace_runs_fixed(k, patterns::lower_alnum_pred(), '_');
    lemma_trim_char_fixed(k, '_');
}

/// `normalize_layout` always gives one of its canonical names.
pub proof fn law_layout_is_canonical(v: Seq<char>)
    ensures
        is_canonical_layout(parser::normalized_layout(v)),
{
}

/// A canonical layout name is its own normal form.
#[verifier::spinoff_prover]
#[verifier::rlimit(60)]
pub proof fn law_canonical_layout_fixed(k: Seq<char>)
    requires
        is_canonical_layout(k),
    ensures
        parser::normalized_layout(k) == k,
{
    reveal_strlit("question_answer");
    reveal_strlit("list_style");
    reveal_strlit("center_stack");
    reveal_strlit("left_stack");
    reveal_strlit("right_stack");
    reveal_strlit("top_bottom");
    reveal_strlit("one_word_hook");
    reveal_strlit("quote_style");
    reveal_strlit("story_block");
    reveal_strlit("progress_reveal");
    reveal_strlit("center_card");
    reveal_strlit("two_column_split");
    reveal_strlit("grid_layout");
    reveal_strlit("masonry_layout");
    reveal_strlit("hero_list");
    reveal_strlit("alternating_rows");
    reveal_strlit("sidebar_layout");
    reveal_strlit("collage_layout");
    reveal_strlit("auto_fit_tiles");
    reveal_strlit("tabbed_layout");
    reveal_strlit("magazine_layout");
    reveal_strlit("template_rotation_layout");
    reveal_strlit("priority_based_layout");
    reveal_strlit("adaptive_smart_layout");
    reveal_strlit("fallback_universal_layout");
    reveal_strlit("question");
    reveal_strlit("answer");
    reveal_strlit("advice");
    reveal_strlit("list");
    reveal_strlit("reels");
    reveal_strlit("center");
    reveal_strlit("left");
    reveal_strlit("right");
    reveal_strlit("one_word");
    reveal_strlit("quote");
    reveal_strlit("story");
    reveal_strlit("full_text");
    reveal_strlit("full_list");
    reveal_strlit("all_at_once");
    reveal_strlit("static_text");
    reveal_strlit("progress");
    reveal_strlit("card");
    reveal_with_fuel(underscored, 26);
        if k == "question_answer"@ {
            lemma_layout_name_ok(k);
        }
        if k == "list_style"@ {
            lemma_layout_name_ok(k);
        }
        if k == "center_stack"@ {
            lemma_layout_name_ok(k);
        }
        if k == "left_stack"@ {
            lemma_layout_name_ok(k);
        }
        if k == "right_stack"@ {
            lemma_layout_name_ok(k);
        }
        if k == "top_bottom"@ {
            lemma_layout_name_ok(k);
        }
        if k == "one_word_hook"@ {
            lemma_layout_name_ok(k);
        }
        if k == "quote_style"@ {
            lemma_layout_name_ok(k);
        }
        if k == "story_block"@ {
            lemma_layout_name_ok(k);
        }
        if k == "progress_reveal"@ {
            lemma_layout_name_ok(k);
        }
        if k == "center_card"@ {
            lemma_layout_name_ok(k);
        }
        if k == "two_column_split"@ {
            lemma_layout_name_ok(k);
        }
        if k == "grid_layout"@ {
            lemma_layout_name_ok(k);
        }
        if k == "masonry_layout"@ {
            lemma_layout_name_ok(k);
        }
        if k == "hero_list"@ {
            lemma_layout_name_ok(k);
        }
        if k == "alternating_rows"@ {
            lemma_layout_name_ok(k);
        }
        if k == "sidebar_layout"@ {
            lemma_layout_name_ok(k);
        }
        if k == "collage_layout"@ {
            lemma_layout_name_ok(k);
        }
        if k == "auto_fit_tiles"@ {
            lemma_layout_name_ok(k);
        }
        if k == "tabbed_layout"@ {
            lemma_layout_name_ok(k);
        }
        if k == "magazine_layout"@ {
            lemma_layout_name_ok(k);
        }
        if k == "template_rotation_layout"@ {
            lemma_layout_name_ok(k);
        }
        if k == "priority_based_layout"@ {
            lemma_layout_name_ok(k);
        }
        if k == "adaptive_smart_layout"@ {
            lemma_layout_name_ok(k);
        }
        if k == "fallback_universal_layout"@ {
            lemma_layout_name_ok(k);
        }
}

/// Normalizing a layout name twice gives the same name as once.
pub proof fn law_normalize_layout_idempotent(v: Seq<char>)
    ensures
        parser::normalized_layout(parser::normalized_layout(v)) == parser::normalized_layout(v),
{
    law_layout_is_canonical(v);
    law_canonical_layout_fixed(parser::normalized_layout(v));
}


// ---------------------------------------------------------------------------
// Blur strength
// ---------------------------------------------------------------------------

/// A blur strength's name reads back as that strength.
pub proof fn law_blur_name_round_trip(b: BlurStrength)
    ensures
        parser::blur_from_text(parser::blur_name(b)) == b,
{
    reveal_strlit("none");
    reveal_strlit("light");
    reveal_strlit("middle");
    reveal_strlit("medium");
    reveal_strlit("heavy");
    let n = parser::blur_name(b);
    reveal_with_fuel(underscored, 7);
    assert(underscored(n));
    lemma_underscored(n);
    assert(text::strip_start(n, text::ws_pred()) == n);
    assert(text::strip_end(n, text::ws_pred()) == n);
    lemma_lowercase_fixed(n, '_');
}


// ---------------------------------------------------------------------------
// Parsing
// ---------------------------------------------------------------------------

/// A point as the parser keeps it: non-empty, trimmed, and not a pause
/// marker.
pub open spec fn point_ok(p: Seq<char>) -> bool {
    &&& p.len() > 0
    &&& text::trim_ws(p) == p
    &&& !parser::is_pause_marker(p)
}

/// Each point has its pause count, and every point is non-empty trimmed
/// text that is not a pause marker.
pub open spec fn points_ok(st: parser::ScriptView) -> bool {
    &&& parser::well_formed(st)
    &&& forall|i: int| 0 <= i < st.points.len() ==> point_ok(#[trigger] st.points[i])
}

proof fn lemma_push_point_ok(st: parser::ScriptView, raw: Seq<char>)
    requires
        points_ok(st),
    ensures
        points_ok(parser::push_point(st, raw)),
{
    let r = parser::push_point(st, raw);
    lemma_trim_ws_fixed(patterns::without_list_marker(raw));
    assert forall|i: int| 0 <= i < r.points.len() implies point_ok(#[trigger] r.points[i]) by {
        if i < st.points.len() {
            assert(r.points[i] == st.points[i]);
        }
    }
}

proof fn lemma_read_line_ok(st: parser::ScriptView, raw: Seq<char>)
    requires
        points_ok(st),
        is_canonical_layout(st.layout),
    ensures
        points_ok(parser::read_line(st, raw)),
        is_canonical_layout(parser::read_line(st, raw).layout),
{
    let line = parser::clean_line(raw);
    if line.len() > 0 {
        match text::first_index_of(line, ':') {
            None => lemma_push_point_ok(st, line),
            Some(pos) => {
                let key = text::unicode_lowercase(text::trim_ws(line.take(pos)));
                let value = text::trim_ws(line.skip(pos + 1));
                lemma_push_point_ok(st, value);
                lemma_push_point_ok(st, line);
                lemma_apply_field_points(st, line, key, value);
                lemma_apply_field_layout(st, line, key, value);
            },
        }
    }
}

proof fn lemma_apply_field_points(st: parser::ScriptView, line: Seq<char>, key: Seq<char>, value: Seq<char>)
    requires
        points_ok(st),
        points_ok(parser::push_point(st, value)),
        points_ok(parser::push_point(st, line)),
    ensures
        points_ok(parser::apply_field(st, line, key, value)),
{
}

proof fn lemma_apply_field_layout(st: parser::ScriptView, line: Seq<char>, key: Seq<char>, value: Seq<char>)
    requires
        is_canonical_layout(st.layout),
    ensures
        is_canonical_layout(parser::apply_field(st, line, key, value).layout),
{
    law_layout_is_canonical(value);
}

proof fn lemma_read_lines_ok(lines: Seq<Seq<char>>)
    ensures
        points_ok(lines.fold_left(parser::initial_state(), parser::read_line_fn())),
        is_canonical_layout(lines.fold_left(parser::initial_state(), parser::read_line_fn()).layout),
    decreases lines.len(),
{
    if lines.len() > 0 {
        lemma_read_lines_ok(lines.drop_last());
        lemma_read_line_ok(
            lines.drop_last().fold_left(parser::initial_state(), parser::read_line_fn()),
            lines.last(),
        );
    }
}

proof fn lemma_finish_ok(st: parser::ScriptView, index: nat)
    requires
        points_ok(st),
    ensures
        parser::finish(st, index).title.len() > 0,
        points_ok(parser::finish(st, index)),
        parser::finish(st, index).layout == st.layout,
{
    let r = parser::finish(st, index);
    if st.title.len() == 0 && st.points.len() > 0 {
        assert forall|i: int| 0 <= i < r.points.len() implies point_ok(#[trigger] r.points[i]) by {
            assert(r.points[i] == st.points[i + 1]);
        }
    } else if st.title.len() == 0 {
        reveal_strlit("Video ");
    }
}

/// Every script read from a block has a title, a pause count for each point,
/// points that are non-empty trimmed text and never pause markers, and a
/// layout that `normalize_layout` leaves as it is.
pub proof fn law_parsed_block_ok(block: Seq<char>, index: nat)
    ensures
        parser::parsed_block(block, index).title.len() > 0,
        points_ok(parser::parsed_block(block, index)),
        is_canonical_layout(parser::parsed_block(block, index).layout),
        parser::normalized_layout(parser::parsed_block(block, index).layout) == parser::parsed_block(
            block,
            index,
        ).layout,
{
    let st = text::text_lines(block).fold_left(parser::initial_state(), parser::read_line_fn());
    lemma_read_lines_ok(text::text_lines(block));
    lemma_finish_ok(st, index);
    law_canonical_layout_fixed(st.layout);
}

proof fn lemma_read_pipe_field_ok(st: parser::ScriptView, field: Seq<char>)
    requires
        points_ok(st),
    ensures
        points_ok(parser::read_pipe_field(st, field)),
        parser::read_pipe_field(st, field).layout == st.layout,
{
    let t = text::trim_ws(field);
    lemma_push_point_ok(st, t);
    if t.len() > 0 {
        match text::first_index_of(t, ':') {
            Some(pos) => {
                let value = text::trim_ws(t.skip(pos + 1));
                lemma_push_point_ok(st, value);
            },
            None => {},
        }
    }
}

proof fn lemma_pipe_fields_ok(fields: Seq<Seq<char>>, start: parser::ScriptView)
    requires
        points_ok(start),
    ensures
        points_ok(fields.fold_left(start, parser::read_pipe_field_fn())),
        fields.fold_left(start, parser::read_pipe_field_fn()).layout == start.layout,
    decreases fields.len(),
{
    if fields.len() > 0 {
        lemma_pipe_fields_ok(fields.drop_last(), start);
        lemma_read_pipe_field_ok(
            fields.drop_last().fold_left(start, parser::read_pipe_field_fn()),
            fields.last(),
        );
    }
}

/// Every reel read from a pipe row has a title, a pause count for each
/// point, points that are non-empty text and never pause markers, and the
/// layout that the rotation gives its turn.
pub proof fn law_pipe_row_ok(row: Seq<char>, index: nat, turn: nat)
    ensures
        parser::parsed_pipe_row(row, index, turn).title.len() > 0,
        points_ok(parser::parsed_pipe_row(row, index, turn)),
        parser::parsed_pipe_row(row, index, turn).layout == parser::rotation_layout(turn),
        parser::normalized_layout(parser::parsed_pipe_row(row, index, turn).layout)
            == parser::parsed_pipe_row(row, index, turn).layout,
{
    law_rotation_cycles(turn);
    let f = text::split_fields(row, '|');
    let start = parser::ScriptView {
        title: if f.len() >= 2 {
            text::trim_ws(f[1])
        } else {
            seq![]
        },
        code: if f.len() >= 3 {
            text::trim_ws(f.last())
        } else {
            seq![]
        },
        layout: parser::rotation_layout(turn),
        ..parser::initial_state()
    };
    let middle = if f.len() >= 3 {
        f.subrange(2, f.len() - 1)
    } else {
        seq![]
    };
    lemma_pipe_fields_ok(middle, start);
    lemma_finish_ok(middle.fold_left(start, parser::read_pipe_field_fn()), index);
}

/// The pipe-row rotation goes through every visual layout, one by one, and
/// starts over after the last; each layout it gives is a canonical name.
pub proof fn law_rotation_cycles(k: nat)
    ensures
        parser::rotation_layout(k + parser::rotation().len()) == parser::rotation_layout(k),
        parser::rotation().len() == 11,
        is_canonical_layout(parser::rotation_layout(k)),
        parser::normalized_layout(parser::rotation_layout(k)) == parser::rotation_layout(k),
        forall|i: int, j: int|
            0 <= i < j < parser::rotation().len() ==> parser::rotation()[i] != parser::rotation()[j],
{
    assert((k + 11) % 11 == k % 11) by (nonlinear_arith);
    law_canonical_layout_fixed(parser::rotation_layout(k));
    reveal_strlit("question_answer");
    reveal_strlit("left_stack");
    reveal_strlit("right_stack");
    reveal_strlit("list_style");
    reveal_strlit("top_bottom");
    reveal_strlit("one_word_hook");
    reveal_strlit("quote_style");
    reveal_strlit("story_block");
    reveal_strlit("progress_reveal");
    reveal_strlit("center_card");
    reveal_strlit("center_stack");
    let r = parser::rotation();
    assert forall|i: int, j: int| 0 <= i < j < r.len() implies r[i] != r[j] by {
        if r[i] == r[j] {
            assert(r[i].len() == r[j].len());
            assert(r[i][0] == r[j][0]);
            assert(r[i][r[i].len() - 1] == r[j][r[j].len() - 1]);
        }
    }
}

/// Reading the blocks of a file, block by block: a block of pipe rows adds
/// one reel per row, the `j`-th of them taking the layout of the rotation
/// at the number of pipe rows before it in the file plus `j`; any other
/// block adds one reel and leaves that number as it is. Every reel has a
/// title and well-formed points.
pub proof fn law_pipe_rows_rotate_across_file(bs: Seq<Seq<char>>, b: Seq<char>, j: int)
    ensures
        parser::is_pipe_block(b) ==> parser::scripts_of(bs.push(b)).1 == parser::scripts_of(bs).1
            + parser::pipe_rows(b).len(),
        parser::is_pipe_block(b) && 0 <= j < parser::pipe_rows(b).len() ==> parser::scripts_of(
            bs.push(b),
        ).0[parser::scripts_of(bs).0.len() + j].layout == parser::rotation_layout(
            (parser::scripts_of(bs).1 + j) as nat,
        ),
        !parser::is_pipe_block(b) ==> parser::scripts_of(bs.push(b)).1 == parser::scripts_of(bs).1,
        parser::scripts_of(bs.push(b)).0.len() > parser::scripts_of(bs).0.len(),
        parser::scripts_of(bs.push(b)).0.subrange(0, parser::scripts_of(bs).0.len() as int)
            == parser::scripts_of(bs).0,
{
    let bb = bs.push(b);
    assert(bb.drop_last() =~= bs);
    let prev = parser::scripts_of(bs);
    if parser::is_pipe_block(b) {
        let rows = parser::pipe_rows(b);
        if 0 <= j < rows.len() {
            law_pipe_row_ok(rows[j], (prev.0.len() + j) as nat, (prev.1 + j) as nat);
        }
    }
    assert(parser::scripts_of(bb).0.subrange(0, prev.0.len() as int) =~= prev.0);
}

/// A reel as the parser gives it: a title, well-formed points, and a layout
/// that `normalize_layout` leaves as it is.
pub open spec fn reel_ok(s: parser::ScriptView) -> bool {
    &&& s.title.len() > 0
    &&& points_ok(s)
    &&& parser::normalized_layout(s.layout) == s.layout
}

/// Every reel of a file has a title, a pause count for each point, points
/// that are non-empty trimmed text and never pause markers, and a layout
/// that `normalize_layout` leaves as it is.
pub proof fn law_parsed_scripts_ok(bs: Seq<Seq<char>>)
    ensures
        forall|i: int| 0 <= i < parser::scripts_of(bs).0.len() ==> reel_ok(#[trigger] parser::scripts_of(bs).0[i]),
    decreases bs.len(),
{
    if bs.len() > 0 {
        let prev = parser::scripts_of(bs.drop_last());
        law_parsed_scripts_ok(bs.drop_last());
        let b = bs.last();
        let all = parser::scripts_of(bs).0;
        assert forall|i: int| 0 <= i < all.len() implies reel_ok(#[trigger] all[i]) by {
            if i < prev.0.len() {
                assert(all[i] == prev.0[i]);
            } else if parser::is_pipe_block(b) {
                let rows = parser::pipe_rows(b);
                let j = i - prev.0.len();
                law_pipe_row_ok(rows[j], (prev.0.len() + j) as nat, (prev.1 + j) as nat);
            } else {
                law_parsed_block_ok(b, prev.0.len());
            }
        }
    }
}

/// Dropping a point that repeats the title keeps each point's pause count
/// with it.
pub proof fn law_collapse_keeps_points_ok(s: parser::ScriptView)
    requires
        points_ok(s),
    ensures
        points_ok(parser::collapsed(s)),
        parser::collapsed(s).points.len() == s.points.len() || parser::collapsed(s).points
            == s.points.drop_first(),
{
    let r = parser::collapsed(s);
    if s.points.len() > 0 && parser::loose_key(s.title) == parser::loose_key(s.points[0]) {
        assert forall|i: int| 0 <= i < r.points.len() implies point_ok(#[trigger] r.points[i]) by {
            assert(r.points[i] == s.points[i + 1]);
        }
    }
}


// ---------------------------------------------------------------------------
// Reveal times
// ---------------------------------------------------------------------------

/// The title is on screen from the start.
pub proof fn law_title_shows_first(s: parser::ScriptView)
    ensures
        render::reveal_start(s, 0) == 0,
{
}

/// Layers appear in order; when they come one by one, each strictly later
/// than the one before.
pub proof fn law_reveal_order(s: parser::ScriptView, j: nat, k: nat)
    requires
        j <= k,
    ensures
        render::reveal_start(s, j) <= render::reveal_start(s, k),
        !s.all_at_once && j < k ==> render::reveal_start(s, j) < render::reveal_start(s, k),
    decreases k,
{
    if j < k {
        law_reveal_order(s, j, (k - 1) as nat);
        assert(render::wait_after(s, (k - 1) as nat) >= 2500000);
    }
}

/// Reveal times are whole multiples of the 2.5 s step, hence whole frames
/// at 30 frames per second.
pub proof fn law_reveal_on_step(s: parser::ScriptView, k: nat)
    ensures
        render::reveal_start(s, k) % 2500000 == 0,
        (render::reveal_start(s, k) * 30) % 1000000 == 0,
    decreases k,
{
    if !s.all_at_once && k > 0 {
        law_reveal_on_step(s, (k - 1) as nat);
        let w = render::wait_after(s, (k - 1) as nat);
        let prev = render::staggered_start(s, (k - 1) as nat);
        let m: nat = if (k - 1) as nat == 0 {
            1
        } else if (k - 1) as nat - 1 < s.points.len() {
            1 + render::pauses_before(s, k - 2)
        } else {
            1 + s.cta_pause_count_before as nat
        };
        assert(w == 2500000 * m);
        assert((prev + 2500000 * m) % 2500000 == 0) by (nonlinear_arith)
            requires
                prev % 2500000 == 0,
        ;
    }
    let r = render::reveal_start(s, k);
    assert((r * 30) % 1000000 == 0) by (nonlinear_arith)
        requires
            r % 2500000 == 0,
    ;
}

/// Every layer stays on screen at least two seconds before the reel ends.
pub proof fn law_layers_visible_two_seconds(s: parser::ScriptView, n: nat, duration_us: u64, k: nat)
    requires
        k < n,
    ensures
        render::reveal_start(s, k) + 2000000 <= render::effective_duration(s, n, duration_us),
        duration_us <= render::effective_duration(s, n, duration_us),
{
    law_reveal_order(s, k, (n - 1) as nat);
}

// ---------------------------------------------------------------------------
// Background treatments
// ---------------------------------------------------------------------------

/// Every treatment that can be drawn keeps its opacities and blur in range:
/// tints between 10 % and 48 %, cards at most 22 %, blur sigma between 3 and
/// 12; a chosen blur strength always blurs, within its band.
pub proof fn law_treatment_in_range(blur: BlurStrength, t: render::BackgroundTreatment)
    requires
        render::possible_treatment(blur, t),
    ensures
        10 <= t.tint_percent <= 48,
        t.secondary_tint_percent <= 48,
        t.card_percent <= 22,
        t.blur_sigma matches Some(sg) ==> 3 <= sg <= 12,
        blur != BlurStrength::Off ==> (t.blur_sigma matches Some(sg) && render::band_of_strength(
            blur,
            0,
        ).sigma_min <= sg <= render::band_of_strength(blur, 0).sigma_max),
{
    let (vr, br, sg, ti, cd) = choose|variant_roll: u64, band_roll: u64, sigma: u32, tint: u32, card: u32|
        render::valid_draws(blur, variant_roll, band_roll, sigma, tint, card) && t
            == render::treatment_of(blur, variant_roll, sigma, tint, card);
    assert(render::valid_draws(blur, vr, br, sg, ti, cd));
}

// ---------------------------------------------------------------------------
// Overlay layers
// ---------------------------------------------------------------------------

/// The title layer always shows; the next layers show the points in order;
/// the layer after them shows the call to action exactly when there is one;
/// later layers are blank.
pub proof fn law_overlay_layers(s: parser::ScriptView, layer: nat)
    ensures
        layer == 0 ==> overlay::overlay_plan(s, layer) is Some,
        1 <= layer <= s.points.len() ==> overlay::overlay_plan(s, layer) is Some,
        layer == s.points.len() + 1 ==> (overlay::overlay_plan(s, layer) is Some <==> s.cta.len() > 0),
        layer > s.points.len() + 1 ==> overlay::overlay_plan(s, layer) is None,
{
}

// ---------------------------------------------------------------------------
// Loose comparison keys
// ---------------------------------------------------------------------------

pub open spec fn not_white() -> spec_fn(char) -> bool {
    |c: char| !text::unicode_white_space(c)
}

pub open spec fn alnum() -> spec_fn(char) -> bool {
    |c: char| text::unicode_alphanumeric(c)
}

/// The last run extended by `c`.
pub open spec fn extend_last(r: Seq<Seq<char>>, c: char) -> Seq<Seq<char>> {
    r.drop_last().push(r.last().push(c))
}

proof fn lemma_words_from_push(s: Seq<char>, c: char, cur: Seq<char>, i: int)
    requires
        0 <= i <= s.len(),
    ensures
        parser::words_from(s.push(c), cur, i) == if text::unicode_white_space(c) {
            parser::words_from(s, cur, i)
        } else if (i < s.len() && !text::unicode_white_space(s.last())) || (i == s.len() && cur.len()
            > 0) {
            extend_last(parser::words_from(s, cur, i), c)
        } else {
            parser::words_from(s, cur, i).push(seq![c])
        },
        (i < s.len() && !text::unicode_white_space(s.last())) || (i == s.len() && cur.len() > 0)
            ==> parser::words_from(s, cur, i).len() > 0,
    decreases s.len() - i,
{
    let sc = s.push(c);
    let e: Seq<char> = seq![];
    if i == s.len() {
        assert(sc[i] == c);
        assert(parser::words_from(s, cur, i) == parser::word_piece(cur));
        if text::unicode_white_space(c) {
            assert(parser::words_from(sc, e, i + 1) == parser::word_piece(e));
            assert(parser::word_piece(cur) + parser::word_piece(e) =~= parser::word_piece(cur));
        } else {
            assert(parser::words_from(sc, cur.push(c), i + 1) == parser::word_piece(cur.push(c)));
            if cur.len() > 0 {
                assert(extend_last(seq![cur], c) =~= seq![cur.push(c)]);
            } else {
                assert(cur.push(c) =~= seq![c]);
                assert(Seq::<Seq<char>>::empty().push(seq![c]) =~= seq![seq![c]]);
            }
        }
    } else {
        assert(sc[i] == s[i]);
        if text::unicode_white_space(s[i]) {
            lemma_words_from_push(s, c, e, i + 1);
            let a = parser::word_piece(cur);
            let x = parser::words_from(s, e, i + 1);
            assert(parser::words_from(s, cur, i) == a + x);
            assert(parser::words_from(sc, cur, i) == a + parser::words_from(sc, e, i + 1));
            if i + 1 == s.len() {
                assert(s.last() == s[i]);
            }
            if !text::unicode_white_space(c) && i + 1 < s.len() && !text::unicode_white_space(s.last()) {
                assert(x.len() > 0);
                assert(a + extend_last(x, c) =~= extend_last(a + x, c));
            } else {
                assert(a + x.push(seq![c]) =~= (a + x).push(seq![c]));
            }
        } else {
            lemma_words_from_push(s, c, cur.push(s[i]), i + 1);
            if i + 1 == s.len() {
                assert(s.last() == s[i]);
            }
        }
    }
}

/// `str::split_whitespace` gives the maximal runs of non-whitespace
/// characters.
proof fn lemma_split_words_runs(s: Seq<char>)
    ensures
        parser::split_words(s) == runs(s, not_white()),
    decreases s.len(),
{
    if s.len() > 0 {
        let d = s.drop_last();
        let c = s.last();
        lemma_split_words_runs(d);
        lemma_runs_shape(d, not_white());
        assert(d.push(c) =~= s);
        lemma_words_from_push(d, c, seq![], 0);
        if d.len() > 0 {
            assert(d.last() == s[s.len() - 2]);
        }
    }
}

proof fn lemma_key_char(c: char)
    ensures
        !text::unicode_white_space(parser::key_char(c)) <==> text::unicode_alphanumeric(c),
        text::unicode_alphanumeric(c) ==> parser::key_char(c) == text::ascii_lower(c),
{
}

/// The words of a loose key: the maximal runs of letters and digits, ASCII
/// lower-cased.
pub open spec fn loose_words(v: Seq<char>) -> Seq<Seq<char>> {
    runs(v, alnum()).map_values(|w: Seq<char>| text::ascii_lower_seq(w))
}

proof fn lemma_key_runs(v: Seq<char>)
    ensures
        runs(v.map_values(|c: char| parser::key_char(c)), not_white()) == loose_words(v),
    decreases v.len(),
{
    let f = |c: char| parser::key_char(c);
    let m = v.map_values(f);
    if v.len() > 0 {
        let d = v.drop_last();
        let c = v.last();
        lemma_key_runs(d);
        lemma_runs_shape(d, alnum());
        lemma_key_char(c);
        assert(m.drop_last() =~= d.map_values(f));
        assert(m.last() == parser::key_char(c));
        let r = runs(d, alnum());
        let lr = loose_words(d);
        assert(lr.len() == r.len());
        if v.len() >= 2 {
            assert(m[m.len() - 2] == parser::key_char(v[v.len() - 2]));
            lemma_key_char(v[v.len() - 2]);
            assert(d.last() == v[v.len() - 2]);
        }
        if d.len() == 0 {
            assert(r =~= Seq::<Seq<char>>::empty());
        }
        if text::unicode_alphanumeric(c) {
            let lc = text::ascii_lower(c);
            if v.len() >= 2 && text::unicode_alphanumeric(v[v.len() - 2]) && r.len() > 0 {
                assert(runs(v, alnum()) == r.drop_last().push(r.last().push(c)));
                assert(text::ascii_lower_seq(r.last().push(c)) =~= text::ascii_lower_seq(r.last()).push(lc));
                assert(lr.last() == text::ascii_lower_seq(r.last()));
                assert(loose_words(v) =~= lr.drop_last().push(lr.last().push(lc)));
            } else {
                assert(runs(v, alnum()) == r.push(seq![c]));
                assert(text::ascii_lower_seq(seq![c]) =~= seq![lc]);
                assert(loose_words(v) =~= lr.push(seq![lc]));
            }
        } else {
            assert(loose_words(v) =~= lr);
        }
    }
}

/// A character a loose key keeps: a letter or digit, not ASCII upper case.
pub open spec fn key_kept(c: char) -> bool {
    text::unicode_alphanumeric(c) && !text::is_ascii_upper(c)
}

proof fn lemma_loose_words_kept(v: Seq<char>)
    ensures
        forall|k: int| 0 <= k < loose_words(v).len() ==> (#[trigger] loose_words(v)[k]).len() > 0,
        forall|k: int, j: int|
            0 <= k < loose_words(v).len() && 0 <= j < loose_words(v)[k].len() ==> key_kept(
                #[trigger] loose_words(v)[k][j],
            ),
{
    lemma_runs_shape(v, alnum());
    let r = runs(v, alnum());
    let lw = loose_words(v);
    assert forall|k: int, j: int| 0 <= k < lw.len() && 0 <= j < lw[k].len() implies key_kept(#[trigger] lw[k][j]) by {
        assert(lw[k] == text::ascii_lower_seq(r[k]));
        assert(lw[k][j] == text::ascii_lower(r[k][j]));
        assert(text::unicode_alphanumeric(r[k][j]));
    }
    assert forall|k: int| 0 <= k < lw.len() implies (#[trigger] lw[k]).len() > 0 by {
        assert(lw[k] == text::ascii_lower_seq(r[k]));
    }
}

proof fn lemma_join_words_shape(ws: Seq<Seq<char>>)
    requires
        forall|k: int| 0 <= k < ws.len() ==> (#[trigger] ws[k]).len() > 0,
        forall|k: int, j: int| 0 <= k < ws.len() && 0 <= j < ws[k].len() ==> key_kept(#[trigger] ws[k][j]),
    ensures
        runs_collapsed(parser::join_words(ws), |c: char| key_kept(c), ' '),
        parser::join_words(ws).len() > 0 ==> parser::join_words(ws)[0] != ' ' && parser::join_words(
            ws,
        ).last() != ' ',
        ws.len() > 0 ==> parser::join_words(ws).len() > 0,
    decreases ws.len(),
{
    let q = |c: char| key_kept(c);
    let k = parser::join_words(ws);
    if ws.len() == 1 {
        let w = ws[0];
        assert(w.len() > 0);
        assert(key_kept(w[0]));
        assert(key_kept(w[w.len() - 1]));
        assert forall|i: int| 0 <= i < k.len() implies q(#[trigger] k[i]) || k[i] == ' ' by {
            assert(key_kept(w[i]));
        }
    } else if ws.len() > 1 {
        let d = ws.drop_last();
        let w = ws.last();
        assert forall|kk: int| 0 <= kk < d.len() implies (#[trigger] d[kk]).len() > 0 by {
            assert(d[kk] == ws[kk]);
        }
        assert forall|kk: int, j: int| 0 <= kk < d.len() && 0 <= j < d[kk].len() implies key_kept(#[trigger] d[kk][j]) by {
            assert(d[kk] == ws[kk]);
        }
        lemma_join_words_shape(d);
        let a = parser::join_words(d);
        assert(w == ws[ws.len() - 1]);
        assert(w.len() > 0);
        assert(k == a + seq![' '] + w);
        assert(key_kept(w[0]));
        assert(key_kept(w[w.len() - 1]));
        assert(k[0] == a[0]);
        assert(k.last() == w[w.len() - 1]);
        assert forall|i: int| 0 <= i < k.len() implies q(#[trigger] k[i]) || k[i] == ' ' by {
            if i < a.len() {
                assert(k[i] == a[i]);
            } else if i > a.len() {
                assert(k[i] == w[i - a.len() - 1]);
                assert(key_kept(w[i - a.len() - 1]));
            }
        }
        assert forall|i: int| 0 <= i < k.len() - 1 implies !(#[trigger] k[i] == ' ' && k[i + 1] == ' ') by {
            if i + 1 < a.len() {
                assert(k[i] == a[i]);
                assert(k[i + 1] == a[i + 1]);
            } else if i + 1 == a.len() {
                assert(k[i] == a.last());
            } else if i == a.len() {
                assert(k[i + 1] == w[0]);
            } else {
                assert(k[i] == w[i - a.len() - 1]);
                assert(key_kept(w[i - a.len() - 1]));
            }
        }
    }
}

proof fn lemma_runs_append_word(x: Seq<char>, w: Seq<char>, keep: spec_fn(char) -> bool)
    requires
        x.len() == 0 || !keep(x.last()),
        w.len() > 0,
        forall|j: int| 0 <= j < w.len() ==> keep(#[trigger] w[j]),
    ensures
        runs(x + w, keep) == runs(x, keep).push(w),
    decreases w.len(),
{
    let w0 = w.drop_last();
    let c = w.last();
    assert(keep(w[w.len() - 1]));
    assert((x + w).drop_last() =~= x + w0);
    assert((x + w).last() == c);
    if w0.len() == 0 {
        assert(x + w0 =~= x);
        if x.len() > 0 {
            assert((x + w)[(x + w).len() - 2] == x.last());
        }
        assert(seq![c] =~= w);
    } else {
        assert forall|j: int| 0 <= j < w0.len() implies keep(#[trigger] w0[j]) by {
            assert(w0[j] == w[j]);
        }
        lemma_runs_append_word(x, w0, keep);
        assert((x + w)[(x + w).len() - 2] == w0.last());
        assert(keep(w[w.len() - 2]));
        assert(w0.push(c) =~= w);
        assert(runs(x, keep).push(w0).drop_last() =~= runs(x, keep));
    }
}

proof fn lemma_runs_join(ws: Seq<Seq<char>>)
    requires
        forall|k: int| 0 <= k < ws.len() ==> (#[trigger] ws[k]).len() > 0,
        forall|k: int, j: int| 0 <= k < ws.len() && 0 <= j < ws[k].len() ==> key_kept(#[trigger] ws[k][j]),
    ensures
        runs(parser::join_words(ws), not_white()) == ws,
    decreases ws.len(),
{
    if ws.len() > 0 {
        let w = ws.last();
        assert(w == ws[ws.len() - 1]);
        assert forall|j: int| 0 <= j < w.len() implies not_white()(#[trigger] w[j]) by {
            assert(key_kept(w[j]));
        }
        if ws.len() == 1 {
            let e: Seq<char> = seq![];
            lemma_runs_append_word(e, w, not_white());
            assert(e + w =~= w);
            assert(seq![w] =~= ws);
        } else {
            let d = ws.drop_last();
            assert forall|kk: int| 0 <= kk < d.len() implies (#[trigger] d[kk]).len() > 0 by {
                assert(d[kk] == ws[kk]);
            }
            assert forall|kk: int, j: int| 0 <= kk < d.len() && 0 <= j < d[kk].len() implies key_kept(#[trigger] d[kk][j]) by {
                assert(d[kk] == ws[kk]);
            }
            lemma_runs_join(d);
            let x = parser::join_words(d).push(' ');
            assert(runs(x, not_white()) == runs(parser::join_words(d), not_white())) by {
                assert(x.drop_last() =~= parser::join_words(d));
            }
            lemma_runs_append_word(x, w, not_white());
            assert(x + w =~= parser::join_words(d) + seq![' '] + w);
            assert(d.push(w) =~= ws);
        }
    }
}

/// A loose key is the text's maximal runs of letters and digits, ASCII
/// lower-cased, joined by single spaces: no space at either end, never two
/// in a row, every other character a letter or digit that is not ASCII upper
/// case. Taking the key of a key gives it back.
pub proof fn law_loose_key(v: Seq<char>)
    ensures
        parser::loose_key(v) == parser::join_words(loose_words(v)),
        forall|i: int|
            0 <= i < parser::loose_key(v).len() ==> #[trigger] parser::loose_key(v)[i] == ' ' || key_kept(
                parser::loose_key(v)[i],
            ),
        forall|i: int|
            0 <= i < parser::loose_key(v).len() - 1 ==> !(#[trigger] parser::loose_key(v)[i] == ' '
                && parser::loose_key(v)[i + 1] == ' '),
        parser::loose_key(v).len() > 0 ==> parser::loose_key(v)[0] != ' ' && parser::loose_key(v).last()
            != ' ',
        parser::loose_key(parser::loose_key(v)) == parser::loose_key(v),
{
    let f = |c: char| parser::key_char(c);
    lemma_split_words_runs(v.map_values(f));
    lemma_key_runs(v);
    let lw = loose_words(v);
    let k = parser::loose_key(v);
    lemma_loose_words_kept(v);
    lemma_join_words_shape(lw);
    let q = |c: char| key_kept(c);
    assert forall|i: int| 0 <= i < k.len() implies #[trigger] k[i] == ' ' || key_kept(k[i]) by {
        assert(q(k[i]) || k[i] == ' ');
    }
    let km = k.map_values(f);
    assert(km =~= k) by {
        assert forall|i: int| 0 <= i < k.len() implies km[i] == k[i] by {
            assert(q(k[i]) || k[i] == ' ');
        }
    }
    lemma_split_words_runs(km);
    lemma_runs_join(lw);
}

// ---------------------------------------------------------------------------
// Natural order
// ---------------------------------------------------------------------------

pub open spec fn flipped(r: Rank) -> Rank {
    match r {
        Rank::Before => Rank::After,
        Rank::Same => Rank::Same,
        Rank::After => Rank::Before,
    }
}

proof fn lemma_lex_flip(a: Seq<char>, b: Seq<char>)
    ensures
        natural::lex_rank(a, b) == flipped(natural::lex_rank(b, a)),
    decreases a.len(),
{
    if a.len() > 0 && b.len() > 0 && (a[0] as u32) == (b[0] as u32) {
        lemma_lex_flip(a.drop_first(), b.drop_first());
    }
}

proof fn lemma_lex_same(a: Seq<char>)
    ensures
        natural::lex_rank(a, a) == Rank::Same,
    decreases a.len(),
{
    if a.len() > 0 {
        lemma_lex_same(a.drop_first());
    }
}

proof fn lemma_run_flip(a: Seq<char>, b: Seq<char>)
    ensures
        natural::run_rank(a, b) == flipped(natural::run_rank(b, a)),
{
    lemma_lex_flip(text::unicode_lowercase(a), text::unicode_lowercase(b));
}

proof fn lemma_runs_flip(xs: Seq<Seq<char>>, ys: Seq<Seq<char>>)
    ensures
        natural::runs_rank(xs, ys) == flipped(natural::runs_rank(ys, xs)),
    decreases xs.len(),
{
    if xs.len() > 0 && ys.len() > 0 {
        lemma_run_flip(xs[0], ys[0]);
        lemma_runs_flip(xs.drop_first(), ys.drop_first());
    }
}

proof fn lemma_runs_same(xs: Seq<Seq<char>>)
    ensures
        natural::runs_rank(xs, xs) == Rank::Same,
    decreases xs.len(),
{
    if xs.len() > 0 {
        lemma_lex_same(text::unicode_lowercase(xs[0]));
        lemma_runs_same(xs.drop_first());
    }
}

/// Comparing two names the other way round gives the opposite answer, and a
/// name ranks the same as itself.
pub proof fn law_natural_order_antisymmetric(a: Seq<char>, b: Seq<char>)
    ensures
        natural::natural_rank(a, b) == flipped(natural::natural_rank(b, a)),
        natural::natural_rank(a, a) == Rank::Same,
{
    lemma_runs_flip(patterns::digit_runs(a), patterns::digit_runs(b));
    lemma_runs_same(patterns::digit_runs(a));
}

proof fn lemma_path_flip(ps: Seq<Seq<char>>, qs: Seq<Seq<char>>)
    ensures
        natural::path_rank(ps, qs) == flipped(natural::path_rank(qs, ps)),
    decreases ps.len(),
{
    if ps.len() > 0 && qs.len() > 0 {
        law_natural_order_antisymmetric(ps[0], qs[0]);
        lemma_path_flip(ps.drop_first(), qs.drop_first());
    }
}

proof fn lemma_path_same(ps: Seq<Seq<char>>)
    ensures
        natural::path_rank(ps, ps) == Rank::Same,
    decreases ps.len(),
{
    if ps.len() > 0 {
        law_natural_order_antisymmetric(ps[0], ps[0]);
        lemma_path_same(ps.drop_first());
    }
}

/// Comparing two paths the other way round gives the opposite answer, and a
/// path ranks the same as itself.
pub proof fn law_path_order_antisymmetric(ps: Seq<Seq<char>>, qs: Seq<Seq<char>>)
    ensures
        natural::path_rank(ps, qs) == flipped(natural::path_rank(qs, ps)),
        natural::path_rank(ps, ps) == Rank::Same,
{
    lemma_path_flip(ps, qs);
    lemma_path_same(ps);
}


// ---------------------------------------------------------------------------
// Wrapping
// ---------------------------------------------------------------------------

/// The finished lines and the current line after greedy wrapping of
/// `words`, where `too_wide[i]` told whether adding word `i` made the line
/// too wide.
pub open spec fn wrap_words(words: Seq<Seq<char>>, too_wide: Seq<bool>) -> (Seq<Seq<char>>, Seq<char>)
    decreases words.len(),
{
    if words.len() == 0 {
        (seq![], seq![])
    } else {
        let prev = wrap_words(words.drop_last(), too_wide);
        overlay::wrap_step_of(prev.0, prev.1, words.last(), too_wide[words.len() - 1])
    }
}

/// The lines that wrapping `words` gives.
pub open spec fn wrapped_lines(words: Seq<Seq<char>>, too_wide: Seq<bool>) -> Seq<Seq<char>> {
    let w = wrap_words(words, too_wide);
    overlay::wrap_end_of(w.0, w.1)
}

proof fn lemma_join_push_word(l: Seq<Seq<char>>, x: Seq<char>, w: Seq<char>)
    ensures
        parser::join_words(l.push(x + seq![' '] + w)) == parser::join_words(l.push(x)) + seq![' '] + w,
{
    assert(l.push(x + seq![' '] + w).drop_last() =~= l);
    assert(l.push(x).drop_last() =~= l);
    if l.len() == 0 {
    } else {
        assert(parser::join_words(l.push(x + seq![' '] + w)) =~= parser::join_words(l) + seq![' '] + (x
            + seq![' '] + w));
        assert(parser::join_words(l.push(x)) =~= parser::join_words(l) + seq![' '] + x);
    }
}

proof fn lemma_join_push(l: Seq<Seq<char>>, x: Seq<char>)
    ensures
        l.len() > 0 ==> parser::join_words(l.push(x)) == parser::join_words(l) + seq![' '] + x,
        l.len() == 0 ==> parser::join_words(l.push(x)) == x,
{
    assert(l.push(x).drop_last() =~= l);
}

proof fn lemma_wrap_words(words: Seq<Seq<char>>, too_wide: Seq<bool>)
    requires
        too_wide.len() >= words.len(),
        forall|i: int| 0 <= i < words.len() ==> (#[trigger] words[i]).len() > 0,
    ensures
        parser::join_words(wrapped_lines(words, too_wide)) == parser::join_words(words),
        forall|i: int|
            0 <= i < wrap_words(words, too_wide).0.len() ==> (#[trigger] wrap_words(
                words,
                too_wide,
            ).0[i]).len() > 0,
        words.len() > 0 <==> wrap_words(words, too_wide).1.len() > 0,
        words.len() == 0 ==> wrap_words(words, too_wide).0.len() == 0,
    decreases words.len(),
{
    if words.len() > 0 {
        let d = words.drop_last();
        assert forall|i: int| 0 <= i < d.len() implies (#[trigger] d[i]).len() > 0 by {
            assert(d[i] == words[i]);
        }
        lemma_wrap_words(d, too_wide);
        let (l, c) = wrap_words(d, too_wide);
        let w = words.last();
        assert(w == words[words.len() - 1]);
        let tw = too_wide[words.len() - 1];
        assert(d.push(w) =~= words);
        if tw && c.len() > 0 {
            lemma_join_push(l, c);
            lemma_join_push(l.push(c), w);
            lemma_join_push(d, w);
            assert(l.push(c).len() > 0);
            assert forall|i: int| 0 <= i < l.push(c).len() implies (#[trigger] l.push(c)[i]).len() > 0 by {
                if i < l.len() {
                    assert(l.push(c)[i] == l[i]);
                }
            }
        } else if c.len() == 0 {
            assert(d.len() == 0);
            assert(l.len() == 0);
            lemma_join_push(l, w);
            lemma_join_push(d, w);
        } else {
            lemma_join_push_word(l, c, w);
            lemma_join_push(d, w);
        }
    }
}

/// Greedy wrapping never drops, adds or reorders words: whatever the width
/// tests answered, the lines joined by spaces give back the words joined by
/// spaces, and no line is empty.
pub proof fn law_wrap_keeps_words(words: Seq<Seq<char>>, too_wide: Seq<bool>)
    requires
        too_wide.len() >= words.len(),
        forall|i: int| 0 <= i < words.len() ==> (#[trigger] words[i]).len() > 0,
    ensures
        parser::join_words(wrapped_lines(words, too_wide)) == parser::join_words(words),
        forall|i: int|
            0 <= i < wrapped_lines(words, too_wide).len() ==> (#[trigger] wrapped_lines(
                words,
                too_wide,
            )[i]).len() > 0,
{
    lemma_wrap_words(words, too_wide);
    let (l, c) = wrap_words(words, too_wide);
    let r = wrapped_lines(words, too_wide);
    assert forall|i: int| 0 <= i < r.len() implies (#[trigger] r[i]).len() > 0 by {
        if i < l.len() {
            assert(r[i] == l[i]);
        }
    }
}


proof fn lemma_words_from_nonempty(s: Seq<char>, cur: Seq<char>, i: int)
    ensures
        forall|k: int|
            0 <= k < parser::words_from(s, cur, i).len() ==> (#[trigger] parser::words_from(
                s,
                cur,
                i,
            )[k]).len() > 0,
    decreases s.len() - i,
{
    let r = parser::words_from(s, cur, i);
    if i < 0 || i >= s.len() {
        assert(r == parser::word_piece(cur));
        assert forall|k: int| 0 <= k < r.len() implies (#[trigger] r[k]).len() > 0 by {
            assert(r[k] == cur);
        }
    } else if text::unicode_white_space(s[i]) {
        lemma_words_from_nonempty(s, seq![], i + 1);
        let p = parser::word_piece(cur);
        let rest = parser::words_from(s, seq![], i + 1);
        assert forall|k: int| 0 <= k < r.len() implies (#[trigger] r[k]).len() > 0 by {
            if k < p.len() {
                assert(r[k] == p[k]);
            } else {
                assert(r[k] == rest[k - p.len()]);
            }
        }
    } else {
        lemma_words_from_nonempty(s, cur.push(s[i]), i + 1);
        assert(r == parser::words_from(s, cur.push(s[i]), i + 1));
    }
}

/// The words of a text are never empty, so wrapping them keeps them all.
pub proof fn law_words_nonempty(s: Seq<char>)
    ensures
        forall|k: int|
            0 <= k < parser::split_words(s).len() ==> (#[trigger] parser::split_words(s)[k]).len() > 0,
{
    lemma_words_from_nonempty(s, seq![], 0);
}

// ---------------------------------------------------------------------------
// Automatic worker count
// ---------------------------------------------------------------------------

/// The passes of the automatic mode render the scripts of a file in order,
/// each exactly once: a pass starts where the last one ended, renders at
/// least one script, never runs past the last one, and uses between one
/// worker and the limit; a settled worker count never changes.
pub proof fn law_passes_tile_the_file(
    t: batch::AutoTuner,
    elapsed_ms: u32,
    load: batch::ResourceSnapshot,
)
    requires
        batch::tuner_ok(t),
        t.next_index < t.total,
    ensures
        batch::next_pass_of(t) matches Some(p) && {
            let after = batch::after_pass(t, p, elapsed_ms, load).0;
            &&& p.start == t.next_index
            &&& 1 <= p.chunk_size
            &&& p.start + p.chunk_size <= t.total
            &&& 1 <= p.workers <= batch::cap(t)
            &&& after.next_index == p.start + p.chunk_size
            &&& batch::tuner_ok(after)
            &&& (t.chosen_workers is Some ==> after.chosen_workers == t.chosen_workers)
        },
{
    let p = batch::next_pass_of(t).unwrap();
    let after = batch::after_pass(t, p, elapsed_ms, load).0;
    assert(p.start + p.chunk_size <= t.total);
    assert(after.next_index == p.start + p.chunk_size);
}

/// The tuner after the passes of a file, pass `i` having taken
/// `outcomes[i].0` milliseconds under load `outcomes[i].1`; it stops when no
/// script is left or no outcome is.
pub open spec fn run_passes(t: batch::AutoTuner, outcomes: Seq<(u32, batch::ResourceSnapshot)>) -> batch::AutoTuner
    decreases outcomes.len(),
{
    if outcomes.len() == 0 {
        t
    } else {
        match batch::next_pass_of(t) {
            None => t,
            Some(p) => run_passes(
                batch::after_pass(t, p, outcomes[0].0, outcomes[0].1).0,
                outcomes.drop_first(),
            ),
        }
    }
}

proof fn lemma_run_passes(t: batch::AutoTuner, outcomes: Seq<(u32, batch::ResourceSnapshot)>)
    requires
        batch::tuner_ok(t),
        t.chosen_workers is None ==> t.next_index < t.total,
    ensures
        batch::tuner_ok(run_passes(t, outcomes)),
        run_passes(t, outcomes).total == t.total,
        run_passes(t, outcomes).max_workers == t.max_workers,
        outcomes.len() >= t.total - t.next_index ==> run_passes(t, outcomes).next_index == t.total,
        run_passes(t, outcomes).next_index == t.total ==> run_passes(t, outcomes).chosen_workers is Some,
        t.chosen_workers is Some ==> run_passes(t, outcomes).chosen_workers == t.chosen_workers,
    decreases outcomes.len(),
{
    if outcomes.len() > 0 && t.next_index < t.total {
        let p = batch::next_pass_of(t).unwrap();
        let after = batch::after_pass(t, p, outcomes[0].0, outcomes[0].1).0;
        law_passes_tile_the_file(t, outcomes[0].0, outcomes[0].1);
        lemma_run_passes(after, outcomes.drop_first());
    }
}

/// A file's run of the automatic mode, given one outcome per script or more
/// (each pass renders at least one), renders the whole file. Started without
/// a worker count, it ends with one settled between one and the limit;
/// started with one, it keeps that count, clamped to the limit.
pub proof fn law_tuner_settles(
    total: usize,
    max_workers: usize,
    locked: Option<usize>,
    outcomes: Seq<(u32, batch::ResourceSnapshot)>,
)
    requires
        max_workers <= usize::MAX / 4,
        total > 0,
        outcomes.len() >= total,
    ensures
        ({
            let end = run_passes(batch::tuner_start(total, max_workers, locked), outcomes);
            &&& end.next_index == total
            &&& end.chosen_workers matches Some(b) && 1 <= b && (max_workers >= 1 ==> b <= max_workers)
            &&& locked matches Some(w) ==> end.chosen_workers == Some(
                batch::at_least_one(batch::min_usize(w, max_workers)),
            )
        }),
{
    let t = batch::tuner_start(total, max_workers, locked);
    lemma_run_passes(t, outcomes);
}

/// With a worker count locked by an earlier file, every pass of a file uses
/// that count clamped to the limit, and to the scripts left (at least one),
/// renders four times that many scripts (at least four, at most those
/// left), teaches nothing, and keeps the locked count: whatever the earlier
/// passes took, the state after any number of them still holds it.
pub proof fn law_locked_passes(
    total: usize,
    max_workers: usize,
    w: usize,
    outcomes: Seq<(u32, batch::ResourceSnapshot)>,
    elapsed_ms: u32,
    load: batch::ResourceSnapshot,
)
    requires
        max_workers <= usize::MAX / 4,
    ensures
        ({
            let c = batch::at_least_one(batch::min_usize(w, max_workers));
            let t = run_passes(batch::tuner_start(total, max_workers, Some(w)), outcomes);
            &&& t.chosen_workers == Some(c)
            &&& t.next_index < total ==> (batch::next_pass_of(t) matches Some(p) && {
                let remaining = (total - t.next_index) as usize;
                &&& p.start == t.next_index
                &&& p.workers == batch::at_least_one(batch::min_usize(c, remaining))
                &&& p.chunk_size == batch::chunk_size_of(p.workers as nat, remaining as nat, false)
                &&& !p.tuning
                &&& batch::after_pass(t, p, elapsed_ms, load).1 == batch::TunerOutcome::Unchanged
                &&& batch::after_pass(t, p, elapsed_ms, load).0.chosen_workers == Some(c)
            })
        }),
{
    let t0 = batch::tuner_start(total, max_workers, Some(w));
    lemma_run_passes(t0, outcomes);
}

/// A pass run under pressure never becomes the best pass: the best count
/// and score stay as they were, and a probing pass under pressure settles on
/// the best count of an earlier pass (or the starting count), never on its
/// own count unless that was already the best. A probing pass without
/// pressure that is the first or clearly faster becomes the best.
pub proof fn law_pressure_never_best(t: batch::AutoTuner, elapsed_ms: u32, load: batch::ResourceSnapshot)
    requires
        batch::tuner_ok(t),
        t.next_index < t.total,
    ensures
        batch::next_pass_of(t) matches Some(p) && {
            let (after, outcome) = batch::after_pass(t, p, elapsed_ms, load);
            &&& batch::under_pressure(load) ==> after.best_workers == t.best_workers
                && after.best_score == t.best_score
            &&& (p.tuning && batch::under_pressure(load)) ==> outcome
                == batch::TunerOutcome::SettledUnderPressure(batch::at_least_one(t.best_workers))
                && after.chosen_workers == Some(batch::at_least_one(t.best_workers))
            &&& (p.tuning && !batch::under_pressure(load) && t.best_score is None) ==> after.best_workers
                == p.workers
        },
{
}

/// The layout names a setting can use, whatever its case and punctuation:
/// each alias selects its layout (`story` the story block, `center` the
/// center stack, the full-text names the story block, ...), each named
/// layout selects itself, and anything else the center stack.
#[verifier::spinoff_prover]
#[verifier::rlimit(60)]
pub proof fn law_layout_aliases(v: Seq<char>)
    ensures
        parser::layout_key(v) == "question"@ ==> parser::normalized_layout(v) == "question_answer"@,
        parser::layout_key(v) == "answer"@ ==> parser::normalized_layout(v) == "question_answer"@,
        parser::layout_key(v) == "question_answer"@ ==> parser::normalized_layout(v) == "question_answer"@,
        parser::layout_key(v) == "advice"@ ==> parser::normalized_layout(v) == "list_style"@,
        parser::layout_key(v) == "list"@ ==> parser::normalized_layout(v) == "list_style"@,
        parser::layout_key(v) == "list_style"@ ==> parser::normalized_layout(v) == "list_style"@,
        parser::layout_key(v) == "reels"@ ==> parser::normalized_layout(v) == "center_stack"@,
        parser::layout_key(v) == "center"@ ==> parser::normalized_layout(v) == "center_stack"@,
        parser::layout_key(v) == "center_stack"@ ==> parser::normalized_layout(v) == "center_stack"@,
        parser::layout_key(v) == "left"@ ==> parser::normalized_layout(v) == "left_stack"@,
        parser::layout_key(v) == "left_stack"@ ==> parser::normalized_layout(v) == "left_stack"@,
        parser::layout_key(v) == "right"@ ==> parser::normalized_layout(v) == "right_stack"@,
        parser::layout_key(v) == "right_stack"@ ==> parser::normalized_layout(v) == "right_stack"@,
        parser::layout_key(v) == "top_bottom"@ ==> parser::normalized_layout(v) == "top_bottom"@,
        parser::layout_key(v) == "one_word"@ ==> parser::normalized_layout(v) == "one_word_hook"@,
        parser::layout_key(v) == "one_word_hook"@ ==> parser::normalized_layout(v) == "one_word_hook"@,
        parser::layout_key(v) == "quote"@ ==> parser::normalized_layout(v) == "quote_style"@,
        parser::layout_key(v) == "quote_style"@ ==> parser::normalized_layout(v) == "quote_style"@,
        parser::layout_key(v) == "story"@ ==> parser::normalized_layout(v) == "story_block"@,
        parser::layout_key(v) == "story_block"@ ==> parser::normalized_layout(v) == "story_block"@,
        parser::layout_key(v) == "full_text"@ ==> parser::normalized_layout(v) == "story_block"@,
        parser::layout_key(v) == "full_list"@ ==> parser::normalized_layout(v) == "story_block"@,
        parser::layout_key(v) == "all_at_once"@ ==> parser::normalized_layout(v) == "story_block"@,
        parser::layout_key(v) == "static_text"@ ==> parser::normalized_layout(v) == "story_block"@,
        parser::layout_key(v) == "progress"@ ==> parser::normalized_layout(v) == "progress_reveal"@,
        parser::layout_key(v) == "progress_reveal"@ ==> parser::normalized_layout(v) == "progress_reveal"@,
        parser::layout_key(v) == "card"@ ==> parser::normalized_layout(v) == "center_card"@,
        parser::layout_key(v) == "center_card"@ ==> parser::normalized_layout(v) == "center_card"@,
        parser::layout_key(v) == "two_column_split"@ ==> parser::normalized_layout(v) == "two_column_split"@,
        parser::layout_key(v) == "grid_layout"@ ==> parser::normalized_layout(v) == "grid_layout"@,
        parser::layout_key(v) == "masonry_layout"@ ==> parser::normalized_layout(v) == "masonry_layout"@,
        parser::layout_key(v) == "hero_list"@ ==> parser::normalized_layout(v) == "hero_list"@,
        parser::layout_key(v) == "alternating_rows"@ ==> parser::normalized_layout(v) == "alternating_rows"@,
        parser::layout_key(v) == "sidebar_layout"@ ==> parser::normalized_layout(v) == "sidebar_layout"@,
        parser::layout_key(v) == "collage_layout"@ ==> parser::normalized_layout(v) == "collage_layout"@,
        parser::layout_key(v) == "auto_fit_tiles"@ ==> parser::normalized_layout(v) == "auto_fit_tiles"@,
        parser::layout_key(v) == "tabbed_layout"@ ==> parser::normalized_layout(v) == "tabbed_layout"@,
        parser::layout_key(v) == "magazine_layout"@ ==> parser::normalized_layout(v) == "magazine_layout"@,
        parser::layout_key(v) == "template_rotation_layout"@ ==> parser::normalized_layout(v) == "template_rotation_layout"@,
        parser::layout_key(v) == "priority_based_layout"@ ==> parser::normalized_layout(v) == "priority_based_layout"@,
        parser::layout_key(v) == "adaptive_smart_layout"@ ==> parser::normalized_layout(v) == "adaptive_smart_layout"@,
        parser::layout_key(v) == "fallback_universal_layout"@ ==> parser::normalized_layout(v) == "fallback_universal_layout"@,
        (parser::layout_key(v) != "question"@ && parser::layout_key(v) != "answer"@ && parser::layout_key(v) != "question_answer"@ && parser::layout_key(v) != "advice"@ && parser::layout_key(v) != "list"@ && parser::layout_key(v) != "list_style"@ && parser::layout_key(v) != "reels"@ && parser::layout_key(v) != "center"@ && parser::layout_key(v) != "center_stack"@ && parser::layout_key(v) != "left"@ && parser::layout_key(v) != "left_stack"@ && parser::layout_key(v) != "right"@ && parser::layout_key(v) != "right_stack"@ && parser::layout_key(v) != "top_bottom"@ && parser::layout_key(v) != "one_word"@ && parser::layout_key(v) != "one_word_hook"@ && parser::layout_key(v) != "quote"@ && parser::layout_key(v) != "quote_style"@ && parser::layout_key(v) != "story"@ && parser::layout_key(v) != "story_block"@ && parser::layout_key(v) != "full_text"@ && parser::layout_key(v) != "full_list"@ && parser::layout_key(v) != "all_at_once"@ && parser::layout_key(v) != "static_text"@ && parser::layout_key(v) != "progress"@ && parser::layout_key(v) != "progress_reveal"@ && parser::layout_key(v) != "card"@ && parser::layout_key(v) != "center_card"@ && !parser::is_named_layout(parser::layout_key(v))) ==> parser::normalized_layout(v) == "center_stack"@,
{
    reveal_strlit("question_answer");
    reveal_strlit("list_style");
    reveal_strlit("center_stack");
    reveal_strlit("left_stack");
    reveal_strlit("right_stack");
    reveal_strlit("top_bottom");
    reveal_strlit("one_word_hook");
    reveal_strlit("quote_style");
    reveal_strlit("story_block");
    reveal_strlit("progress_reveal");
    reveal_strlit("center_card");
    reveal_strlit("two_column_split");
    reveal_strlit("grid_layout");
    reveal_strlit("masonry_layout");
    reveal_strlit("hero_list");
    reveal_strlit("alternating_rows");
    reveal_strlit("sidebar_layout");
    reveal_strlit("collage_layout");
    reveal_strlit("auto_fit_tiles");
    reveal_strlit("tabbed_layout");
    reveal_strlit("magazine_layout");
    reveal_strlit("template_rotation_layout");
    reveal_strlit("priority_based_layout");
    reveal_strlit("adaptive_smart_layout");
    reveal_strlit("fallback_universal_layout");
    reveal_strlit("question");
    reveal_strlit("answer");
    reveal_strlit("advice");
    reveal_strlit("list");
    reveal_strlit("reels");
    reveal_strlit("center");
    reveal_strlit("left");
    reveal_strlit("right");
    reveal_strlit("one_word");
    reveal_strlit("quote");
    reveal_strlit("story");
    reveal_strlit("full_text");
    reveal_strlit("full_list");
    reveal_strlit("all_at_once");
    reveal_strlit("static_text");
    reveal_strlit("progress");
    reveal_strlit("card");
    assert("question_answer"@.len() == 15);
    assert("list_style"@.len() == 10);
    assert("center_stack"@.len() == 12);
    assert("left_stack"@.len() == 10);
    assert("right_stack"@.len() == 11);
    assert("top_bottom"@.len() == 10);
    assert("one_word_hook"@.len() == 13);
    assert("quote_style"@.len() == 11);
    assert("story_block"@.len() == 11);
    assert("progress_reveal"@.len() == 15);
    assert("center_card"@.len() == 11);
    assert("two_column_split"@.len() == 16);
    assert("grid_layout"@.len() == 11);
    assert("masonry_layout"@.len() == 14);
    assert("hero_list"@.len() == 9);
    assert("alternating_rows"@.len() == 16);
    assert("sidebar_layout"@.len() == 14);
    assert("collage_layout"@.len() == 14);
    assert("auto_fit_tiles"@.len() == 14);
    assert("tabbed_layout"@.len() == 13);
    assert("magazine_layout"@.len() == 15);
    assert("template_rotation_layout"@.len() == 24);
    assert("priority_based_layout"@.len() == 21);
    assert("adaptive_smart_layout"@.len() == 21);
    assert("fallback_universal_layout"@.len() == 25);
    assert("question"@.len() == 8);
    assert("answer"@.len() == 6);
    assert("advice"@.len() == 6);
    assert("list"@.len() == 4);
    assert("reels"@.len() == 5);
    assert("center"@.len() == 6);
    assert("left"@.len() == 4);
    assert("right"@.len() == 5);
    assert("one_word"@.len() == 8);
    assert("quote"@.len() == 5);
    assert("story"@.len() == 5);
    assert("full_text"@.len() == 9);
    assert("full_list"@.len() == 9);
    assert("all_at_once"@.len() == 11);
    assert("static_text"@.len() == 11);
    assert("progress"@.len() == 8);
    assert("card"@.len() == 4);
    assert("question_answer"@[0] != "progress_reveal"@[0]);
    assert("question_answer"@[0] != "magazine_layout"@[0]);
    assert("list_style"@[1] != "left_stack"@[1]);
    assert("list_style"@[0] != "top_bottom"@[0]);
    assert("left_stack"@[0] != "top_bottom"@[0]);
    assert("right_stack"@[0] != "quote_style"@[0]);
    assert("right_stack"@[0] != "story_block"@[0]);
    assert("right_stack"@[0] != "center_card"@[0]);
    assert("right_stack"@[0] != "grid_layout"@[0]);
    assert("right_stack"@[0] != "all_at_once"@[0]);
    assert("right_stack"@[0] != "static_text"@[0]);
    assert("one_word_hook"@[0] != "tabbed_layout"@[0]);
    assert("quote_style"@[0] != "story_block"@[0]);
    assert("quote_style"@[0] != "center_card"@[0]);
    assert("quote_style"@[0] != "grid_layout"@[0]);
    assert("quote_style"@[0] != "all_at_once"@[0]);
    assert("quote_style"@[0] != "static_text"@[0]);
    assert("story_block"@[0] != "center_card"@[0]);
    assert("story_block"@[0] != "grid_layout"@[0]);
    assert("story_block"@[0] != "all_at_once"@[0]);
    assert("story_block"@[2] != "static_text"@[2]);
    assert("progress_reveal"@[0] != "magazine_layout"@[0]);
    assert("center_card"@[0] != "grid_layout"@[0]);
    assert("center_card"@[0] != "all_at_once"@[0]);
    assert("center_card"@[0] != "static_text"@[0]);
    assert("two_column_split"@[0] != "alternating_rows"@[0]);
    assert("grid_layout"@[0] != "all_at_once"@[0]);
    assert("grid_layout"@[0] != "static_text"@[0]);
    assert("masonry_layout"@[0] != "sidebar_layout"@[0]);
    assert("masonry_layout"@[0] != "collage_layout"@[0]);
    assert("masonry_layout"@[0] != "auto_fit_tiles"@[0]);
    assert("hero_list"@[0] != "full_text"@[0]);
    assert("hero_list"@[0] != "full_list"@[0]);
    assert("sidebar_layout"@[0] != "collage_layout"@[0]);
    assert("sidebar_layout"@[0] != "auto_fit_tiles"@[0]);
    assert("collage_layout"@[0] != "auto_fit_tiles"@[0]);
    assert("priority_based_layout"@[0] != "adaptive_smart_layout"@[0]);
    assert("question"@[0] != "one_word"@[0]);
    assert("question"@[0] != "progress"@[0]);
    assert("answer"@[1] != "advice"@[1]);
    assert("answer"@[0] != "center"@[0]);
    assert("advice"@[0] != "center"@[0]);
    assert("list"@[1] != "left"@[1]);
    assert("list"@[0] != "card"@[0]);
    assert("reels"@[1] != "right"@[1]);
    assert("reels"@[0] != "quote"@[0]);
    assert("reels"@[0] != "story"@[0]);
    assert("left"@[0] != "card"@[0]);
    assert("right"@[0] != "quote"@[0]);
    assert("right"@[0] != "story"@[0]);
    assert("one_word"@[0] != "progress"@[0]);
    assert("quote"@[0] != "story"@[0]);
    assert("full_text"@[5] != "full_list"@[5]);
    assert("all_at_once"@[0] != "static_text"@[0]);
}

/// How each part of a layout is aligned: part 0 is the title, 1 the
/// points, 2 the call to action. The right stack aligns everything right;
/// the left stack, list, top-bottom and story layouts everything left; the
/// one-word hook centres its title and call to action around left-aligned
/// points; the progress layout puts a left-aligned title over centred points;
/// every other layout centres everything.
pub open spec fn documented_align(layout: Seq<char>, part: nat) -> Seq<char> {
    if layout == "right_stack"@ {
        "right"@
    } else if layout == "left_stack"@ || layout == "list_style"@ || layout == "top_bottom"@
        || layout == "story_block"@ {
        "left"@
    } else if layout == "one_word_hook"@ {
        if part == 1 {
            "left"@
        } else {
            "center"@
        }
    } else if layout == "progress_reveal"@ {
        if part == 0 {
            "left"@
        } else {
            "center"@
        }
    } else {
        "center"@
    }
}

/// Which part of the overlay a layer shows.
pub open spec fn layer_part(s: parser::ScriptView, layer: nat) -> nat {
    if layer == 0 {
        0
    } else if layer <= s.points.len() {
        1
    } else {
        2
    }
}

/// Every layout aligns its title, points and call to action as documented,
/// and keeps every text box inside the canvas width with a visible font.
pub proof fn law_layout_alignment(layout: Seq<char>)
    ensures
        overlay::layout_table(layout).title.align == documented_align(layout, 0),
        overlay::layout_table(layout).point.align == documented_align(layout, 1),
        overlay::layout_table(layout).cta.align == documented_align(layout, 2),
        overlay::layout_table(layout).title.x + overlay::layout_table(layout).title.width <= overlay::WIDTH,
        overlay::layout_table(layout).point.x + overlay::layout_table(layout).point.width <= overlay::WIDTH,
        overlay::layout_table(layout).cta.x + overlay::layout_table(layout).cta.width <= overlay::WIDTH,
        overlay::layout_table(layout).title.font_size > 0,
        overlay::layout_table(layout).point.font_size > 0,
        overlay::layout_table(layout).cta.font_size > 0,
        overlay::layout_table(layout).marker == documented_marker(layout),
{
    reveal_strlit("question_answer");
    reveal_strlit("left_stack");
    reveal_strlit("right_stack");
    reveal_strlit("list_style");
    reveal_strlit("top_bottom");
    reveal_strlit("one_word_hook");
    reveal_strlit("quote_style");
    reveal_strlit("story_block");
    reveal_strlit("progress_reveal");
    reveal_strlit("center_card");
    reveal_strlit("center");
    reveal_strlit("left");
    reveal_strlit("right");
    assert("question_answer"@.len() == 15);
    assert("left_stack"@.len() == 10);
    assert("right_stack"@.len() == 11);
    assert("list_style"@.len() == 10);
    assert("top_bottom"@.len() == 10);
    assert("one_word_hook"@.len() == 13);
    assert("quote_style"@.len() == 11);
    assert("story_block"@.len() == 11);
    assert("progress_reveal"@.len() == 15);
    assert("center_card"@.len() == 11);
    assert("center"@.len() == 6);
    assert("left"@.len() == 4);
    assert("right"@.len() == 5);
    assert("question_answer"@[0] != "progress_reveal"@[0]);
    assert("left_stack"@[1] != "list_style"@[1]);
    assert("left_stack"@[0] != "top_bottom"@[0]);
    assert("right_stack"@[0] != "quote_style"@[0]);
    assert("right_stack"@[0] != "story_block"@[0]);
    assert("right_stack"@[0] != "center_card"@[0]);
    assert("list_style"@[0] != "top_bottom"@[0]);
    assert("quote_style"@[0] != "story_block"@[0]);
    assert("quote_style"@[0] != "center_card"@[0]);
    assert("story_block"@[0] != "center_card"@[0]);
}

/// Every layer that shows something is aligned as its layout documents for
/// that part (so a right-stack script is drawn right-aligned throughout),
/// and its text box stays inside the canvas width.
pub proof fn law_layer_alignment(s: parser::ScriptView, layer: nat)
    ensures
        overlay::overlay_plan(s, layer) matches Some(o) ==> {
            &&& o.align == documented_align(parser::normalized_layout(s.layout), layer_part(s, layer))
            &&& o.x + o.width <= overlay::WIDTH
            &&& o.font_size > 0
        },
{
    law_layout_alignment(parser::normalized_layout(s.layout));
}

/// A reel line as written: non-empty, without a list marker, not a pause
/// marker.
pub open spec fn plain_line(t: Seq<char>) -> bool {
    &&& t.len() > 0
    &&& patterns::without_list_marker(t) == t
    &&& !parser::is_pause_marker(t)
}

/// A middle field of a pipe row that is a reel line and not a `Duration:`
/// setting (the text before its first colon, if any, is not `duration`).
pub open spec fn plain_pipe_field(f: Seq<char>) -> bool {
    &&& plain_line(text::trim_ws(f))
    &&& match text::first_index_of(text::trim_ws(f), ':') {
        Some(pos) => text::unicode_lowercase(text::trim_ws(text::trim_ws(f).take(pos))) != "duration"@,
        None => true,
    }
}

proof fn lemma_pipe_plain_fields(fields: Seq<Seq<char>>, start: parser::ScriptView)
    requires
        forall|j: int| 0 <= j < fields.len() ==> plain_pipe_field(#[trigger] fields[j]),
    ensures
        fields.fold_left(start, parser::read_pipe_field_fn()).points == start.points + fields.map_values(
            |x: Seq<char>| text::trim_ws(x),
        ),
        fields.fold_left(start, parser::read_pipe_field_fn()).title == start.title,
        fields.fold_left(start, parser::read_pipe_field_fn()).code == start.code,
        fields.fold_left(start, parser::read_pipe_field_fn()).duration_us == start.duration_us,
    decreases fields.len(),
{
    let g = |x: Seq<char>| text::trim_ws(x);
    if fields.len() == 0 {
        assert(start.points + fields.map_values(g) =~= start.points);
    } else {
        let d = fields.drop_last();
        assert forall|j: int| 0 <= j < d.len() implies plain_pipe_field(#[trigger] d[j]) by {
            assert(d[j] == fields[j]);
        }
        lemma_pipe_plain_fields(d, start);
        let st = d.fold_left(start, parser::read_pipe_field_fn());
        let f = fields.last();
        assert(plain_pipe_field(fields[fields.len() - 1]));
        let t = text::trim_ws(f);
        lemma_trim_ws_fixed(f);
        assert(parser::push_point(st, t).points == st.points.push(t));
        assert(parser::read_pipe_field(st, f) == parser::push_point(st, t));
        assert(fields.map_values(g) =~= d.map_values(g).push(t));
        assert(start.points + fields.map_values(g) =~= (start.points + d.map_values(g)).push(t));
    }
}

/// Every middle field of a pipe row that is a reel line and not a
/// `Duration:` setting becomes a point, exactly its trimmed text, colons and
/// all, in order; with a title in the second field, the title is that
/// field.
pub proof fn law_pipe_fields_are_points(row: Seq<char>, index: nat, turn: nat)
    requires
        text::split_fields(row, '|').len() >= 3,
        text::trim_ws(text::split_fields(row, '|')[1]).len() > 0,
        forall|j: int|
            2 <= j < text::split_fields(row, '|').len() - 1 ==> plain_pipe_field(
                #[trigger] text::split_fields(row, '|')[j],
            ),
    ensures
        parser::parsed_pipe_row(row, index, turn).title == text::trim_ws(text::split_fields(row, '|')[1]),
        parser::parsed_pipe_row(row, index, turn).code == text::trim_ws(text::split_fields(row, '|').last()),
        parser::parsed_pipe_row(row, index, turn).duration_us is None,
        parser::parsed_pipe_row(row, index, turn).points == text::split_fields(row, '|').subrange(
            2,
            text::split_fields(row, '|').len() - 1,
        ).map_values(|x: Seq<char>| text::trim_ws(x)),
{
    let f = text::split_fields(row, '|');
    let start = parser::ScriptView {
        title: text::trim_ws(f[1]),
        code: text::trim_ws(f.last()),
        layout: parser::rotation_layout(turn),
        ..parser::initial_state()
    };
    let middle = f.subrange(2, f.len() - 1);
    assert forall|j: int| 0 <= j < middle.len() implies plain_pipe_field(#[trigger] middle[j]) by {
        assert(middle[j] == f[j + 2]);
    }
    lemma_pipe_plain_fields(middle, start);
    assert(start.points + middle.map_values(|x: Seq<char>| text::trim_ws(x)) =~= middle.map_values(
        |x: Seq<char>| text::trim_ws(x),
    ));
}

/// A content line of a block: cleaned, it is a reel line with no colon.
pub open spec fn content_line(raw: Seq<char>) -> bool {
    &&& plain_line(parser::clean_line(raw))
    &&& !parser::clean_line(raw).contains(':')
}

proof fn lemma_content_lines(lines: Seq<Seq<char>>, start: parser::ScriptView)
    requires
        forall|j: int| 0 <= j < lines.len() ==> content_line(#[trigger] lines[j]),
    ensures
        lines.fold_left(start, parser::read_line_fn()).points == start.points + lines.map_values(
            |x: Seq<char>| parser::clean_line(x),
        ),
        lines.fold_left(start, parser::read_line_fn()).title == start.title,
    decreases lines.len(),
{
    let g = |x: Seq<char>| parser::clean_line(x);
    if lines.len() == 0 {
        assert(start.points + lines.map_values(g) =~= start.points);
    } else {
        let d = lines.drop_last();
        assert forall|j: int| 0 <= j < d.len() implies content_line(#[trigger] d[j]) by {
            assert(d[j] == lines[j]);
        }
        lemma_content_lines(d, start);
        let st = d.fold_left(start, parser::read_line_fn());
        let raw = lines.last();
        assert(content_line(lines[lines.len() - 1]));
        let c = parser::clean_line(raw);
        let inner = text::strip_start(text::trim_ws(raw), text::char_pred('\u{feff}'));
        lemma_trim_ws_fixed(inner);
        assert(text::first_index_of(c, ':') is None) by {
            if exists|i: int| 0 <= i < c.len() && c[i] == ':' {
                let i = choose|i: int| 0 <= i < c.len() && c[i] == ':';
                assert(c.contains(':'));
            }
        }
        assert(parser::read_line(st, raw) == parser::push_point(st, c));
        assert(parser::push_point(st, c).points == st.points.push(c));
        assert(lines.map_values(g) =~= d.map_values(g).push(c));
        assert(start.points + lines.map_values(g) =~= (start.points + d.map_values(g)).push(c));
    }
}

/// `question` is another name for `title`: a block whose first line is
/// `question:` and a question, followed by content lines, has the trimmed
/// question as its title and keeps every content line, cleaned, as a point
/// in order.
pub proof fn law_question_is_title(block: Seq<char>, q: Seq<char>, index: nat)
    requires
        text::text_lines(block).len() >= 1,
        parser::clean_line(text::text_lines(block)[0]) == "question:"@ + q,
        text::trim_ws(q).len() > 0,
        forall|j: int|
            1 <= j < text::text_lines(block).len() ==> content_line(#[trigger] text::text_lines(block)[j]),
    ensures
        parser::parsed_block(block, index).title == text::trim_ws(q),
        parser::parsed_block(block, index).points == text::text_lines(block).drop_first().map_values(
            |x: Seq<char>| parser::clean_line(x),
        ),
{
    let ls = text::text_lines(block);
    lemma_question_line(ls[0], q);
    let st1 = parser::read_line(parser::initial_state(), ls[0]);
    let rest = ls.drop_first();
    assert forall|j: int| 0 <= j < rest.len() implies content_line(#[trigger] rest[j]) by {
        assert(rest[j] == ls[j + 1]);
    }
    lemma_content_lines(rest, st1);
    lemma_fold_first(ls, parser::initial_state());
    assert(st1.points + rest.map_values(|x: Seq<char>| parser::clean_line(x)) =~= rest.map_values(
        |x: Seq<char>| parser::clean_line(x),
    ));
}

/// Reading a `question:` line at the start of a block sets the title to the
/// trimmed question and adds no point.
proof fn lemma_question_line(raw: Seq<char>, q: Seq<char>)
    requires
        parser::clean_line(raw) == "question:"@ + q,
    ensures
        parser::read_line(parser::initial_state(), raw).title == text::trim_ws(q),
        parser::read_line(parser::initial_state(), raw).points == parser::initial_state().points,
{
    reveal_strlit("question:");
    reveal_strlit("question");
    let line = parser::clean_line(raw);
    assert(line[8] == ':');
    assert(text::first_index_of(line, ':') == Some(8int)) by {
        assert(exists|i: int| 0 <= i < line.len() && line[i] == ':') by {
            assert(line[8] == ':');
        }
        let i = choose|i: int|
            0 <= i < line.len() && line[i] == ':' && forall|j: int| 0 <= j < i ==> line[j] != ':';
        if i < 8 {
            assert(line[i] == "question:"@[i]);
        }
    }
    let head = line.take(8);
    assert(head =~= "question"@);
    assert(text::trim_ws(head) == head) by {
        assert(text::strip_start(head, text::ws_pred()) == head);
        assert(text::strip_end(head, text::ws_pred()) == head);
    }
    assert(text::all_ascii(head));
    assert(text::ascii_lower_seq(head) =~= head);
    assert(text::unicode_lowercase(text::trim_ws(head)) == "question"@);
    assert(line.skip(9) =~= q);
}

/// Folding a non-empty sequence is folding its first element, then the rest.
proof fn lemma_fold_first(ls: Seq<Seq<char>>, init: parser::ScriptView)
    requires
        ls.len() >= 1,
    ensures
        ls.fold_left(init, parser::read_line_fn()) == ls.drop_first().fold_left(
            parser::read_line(init, ls[0]),
            parser::read_line_fn(),
        ),
{
    ls.lemma_fold_left_alt(init, parser::read_line_fn());
    ls.drop_first().lemma_fold_left_alt(parser::read_line(init, ls[0]), parser::read_line_fn());
}

/// A header key as the parser compares it: non-empty lower-case ASCII
/// letters and `_`, without a colon.
pub open spec fn plain_key(k: Seq<char>) -> bool {
    &&& k.len() > 0
    &&& forall|i: int| 0 <= i < k.len() ==> text::is_ascii_lower(#[trigger] k[i]) || k[i] == '_'
}

/// A line `key:value` is read as that key with the trimmed value.
proof fn lemma_header_line(st: parser::ScriptView, raw: Seq<char>, k: Seq<char>, v: Seq<char>)
    requires
        plain_key(k),
        parser::clean_line(raw) == k + seq![':'] + v,
    ensures
        parser::read_line(st, raw) == parser::apply_field(st, k + seq![':'] + v, k, text::trim_ws(v)),
{
    let line = parser::clean_line(raw);
    let n = k.len() as int;
    assert(line[n] == ':');
    assert(forall|i: int| 0 <= i < n ==> line[i] == #[trigger] k[i]);
    assert(text::first_index_of(line, ':') == Some(n)) by {
        assert(exists|i: int| 0 <= i < line.len() && line[i] == ':') by {
            assert(line[n] == ':');
        }
        let i = choose|i: int|
            0 <= i < line.len() && line[i] == ':' && forall|j: int| 0 <= j < i ==> line[j] != ':';
        if i < n {
            assert(line[i] == k[i]);
            assert(text::is_ascii_lower(k[i]) || k[i] == '_');
        }
    }
    let head = line.take(n);
    assert(head =~= k);
    assert(text::trim_ws(head) == head) by {
        assert(text::is_ascii_lower(k[0]) || k[0] == '_');
        assert(text::is_ascii_lower(k[n - 1]) || k[n - 1] == '_');
        assert(text::strip_start(head, text::ws_pred()) == head);
        assert(text::strip_end(head, text::ws_pred()) == head);
    }
    assert(text::all_ascii(head)) by {
        assert forall|i: int| 0 <= i < head.len() implies text::is_ascii_char(#[trigger] head[i]) by {
            assert(text::is_ascii_lower(k[i]) || k[i] == '_');
        }
    }
    assert(text::ascii_lower_seq(head) =~= head) by {
        assert forall|i: int| 0 <= i < head.len() implies text::ascii_lower_seq(head)[i] == head[i] by {
            assert(text::is_ascii_lower(k[i]) || k[i] == '_');
        }
    }
    assert(line.skip(n + 1) =~= v);
}

/// Header lines set their field to the trimmed value and leave everything
/// else as it was: `title` and `question` the title; `cta`, `caption` and
/// `fb_caption` the call to action; `code` the output code.
pub proof fn law_header_fields(st: parser::ScriptView, raw: Seq<char>, k: Seq<char>, v: Seq<char>)
    requires
        parser::clean_line(raw) == k + seq![':'] + v,
    ensures
        (k == "title"@ || k == "question"@) ==> parser::read_line(st, raw) == (parser::ScriptView {
            title: text::trim_ws(v),
            ..st
        }),
        (k == "cta"@ || k == "caption"@ || k == "fb_caption"@) ==> parser::read_line(st, raw) == (
        parser::ScriptView { cta: text::trim_ws(v), ..st }),
        k == "code"@ ==> parser::read_line(st, raw) == (parser::ScriptView {
            code: text::trim_ws(v),
            ..st
        }),
{
    reveal_strlit("title");
    reveal_strlit("question");
    reveal_strlit("cta");
    reveal_strlit("caption");
    reveal_strlit("fb_caption");
    reveal_strlit("code");
    assert("title"@.len() == 5);
    assert("question"@.len() == 8);
    assert("cta"@.len() == 3);
    assert("caption"@.len() == 7);
    assert("fb_caption"@.len() == 10);
    assert("code"@.len() == 4);
    if k == "title"@ || k == "question"@ || k == "cta"@ || k == "caption"@ || k == "fb_caption"@
        || k == "code"@ {
        assert(plain_key(k));
        lemma_header_line(st, raw, k, v);
    }
}

/// The text marker before each point: `- ` in the left stack, list and
/// one-word hook layouts, none elsewhere.
pub open spec fn documented_marker(layout: Seq<char>) -> Seq<char> {
    if layout == "left_stack"@ || layout == "list_style"@ || layout == "one_word_hook"@ {
        "- "@
    } else {
        ""@
    }
}

/// A probing pass without pressure that leaves scripts and stays below the
/// limit: if it was the first or clearly faster than the best so far, it
/// becomes the best and the next pass probes two workers more (at most the
/// limit); if not, and it used more than two workers, the count settles on
/// the best earlier count.
pub proof fn law_probe_steps(t: batch::AutoTuner, elapsed_ms: u32, load: batch::ResourceSnapshot)
    requires
        batch::tuner_ok(t),
        t.next_index < t.total,
        t.chosen_workers is None,
        !batch::under_pressure(load),
    ensures
        batch::next_pass_of(t) matches Some(p) && {
            let (after, outcome) = batch::after_pass(t, p, elapsed_ms, load);
            let score = batch::Throughput { reels: p.chunk_size, elapsed_ms: if elapsed_ms >= 100 { elapsed_ms } else { 100 } };
            let improved = match t.best_score { None => true, Some(b) => batch::clearly_faster(score, b) };
            &&& (p.workers < t.max_workers && t.next_index + p.chunk_size < t.total && improved) ==> {
                &&& after.best_workers == p.workers
                &&& after.best_score == Some(score)
                &&& outcome == batch::TunerOutcome::Increased(batch::min_usize((p.workers + 2) as usize, t.max_workers))
                &&& after.next_worker == batch::min_usize((p.workers + 2) as usize, t.max_workers)
                &&& after.chosen_workers is None
            }
            &&& (p.workers < t.max_workers && t.next_index + p.chunk_size < t.total && !improved && p.workers > 2) ==> {
                &&& outcome == batch::TunerOutcome::SettledOnPlateau(batch::at_least_one(t.best_workers))
                &&& after.chosen_workers == Some(batch::at_least_one(t.best_workers))
            }
            &&& (p.workers >= t.max_workers || t.next_index + p.chunk_size >= t.total) ==>
                outcome == batch::TunerOutcome::SettledAfterRamp(batch::at_least_one(after.best_workers))
        },
{
}

/// A `Duration:` field of a pipe row (any case, spaces around the key
/// allowed) adds no point and changes nothing but the duration: a decimal
/// number in it, in seconds, becomes the duration in microseconds; without
/// one the duration stays as it was.
pub proof fn law_pipe_duration_field(st: parser::ScriptView, f: Seq<char>, pos: int)
    requires
        text::first_index_of(text::trim_ws(f), ':') == Some(pos),
        text::unicode_lowercase(text::trim_ws(text::trim_ws(f).take(pos))) == "duration"@,
    ensures
        ({
            let r = parser::read_pipe_field(st, f);
            let value = text::trim_ws(text::trim_ws(f).skip(pos + 1));
            &&& r.points == st.points
            &&& r.point_pause_counts_before == st.point_pause_counts_before
            &&& r.title == st.title
            &&& r.cta == st.cta
            &&& r.code == st.code
            &&& r.layout == st.layout
            &&& r.duration_us == match patterns::first_number(value) {
                Some(m) => if parser::decimal_literal(m) {
                    Some(parser::literal_micros(m))
                } else {
                    st.duration_us
                },
                None => st.duration_us,
            }
        }),
{
    reveal_strlit("title");
    reveal_strlit("question");
    reveal_strlit("cta");
    reveal_strlit("caption");
    reveal_strlit("fb_caption");
    reveal_strlit("code");
    reveal_strlit("video");
    reveal_strlit("vid");
    reveal_strlit("audio");
    reveal_strlit("duration");
    assert("title"@.len() == 5);
    assert("question"@.len() == 8);
    assert("cta"@.len() == 3);
    assert("caption"@.len() == 7);
    assert("fb_caption"@.len() == 10);
    assert("code"@.len() == 4);
    assert("video"@.len() == 5);
    assert("vid"@.len() == 3);
    assert("audio"@.len() == 5);
    assert("duration"@.len() == 8);
    assert("title"@[0] != "video"@[0]);
    assert("title"@[0] != "audio"@[0]);
    assert("question"@[0] != "duration"@[0]);
    assert("cta"@[0] != "vid"@[0]);
    assert("video"@[0] != "audio"@[0]);
    let t = text::trim_ws(f);
    assert(t.len() > 0);
}

/// A whole number of seconds becomes that many million microseconds (at
/// most `u64::MAX`).
pub proof fn law_duration_value(m: Seq<char>)
    requires
        parser::decimal_literal(m),
    ensures
        !m.contains('.') ==> parser::literal_micros(m) as int == if parser::digits_value(m) * 1000000 > u64::MAX {
            u64::MAX as int
        } else {
            (parser::digits_value(m) * 1000000) as int
        },
{
    if !m.contains('.') {
        if exists|i: int| 0 <= i < m.len() && m[i] == '.' {
            let i = choose|i: int| 0 <= i < m.len() && m[i] == '.';
            assert(m.contains('.'));
        }
    }
}

/// Layout names ignore ASCII case: an ASCII name and its lower-case form
/// select the same layout.
pub proof fn law_layout_ignores_case(v: Seq<char>)
    requires
        text::all_ascii(v),
    ensures
        parser::layout_key(v) == parser::layout_key(text::ascii_lower_seq(v)),
        parser::normalized_layout(v) == parser::normalized_layout(text::ascii_lower_seq(v)),
{
    let l = text::ascii_lower_seq(v);
    assert(text::all_ascii(l)) by {
        assert forall|i: int| 0 <= i < l.len() implies text::is_ascii_char(#[trigger] l[i]) by {
            assert(text::is_ascii_char(v[i]));
        }
    }
    assert(text::ascii_lower_seq(l) =~= l);
}

} // verus!
