//! Natural ordering of file names: runs of digits compare as numbers, other
//! runs compare case-insensitively, so `week2` sorts before `week10`.
use vstd::prelude::*;
use std::cmp::Ordering;
use crate::text;
use crate::patterns;
use crate::parser;

verus! {

/// `str::parse` for an unsigned integer type whose largest value is `max`:
/// an optional `+`, then one or more ASCII digits, and a value that fits.
pub open spec fn parse_unsigned(s: Seq<char>, max: nat) -> Option<nat> {
    let digits = if s.len() > 0 && s[0] == '+' {
        s.drop_first()
    } else {
        s
    };
    if digits.len() > 0 && parser::all_digits(digits) && parser::digits_value(digits) <= max {
        Some(parser::digits_value(digits))
    } else {
        None
    }
}

/// Parses an unsigned number no larger than `max`.
pub fn parse_unsigned_exec(v: &Vec<char>, max: u64) -> (r: Option<u64>)
    ensures
        match parse_unsigned(v@, max as nat) {
            Some(n) => r == Some(n as u64),
            None => r is None,
        },
{
    let start: usize = if v.len() > 0 && v[0] == '+' {
        1
    } else {
        0
    };
    let ghost digits = v@.subrange(start as int, v.len() as int);
    assert(digits =~= (if v@.len() > 0 && v@[0] == '+' {
        v@.drop_first()
    } else {
        v@
    }));
    if start >= v.len() {
        return None;
    }
    let mut r: u128 = 0;
    let mut i = start;
    assert(v@.subrange(start as int, start as int) =~= Seq::<char>::empty());
    while i < v.len()
        invariant
            start <= i <= v.len(),
            start < v.len(),
            digits == v@.subrange(start as int, v.len() as int),
            digits == (if v@.len() > 0 && v@[0] == '+' {
                v@.drop_first()
            } else {
                v@
            }),
            parser::all_digits(v@.subrange(start as int, i as int)),
            r as nat == parser::digits_value(v@.subrange(start as int, i as int)),
            r <= max,
        decreases v.len() - i,
    {
        let code: u32 = v[i] as u32;
        assert(digits[i - start] == v@[i as int]);
        if !(48 <= code && code <= 57) {
            assert(!parser::all_digits(digits));
            return None;
        }
        let ghost next_prefix = v@.subrange(start as int, i + 1);
        assert(next_prefix.drop_last() =~= v@.subrange(start as int, i as int));
        assert(next_prefix.last() == v@[i as int]);
        assert(parser::all_digits(next_prefix)) by {
            assert forall|k: int| 0 <= k < next_prefix.len() implies text::is_ascii_digit(
                #[trigger] next_prefix[k],
            ) by {
                if k < next_prefix.len() - 1 {
                    assert(next_prefix[k] == v@.subrange(start as int, i as int)[k]);
                }
            }
        }
        let next: u128 = r * 10 + ((code - 48) as u128);
        assert(next as nat == parser::digits_value(next_prefix));
        if next > max as u128 {
            proof {
                lemma_digits_monotone(digits, (i + 1 - start) as int);
                assert(digits.take((i + 1 - start) as int) =~= next_prefix);
            }
            return None;
        }
        r = next;
        i += 1;
    }
    assert(v@.subrange(start as int, i as int) =~= digits);
    Some(r as u64)
}

/// A longer run of digits is worth at least as much as its prefix.
proof fn lemma_digits_monotone(s: Seq<char>, k: int)
    requires
        0 <= k <= s.len(),
    ensures
        parser::digits_value(s) >= parser::digits_value(s.take(k)),
    decreases s.len(),
{
    if k < s.len() {
        assert(s.drop_last().take(k) =~= s.take(k));
        lemma_digits_monotone(s.drop_last(), k);
    } else {
        assert(s.take(k) =~= s);
    }
}

/// The outcome of comparing two values.
#[derive(Clone, Copy, PartialEq, Eq, Structural)]
pub enum Rank {
    Before,
    Same,
    After,
}

pub open spec fn rank_of(a: nat, b: nat) -> Rank {
    if a < b {
        Rank::Before
    } else if a == b {
        Rank::Same
    } else {
        Rank::After
    }
}

/// The lexicographic order of texts by code point (the order of `String`).
pub open spec fn lex_rank(a: Seq<char>, b: Seq<char>) -> Rank
    decreases a.len(),
{
    if a.len() == 0 {
        if b.len() == 0 {
            Rank::Same
        } else {
            Rank::Before
        }
    } else if b.len() == 0 {
        Rank::After
    } else if (a[0] as u32) < (b[0] as u32) {
        Rank::Before
    } else if (a[0] as u32) > (b[0] as u32) {
        Rank::After
    } else {
        lex_rank(a.drop_first(), b.drop_first())
    }
}

/// Two runs: as numbers when both parse as `u64`, otherwise as lower-cased
/// text.
pub open spec fn run_rank(a: Seq<char>, b: Seq<char>) -> Rank {
    match (parse_unsigned(a, 18446744073709551615), parse_unsigned(b, 18446744073709551615)) {
        (Some(x), Some(y)) => rank_of(x, y),
        _ => lex_rank(text::unicode_lowercase(a), text::unicode_lowercase(b)),
    }
}

/// Runs compared pairwise until one pair differs; then the shorter list first.
pub open spec fn runs_rank(xs: Seq<Seq<char>>, ys: Seq<Seq<char>>) -> Rank
    decreases xs.len(),
{
    if xs.len() == 0 || ys.len() == 0 {
        rank_of(xs.len(), ys.len())
    } else if run_rank(xs[0], ys[0]) != Rank::Same {
        run_rank(xs[0], ys[0])
    } else {
        runs_rank(xs.drop_first(), ys.drop_first())
    }
}

/// The natural order of two names.
pub open spec fn natural_rank(a: Seq<char>, b: Seq<char>) -> Rank {
    runs_rank(patterns::digit_runs(a), patterns::digit_runs(b))
}

/// Path components compared pairwise in natural order until one pair
/// differs; then the shorter path first.
pub open spec fn path_rank(ps: Seq<Seq<char>>, qs: Seq<Seq<char>>) -> Rank
    decreases ps.len(),
{
    if ps.len() == 0 || qs.len() == 0 {
        rank_of(ps.len(), qs.len())
    } else if natural_rank(ps[0], qs[0]) != Rank::Same {
        natural_rank(ps[0], qs[0])
    } else {
        path_rank(ps.drop_first(), qs.drop_first())
    }
}

pub open spec fn to_ordering(r: Rank) -> Ordering {
    match r {
        Rank::Before => Ordering::Less,
        Rank::Same => Ordering::Equal,
        Rank::After => Ordering::Greater,
    }
}

fn rank_exec(a: usize, b: usize) -> (r: Rank)
    ensures
        r == rank_of(a as nat, b as nat),
{
    if a < b {
        Rank::Before
    } else if a == b {
        Rank::Same
    } else {
        Rank::After
    }
}

fn lex_compare(a: &Vec<char>, b: &Vec<char>) -> (r: Rank)
    ensures
        r == lex_rank(a@, b@),
{
    let mut i: usize = 0;
    assert(a@.skip(0) =~= a@);
    assert(b@.skip(0) =~= b@);
    while i < a.len() && i < b.len()
        invariant
            i <= a.len(),
            i <= b.len(),
            lex_rank(a@, b@) == lex_rank(a@.skip(i as int), b@.skip(i as int)),
        decreases a.len() - i,
    {
        if (a[i] as u32) < (b[i] as u32) {
            return Rank::Before;
        }
        if (a[i] as u32) > (b[i] as u32) {
            return Rank::After;
        }
        assert(a@.skip(i as int).drop_first() =~= a@.skip(i + 1));
        assert(b@.skip(i as int).drop_first() =~= b@.skip(i + 1));
        i += 1;
    }
    rank_exec(a.len() - i, b.len() - i)
}

fn run_compare(a: &Vec<char>, b: &Vec<char>) -> (r: Rank)
    ensures
        r == run_rank(a@, b@),
{
    let x = parse_unsigned_exec(a, 18446744073709551615);
    let y = parse_unsigned_exec(b, 18446744073709551615);
    match (x, y) {
        (Some(p), Some(q)) => {
            if p < q {
                Rank::Before
            } else if p == q {
                Rank::Same
            } else {
                Rank::After
            }
        },
        _ => {
            let la = text::lowercase(a);
            let lb = text::lowercase(b);
            lex_compare(&la, &lb)
        },
    }
}

fn runs_compare(xs: &Vec<Vec<char>>, ys: &Vec<Vec<char>>) -> (r: Rank)
    ensures
        r == runs_rank(text::views(xs@), text::views(ys@)),
{
    let ghost xv = text::views(xs@);
    let ghost yv = text::views(ys@);
    let mut i: usize = 0;
    assert(xv.skip(0) =~= xv);
    assert(yv.skip(0) =~= yv);
    while i < xs.len() && i < ys.len()
        invariant
            i <= xs.len(),
            i <= ys.len(),
            xv == text::views(xs@),
            yv == text::views(ys@),
            runs_rank(xv, yv) == runs_rank(xv.skip(i as int), yv.skip(i as int)),
        decreases xs.len() - i,
    {
        let c = run_compare(&xs[i], &ys[i]);
        if c != Rank::Same {
            return c;
        }
        assert(xv.skip(i as int).drop_first() =~= xv.skip(i + 1));
        assert(yv.skip(i as int).drop_first() =~= yv.skip(i + 1));
        i += 1;
    }
    rank_exec(xs.len() - i, ys.len() - i)
}

/// The natural order of two names.
pub fn natural_rank_of(left: &str, right: &str) -> (r: Rank)
    ensures
        r == natural_rank(left@, right@),
{
    let l = text::chars_of(left);
    let rt = text::chars_of(right);
    let lr = patterns::digit_runs_of(&l);
    let rr = patterns::digit_runs_of(&rt);
    runs_compare(&lr, &rr)
}

/// The natural order of two paths, given as their components.
pub fn path_rank_of(left: &Vec<String>, right: &Vec<String>) -> (r: Rank)
    ensures
        r == path_rank(patterns::strings(left@), patterns::strings(right@)),
{
    let ghost lv = patterns::strings(left@);
    let ghost rv = patterns::strings(right@);
    let mut i: usize = 0;
    assert(lv.skip(0) =~= lv);
    assert(rv.skip(0) =~= rv);
    while i < left.len() && i < right.len()
        invariant
            i <= left.len(),
            i <= right.len(),
            lv == patterns::strings(left@),
            rv == patterns::strings(right@),
            path_rank(lv, rv) == path_rank(lv.skip(i as int), rv.skip(i as int)),
        decreases left.len() - i,
    {
        let c = natural_rank_of(left[i].as_str(), right[i].as_str());
        if c != Rank::Same {
            return c;
        }
        assert(lv.skip(i as int).drop_first() =~= lv.skip(i + 1));
        assert(rv.skip(i as int).drop_first() =~= rv.skip(i + 1));
        i += 1;
    }
    rank_exec(left.len() - i, right.len() - i)
}

fn ordering_of(r: Rank) -> (o: Ordering)
    ensures
        o == to_ordering(r),
{
    match r {
        Rank::Before => Ordering::Less,
        Rank::Same => Ordering::Equal,
        Rank::After => Ordering::Greater,
    }
}

/// Compares two names in natural order.
pub fn natural_str_cmp(left: &str, right: &str) -> (r: Ordering)
    ensures
        r == to_ordering(natural_rank(left@, right@)),
{
    ordering_of(natural_rank_of(left, right))
}

/// Compares two paths, given as their components, in natural order.
pub fn natural_path_cmp(left: &Vec<String>, right: &Vec<String>) -> (r: Ordering)
    ensures
        r == to_ordering(path_rank(patterns::strings(left@), patterns::strings(right@))),
{
    ordering_of(path_rank_of(left, right))
}


// ---------------------------------------------------------------------------
// Sorting paths
// ---------------------------------------------------------------------------

/// The components of each path.
pub open spec fn path_views(paths: Seq<Vec<String>>) -> Seq<Seq<Seq<char>>> {
    paths.map_values(|p: Vec<String>| patterns::strings(p@))
}

/// `order` lists each index below `n` exactly once.
pub open spec fn is_permutation(order: Seq<usize>, n: nat) -> bool {
    &&& order.len() == n
    &&& forall|k: int| 0 <= k < order.len() ==> (#[trigger] order[k]) < n
    &&& forall|j: int, k: int| 0 <= j < k < order.len() ==> order[j] != order[k]
}

/// Listed in `order`, the paths go in natural order, and paths that rank the
/// same keep their original order.
pub open spec fn in_natural_order(ps: Seq<Seq<Seq<char>>>, order: Seq<usize>) -> bool {
    forall|k: int|
        0 <= k < order.len() - 1 ==> {
            let r = #[trigger] path_rank(ps[order[k] as int], ps[order[k + 1] as int]);
            r != Rank::After && (r == Rank::Same ==> order[k] < order[k + 1])
        }
}

/// The order in which to take `paths` so that they are sorted naturally,
/// ties kept in their original order (a stable sort by `natural_path_cmp`).
pub fn natural_order(paths: &Vec<Vec<String>>) -> (order: Vec<usize>)
    ensures
        is_permutation(order@, paths.len() as nat),
        in_natural_order(path_views(paths@), order@),
{
    let ghost ps = path_views(paths@);
    let mut order: Vec<usize> = Vec::new();
    let mut i: usize = 0;
    while i < paths.len()
        invariant
            i <= paths.len(),
            ps == path_views(paths@),
            ps.len() == paths.len(),
            is_permutation(order@, i as nat),
            in_natural_order(ps, order@),
        decreases paths.len() - i,
    {
        let mut p: usize = order.len();
        while p > 0 && path_rank_of(&paths[order[p - 1]], &paths[i]) == Rank::After
            invariant
                p <= order.len(),
                order.len() == i,
                i < paths.len(),
                ps == path_views(paths@),
                ps.len() == paths.len(),
                is_permutation(order@, i as nat),
                in_natural_order(ps, order@),
                forall|k: int| p <= k < order.len() ==> #[trigger] path_rank(ps[order@[k] as int], ps[i as int]) == Rank::After,
            decreases p,
        {
            assert(ps[order@[p - 1] as int] == patterns::strings(paths@[order@[p - 1] as int]@));
            assert(ps[i as int] == patterns::strings(paths@[i as int]@));
            p -= 1;
        }
        let ghost old_order = order@;
        proof {
            if p > 0 {
                assert(ps[old_order[p - 1] as int] == patterns::strings(paths@[old_order[p - 1] as int]@));
                assert(ps[i as int] == patterns::strings(paths@[i as int]@));
            }
        }
        order.insert(p, i);
        proof {
            let o = order@;
            assert(o =~= old_order.insert(p as int, i));
            assert forall|k: int| 0 <= k < o.len() implies (#[trigger] o[k]) < i + 1 by {
                if k < p {
                    assert(o[k] == old_order[k]);
                } else if k > p {
                    assert(o[k] == old_order[k - 1]);
                }
            }
            assert forall|j: int, k: int| 0 <= j < k < o.len() implies o[j] != o[k] by {
                let jj = if j < p { j } else if j == p { -1 } else { j - 1 };
                let kk = if k < p { k } else if k == p { -1 } else { k - 1 };
                if jj >= 0 {
                    assert(o[j] == old_order[jj]);
                    assert(old_order[jj] < i);
                }
                if kk >= 0 {
                    assert(o[k] == old_order[kk]);
                    assert(old_order[kk] < i);
                }
            }
            assert forall|k: int| 0 <= k < o.len() - 1 implies {
                let r = #[trigger] path_rank(ps[o[k] as int], ps[o[k + 1] as int]);
                r != Rank::After && (r == Rank::Same ==> o[k] < o[k + 1])
            } by {
                if k + 1 < p {
                    assert(o[k] == old_order[k]);
                    assert(o[k + 1] == old_order[k + 1]);
                    assert(path_rank(ps[old_order[k] as int], ps[old_order[k + 1] as int]) != Rank::After);
                } else if k + 1 == p {
                    assert(o[k] == old_order[k]);
                    assert(o[k + 1] == i);
                    assert(old_order[k] < i);
                } else if k == p {
                    assert(o[k] == i);
                    assert(o[k + 1] == old_order[k]);
                    assert(path_rank(ps[old_order[k] as int], ps[i as int]) == Rank::After);
                    crate::laws::law_path_order_antisymmetric(ps[i as int], ps[old_order[k] as int]);
                } else {
                    assert(o[k] == old_order[k - 1]);
                    assert(o[k + 1] == old_order[k]);
                    let k1 = k - 1;
                    assert(path_rank(ps[old_order[k1] as int], ps[old_order[k1 + 1] as int]) != Rank::After);
                    assert(k1 + 1 == k);
                }
            }
        }
        i += 1;
    }
    order
}

} // verus!
