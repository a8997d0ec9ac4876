//! The backtracking matcher over raw pattern text.
use vstd::prelude::*;
use crate::text::chars_of;

verus! {

/// Whether pattern `p` matches a prefix of text `t`.
pub open spec fn matches_here(p: Seq<char>, t: Seq<char>) -> bool
    decreases p.len(), t.len(),
{
    if p.len() == 0 {
        true
    } else if p.len() >= 2 && p[1] == '*' {
        matches_star(p[0], p.subrange(2, p.len() as int), t)
    } else if p.len() == 1 && p[0] == '$' {
        t.len() == 0
    } else if t.len() > 0 && (p[0] == '.' || p[0] == t[0]) {
        matches_here(p.drop_first(), t.drop_first())
    } else {
        false
    }
}

/// Whether `c*` followed by pattern `p` matches a prefix of text `t`: some
/// run of leading characters of `t` that each agree with `c` is consumed,
/// and `p` matches a prefix of what is left.
pub open spec fn matches_star(c: char, p: Seq<char>, t: Seq<char>) -> bool
    decreases p.len() + 1, t.len(),
{
    matches_here(p, t) || (t.len() > 0 && (c == '.' || t[0] == c) && matches_star(
        c,
        p,
        t.drop_first(),
    ))
}

/// Whether pattern `p` matches text `t`: an empty pattern matches anything,
/// a leading `^` ties the rest of the pattern to the start of the text, and
/// otherwise the pattern may match starting at any offset, the end included.
pub open spec fn matches_text(p: Seq<char>, t: Seq<char>) -> bool {
    if p.len() == 0 {
        true
    } else if p[0] == '^' {
        matches_here(p.drop_first(), t)
    } else {
        exists|k: int| 0 <= k <= t.len() && #[trigger] matches_here(p, t.subrange(k, t.len() as int))
    }
}

/// Matches `p[pi..]` against a prefix of `t[ti..]`.
fn match_here(p: &Vec<char>, pi: usize, t: &Vec<char>, ti: usize) -> (r: bool)
    requires
        pi <= p@.len(),
        ti <= t@.len(),
    ensures
        r == matches_here(p@.subrange(pi as int, p@.len() as int), t@.subrange(ti as int, t@.len() as int)),
    decreases p@.len() - pi, t@.len() - ti, 0nat,
{
    let ghost ps = p@.subrange(pi as int, p@.len() as int);
    let ghost ts = t@.subrange(ti as int, t@.len() as int);
    let np = p.len();
    let nt = t.len();
    if pi == np {
        true
    } else if np - pi >= 2 && p[pi + 1] == '*' {
        assert(ps.subrange(2, ps.len() as int) =~= p@.subrange(pi + 2, np as int));
        match_star(p[pi], p, pi + 2, t, ti)
    } else if np - pi == 1 && p[pi] == '$' {
        ti == nt
    } else if ti < nt && (p[pi] == '.' || p[pi] == t[ti]) {
        assert(ps.drop_first() =~= p@.subrange(pi + 1, np as int));
        assert(ts.drop_first() =~= t@.subrange(ti + 1, nt as int));
        match_here(p, pi + 1, t, ti + 1)
    } else {
        false
    }
}

/// Matches `c*` followed by `p[pi..]` against a prefix of `t[ti..]`, trying
/// zero consumed characters first and then one more at a time.
fn match_star(c: char, p: &Vec<char>, pi: usize, t: &Vec<char>, ti: usize) -> (r: bool)
    requires
        2 <= pi <= p@.len(),
        ti <= t@.len(),
    ensures
        r == matches_star(c, p@.subrange(pi as int, p@.len() as int), t@.subrange(ti as int, t@.len() as int)),
    decreases p@.len() - pi + 1, t@.len() - ti, 1nat,
{
    let ghost ps = p@.subrange(pi as int, p@.len() as int);
    let nt = t.len();
    let mut k: usize = ti;
    while k <= nt
        invariant
            ti <= k <= nt + 1,
            nt == t@.len(),
            2 <= pi <= p@.len(),
            ps == p@.subrange(pi as int, p@.len() as int),
            k <= nt ==> matches_star(c, ps, t@.subrange(ti as int, nt as int)) == matches_star(
                c,
                ps,
                t@.subrange(k as int, nt as int),
            ),
            k > nt ==> !matches_star(c, ps, t@.subrange(ti as int, nt as int)),
        decreases nt + 1 - k,
    {
        let ghost ts = t@.subrange(k as int, nt as int);
        if match_here(p, pi, t, k) {
            return true;
        }
        if k == nt || !(c == '.' || t[k] == c) {
            return false;
        }
        assert(ts.drop_first() =~= t@.subrange(k + 1, nt as int));
        k = k + 1;
    }
    false
}

/// Whether `regexp` matches `text`, as `matches_text` describes.
pub fn match_re(regexp: &str, text: &str) -> (r: bool)
    ensures
        r == matches_text(regexp@, text@),
{
    let p = chars_of(regexp);
    let t = chars_of(text);
    let nt = t.len();
    if p.len() == 0 {
        return true;
    }
    if p[0] == '^' {
        assert(p@.drop_first() =~= p@.subrange(1, p@.len() as int));
        assert(t@.subrange(0, nt as int) =~= t@);
        return match_here(&p, 1, &t, 0);
    }
    assert(p@.subrange(0, p@.len() as int) =~= p@);
    let mut k: usize = 0;
    loop
        invariant
            nt == t@.len(),
            k <= nt,
            p@ == regexp@,
            t@ == text@,
            p@.len() > 0,
            p@[0] != '^',
            p@.subrange(0, p@.len() as int) == p@,
            forall|j: int| 0 <= j < k ==> !#[trigger] matches_here(p@, t@.subrange(j, nt as int)),
        decreases nt - k,
    {
        if match_here(&p, 0, &t, k) {
            return true;
        }
        if k == nt {
            return false;
        }
        k = k + 1;
    }
}

} // verus!
