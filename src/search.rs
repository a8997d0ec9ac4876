//! Matching a compiled pattern against text.
use vstd::prelude::*;
use crate::pattern::{Atom, Element, Piece, Regex, lemma_pieces_index};
use crate::text::chars_of;

verus! {

/// Whether atom `a` accepts character `c`.
pub open spec fn atom_accepts(a: Atom, c: char) -> bool {
    match a {
        Atom::Char(x) => x == c,
        Atom::Any => true,
    }
}

/// Whether elements `ps[i..]` match the text `t` from position `j` on, the
/// match ending anywhere.
pub open spec fn pieces_at(ps: Seq<Piece>, i: int, t: Seq<char>, j: int) -> bool
    decreases ps.len() - i, t.len() - j, 1int,
{
    if i >= ps.len() {
        true
    } else if i < 0 || j < 0 || j > t.len() {
        false
    } else {
        match ps[i] {
            Piece::Literal(c) => j < t.len() && t[j] == c && pieces_at(ps, i + 1, t, j + 1),
            Piece::AnyChar => j < t.len() && pieces_at(ps, i + 1, t, j + 1),
            Piece::CharClass(cs) => j < t.len() && cs.contains(t[j]) && pieces_at(ps, i + 1, t, j + 1),
            Piece::StartLine => j == 0 && pieces_at(ps, i + 1, t, j),
            Piece::EndLine => j == t.len() && pieces_at(ps, i + 1, t, j),
            Piece::ZeroOrMore(a) => repeat_at(a, ps, i + 1, t, j),
            Piece::OneOrMore(a) => j < t.len() && atom_accepts(a, t[j]) && repeat_at(a, ps, i + 1, t, j + 1),
            Piece::ZeroOrOne(a) => pieces_at(ps, i + 1, t, j) || (j < t.len() && atom_accepts(a, t[j])
                && pieces_at(ps, i + 1, t, j + 1)),
        }
    }
}

/// Whether some run of characters of `t` from `j` on, each accepted by `a`,
/// is followed by a match of `ps[i..]`.
pub open spec fn repeat_at(a: Atom, ps: Seq<Piece>, i: int, t: Seq<char>, j: int) -> bool
    decreases ps.len() - i + 1, t.len() - j, 0int,
{
    if i > ps.len() || j < 0 || j > t.len() {
        false
    } else {
        pieces_at(ps, i, t, j) || (j < t.len() && atom_accepts(a, t[j]) && repeat_at(a, ps, i, t, j + 1))
    }
}

/// Whether the compiled pattern `ps` matches text `t` starting at some
/// position, the end included.
pub open spec fn regex_matches(ps: Seq<Piece>, t: Seq<char>) -> bool {
    exists|k: int| 0 <= k <= t.len() && #[trigger] pieces_at(ps, 0, t, k)
}

fn class_contains(cs: &Vec<char>, c: char) -> (r: bool)
    ensures
        r == cs@.contains(c),
{
    let mut k: usize = 0;
    while k < cs.len()
        invariant
            k <= cs@.len(),
            forall|m: int| 0 <= m < k ==> cs@[m] != c,
        decreases cs@.len() - k,
    {
        if cs[k] == c {
            return true;
        }
        k = k + 1;
    }
    false
}

fn accepts(a: Atom, c: char) -> (r: bool)
    ensures
        r == atom_accepts(a, c),
{
    match a {
        Atom::Char(x) => x == c,
        Atom::Any => true,
    }
}

impl Regex {
    fn match_from(&self, i: usize, t: &Vec<char>, j: usize) -> (r: bool)
        requires
            i <= self.elements@.len(),
            j <= t@.len(),
        ensures
            r == pieces_at(self@, i as int, t@, j as int),
        decreases self.elements@.len() - i, t@.len() - j, 1nat,
    {
        proof {
            lemma_pieces_index(self.elements@);
        }
        if i == self.elements.len() {
            return true;
        }
        let nt = t.len();
        match &self.elements[i] {
            Element::Literal(c) => j < nt && t[j] == *c && self.match_from(i + 1, t, j + 1),
            Element::AnyChar => j < nt && self.match_from(i + 1, t, j + 1),
            Element::CharClass(cs) => j < nt && class_contains(cs, t[j]) && self.match_from(i + 1, t, j + 1),
            Element::StartLine => j == 0 && self.match_from(i + 1, t, j),
            Element::EndLine => j == nt && self.match_from(i + 1, t, j),
            Element::ZeroOrMore(a) => self.match_repeat(*a, i + 1, t, j),
            Element::OneOrMore(a) => j < nt && accepts(*a, t[j]) && self.match_repeat(*a, i + 1, t, j + 1),
            Element::ZeroOrOne(a) => self.match_from(i + 1, t, j) || (j < nt && accepts(*a, t[j])
                && self.match_from(i + 1, t, j + 1)),
        }
    }

    fn match_repeat(&self, a: Atom, i: usize, t: &Vec<char>, j: usize) -> (r: bool)
        requires
            1 <= i <= self.elements@.len(),
            j <= t@.len(),
        ensures
            r == repeat_at(a, self@, i as int, t@, j as int),
        decreases self.elements@.len() - i + 1, t@.len() - j, 0nat,
    {
        proof {
            lemma_pieces_index(self.elements@);
        }
        let nt = t.len();
        let mut k: usize = j;
        loop
            invariant
                j <= k <= nt,
                self@.len() == self.elements@.len(),
                nt == t@.len(),
                1 <= i <= self.elements@.len(),
                repeat_at(a, self@, i as int, t@, j as int) == repeat_at(a, self@, i as int, t@, k as int),
            decreases nt - k,
        {
            if self.match_from(i, t, k) {
                return true;
            }
            if k == nt || !accepts(a, t[k]) {
                return false;
            }
            k = k + 1;
        }
    }

    /// Whether this pattern matches `s` starting at some position: elements
    /// are matched in order, `^` only at the start of `s`, `$` only at its
    /// end, and a quantified atom repeats as `*`, `+` or `?` allows.
    pub fn re_match(&self, s: &str) -> (r: bool)
        ensures
            r == regex_matches(self@, s@),
    {
        let t = chars_of(s);
        let nt = t.len();
        let mut k: usize = 0;
        loop
            invariant
                nt == t@.len(),
                t@ == s@,
                k <= nt,
                forall|m: int| 0 <= m < k ==> !#[trigger] pieces_at(self@, 0, t@, m),
            decreases nt - k,
        {
            if self.match_from(0, &t, k) {
                return true;
            }
            if k == nt {
                return false;
            }
            k = k + 1;
        }
    }
}

} // verus!
