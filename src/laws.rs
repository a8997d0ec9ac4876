//! Properties of the matcher stated over its spec functions.
use vstd::prelude::*;
use crate::matcher::{matches_text, matches_here, matches_star};
use crate::pattern::{
    Atom, RegexError, Piece, parse, parse_from, single, lemma_parse_single, lemma_parse_quantifier,
    lemma_parse_dangling, lemma_parse_end,
};
use crate::search::{pieces_at, repeat_at, regex_matches};

verus! {

/// Whether pattern `p`, matched from a fixed position, can succeed without
/// consuming a character: it is empty, is the lone end anchor `$`, or starts
/// with a starred element whose remainder can itself succeed so.
pub open spec fn reduces_to_empty(p: Seq<char>) -> bool
    decreases p.len(),
{
    if p.len() == 0 {
        true
    } else if p.len() >= 2 && p[1] == '*' {
        reduces_to_empty(p.subrange(2, p.len() as int))
    } else {
        p.len() == 1 && p[0] == '$'
    }
}

/// Whether text `t` has the length of `p` and agrees with it at every
/// position, a `.` in `p` agreeing with any character.
pub open spec fn fits(p: Seq<char>, t: Seq<char>) -> bool {
    t.len() == p.len() && forall|i: int| 0 <= i < p.len() ==> (p[i] == '.' || #[trigger] p[i] == t[i])
}

/// Matching from a fixed position against the empty text succeeds exactly
/// when the pattern reduces to empty.
pub proof fn lemma_here_on_empty(p: Seq<char>)
    ensures
        matches_here(p, Seq::empty()) == reduces_to_empty(p),
    decreases p.len(),
{
    if p.len() >= 2 && p[1] == '*' {
        let rest = p.subrange(2, p.len() as int);
        lemma_here_on_empty(rest);
        assert(matches_star(p[0], rest, Seq::empty()) == matches_here(rest, Seq::empty()));
    }
}

/// The empty pattern matches every text, the empty text included.
pub proof fn lemma_empty_pattern_matches(t: Seq<char>)
    ensures
        matches_text(Seq::empty(), t),
{
}

/// A pattern matches the empty text exactly when, after a leading `^` is
/// set aside, it reduces to empty; in particular a pattern that needs a
/// character never matches the empty text.
pub proof fn lemma_empty_text(p: Seq<char>)
    ensures
        matches_text(p, Seq::empty()) == (p.len() == 0 || (if p[0] == '^' {
            reduces_to_empty(p.drop_first())
        } else {
            reduces_to_empty(p)
        })),
{
    let e = Seq::<char>::empty();
    if p.len() > 0 {
        if p[0] == '^' {
            lemma_here_on_empty(p.drop_first());
        } else {
            lemma_here_on_empty(p);
            assert(e.subrange(0, 0) =~= e);
            if matches_text(p, e) {
                let k = choose|k: int| 0 <= k <= e.len() && #[trigger] matches_here(p, e.subrange(k, e.len() as int));
                assert(k == 0);
            } else {
                assert(!matches_here(p, e.subrange(0, 0)));
            }
        }
    }
}

/// `.*` matches every text.
pub proof fn lemma_dot_star_matches_all(t: Seq<char>)
    ensures
        matches_text(seq!['.', '*'], t),
{
    let p = seq!['.', '*'];
    assert(p.subrange(2, 2) =~= Seq::<char>::empty());
    assert(t.subrange(0, t.len() as int) =~= t);
    assert(matches_here(Seq::empty(), t));
    assert(matches_star('.', Seq::empty(), t));
    assert(matches_here(p, t.subrange(0, t.len() as int)));
}

/// Without `*` in `p`, `p` followed by `$` matches a prefix of `t` exactly
/// when `t` fits `p`.
pub proof fn lemma_fixed_here(p: Seq<char>, t: Seq<char>)
    requires
        !p.contains('*'),
    ensures
        matches_here(p + seq!['$'], t) == fits(p, t),
    decreases p.len(),
{
    let q = p + seq!['$'];
    if p.len() == 0 {
        assert(q =~= seq!['$']);
        assert(matches_here(q, t) == (t.len() == 0));
    } else {
        if p.len() >= 2 {
            assert(q[1] == p[1]);
            assert(p[1] != '*') by {
                if p[1] == '*' {
                    assert(p.contains('*'));
                }
            }
        } else {
            assert(q[1] == '$');
        }
        let tail = p.drop_first();
        assert(!tail.contains('*')) by {
            if tail.contains('*') {
                let j = choose|j: int| 0 <= j < tail.len() && tail[j] == '*';
                assert(p[j + 1] == '*');
            }
        }
        assert(q.drop_first() =~= tail + seq!['$']);
        if t.len() > 0 && (p[0] == '.' || p[0] == t[0]) {
            lemma_fixed_here(tail, t.drop_first());
            if fits(tail, t.drop_first()) {
                assert forall|i: int| 0 <= i < p.len() implies (p[i] == '.' || #[trigger] p[i] == t[i]) by {
                    if i > 0 {
                        assert(p[i] == tail[i - 1]);
                    }
                }
            }
            if fits(p, t) {
                assert forall|i: int| 0 <= i < tail.len() implies (tail[i] == '.' || #[trigger] tail[i]
                    == t.drop_first()[i]) by {
                    assert(p[i + 1] == '.' || p[i + 1] == t[i + 1]);
                }
            }
        } else {
            if t.len() > 0 {
                assert(!(p[0] == '.' || p[0] == t[0]));
            }
        }
    }
}

/// A pattern anchored at both ends, `^` then `p` then `$`, with no `*` in
/// `p`, matches exactly the texts of the length of `p` that carry its
/// characters at its non-wildcard positions.
pub proof fn lemma_anchored_fixed_length(p: Seq<char>, t: Seq<char>)
    requires
        !p.contains('*'),
    ensures
        matches_text(seq!['^'] + p + seq!['$'], t) == fits(p, t),
{
    let full = seq!['^'] + p + seq!['$'];
    assert(full.drop_first() =~= p + seq!['$']);
    lemma_fixed_here(p, t);
}

/// Without `*` or `$` in `p`, `p` matches a prefix of any text that starts
/// with `p`.
pub proof fn lemma_literal_prefix(p: Seq<char>, rest: Seq<char>)
    requires
        !p.contains('*'),
        !p.contains('$'),
    ensures
        matches_here(p, p + rest),
    decreases p.len(),
{
    if p.len() > 0 {
        let tail = p.drop_first();
        assert(!tail.contains('*') && !tail.contains('$')) by {
            if tail.contains('*') || tail.contains('$') {
                let j = choose|j: int| 0 <= j < tail.len() && (tail[j] == '*' || tail[j] == '$');
                assert(p[j + 1] == tail[j]);
            }
        }
        if p.len() >= 2 {
            assert(p[1] != '*') by {
                if p[1] == '*' {
                    assert(p.contains('*'));
                }
            }
        }
        assert(p[0] != '$') by {
            if p[0] == '$' {
                assert(p.contains('$'));
            }
        }
        assert((p + rest).drop_first() =~= tail + rest);
        lemma_literal_prefix(tail, rest);
    }
}

/// A pattern without `*` or `$` that does not start with `^` matches every
/// text that holds it as a contiguous run, wherever that run starts; in
/// particular it matches itself.
pub proof fn lemma_literal_substring(before: Seq<char>, p: Seq<char>, after: Seq<char>)
    requires
        !p.contains('*'),
        !p.contains('$'),
        p.len() == 0 || p[0] != '^',
    ensures
        matches_text(p, before + p + after),
{
    if p.len() > 0 {
        let t = before + p + after;
        lemma_literal_prefix(p, after);
        assert(t.subrange(before.len() as int, t.len() as int) =~= p + after);
        assert(matches_here(p, t.subrange(before.len() as int, t.len() as int)));
    }
}

/// The atom that a character before `*` stands for in a raw pattern.
pub open spec fn atom_for(c: char) -> Atom {
    if c == '.' {
        Atom::Any
    } else {
        Atom::Char(c)
    }
}

/// The elements that raw pattern `q` stands for when it holds none of `[`,
/// `\\`, `+` and `?`, read as `match_re` reads it; `at_start` says whether `q`
/// is the whole pattern, where a leading `^` is an anchor.
pub open spec fn plain_pieces(q: Seq<char>, at_start: bool) -> Seq<Piece>
    decreases q.len(),
{
    if q.len() == 0 {
        Seq::empty()
    } else if at_start && q[0] == '^' {
        seq![Piece::StartLine] + plain_pieces(q.drop_first(), false)
    } else if q.len() >= 2 && q[1] == '*' {
        seq![Piece::ZeroOrMore(atom_for(q[0]))] + plain_pieces(q.subrange(2, q.len() as int), false)
    } else if q.len() == 1 && q[0] == '$' {
        seq![Piece::EndLine]
    } else if q[0] == '.' {
        seq![Piece::AnyChar] + plain_pieces(q.drop_first(), false)
    } else {
        seq![Piece::Literal(q[0])] + plain_pieces(q.drop_first(), false)
    }
}

/// Whether `p` holds none of the characters that only the compiled form
/// gives a meaning: `[`, `\\`, `+` and `?`.
pub open spec fn is_plain(p: Seq<char>) -> bool {
    !p.contains('[') && !p.contains('\\') && !p.contains('+') && !p.contains('?')
}

proof fn lemma_plain_char(p: Seq<char>, i: int)
    requires
        is_plain(p),
        0 <= i < p.len(),
    ensures
        p[i] != '[' && p[i] != '\\' && p[i] != '+' && p[i] != '?',
{
    if p[i] == '[' || p[i] == '\\' || p[i] == '+' || p[i] == '?' {
        assert(p.contains(p[i]));
    }
}

/// Compiling a plain pattern from position `i` on appends the elements that
/// `plain_pieces` gives for the rest of the pattern.
proof fn lemma_parse_plain(p: Seq<char>, i: int, acc: Seq<Piece>)
    requires
        is_plain(p),
        0 <= i <= p.len(),
        i < p.len() ==> p[i] != '*',
        parse_from(p, i, acc) is Ok,
    ensures
        parse_from(p, i, acc) == Ok::<Seq<Piece>, RegexError>(acc + plain_pieces(p.subrange(i, p.len() as int), i == 0)),
    decreases p.len() - i,
{
    let n = p.len() as int;
    let q = p.subrange(i, n);
    if i == n {
        lemma_parse_end(p, i, acc);
        assert(acc + Seq::<Piece>::empty() =~= acc);
    } else {
        let c = p[i];
        lemma_plain_char(p, i);
        lemma_parse_single(p, i, acc);
        let acc1 = acc.push(single(p, i));
        if i == 0 && c == '^' {
            if i + 1 < n && p[i + 1] == '*' {
                lemma_plain_char(p, i + 1);
                lemma_parse_dangling(p, i + 1, acc1);
            }
            lemma_parse_plain(p, i + 1, acc1);
            assert(q.drop_first() =~= p.subrange(i + 1, n));
            assert(acc1 + plain_pieces(p.subrange(i + 1, n), false) =~= acc + plain_pieces(q, true));
        } else if i + 1 < n && p[i + 1] == '*' {
            let a = atom_for(c);
            lemma_parse_quantifier(p, i + 1, acc1, a);
            assert(acc1.drop_last() =~= acc);
            let acc2 = acc.push(Piece::ZeroOrMore(a));
            if i + 2 < n && p[i + 2] == '*' {
                lemma_parse_dangling(p, i + 2, acc2);
            }
            lemma_parse_plain(p, i + 2, acc2);
            assert(q.subrange(2, q.len() as int) =~= p.subrange(i + 2, n));
            assert(acc2 + plain_pieces(p.subrange(i + 2, n), false) =~= acc + plain_pieces(q, i == 0));
        } else if i == n - 1 && c == '$' {
            lemma_parse_end(p, i + 1, acc1);
            assert(acc1 =~= acc + plain_pieces(q, i == 0));
        } else {
            lemma_parse_plain(p, i + 1, acc1);
            assert(q.drop_first() =~= p.subrange(i + 1, n));
            assert(acc1 + plain_pieces(p.subrange(i + 1, n), false) =~= acc + plain_pieces(q, i == 0));
        }
    }
}

proof fn lemma_plain_literal(q: Seq<char>, c: char)
    requires
        q.len() > 0,
        c == q[0],
        c != '.',
        !(q.len() >= 2 && q[1] == '*'),
        !(q.len() == 1 && c == '$'),
    ensures
        plain_pieces(q, false) == seq![Piece::Literal(c)] + plain_pieces(q.drop_first(), false),
{
}

/// Compiled elements `ps[m..]` that stand for raw pattern `q` match from
/// position `j` exactly when `q` matches a prefix of the text from `j` on.
proof fn lemma_here_agrees(q: Seq<char>, ps: Seq<Piece>, m: int, t: Seq<char>, j: int)
    requires
        0 <= m <= ps.len(),
        ps.subrange(m, ps.len() as int) == plain_pieces(q, false),
        0 <= j <= t.len(),
    ensures
        pieces_at(ps, m, t, j) == matches_here(q, t.subrange(j, t.len() as int)),
    decreases q.len(), t.len() - j, 2int,
{
    let n = t.len() as int;
    let ts = t.subrange(j, n);
    let rest = ps.subrange(m, ps.len() as int);
    if q.len() == 0 {
        assert(rest.len() == 0);
    } else {
        let q1 = q.drop_first();
        if q.len() >= 2 && q[1] == '*' {
            let q2 = q.subrange(2, q.len() as int);
            let head = Piece::ZeroOrMore(atom_for(q[0]));
            let tail = plain_pieces(q2, false);
            assert(rest == seq![head] + tail);
            assert(rest[0] == head);
            assert(ps[m] == rest[0]);
            assert((seq![head] + tail).drop_first() =~= tail);
            assert(ps.subrange(m + 1, ps.len() as int) =~= rest.drop_first());
            lemma_star_agrees(q[0], q2, ps, m + 1, t, j);
            assert(pieces_at(ps, m, t, j) == matches_here(q, ts));
        } else if q.len() == 1 && q[0] == '$' {
            assert(rest == seq![Piece::EndLine]);
            assert(ps[m] == rest[0]);
            assert(ps[m] == Piece::EndLine);
            assert(m + 1 == ps.len());
            assert(pieces_at(ps, m + 1, t, j));
            assert(matches_here(q, ts) == (ts.len() == 0));
            assert(pieces_at(ps, m, t, j) == matches_here(q, ts));
        } else {
            let tail = plain_pieces(q1, false);
            let c = q[0];
            if c == '.' {
                assert(rest == seq![Piece::AnyChar] + tail);
                assert((seq![Piece::AnyChar] + tail)[0] == Piece::AnyChar);
                assert(ps[m] == Piece::AnyChar);
                assert((seq![Piece::AnyChar] + tail).drop_first() =~= tail);
                assert(ps.subrange(m + 1, ps.len() as int) =~= rest.drop_first());
                if j < n {
                    assert(ts.drop_first() =~= t.subrange(j + 1, n));
                    lemma_here_agrees(q1, ps, m + 1, t, j + 1);
                }
                assert(pieces_at(ps, m, t, j) == matches_here(q, ts));
            } else {
                lemma_literal_agrees(q, c, ps, m, t, j);
            }
        }
    }
}

/// The case of `lemma_here_agrees` where `q` starts with a literal `c`.
proof fn lemma_literal_agrees(q: Seq<char>, c: char, ps: Seq<Piece>, m: int, t: Seq<char>, j: int)
    requires
        q.len() > 0,
        c == q[0],
        c != '.',
        !(q.len() >= 2 && q[1] == '*'),
        !(q.len() == 1 && c == '$'),
        0 <= m <= ps.len(),
        ps.subrange(m, ps.len() as int) == plain_pieces(q, false),
        0 <= j <= t.len(),
    ensures
        pieces_at(ps, m, t, j) == matches_here(q, t.subrange(j, t.len() as int)),
    decreases q.len(), t.len() - j, 1int,
{
    let n = t.len() as int;
    let ts = t.subrange(j, n);
    let rest = ps.subrange(m, ps.len() as int);
    let q1 = q.drop_first();
    let tail = plain_pieces(q1, false);
    lemma_plain_literal(q, c);
    assert((seq![Piece::Literal(c)] + tail)[0] == Piece::Literal(c));
    assert(rest == seq![Piece::Literal(c)] + tail);
    assert(rest.len() > 0);
    assert(rest[0] == ps[m]);
    assert(ps[m] == Piece::Literal(c));
    assert((seq![Piece::Literal(c)] + tail).drop_first() =~= tail);
    assert(ps.subrange(m + 1, ps.len() as int) =~= rest.drop_first());
    if j < n {
        assert(ts.drop_first() =~= t.subrange(j + 1, n));
        lemma_here_agrees(q1, ps, m + 1, t, j + 1);
    }
}

/// Compiled elements that repeat `atom_for(c)` and then stand for `q` match
/// from `j` exactly when `c*` followed by `q` matches there.
proof fn lemma_star_agrees(c: char, q: Seq<char>, ps: Seq<Piece>, m: int, t: Seq<char>, j: int)
    requires
        0 <= m <= ps.len(),
        ps.subrange(m, ps.len() as int) == plain_pieces(q, false),
        0 <= j <= t.len(),
    ensures
        repeat_at(atom_for(c), ps, m, t, j) == matches_star(c, q, t.subrange(j, t.len() as int)),
    decreases q.len() + 1, t.len() - j, 0int,
{
    let n = t.len() as int;
    lemma_here_agrees(q, ps, m, t, j);
    if j < n {
        assert(t.subrange(j, n).drop_first() =~= t.subrange(j + 1, n));
        lemma_star_agrees(c, q, ps, m, t, j + 1);
    }
}

/// For a pattern that holds none of `[`, `\\`, `+` and `?` and compiles,
/// matching the compiled form agrees with matching the raw pattern text.
pub proof fn lemma_compiled_agrees(p: Seq<char>, ps: Seq<Piece>, t: Seq<char>)
    requires
        is_plain(p),
        parse(p) == Ok::<Seq<Piece>, RegexError>(ps),
    ensures
        regex_matches(ps, t) == matches_text(p, t),
{
    let n = t.len() as int;
    if p.len() > 0 && p[0] == '*' {
        lemma_parse_dangling(p, 0, Seq::empty());
    }
    lemma_parse_plain(p, 0, Seq::empty());
    assert(p.subrange(0, p.len() as int) =~= p);
    assert(Seq::<Piece>::empty() + plain_pieces(p, true) =~= plain_pieces(p, true));
    assert(ps == plain_pieces(p, true));
    if p.len() == 0 {
        assert(ps.len() == 0);
        assert(pieces_at(ps, 0, t, 0));
        assert(regex_matches(ps, t));
    } else if p[0] == '^' {
        let rest = p.drop_first();
        let tail = plain_pieces(rest, false);
        assert(ps == seq![Piece::StartLine] + tail);
        assert((seq![Piece::StartLine] + tail)[0] == Piece::StartLine);
        assert(ps[0] == Piece::StartLine);
        assert(ps.subrange(1, ps.len() as int) =~= plain_pieces(rest, false));
        lemma_here_agrees(rest, ps, 1, t, 0);
        assert(t.subrange(0, n) =~= t);
        if regex_matches(ps, t) {
            let k = choose|k: int| 0 <= k <= t.len() && #[trigger] pieces_at(ps, 0, t, k);
            assert(k == 0);
        }
        assert(pieces_at(ps, 0, t, 0) == matches_here(rest, t));
        assert(regex_matches(ps, t) == matches_text(p, t));
    } else {
        assert(plain_pieces(p, true) == plain_pieces(p, false));
        assert(ps.subrange(0, ps.len() as int) =~= ps);
        assert forall|k: int| 0 <= k <= t.len() implies #[trigger] pieces_at(ps, 0, t, k) == matches_here(
            p,
            t.subrange(k, n),
        ) by {
            lemma_here_agrees(p, ps, 0, t, k);
        }
        if regex_matches(ps, t) {
            let k = choose|k: int| 0 <= k <= t.len() && #[trigger] pieces_at(ps, 0, t, k);
            assert(matches_here(p, t.subrange(k, n)));
        }
        if matches_text(p, t) {
            let k = choose|k: int| 0 <= k <= t.len() && #[trigger] matches_here(p, t.subrange(k, t.len() as int));
            assert(pieces_at(ps, 0, t, k));
        }
    }
}

/// Matching is a function of the pattern and the text alone: two results
/// that both meet the contract of a call on the same inputs are equal.
pub proof fn lemma_match_is_deterministic(p: Seq<char>, t: Seq<char>, r1: bool, r2: bool)
    requires
        r1 == matches_text(p, t),
        r2 == matches_text(p, t),
    ensures
        r1 == r2,
{
}

} // verus!
