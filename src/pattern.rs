//! Compiling a pattern into a list of elements.
use vstd::prelude::*;
use crate::text::chars_of;

verus! {

/// What a quantifier may apply to: one literal character or any character.
#[derive(Clone, Copy, Debug, PartialEq, Eq, Structural)]
pub enum Atom {
    Char(char),
    Any,
}

/// One element of a compiled pattern.
#[derive(Debug)]
pub enum Element {
    Literal(char),
    AnyChar,
    CharClass(Vec<char>),
    StartLine,
    EndLine,
    ZeroOrMore(Atom),
    OneOrMore(Atom),
    ZeroOrOne(Atom),
}

/// The mathematical model of an `Element`.
pub enum Piece {
    Literal(char),
    AnyChar,
    CharClass(Seq<char>),
    StartLine,
    EndLine,
    ZeroOrMore(Atom),
    OneOrMore(Atom),
    ZeroOrOne(Atom),
}

impl View for Element {
    type V = Piece;

    open spec fn view(&self) -> Piece {
        match self {
            Element::Literal(c) => Piece::Literal(*c),
            Element::AnyChar => Piece::AnyChar,
            Element::CharClass(cs) => Piece::CharClass(cs@),
            Element::StartLine => Piece::StartLine,
            Element::EndLine => Piece::EndLine,
            Element::ZeroOrMore(a) => Piece::ZeroOrMore(*a),
            Element::OneOrMore(a) => Piece::OneOrMore(*a),
            Element::ZeroOrOne(a) => Piece::ZeroOrOne(*a),
        }
    }
}

/// Why a pattern could not be compiled.
#[derive(Clone, Copy, Debug, PartialEq, Eq, Structural)]
pub enum RegexError {
    /// A `[` with no `]` after it.
    UnterminatedClass,
    /// A `\` as the last character.
    TrailingBackslash,
    /// A `*`, `+` or `?` that follows nothing, or follows an element other
    /// than a literal character or `.`.
    DanglingQuantifier,
}

/// A compiled pattern.
pub struct Regex {
    pub elements: Vec<Element>,
}

/// The models of the elements of `v`, in order.
#[verifier::opaque]
pub open spec fn pieces_of(v: Seq<Element>) -> Seq<Piece> {
    v.map_values(|e: Element| e@)
}

impl View for Regex {
    type V = Seq<Piece>;

    open spec fn view(&self) -> Seq<Piece> {
        pieces_of(self.elements@)
    }
}

/// The number of characters from `k` on before the first `]`, if there is one.
pub open spec fn class_len(p: Seq<char>, k: int) -> Option<nat>
    decreases p.len() - k,
{
    if k < 0 || k >= p.len() {
        None
    } else if p[k] == ']' {
        Some(0)
    } else {
        match class_len(p, k + 1) {
            Some(n) => Some(n + 1),
            None => None,
        }
    }
}

/// The element that quantifier `q` makes of atom `a`.
pub open spec fn quantified(q: char, a: Atom) -> Piece {
    if q == '*' {
        Piece::ZeroOrMore(a)
    } else if q == '+' {
        Piece::OneOrMore(a)
    } else {
        Piece::ZeroOrOne(a)
    }
}

/// The atom that a quantifier may apply to when it follows `e`, if any.
pub open spec fn atom_of(e: Piece) -> Option<Atom> {
    match e {
        Piece::Literal(c) => Some(Atom::Char(c)),
        Piece::AnyChar => Some(Atom::Any),
        _ => None,
    }
}

proof fn lemma_class_len_bound(p: Seq<char>, k: int)
    ensures
        class_len(p, k) is Some ==> k + class_len(p, k)->Some_0 < p.len(),
    decreases p.len() - k,
{
    if 0 <= k < p.len() && p[k] != ']' {
        lemma_class_len_bound(p, k + 1);
    }
}

pub proof fn lemma_pieces_index(v: Seq<Element>)
    ensures
        pieces_of(v).len() == v.len(),
        forall|k: int| 0 <= k < v.len() ==> #[trigger] pieces_of(v)[k] == v[k]@,
{
    reveal(pieces_of);
}

proof fn lemma_pieces_empty()
    ensures
        pieces_of(Seq::empty()) == Seq::<Piece>::empty(),
{
    reveal(pieces_of);
    assert(pieces_of(Seq::empty()) =~= Seq::<Piece>::empty());
}

proof fn lemma_pieces_push(v: Seq<Element>, e: Element)
    ensures
        pieces_of(v.push(e)) == pieces_of(v).push(e@),
{
    reveal(pieces_of);
    assert(pieces_of(v.push(e)) =~= pieces_of(v).push(e@));
}

proof fn lemma_pieces_drop_last(v: Seq<Element>)
    requires
        v.len() > 0,
    ensures
        pieces_of(v.drop_last()) == pieces_of(v).drop_last(),
        pieces_of(v).last() == v.last()@,
{
    reveal(pieces_of);
    assert(pieces_of(v.drop_last()) =~= pieces_of(v).drop_last());
}

#[via_fn]
proof fn parse_from_decreases(p: Seq<char>, i: int, acc: Seq<Piece>) {
    lemma_class_len_bound(p, i + 1);
}

/// Whether `c` is one of the postfix quantifiers `*`, `+`, `?`.
pub open spec fn is_quantifier(c: char) -> bool {
    c == '*' || c == '+' || c == '?'
}

/// The element that `p[i]`, a character other than `[`, `\\` or a
/// quantifier, stands for on its own: `^` is an anchor only as the first
/// character of `p` and `$` only as the last; elsewhere each is a literal.
pub open spec fn single(p: Seq<char>, i: int) -> Piece {
    let c = p[i];
    if c == '^' && i == 0 {
        Piece::StartLine
    } else if c == '$' && i == p.len() - 1 {
        Piece::EndLine
    } else if c == '.' {
        Piece::AnyChar
    } else {
        Piece::Literal(c)
    }
}

/// Compiles `p[i..]`, appending its elements to `acc`.
pub open spec fn parse_from(p: Seq<char>, i: int, acc: Seq<Piece>) -> Result<Seq<Piece>, RegexError>
    decreases p.len() - i via parse_from_decreases
{
    if i < 0 || i >= p.len() {
        Ok(acc)
    } else if p[i] == '[' {
        match class_len(p, i + 1) {
            Some(n) => parse_from(
                p,
                i + 2 + n,
                acc.push(Piece::CharClass(p.subrange(i + 1, i + 1 + n))),
            ),
            None => Err(RegexError::UnterminatedClass),
        }
    } else if p[i] == '\\' {
        if i + 1 < p.len() {
            parse_from(p, i + 2, acc.push(Piece::Literal(p[i + 1])))
        } else {
            Err(RegexError::TrailingBackslash)
        }
    } else if is_quantifier(p[i]) {
        if acc.len() > 0 && atom_of(acc.last()) is Some {
            parse_from(p, i + 1, acc.drop_last().push(quantified(p[i], atom_of(acc.last())->Some_0)))
        } else {
            Err(RegexError::DanglingQuantifier)
        }
    } else {
        parse_from(p, i + 1, acc.push(single(p, i)))
    }
}

pub proof fn lemma_parse_end(p: Seq<char>, i: int, acc: Seq<Piece>)
    requires
        i >= p.len(),
    ensures
        parse_from(p, i, acc) == Ok::<Seq<Piece>, RegexError>(acc),
{
}

pub proof fn lemma_parse_class(p: Seq<char>, i: int, acc: Seq<Piece>, n: nat)
    requires
        0 <= i < p.len(),
        p[i] == '[',
        class_len(p, i + 1) == Some(n),
    ensures
        parse_from(p, i, acc) == parse_from(p, i + 2 + n, acc.push(Piece::CharClass(p.subrange(i + 1, i + 1 + n)))),
{
}

pub proof fn lemma_parse_escape(p: Seq<char>, i: int, acc: Seq<Piece>)
    requires
        0 <= i,
        i + 1 < p.len(),
        p[i] == '\\',
    ensures
        parse_from(p, i, acc) == parse_from(p, i + 2, acc.push(Piece::Literal(p[i + 1]))),
{
    reveal_with_fuel(parse_from, 2);
}

pub proof fn lemma_parse_quantifier(p: Seq<char>, i: int, acc: Seq<Piece>, a: Atom)
    requires
        0 <= i < p.len(),
        is_quantifier(p[i]),
        acc.len() > 0,
        atom_of(acc.last()) == Some(a),
    ensures
        parse_from(p, i, acc) == parse_from(p, i + 1, acc.drop_last().push(quantified(p[i], a))),
{
}

pub proof fn lemma_parse_dangling(p: Seq<char>, i: int, acc: Seq<Piece>)
    requires
        0 <= i < p.len(),
        is_quantifier(p[i]),
        acc.len() == 0 || atom_of(acc.last()) is None,
    ensures
        parse_from(p, i, acc) == Err::<Seq<Piece>, RegexError>(RegexError::DanglingQuantifier),
{
}

pub proof fn lemma_parse_single(p: Seq<char>, i: int, acc: Seq<Piece>)
    requires
        0 <= i < p.len(),
        p[i] != '[',
        p[i] != '\\',
        !is_quantifier(p[i]),
    ensures
        parse_from(p, i, acc) == parse_from(p, i + 1, acc.push(single(p, i))),
{
}

/// The compiled form of pattern `p`, or why it has none.
pub open spec fn parse(p: Seq<char>) -> Result<Seq<Piece>, RegexError> {
    parse_from(p, 0, Seq::empty())
}

impl Regex {
    /// Compiles `regexp`: literal characters, `.`, `^` as the first character,
    /// `$` as the last, classes `[...]`, escapes `\x` and postfix `*`, `+`,
    /// `?` on a literal or `.`. A `^` or `$` anywhere else is a literal.
    pub fn new(regexp: &str) -> (r: Result<Regex, RegexError>)
        ensures
            match r {
                Ok(re) => parse(regexp@) == Ok::<Seq<Piece>, RegexError>(re@),
                Err(e) => parse(regexp@) == Err::<Seq<Piece>, RegexError>(e),
            },
    {
        let p = chars_of(regexp);
        let n = p.len();
        let mut result: Vec<Element> = Vec::new();
        let mut i: usize = 0;
        proof {
            lemma_pieces_empty();
        }
        while i < n
            invariant
                n == p@.len(),
                p@ == regexp@,
                i <= n,
                parse(regexp@) == parse_from(p@, i as int, pieces_of(result@)),
            decreases n - i,
        {
            let c = p[i];
            let ghost old_v = result@;
            let ghost acc = pieces_of(result@);
            proof {
                lemma_pieces_index(old_v);
            }
            if c == '[' {
                let mut chars: Vec<char> = Vec::new();
                let mut j: usize = i + 1;
                while j < n && p[j] != ']'
                    invariant
                        n == p@.len(),
                        i < j <= n,
                        chars@ == p@.subrange(i + 1, j as int),
                        class_len(p@, j as int) is Some ==> class_len(p@, i + 1) == Some(
                            (class_len(p@, j as int)->Some_0 + (j - i - 1)) as nat,
                        ),
                        class_len(p@, j as int) is None ==> class_len(p@, i + 1) is None,
                    decreases n - j,
                {
                    chars.push(p[j]);
                    j = j + 1;
                    assert(chars@ =~= p@.subrange(i + 1, j as int));
                }
                if j == n {
                    return Err(RegexError::UnterminatedClass);
                }
                assert(class_len(p@, j as int) == Some(0nat));
                let e = Element::CharClass(chars);
                proof {
                    lemma_pieces_push(old_v, e);
                }
                result.push(e);
                assert(class_len(p@, i + 1) == Some((j - i - 1) as nat));
                proof {
                    lemma_parse_class(p@, i as int, acc, (j - i - 1) as nat);
                    assert(p@.subrange(i + 1, j as int) == chars@);
                    assert(parse(regexp@) == parse_from(p@, j + 1, pieces_of(result@)));
                }
                i = j + 1;
            } else if c == '\\' {
                if i + 1 == n {
                    return Err(RegexError::TrailingBackslash);
                }
                let e = Element::Literal(p[i + 1]);
                proof {
                    lemma_pieces_push(old_v, e);
                }
                result.push(e);
                proof {
                    lemma_parse_escape(p@, i as int, acc);
                    assert(parse(regexp@) == parse_from(p@, i + 2, pieces_of(result@)));
                }
                i = i + 2;
            } else if c == '*' || c == '+' || c == '?' {
                let last = result.pop();
                let atom = match last {
                    Some(Element::Literal(x)) => Atom::Char(x),
                    Some(Element::AnyChar) => Atom::Any,
                    _ => {
                        proof {
                            if old_v.len() > 0 {
                                lemma_pieces_drop_last(old_v);
                            }
                            lemma_parse_dangling(p@, i as int, acc);
                        }
                        return Err(RegexError::DanglingQuantifier);
                    },
                };
                proof {
                    lemma_pieces_drop_last(old_v);
                }
                let ghost mid = result@;
                assert(atom_of(acc.last()) == Some(atom));
                let e = if c == '*' {
                    Element::ZeroOrMore(atom)
                } else if c == '+' {
                    Element::OneOrMore(atom)
                } else {
                    Element::ZeroOrOne(atom)
                };
                proof {
                    lemma_pieces_push(mid, e);
                }
                result.push(e);
                proof {
                    lemma_parse_quantifier(p@, i as int, acc, atom);
                    assert(parse(regexp@) == parse_from(p@, i + 1, pieces_of(result@)));
                }
                i = i + 1;
            } else {
                let e = if c == '^' && i == 0 {
                    Element::StartLine
                } else if c == '$' && i + 1 == n {
                    Element::EndLine
                } else if c == '.' {
                    Element::AnyChar
                } else {
                    Element::Literal(c)
                };
                proof {
                    lemma_pieces_push(old_v, e);
                }
                result.push(e);
                proof {
                    lemma_parse_single(p@, i as int, acc);
                    assert(parse(regexp@) == parse_from(p@, i + 1, pieces_of(result@)));
                }
                i = i + 1;
            }
        }
        proof {
            lemma_parse_end(p@, i as int, pieces_of(result@));
        }
        Ok(Regex { elements: result })
    }
}

} // verus!
