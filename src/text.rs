//! Character-level access to string slices.
use vstd::prelude::*;
use vstd::string::StrSliceExecFns;

verus! {

/// The number of bytes that `c` occupies in UTF-8.
pub open spec fn utf8_width(c: char) -> nat {
    let u = c as u32;
    if u < 0x80 {
        1
    } else if u < 0x800 {
        2
    } else if u < 0x10000 {
        3
    } else {
        4
    }
}

/// The character whose UTF-8 encoding starts at byte offset `i` of `s`, if
/// one does.
pub open spec fn char_at_byte(s: Seq<char>, i: int) -> Option<char>
    decreases s.len(),
{
    if s.len() == 0 || i < 0 {
        None
    } else if i == 0 {
        Some(s[0])
    } else {
        char_at_byte(s.drop_first(), i - utf8_width(s[0]))
    }
}

fn width_of(c: char) -> (w: usize)
    ensures
        w as nat == utf8_width(c),
{
    let u = c as u32;
    if u < 0x80 {
        1
    } else if u < 0x800 {
        2
    } else if u < 0x10000 {
        3
    } else {
        4
    }
}

/// Returns the character that starts at byte offset `i` of `s`, or `None`
/// when `i` is past the end or falls inside a multi-byte character.
pub fn char_at(s: &str, i: usize) -> (r: Option<char>)
    ensures
        r == char_at_byte(s@, i as int),
{
    let n = s.unicode_len();
    let mut k: usize = 0;
    let mut pos: usize = 0;
    assert(s@.subrange(0, n as int) =~= s@);
    while k < n
        invariant
            n == s@.len(),
            k <= n,
            pos <= i,
            char_at_byte(s@, i as int) == char_at_byte(s@.subrange(k as int, n as int), i - pos),
        decreases n - k,
    {
        let c = s.get_char(k);
        proof {
            let rest = s@.subrange(k as int, n as int);
            assert(rest.drop_first() =~= s@.subrange(k + 1, n as int));
        }
        if pos == i {
            return Some(c);
        }
        let w = width_of(c);
        if i - pos < w {
            assert(char_at_byte(s@.subrange(k as int, n as int), i - pos) == char_at_byte(
                s@.subrange(k + 1, n as int),
                i - pos - w,
            ));
            return None;
        }
        pos = pos + w;
        k = k + 1;
    }
    None
}

/// Copies the characters of `s` into a vector.
pub fn chars_of(s: &str) -> (r: Vec<char>)
    ensures
        r@ == s@,
{
    let n = s.unicode_len();
    let mut r: Vec<char> = Vec::new();
    let mut k: usize = 0;
    while k < n
        invariant
            n == s@.len(),
            k <= n,
            r@ == s@.subrange(0, k as int),
        decreases n - k,
    {
        r.push(s.get_char(k));
        k = k + 1;
        assert(r@ =~= s@.subrange(0, k as int));
    }
    assert(r@ =~= s@);
    r
}

} // verus!
