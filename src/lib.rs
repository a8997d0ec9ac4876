//! A small backtracking regular-expression matcher.
//!
//! `match_re` walks the raw pattern text directly: literal characters, `.`
//! for any character, `^` and `$` anchors, and a postfix `*` on a literal or
//! `.`. `Regex::new` compiles a pattern into a list of elements, adding
//! character classes, escapes and the `+` and `?` quantifiers, and reports a
//! malformed pattern as a typed error; `Regex::re_match` then matches the
//! compiled form.

pub mod text;
pub mod matcher;
pub mod laws;
pub mod pattern;
pub mod search;

pub use matcher::match_re;
pub use pattern::{Atom, Element, Regex, RegexError};
pub use text::char_at;
