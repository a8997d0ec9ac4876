use tiny_regex::{char_at, Atom, Element, Regex, RegexError};

fn compile(p: &str) -> Regex {
    match Regex::new(p) {
        Ok(re) => re,
        Err(e) => panic!("{:?} did not compile: {:?}", p, e),
    }
}

fn error_of(p: &str) -> RegexError {
    match Regex::new(p) {
        Ok(_) => panic!("{:?} compiled", p),
        Err(e) => e,
    }
}

#[test]
fn lone_star_is_dangling() {
    assert_eq!(error_of("*"), RegexError::DanglingQuantifier);
    assert_eq!(error_of("+a"), RegexError::DanglingQuantifier);
    assert_eq!(error_of("a**"), RegexError::DanglingQuantifier);
    assert_eq!(error_of("^?"), RegexError::DanglingQuantifier);
    assert_eq!(error_of("[ab]*"), RegexError::DanglingQuantifier);
}

#[test]
fn unterminated_class() {
    assert_eq!(error_of("[abc"), RegexError::UnterminatedClass);
    assert_eq!(error_of("x["), RegexError::UnterminatedClass);
}

#[test]
fn trailing_backslash() {
    assert_eq!(error_of("ab\\"), RegexError::TrailingBackslash);
}

#[test]
fn compiles_elements() {
    let re = compile("^a.[xy]\\*b*.+c?$");
    let e = &re.elements;
    assert_eq!(e.len(), 9);
    assert!(matches!(e[0], Element::StartLine));
    assert!(matches!(e[1], Element::Literal('a')));
    assert!(matches!(e[2], Element::AnyChar));
    match &e[3] {
        Element::CharClass(cs) => assert_eq!(cs, &vec!['x', 'y']),
        other => panic!("unexpected {:?}", other),
    }
    assert!(matches!(e[4], Element::Literal('*')));
    assert!(matches!(e[5], Element::ZeroOrMore(Atom::Char('b'))));
    assert!(matches!(e[6], Element::OneOrMore(Atom::Any)));
    assert!(matches!(e[7], Element::ZeroOrOne(Atom::Char('c'))));
    assert!(matches!(e[8], Element::EndLine));
}

#[test]
fn empty_compiled_pattern_matches_anything() {
    let re = compile("");
    assert!(re.elements.is_empty());
    assert!(re.re_match(""));
    assert!(re.re_match("rust"));
}

#[test]
fn compiled_matches_like_raw() {
    let re = compile("^.a...x.$");
    assert!(re.re_match("cachexy"));
    assert!(re.re_match("panmixy"));
    assert!(!re.re_match("cachexyz"));
    let re = compile("a*b");
    assert!(re.re_match("aaab"));
    assert!(!re.re_match("aaac"));
    assert!(compile("saur").re_match("dinosaur"));
    assert!(!compile("^osaur").re_match("dinosaur"));
    assert!(compile(".*").re_match(""));
}

#[test]
fn compiled_plus_and_optional() {
    let re = compile("^ab+c$");
    assert!(re.re_match("abc"));
    assert!(re.re_match("abbbc"));
    assert!(!re.re_match("ac"));
    let re = compile("^colou?r$");
    assert!(re.re_match("color"));
    assert!(re.re_match("colour"));
    assert!(!re.re_match("colouur"));
    let re = compile("^.+$");
    assert!(!re.re_match(""));
    assert!(re.re_match("x"));
}

#[test]
fn compiled_class_and_escape() {
    let re = compile("^[abc]x$");
    assert!(re.re_match("bx"));
    assert!(!re.re_match("dx"));
    let re = compile("a\\.b");
    assert!(re.re_match("a.b"));
    assert!(!re.re_match("axb"));
    let re = compile("^\\^$");
    assert!(re.re_match("^"));
    assert!(!compile("[]").re_match("a"));
}

#[test]
fn char_at_byte_offsets() {
    assert_eq!(char_at("rust", 0), Some('r'));
    assert_eq!(char_at("rust", 3), Some('t'));
    assert_eq!(char_at("rust", 4), None);
    assert_eq!(char_at("", 0), None);
    assert_eq!(char_at("héllo", 1), Some('é'));
    assert_eq!(char_at("héllo", 2), None);
    assert_eq!(char_at("héllo", 3), Some('l'));
    assert_eq!(char_at("a*", 1), Some('*'));
}

#[test]
fn inner_anchors_are_literals() {
    let re = compile("a^b");
    assert!(matches!(re.elements[1], Element::Literal('^')));
    assert!(re.re_match("a^b"));
    assert!(!re.re_match("ab"));
    let re = compile("a$b");
    assert!(matches!(re.elements[1], Element::Literal('$')));
    assert!(re.re_match("xa$b"));
    assert!(compile("^^a").re_match("^a"));
    assert!(!compile("^^a").re_match("a"));
    assert!(compile("a$$").re_match("xa$"));
    assert!(!compile("a$$").re_match("a"));
    assert!(matches!(compile("$").elements[0], Element::EndLine));
    assert!(matches!(compile("^").elements[0], Element::StartLine));
}

#[test]
fn compiled_agrees_with_raw_on_plain_patterns() {
    let patterns = [
        "", "^", "$", "^$", "a^b", "a$b", "^^a", "a$$", "$*a", "a*$", ".*x", "^.a...x.$", "x",
        "x*", "dino$", "^dino", "a*b", "*a",
    ];
    let texts = ["", "a", "x", "a^b", "xa$b", "^a", "a$", "$$a", "aaab", "abcx", "cachexy", "dinosaur", "*a"];
    for p in patterns.iter() {
        if let Ok(re) = Regex::new(p) {
            for t in texts.iter() {
                assert_eq!(re.re_match(t), tiny_regex::match_re(p, t), "pattern {:?} text {:?}", p, t);
            }
        }
    }
}
