use tiny_regex::match_re;

#[test]
fn test_match_re() {
    assert!(match_re("dinosaur", "dinosaur"), "\"dinosaur\" didn't match \"dinosaur\"");
}

#[test]
#[should_panic]
fn test_match_fail() {
    assert!(
        match_re("dinosaur jr", "dinosaur"),
        "regex \"dinosaur jr\" matched \"dinosaur\" - should not happen"
    );
}

#[test]
fn test_match_re_empty() {
    assert!(match_re("", ""), "empty regex should've matched empty string");
    assert!(match_re("", "rust"), "empty regex should've matched \"rust\"");
}

#[test]
fn match_empty_string() {
    assert_eq!(match_re("rust", ""), false);
}

#[test]
fn match_dot_star() {
    assert!(match_re(".*", ""), ".* should match empty string");
    assert!(match_re(".*", "memes"), ".* should match \"memes\"");
}

#[test]
fn match_star() {
    assert!(match_re("a*", "aaa"), "\"a*\" should match \"aaa\"");
}

#[test]
fn some_dict_stuff() {
    assert!(match_re("^.a...x.$", "cachexy"), "\"^.a...x.$\" should match \"cachexy\"");
    assert!(match_re("^.a...x.$", "carboxy"), "\"^.a...x.$\" should match \"carboxy\"");
    assert!(match_re("^.a...x.$", "martext"), "\"^.a...x.$\" should match \"martext\"");
    assert!(match_re("^.a...x.$", "panmixy"), "\"^.a...x.$\" should match \"panmixy\"");
}

#[test]
fn empty_pattern_matches_anything() {
    assert!(match_re("", "anything"));
}

#[test]
fn needed_character_never_matches_empty_text() {
    assert!(!match_re("x", ""));
    assert!(match_re("x*", ""));
    assert!(match_re("$", ""));
    assert!(match_re("^a*b*$", ""));
    assert!(!match_re("^a*b", ""));
}

#[test]
fn exact_literal() {
    assert!(match_re("dinosaur", "dinosaur"));
    assert!(!match_re("dinosaurs", "dinosaur"));
}

#[test]
fn substring_search() {
    assert!(match_re("saur", "dinosaur"));
    assert!(match_re("nos", "dinosaur"));
    assert!(!match_re("sauro", "dinosaur"));
}

#[test]
fn anchors() {
    assert!(match_re("^dino", "dinosaur"));
    assert!(!match_re("^osaur", "dinosaur"));
    assert!(match_re("saur$", "dinosaur"));
    assert!(!match_re("dino$", "dinosaur"));
}

#[test]
fn dot_star_matches_everything() {
    assert!(match_re(".*", ""));
    assert!(match_re(".*", "anything"));
    assert!(match_re("^.*$", "anything"));
}

#[test]
fn star_backtracks() {
    assert!(match_re("a*", "aaa"));
    assert!(match_re("a*b", "aaab"));
    assert!(!match_re("a*b", "aaac"));
    assert!(match_re("^a*ab$", "aaab"));
    assert!(match_re("^.*x$", "abcx"));
    assert!(!match_re("^.*x$", "abcxy"));
}

#[test]
fn anchored_fixed_length() {
    assert!(match_re("^.a...x.$", "cachexy"));
    assert!(!match_re("^.a...x.$", "cachexyz"));
    assert!(!match_re("^.a...x.$", "cachex"));
    assert!(!match_re("^.a...x.$", "cbchexy"));
    assert!(!match_re("^.a...x.$", "cacheyy"));
}

#[test]
fn same_inputs_same_result() {
    let first = match_re("a*b", "aaab");
    let second = match_re("a*b", "aaab");
    assert_eq!(first, second);
    assert_eq!(match_re("a*b", "aaac"), match_re("a*b", "aaac"));
}

#[test]
fn plus_and_question_are_literal_in_raw_patterns() {
    assert!(match_re("a+", "xa+y"));
    assert!(!match_re("a+", "aa"));
    assert!(match_re("a?", "a?"));
}

#[test]
fn non_ascii_text() {
    assert!(match_re("é.", "café!"));
    assert!(match_re("^ü*$", "üüü"));
    assert!(!match_re("^ü$", "u"));
}
