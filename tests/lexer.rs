use flexer::group::{GenError, Identifier, Registry};
use flexer::lexer::{slice_chars, trim_blanks, LexingResult, ResultKind, StageStatus, TestLexer, TestState, Token, TokenStream};
use flexer::pattern::{accepts, is_match, DefinitionError, Pattern};

fn chars(s: &str) -> Vec<char> {
    s.chars().collect()
}

fn lex(s: &str) -> (LexingResult, usize) {
    let mut lexer = TestLexer::define();
    let r = lexer.run(&chars(s));
    (r, lexer.matched())
}

fn word(s: &str) -> Token {
    Token::word(chars(s))
}

fn unrecognized(s: &str) -> Token {
    Token::unrecognized(chars(s))
}

#[test]
fn two_words_with_space() {
    let (r, _) = lex("a b");
    assert_eq!(r.kind, ResultKind::Success);
    assert_eq!(r.tokens, TokenStream::from(vec![word("a"), word("b")]));
}

#[test]
fn second_word_without_space() {
    let (r, _) = lex("ba");
    assert_eq!(r.kind, ResultKind::Success);
    assert_eq!(r.tokens.tokens, vec![word("b"), unrecognized("a")]);
}

#[test]
fn empty_input() {
    let (r, m) = lex("");
    assert_eq!(r.kind, ResultKind::Success);
    assert!(r.tokens.tokens.is_empty());
    assert_eq!(m, 0);
}

#[test]
fn one_long_word() {
    let (r, m) = lex("aaa");
    assert_eq!(r.kind, ResultKind::Success);
    assert_eq!(r.tokens.tokens, vec![word("aaa")]);
    assert_eq!(m, 3);
}

#[test]
fn several_words_and_junk() {
    let (r, m) = lex("aa bbb a cd");
    assert_eq!(r.kind, ResultKind::Success);
    assert_eq!(
        r.tokens.tokens,
        vec![word("aa"), word("bbb"), word("a"), unrecognized(" "), unrecognized("c"), unrecognized("d")]
    );
    assert_eq!(m, 11);
    let (r2, _) = lex("ab");
    assert_eq!(r2.tokens.tokens, vec![word("a"), unrecognized("b")]);
}

#[test]
fn run_twice_starts_afresh() {
    let mut lexer = TestLexer::define();
    let first = lexer.run(&chars("a b"));
    let second = lexer.run(&chars("a b"));
    assert_eq!(first, second);
}

#[test]
fn group_without_rules_fails() {
    let mut lexer = TestLexer::default();
    let r = lexer.run(&chars("a"));
    assert_eq!(r.kind, ResultKind::Failure);
    assert!(r.tokens.tokens.is_empty());
}

#[test]
fn stack_underflow_is_reported() {
    let mut lexer = TestLexer::define();
    assert_eq!(lexer.pop_state(), None);
    lexer.push_state(Identifier::new(1));
    assert_eq!(lexer.pop_state(), Some(Identifier::new(1)));
    assert_eq!(lexer.pop_state(), None);
    assert_eq!(lexer.initial_state(), Identifier::new(0));
}

#[test]
fn longest_match_then_earliest_rule() {
    let mut reg = Registry::new();
    let g = reg.define_group(String::from("G"), None);
    let h = reg.define_group(String::from("H"), Some(g));
    assert_eq!(reg.len(), 2);
    assert_eq!(reg.group(h).parent, Some(g));
    reg.create_rule(g, Pattern::char('a'), 7);
    reg.create_rule(g, Pattern::char('a').many1(), 8);
    reg.create_rule(g, Pattern::any(), 9);
    reg.create_rule(h, Pattern::any().many1(), 10);
    let s = chars("aab");
    // the longest match wins
    assert_eq!(reg.longest_match(g, &s, 0), Some((1, 2)));
    // equal length: the earlier rule wins
    assert_eq!(reg.longest_match(g, &s, 1), Some((0, 2)));
    assert_eq!(reg.longest_match(g, &s, 2), Some((2, 3)));
    // no rule of g matches the end of input; the parent's rules are not seen from h
    assert_eq!(reg.longest_match(g, &s, 3), None);
    assert_eq!(reg.longest_match(h, &s, 0), Some((3, 3)));
    assert_eq!(reg.action(1), 8);
}

#[test]
fn pattern_language() {
    let ab = Pattern::char('a').or(Pattern::char('b'));
    let p = Pattern::char('x').followed_by(ab.many());
    assert!(accepts(&p, &chars("x")));
    assert!(accepts(&p, &chars("xabba")));
    assert!(!accepts(&p, &chars("xc")));
    assert!(!accepts(&p, &chars("")));
    let q = Pattern::range('0', '9').unwrap().repeat(2, Some(3)).unwrap();
    assert!(!accepts(&q, &chars("1")));
    assert!(accepts(&q, &chars("12")));
    assert!(accepts(&q, &chars("123")));
    assert!(!accepts(&q, &chars("1234")));
    let o = Pattern::char('a').opt().followed_by(Pattern::eof());
    assert!(is_match(&o, &chars("a"), 0, 2));
    assert!(is_match(&o, &chars(""), 0, 1));
    assert!(!is_match(&o, &chars("b"), 0, 2));
    let e = Pattern::char('a').many().many();
    assert!(accepts(&e, &chars("aaa")));
    assert!(accepts(&e, &chars("")));
}

#[test]
fn malformed_patterns_are_rejected() {
    assert!(matches!(Pattern::range('z', 'a'), Err(DefinitionError::InvertedRange)));
    assert!(matches!(Pattern::any().repeat(3, Some(2)), Err(DefinitionError::BadRepeat)));
    assert!(Pattern::any().repeat(2, None).is_ok());
}

#[test]
fn defined_lexer_is_complete() {
    let lexer = TestLexer::define();
    assert_eq!(lexer.groups().validate(), Ok(()));
    assert_eq!(lexer.groups().len(), 2);
    assert_eq!(lexer.groups().group(Identifier::new(0)).name, "ROOT");
    assert_eq!(lexer.groups().group(Identifier::new(1)).name, "SEEN FIRST WORD");
    assert_eq!(TestLexer::new().groups().validate(), Err(GenError::MissingCatchAll(0)));
}

#[test]
fn test_state_groups() {
    let st = TestState::new();
    assert_eq!(st.initial_state(), Identifier::new(0));
    assert_eq!(st.groups().len(), 2);
    assert_eq!(st.groups().group(Identifier::new(1)).parent, None);
}

#[test]
fn validation_reports_missing_end_of_input_rule() {
    let mut reg = Registry::new();
    let g = reg.define_group(String::from("only"), None);
    reg.create_rule(g, Pattern::any(), 0);
    assert_eq!(reg.validate(), Err(GenError::MissingEof(0)));
    reg.create_rule(g, Pattern::eof(), 1);
    assert_eq!(reg.validate(), Ok(()));
}

#[test]
fn matched_bookmark_moves_forward_per_scan() {
    let mut lexer = TestLexer::define();
    let s = chars("aa bb");
    lexer.set_up();
    let mut last = lexer.matched();
    let mut steps = Vec::new();
    loop {
        let st = lexer.run_current_state(&s);
        assert!(lexer.matched() >= last);
        last = lexer.matched();
        steps.push(last);
        if st != StageStatus::ExitSuccess {
            assert_eq!(st, StageStatus::ExitFinished);
            break;
        }
    }
    assert_eq!(steps, vec![2, 5, 5]);
}

#[test]
fn text_helpers() {
    let s = chars("  ab c \t");
    assert_eq!(trim_blanks(&s), chars("ab c"));
    assert_eq!(trim_blanks(&chars("   ")), chars(""));
    assert_eq!(trim_blanks(&chars("x")), chars("x"));
    assert_eq!(slice_chars(&s, 2, 4), chars("ab"));
    assert_eq!(slice_chars(&s, 3, 3), chars(""));
}

#[test]
fn trimming_follows_unicode_white_space() {
    assert_eq!(trim_blanks(&chars("\u{a0}a")), chars("a"));
    assert_eq!(trim_blanks(&chars("\u{3000}ab\u{2029}\u{85}")), chars("ab"));
    assert_eq!(trim_blanks(&chars("\u{200b}a")), chars("\u{200b}a"));
    for c in ['\t', '\n', '\u{b}', '\u{c}', '\r', ' ', '\u{85}', '\u{a0}', '\u{1680}', '\u{2000}', '\u{200a}', '\u{2028}', '\u{202f}', '\u{205f}', '\u{3000}'] {
        let text: String = [c, 'b', c].iter().collect();
        assert_eq!(trim_blanks(&chars(&text)), chars(text.trim()));
    }
}

#[test]
fn validation_rejects_malformed_patterns() {
    let mut reg = Registry::new();
    let g = reg.define_group(String::from("only"), None);
    reg.create_rule(g, Pattern::any(), 0);
    reg.create_rule(g, Pattern::eof(), 1);
    reg.create_rule(g, Pattern::Range(5, 2), 2);
    assert_eq!(reg.validate(), Err(GenError::MalformedPattern(2)));
    let mut reg2 = Registry::new();
    let h = reg2.define_group(String::from("other"), None);
    reg2.create_rule(h, Pattern::Repeat(Box::new(Pattern::any()), 3, Some(2)), 0);
    assert_eq!(reg2.validate(), Err(GenError::MalformedPattern(0)));
}

#[test]
fn a_single_word() {
    let (r, _) = lex("a");
    assert_eq!(r.kind, ResultKind::Success);
    assert_eq!(r.tokens.tokens, vec![word("a")]);
    let (r2, _) = lex("a c b");
    assert_eq!(r2.tokens.tokens, vec![word("a"), unrecognized(" "), unrecognized("c"), unrecognized(" "), word("b")]);
}
