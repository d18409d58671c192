//! The runtime driver, shown on a small language:
//!
//! ```text
//! a-word      = 'a'+;
//! b-word      = 'b'+;
//! word        = a-word | b-word;
//! space       = ' ';
//! spaced-word = space, word;
//! language    = word, spaced-word*;
//! ```
//!
//! Anything else becomes an unrecognized token, and lexing goes on after it.

use vstd::prelude::*;
use crate::group::{GroupInfo, Identifier, Registry, Rule, winner, complete, lemma_complete_always_fires, lemma_winner_unique};
use crate::pattern::{Pattern, well_formed};

verus! {

/// Rule action: a first word was read.
pub const ON_FIRST_WORD: usize = 0;
/// Rule action: something other than a word came first.
pub const ON_ERR_SUFFIX_FIRST_WORD: usize = 1;
/// Rule action: the input ended before any word.
pub const ON_NO_ERR_SUFFIX_FIRST_WORD: usize = 2;
/// Rule action: a space and a word were read after the first word.
pub const ON_SPACED_WORD: usize = 3;
/// Rule action: something other than a spaced word came after a word.
pub const ON_ERR_SUFFIX: usize = 4;
/// Rule action: the input ended after a word.
pub const ON_NO_ERR_SUFFIX: usize = 5;

/// A token of the language.
#[derive(Clone, Debug, PartialEq)]
pub enum Token {
    /// A word: a run of `a` or a run of `b`.
    Word(Vec<char>),
    /// Input that the lexer does not recognise.
    Unrecognized(Vec<char>),
}

impl Token {
    /// A word token.
    pub fn word(name: Vec<char>) -> (r: Token)
        ensures
            r == Token::Word(name),
    {
        Token::Word(name)
    }

    /// An unrecognized token.
    pub fn unrecognized(name: Vec<char>) -> (r: Token)
        ensures
            r == Token::Unrecognized(name),
    {
        Token::Unrecognized(name)
    }
}

/// A sequence of tokens.
#[derive(Clone, Debug, PartialEq)]
pub struct TokenStream {
    pub tokens: Vec<Token>,
}

impl TokenStream {
    /// An empty stream.
    pub fn new() -> (r: TokenStream)
        ensures
            r.tokens@.len() == 0,
    {
        TokenStream { tokens: Vec::new() }
    }

    /// Append a token.
    pub fn push(&mut self, token: Token)
        ensures
            final(self).tokens@ == old(self).tokens@.push(token),
    {
        self.tokens.push(token);
    }
}

impl From<Vec<Token>> for TokenStream {
    fn from(tokens: Vec<Token>) -> (r: TokenStream) {
        TokenStream { tokens }
    }
}

impl vstd::std_specs::convert::FromSpecImpl<Vec<Token>> for TokenStream {
    open spec fn obeys_from_spec() -> bool {
        true
    }

    open spec fn from_spec(tokens: Vec<Token>) -> TokenStream {
        TokenStream { tokens }
    }
}

/// How a run ended.
#[derive(Clone, Copy, Debug, PartialEq, Eq)]
pub enum ResultKind {
    /// The whole input, end of input included, was consumed.
    Success,
    /// The run stopped before the end of input.
    Partial,
    /// A group had no rule for the input it met, or a group was popped from
    /// a stack holding only the root.
    Failure,
}

/// The outcome of a run, with every token produced up to its end.
#[derive(Clone, Debug, PartialEq)]
pub struct LexingResult {
    pub kind: ResultKind,
    pub tokens: TokenStream,
}

impl LexingResult {
    /// A run that consumed all its input.
    pub fn success(tokens: TokenStream) -> (r: LexingResult)
        ensures
            r.kind == ResultKind::Success,
            r.tokens == tokens,
    {
        LexingResult { kind: ResultKind::Success, tokens }
    }

    /// A run that stopped early.
    pub fn partial(tokens: TokenStream) -> (r: LexingResult)
        ensures
            r.kind == ResultKind::Partial,
            r.tokens == tokens,
    {
        LexingResult { kind: ResultKind::Partial, tokens }
    }

    /// A run that failed.
    pub fn failure(tokens: TokenStream) -> (r: LexingResult)
        ensures
            r.kind == ResultKind::Failure,
            r.tokens == tokens,
    {
        LexingResult { kind: ResultKind::Failure, tokens }
    }
}

/// The state of one scan step.
#[derive(Clone, Copy, Debug, PartialEq, Eq)]
pub enum StageStatus {
    /// A rule fired and input remains.
    ExitSuccess,
    /// The end-of-input symbol was consumed.
    ExitFinished,
    /// No rule of the current group matched, or the group stack underflowed.
    ExitFail,
}

/// Whether `c` is white space that trimming removes: a character with the
/// Unicode White_Space property.
pub open spec fn is_blank(c: char) -> bool {
    let x = c as u32;
    (9 <= x <= 13) || x == 32 || x == 0x85 || x == 0xA0 || x == 0x1680 || (0x2000 <= x <= 0x200A)
        || x == 0x2028 || x == 0x2029 || x == 0x202F || x == 0x205F || x == 0x3000
}

/// The characters of `s` from `from` up to `to`.
pub fn slice_chars(s: &Vec<char>, from: usize, to: usize) -> (r: Vec<char>)
    requires
        from <= to <= s@.len(),
    ensures
        r@ == s@.subrange(from as int, to as int),
{
    let mut r: Vec<char> = Vec::new();
    let mut i: usize = from;
    while i < to
        invariant
            from <= i <= to <= s@.len(),
            r@ == s@.subrange(from as int, i as int),
        decreases to - i,
    {
        r.push(s[i]);
        i += 1;
        assert(r@ =~= s@.subrange(from as int, i as int));
    }
    r
}

/// `s` without its leading and trailing white space.
pub open spec fn trimmed(s: Seq<char>) -> Seq<char>
    decreases s.len(),
{
    if s.len() > 0 && is_blank(s[0]) {
        trimmed(s.drop_first())
    } else if s.len() > 0 && is_blank(s.last()) {
        trimmed(s.drop_last())
    } else {
        s
    }
}

/// `s` without its leading and trailing white space.
pub fn trim_blanks(s: &Vec<char>) -> (r: Vec<char>)
    ensures
        r@ == trimmed(s@),
{
    let mut a: usize = 0;
    assert(s@.subrange(0, s@.len() as int) =~= s@);
    while a < s.len() && is_blank_char(s[a])
        invariant
            a <= s@.len(),
            trimmed(s@.subrange(a as int, s@.len() as int)) == trimmed(s@),
        decreases s@.len() - a,
    {
        assert(s@.subrange(a as int, s@.len() as int).drop_first() =~= s@.subrange(a + 1, s@.len() as int));
        a += 1;
    }
    let mut b: usize = s.len();
    while b > a && is_blank_char(s[b - 1])
        invariant
            a <= b <= s@.len(),
            a < b ==> !is_blank(s@[a as int]),
            trimmed(s@.subrange(a as int, b as int)) == trimmed(s@),
        decreases b,
    {
        assert(s@.subrange(a as int, b as int).drop_last() =~= s@.subrange(a as int, b - 1));
        b -= 1;
    }
    slice_chars(s, a, b)
}

fn is_blank_char(c: char) -> (r: bool)
    ensures
        r == is_blank(c),
{
    let x = c as u32;
    (9 <= x && x <= 13) || x == 32 || x == 0x85 || x == 0xA0 || x == 0x1680 || (0x2000 <= x && x
        <= 0x200A) || x == 0x2028 || x == 0x2029 || x == 0x202F || x == 0x205F || x == 0x3000
}

/// What a token holds: whether it is a word, and its text.
pub open spec fn token_view(t: Token) -> (bool, Seq<char>) {
    match t {
        Token::Word(v) => (true, v@),
        Token::Unrecognized(v) => (false, v@),
    }
}

/// The stack without its top group; the root is never removed.
pub open spec fn popped(stack: Seq<Identifier>) -> Seq<Identifier> {
    if stack.len() > 1 {
        stack.drop_last()
    } else {
        stack
    }
}

/// The group stack and tokens after action `action` runs on `text`, and
/// whether it succeeded.
pub open spec fn act(action: usize, text: Seq<char>, stack: Seq<Identifier>, out: Seq<(bool, Seq<char>)>) -> (
    Seq<Identifier>,
    Seq<(bool, Seq<char>)>,
    bool,
) {
    if action == ON_FIRST_WORD {
        (stack.push(Identifier { id: 1 }), out.push((true, text)), true)
    } else if action == ON_ERR_SUFFIX_FIRST_WORD {
        (stack, out.push((false, text)), true)
    } else if action == ON_NO_ERR_SUFFIX_FIRST_WORD {
        (stack, out, true)
    } else if action == ON_SPACED_WORD {
        (stack, out.push((true, trimmed(text))), true)
    } else if action == ON_ERR_SUFFIX {
        (popped(stack), out.push((false, text)), stack.len() > 1)
    } else if action == ON_NO_ERR_SUFFIX {
        (popped(stack), out, stack.len() > 1)
    } else {
        (stack, out, false)
    }
}

/// The tokens of a run from reader position `pos`, and whether it reaches
/// the end of input: at each position the winning rule of the group on top of
/// the stack fires, and its action runs on the text it matched.
pub open spec fn lex_from(
    rules: Seq<crate::group::Rule>,
    s: Seq<char>,
    stack: Seq<Identifier>,
    out: Seq<(bool, Seq<char>)>,
    pos: int,
) -> (Seq<(bool, Seq<char>)>, bool)
    decreases s.len() + 1 - pos,
{
    if pos < 0 || pos > s.len() || stack.len() == 0 {
        (out, false)
    } else if exists|k: int, e: int| winner(rules, stack.last(), s, pos, k, e) {
        let (k, e) = choose|k: int, e: int| winner(rules, stack.last(), s, pos, k, e);
        let stop = if e <= s.len() { e } else { s.len() as int };
        let (st2, out2, ok) = act(rules[k].action, s.subrange(pos, stop), stack, out);
        if !ok {
            (out2, false)
        } else if e > s.len() {
            (out2, true)
        } else {
            lex_from(rules, s, st2, out2, e)
        }
    } else {
        (out, false)
    }
}

/// A run of one or more of the character `c`.
pub open spec fn word_of(c: char) -> Pattern {
    Pattern::Repeat(Box::new(Pattern::Range(c as u64, c as u64)), 1, None)
}

/// A space followed by a run of one or more of the character `c`.
pub open spec fn spaced_word_of(c: char) -> Pattern {
    Pattern::Then(Box::new(Pattern::Range(' ' as u64, ' ' as u64)), Box::new(word_of(c)))
}

/// The rules of the root group, in declaration order.
pub open spec fn root_rules() -> Seq<Rule> {
    seq![
        Rule { group: Identifier { id: 0 }, pattern: word_of('a'), action: ON_FIRST_WORD },
        Rule { group: Identifier { id: 0 }, pattern: word_of('b'), action: ON_FIRST_WORD },
        Rule { group: Identifier { id: 0 }, pattern: Pattern::Eof, action: ON_NO_ERR_SUFFIX_FIRST_WORD },
        Rule { group: Identifier { id: 0 }, pattern: Pattern::Any, action: ON_ERR_SUFFIX_FIRST_WORD },
    ]
}

/// The rules of the group entered after the first word, in declaration order.
pub open spec fn seen_first_word_rules() -> Seq<Rule> {
    seq![
        Rule { group: Identifier { id: 1 }, pattern: spaced_word_of('a'), action: ON_SPACED_WORD },
        Rule { group: Identifier { id: 1 }, pattern: spaced_word_of('b'), action: ON_SPACED_WORD },
        Rule { group: Identifier { id: 1 }, pattern: Pattern::Eof, action: ON_NO_ERR_SUFFIX },
        Rule { group: Identifier { id: 1 }, pattern: Pattern::Any, action: ON_ERR_SUFFIX },
    ]
}

/// All rules of the language, in the order they are declared.
pub open spec fn defined_rules() -> Seq<Rule> {
    seen_first_word_rules() + root_rules()
}

/// Two groups without parents: "ROOT", then "SEEN FIRST WORD".
pub open spec fn named_groups(groups: Seq<GroupInfo>) -> bool {
    &&& groups.len() == 2
    &&& groups[0].name@ == "ROOT"@
    &&& groups[0].parent is None
    &&& groups[1].name@ == "SEEN FIRST WORD"@
    &&& groups[1].parent is None
}

/// The groups of the language above: the root, and the group entered once
/// the first word has been seen.
#[derive(Debug)]
pub struct TestState {
    lexer_states: Registry,
    initial_state: Identifier,
    seen_first_word_state: Identifier,
}

impl TestState {
    /// Both groups are defined, the root first.
    pub closed spec fn wf(&self) -> bool {
        &&& named_groups(self.lexer_states.spec_groups())
        &&& self.initial_state.id == 0
        &&& self.seen_first_word_state.id == 1
    }

    /// The rules, in declaration order.
    pub closed spec fn spec_rules(&self) -> Seq<crate::group::Rule> {
        self.lexer_states.spec_rules()
    }

    /// The groups, by identifier.
    pub closed spec fn spec_groups(&self) -> Seq<GroupInfo> {
        self.lexer_states.spec_groups()
    }

    /// The two groups, named, with no rules.
    pub fn new() -> (r: TestState)
        ensures
            r.wf(),
            r.spec_rules().len() == 0,
            named_groups(r.spec_groups()),
    {
        let mut lexer_states = Registry::new();
        let initial_state = lexer_states.define_group("ROOT".to_owned(), None);
        let seen_first_word_state = lexer_states.define_group("SEEN FIRST WORD".to_owned(), None);
        TestState { lexer_states, initial_state, seen_first_word_state }
    }

    /// The identifier of the root group.
    pub fn initial_state(&self) -> (r: Identifier)
        requires
            self.wf(),
        ensures
            r.id == 0,
    {
        self.initial_state
    }

    /// The groups and their rules.
    pub fn groups(&self) -> (r: &Registry)
        ensures
            r.spec_rules() == self.spec_rules(),
            r.spec_groups() == self.spec_groups(),
            self.wf() ==> named_groups(r.spec_groups()),
    {
        &self.lexer_states
    }
}

/// The lexer for the language above, with its groups, group stack, output and
/// bookmarks.
#[derive(Debug)]
pub struct TestLexer {
    state: TestState,
    stack: Vec<Identifier>,
    output: TokenStream,
    position: usize,
    matched: usize,
}

impl TestLexer {
    /// The lexer's invariant: two groups, root at the bottom of a non-empty
    /// stack of known groups, and the matched bookmark never ahead of the reader.
    pub closed spec fn wf(&self) -> bool {
        &&& self.state.wf()
        &&& self.stack@.len() > 0
        &&& self.stack@[0] == self.state.initial_state
        &&& forall|k: int| 0 <= k < self.stack@.len() ==> (#[trigger] self.stack@[k]).id < 2
        &&& self.matched <= self.position
    }

    /// The rules can always make progress: each group has a catch-all and an
    /// end-of-input rule, every rule names a known action, and only rules of
    /// the inner group pop the stack.
    pub open spec fn sound(&self) -> bool {
        &&& complete(2, self.spec_rules())
        &&& forall|k: int| 0 <= k < self.spec_rules().len() ==> (#[trigger] self.spec_rules()[k]).action < 6
            && ((self.spec_rules()[k].action == ON_ERR_SUFFIX || self.spec_rules()[k].action
            == ON_NO_ERR_SUFFIX) ==> self.spec_rules()[k].group.id == 1)
    }

    /// The reader position of the matched bookmark.
    pub closed spec fn spec_matched(&self) -> nat {
        self.matched as nat
    }

    /// The reader position: `0..=n` over an input of `n` characters, `n + 1`
    /// once the end-of-input symbol is consumed.
    pub closed spec fn spec_position(&self) -> nat {
        self.position as nat
    }

    /// What the tokens produced so far hold.
    pub closed spec fn out_view(&self) -> Seq<(bool, Seq<char>)> {
        self.output.tokens@.map_values(|t: Token| token_view(t))
    }

    /// The group stack, root first.
    pub closed spec fn stack_view(&self) -> Seq<Identifier> {
        self.stack@
    }

    /// The number of groups on the stack.
    pub closed spec fn depth(&self) -> nat {
        self.stack@.len()
    }

    /// The rules, in declaration order.
    pub closed spec fn spec_rules(&self) -> Seq<crate::group::Rule> {
        self.state.spec_rules()
    }

    /// The group on top of the stack.
    pub closed spec fn current(&self) -> Identifier {
        self.stack@.last()
    }

    /// A lexer with its two groups and no rules yet.
    pub fn new() -> (r: TestLexer)
        ensures
            r.wf(),
            r.spec_rules().len() == 0,
            r.spec_matched() == 0,
            r.spec_position() == 0,
            r.stack_view() == seq![Identifier { id: 0 }],
            r.out_view().len() == 0,
    {
        let state = TestState::new();
        let mut stack: Vec<Identifier> = Vec::new();
        stack.push(state.initial_state);
        let r = TestLexer {
            state,
            stack,
            output: TokenStream::new(),
            position: 0,
            matched: 0,
        };
        assert(r.stack@ =~= seq![Identifier { id: 0 }]);
        r
    }

    /// The lexer with the rules of both groups.
    pub fn define() -> (r: TestLexer)
        ensures
            r.wf(),
            r.sound(),
            r.spec_rules() == defined_rules(),
            forall|k: int| 0 <= k < r.spec_rules().len() ==> well_formed(#[trigger] r.spec_rules()[k].pattern),
            r.spec_matched() == 0,
            r.spec_position() == 0,
            r.stack_view() == seq![Identifier { id: 0 }],
            r.out_view().len() == 0,
    {
        let mut lexer = TestLexer::new();
        lexer.rules_in_seen_first_word();
        lexer.rules_in_root();
        proof {
            let rules = lexer.spec_rules();
            assert(rules =~= defined_rules());
            reveal_with_fuel(well_formed, 4);
            assert(well_formed(word_of('a')) && well_formed(word_of('b')));
            assert(well_formed(spaced_word_of('a')) && well_formed(spaced_word_of('b')));
            assert forall|k: int| 0 <= k < rules.len() implies well_formed(#[trigger] rules[k].pattern) by {
                assert(well_formed(Pattern::Any) && well_formed(Pattern::Eof));
            }
            assert(rules[0].group.id == 1 && rules[3].pattern == Pattern::Any);
            assert(rules[2].pattern == Pattern::Eof);
            assert(rules[4].group.id == 0 && rules[7].pattern == Pattern::Any);
            assert(rules[6].pattern == Pattern::Eof);
            assert(crate::group::has_rule(rules, 0, Pattern::Any));
            assert(crate::group::has_rule(rules, 0, Pattern::Eof));
            assert(crate::group::has_rule(rules, 1, Pattern::Any));
            assert(crate::group::has_rule(rules, 1, Pattern::Eof));
        }
        lexer
    }

    /// The groups and their rules.
    pub fn groups(&self) -> (r: &Registry)
        ensures
            r.spec_rules() == self.spec_rules(),
            self.wf() ==> named_groups(r.spec_groups()),
    {
        &self.state.lexer_states
    }

    /// The identifier of the root group.
    pub fn initial_state(&self) -> (r: Identifier)
        requires
            self.wf(),
        ensures
            r.id == 0,
    {
        self.state.initial_state
    }

    /// The position of the matched bookmark.
    pub fn matched(&self) -> (r: usize)
        ensures
            r == self.spec_matched(),
    {
        self.matched
    }

    fn rules_in_root(&mut self)
        requires
            old(self).wf(),
        ensures
            final(self).wf(),
            final(self).spec_rules() == old(self).spec_rules() + root_rules(),
            final(self).stack_view() == old(self).stack_view(),
            final(self).out_view() == old(self).out_view(),
            final(self).spec_position() == old(self).spec_position(),
            final(self).spec_matched() == old(self).spec_matched(),
    {
        let a_word = Pattern::char('a').many1();
        let b_word = Pattern::char('b').many1();
        let any = Pattern::any();
        let end = Pattern::eof();
        let root = self.state.initial_state;
        self.state.lexer_states.create_rule(root, a_word, ON_FIRST_WORD);
        self.state.lexer_states.create_rule(root, b_word, ON_FIRST_WORD);
        self.state.lexer_states.create_rule(root, end, ON_NO_ERR_SUFFIX_FIRST_WORD);
        self.state.lexer_states.create_rule(root, any, ON_ERR_SUFFIX_FIRST_WORD);
        assert(self.spec_rules() =~= old(self).spec_rules() + root_rules());
    }

    fn rules_in_seen_first_word(&mut self)
        requires
            old(self).wf(),
        ensures
            final(self).wf(),
            final(self).spec_rules() == old(self).spec_rules() + seen_first_word_rules(),
            final(self).stack_view() == old(self).stack_view(),
            final(self).out_view() == old(self).out_view(),
            final(self).spec_position() == old(self).spec_position(),
            final(self).spec_matched() == old(self).spec_matched(),
    {
        let a_word = Pattern::char('a').many1();
        let b_word = Pattern::char('b').many1();
        let spaced_a_word = Pattern::char(' ').followed_by(a_word);
        let spaced_b_word = Pattern::char(' ').followed_by(b_word);
        let any = Pattern::any();
        let end = Pattern::eof();
        let seen = self.state.seen_first_word_state;
        self.state.lexer_states.create_rule(seen, spaced_a_word, ON_SPACED_WORD);
        self.state.lexer_states.create_rule(seen, spaced_b_word, ON_SPACED_WORD);
        self.state.lexer_states.create_rule(seen, end, ON_NO_ERR_SUFFIX);
        self.state.lexer_states.create_rule(seen, any, ON_ERR_SUFFIX);
        assert(self.spec_rules() =~= old(self).spec_rules() + seen_first_word_rules());
    }

    /// Enter group `g`.
    pub fn push_state(&mut self, g: Identifier)
        requires
            old(self).wf(),
            g.id < 2,
        ensures
            final(self).wf(),
            final(self).spec_rules() == old(self).spec_rules(),
            final(self).spec_matched() == old(self).spec_matched(),
            final(self).spec_position() == old(self).spec_position(),
            final(self).stack_view() == old(self).stack_view().push(g),
            final(self).out_view() == old(self).out_view(),
    {
        self.stack.push(g);
    }

    /// Leave the current group. The root group is never left: popping it is
    /// an error (`None`), and the stack stays as it was.
    pub fn pop_state(&mut self) -> (r: Option<Identifier>)
        requires
            old(self).wf(),
        ensures
            final(self).wf(),
            final(self).spec_rules() == old(self).spec_rules(),
            final(self).spec_matched() == old(self).spec_matched(),
            final(self).spec_position() == old(self).spec_position(),
            final(self).stack_view() == popped(old(self).stack_view()),
            final(self).out_view() == old(self).out_view(),
            r == (if old(self).depth() > 1 { Some(old(self).current()) } else { None::<Identifier> }),
    {
        if self.stack.len() > 1 {
            let g = self.stack.pop();
            assert(self.stack@ =~= old(self).stack@.drop_last());
            match g {
                Some(id) => Some(id),
                None => None,
            }
        } else {
            None
        }
    }

    fn emit(&mut self, t: Token)
        requires
            old(self).wf(),
        ensures
            final(self).wf(),
            final(self).spec_rules() == old(self).spec_rules(),
            final(self).spec_matched() == old(self).spec_matched(),
            final(self).spec_position() == old(self).spec_position(),
            final(self).stack_view() == old(self).stack_view(),
            final(self).out_view() == old(self).out_view().push(token_view(t)),
    {
        let ghost f = |t: Token| token_view(t);
        self.output.push(t);
        assert(self.output.tokens@.map_values(f) =~= old(self).output.tokens@.map_values(f).push(f(t)));
    }

    fn on_first_word(&mut self, text: Vec<char>) -> (ok: bool)
        requires
            old(self).wf(),
        ensures
            final(self).wf(),
            final(self).spec_rules() == old(self).spec_rules(),
            final(self).spec_matched() == old(self).spec_matched(),
            final(self).spec_position() == old(self).spec_position(),
            (final(self).stack_view(), final(self).out_view(), ok) == act(ON_FIRST_WORD, text@, old(self).stack_view(), old(self).out_view()),
    {
        self.emit(Token::Word(text));
        let id = self.state.seen_first_word_state;
        self.push_state(id);
        true
    }

    fn on_err_suffix_first_word(&mut self, text: Vec<char>) -> (ok: bool)
        requires
            old(self).wf(),
        ensures
            final(self).wf(),
            final(self).spec_rules() == old(self).spec_rules(),
            final(self).spec_matched() == old(self).spec_matched(),
            final(self).spec_position() == old(self).spec_position(),
            (final(self).stack_view(), final(self).out_view(), ok) == act(ON_ERR_SUFFIX_FIRST_WORD, text@, old(self).stack_view(), old(self).out_view()),
    {
        self.emit(Token::Unrecognized(text));
        true
    }

    fn on_spaced_word(&mut self, text: Vec<char>) -> (ok: bool)
        requires
            old(self).wf(),
        ensures
            final(self).wf(),
            final(self).spec_rules() == old(self).spec_rules(),
            final(self).spec_matched() == old(self).spec_matched(),
            final(self).spec_position() == old(self).spec_position(),
            (final(self).stack_view(), final(self).out_view(), ok) == act(ON_SPACED_WORD, text@, old(self).stack_view(), old(self).out_view()),
    {
        let word = trim_blanks(&text);
        self.emit(Token::Word(word));
        true
    }

    fn on_err_suffix(&mut self, text: Vec<char>) -> (ok: bool)
        requires
            old(self).wf(),
        ensures
            final(self).wf(),
            final(self).spec_rules() == old(self).spec_rules(),
            final(self).spec_matched() == old(self).spec_matched(),
            final(self).spec_position() == old(self).spec_position(),
            (final(self).stack_view(), final(self).out_view(), ok) == act(ON_ERR_SUFFIX, text@, old(self).stack_view(), old(self).out_view()),
    {
        self.on_err_suffix_first_word(text);
        self.pop_state().is_some()
    }

    fn on_no_err_suffix(&mut self, text: Vec<char>) -> (ok: bool)
        requires
            old(self).wf(),
        ensures
            final(self).wf(),
            final(self).spec_rules() == old(self).spec_rules(),
            final(self).spec_matched() == old(self).spec_matched(),
            final(self).spec_position() == old(self).spec_position(),
            (final(self).stack_view(), final(self).out_view(), ok) == act(ON_NO_ERR_SUFFIX, text@, old(self).stack_view(), old(self).out_view()),
    {
        self.pop_state().is_some()
    }

    /// Run the action `action` on the matched text. `false` when the action
    /// failed: it popped the root group, or names no action.
    fn run_action(&mut self, action: usize, text: Vec<char>) -> (ok: bool)
        requires
            old(self).wf(),
        ensures
            final(self).wf(),
            final(self).spec_rules() == old(self).spec_rules(),
            final(self).spec_matched() == old(self).spec_matched(),
            final(self).spec_position() == old(self).spec_position(),
            (final(self).stack_view(), final(self).out_view(), ok) == act(action, text@, old(self).stack_view(), old(self).out_view()),
    {
        if action == ON_FIRST_WORD {
            self.on_first_word(text)
        } else if action == ON_ERR_SUFFIX_FIRST_WORD {
            self.on_err_suffix_first_word(text)
        } else if action == ON_NO_ERR_SUFFIX_FIRST_WORD {
            true
        } else if action == ON_SPACED_WORD {
            self.on_spaced_word(text)
        } else if action == ON_ERR_SUFFIX {
            self.on_err_suffix(text)
        } else if action == ON_NO_ERR_SUFFIX {
            self.on_no_err_suffix(text)
        } else {
            false
        }
    }

    /// One token-scan from the reader position: the winning rule of the
    /// current group fires, its action runs on the matched text, and the reader
    /// and the matched bookmark move to the end of the match. The matched
    /// bookmark never moves back.
    pub fn run_current_state(&mut self, s: &Vec<char>) -> (r: StageStatus)
        requires
            old(self).wf(),
            old(self).spec_position() <= s@.len(),
            s@.len() + 2 < usize::MAX,
        ensures
            final(self).wf(),
            final(self).spec_rules() == old(self).spec_rules(),
            final(self).spec_matched() >= old(self).spec_matched(),
            old(self).spec_position() <= final(self).spec_position() <= s@.len() + 1,
            r != StageStatus::ExitFail ==> exists|k: int|
                winner(
                    old(self).spec_rules(),
                    old(self).current(),
                    s@,
                    old(self).spec_position() as int,
                    k,
                    final(self).spec_position() as int,
                ),
            old(self).sound() ==> r != StageStatus::ExitFail,
            (forall|k: int, e: int| !winner(old(self).spec_rules(), old(self).current(), s@, old(self).spec_position() as int, k, e))
                ==> r == StageStatus::ExitFail && final(self).stack_view() == old(self).stack_view()
                && final(self).out_view() == old(self).out_view(),
            (exists|k: int, e: int| winner(old(self).spec_rules(), old(self).current(), s@, old(self).spec_position() as int, k, e))
                ==> exists|k: int| winner(
                    old(self).spec_rules(),
                    old(self).current(),
                    s@,
                    old(self).spec_position() as int,
                    k,
                    final(self).spec_position() as int,
                ) && act(
                    old(self).spec_rules()[k].action,
                    s@.subrange(old(self).spec_position() as int, final(self).spec_matched() as int),
                    old(self).stack_view(),
                    old(self).out_view(),
                ) == (final(self).stack_view(), final(self).out_view(), r != StageStatus::ExitFail),
            (exists|k: int, e: int| winner(old(self).spec_rules(), old(self).current(), s@, old(self).spec_position() as int, k, e))
                ==> final(self).spec_matched() == (if final(self).spec_position() <= s@.len() {
                final(self).spec_position()
            } else {
                s@.len()
            }),
            r != StageStatus::ExitFail ==> (r == StageStatus::ExitFinished <==> final(self).spec_position() > s@.len()),
            r == StageStatus::ExitSuccess ==> final(self).spec_position() <= s@.len(),
            r == StageStatus::ExitFinished ==> final(self).spec_position() == s@.len() + 1
                && final(self).spec_matched() == s@.len(),
    {
        let pos = self.position;
        let top = self.stack[self.stack.len() - 1];
        proof {
            if self.sound() {
                lemma_complete_always_fires(self.spec_rules(), 2, top, s@, pos as int);
            }
        }
        match self.state.lexer_states.longest_match(top, s, pos) {
            None => StageStatus::ExitFail,
            Some((k, end)) => {
                let stop = if end <= s.len() {
                    end
                } else {
                    s.len()
                };
                let text = slice_chars(s, pos, stop);
                let ghost text_view = text@;
                let action = self.state.lexer_states.action(k);
                let ok = self.run_action(action, text);
                self.position = end;
                self.matched = stop;
                assert(winner(old(self).spec_rules(), old(self).current(), s@, pos as int, k as int, end as int));
                assert(winner(
                    old(self).spec_rules(),
                    old(self).current(),
                    s@,
                    old(self).spec_position() as int,
                    k as int,
                    self.spec_position() as int,
                ));
                assert(s@.subrange(old(self).spec_position() as int, self.spec_matched() as int) == text_view);
                if !ok {
                    StageStatus::ExitFail
                } else if end > s.len() {
                    StageStatus::ExitFinished
                } else {
                    StageStatus::ExitSuccess
                }
            },
        }
    }

    /// Prepare a run: the root group alone on the stack, no output, the
    /// reader and the matched bookmark at the start.
    pub fn set_up(&mut self)
        requires
            old(self).wf(),
        ensures
            final(self).wf(),
            final(self).spec_rules() == old(self).spec_rules(),
            final(self).depth() == 1,
            final(self).spec_position() == 0,
            final(self).spec_matched() == 0,
            final(self).stack_view() == seq![Identifier { id: 0 }],
            final(self).out_view() == Seq::<(bool, Seq<char>)>::empty(),
    {
        let mut stack: Vec<Identifier> = Vec::new();
        stack.push(self.state.initial_state);
        self.stack = stack;
        self.output = TokenStream::new();
        self.position = 0;
        self.matched = 0;
        assert(self.stack@ =~= seq![Identifier { id: 0 }]);
        assert(self.out_view() =~= Seq::<(bool, Seq<char>)>::empty());
    }

    /// Lex `s`: scan tokens until the end-of-input symbol is consumed
    /// (`Success`) or a scan fails (`Failure`). The tokens produced so far are
    /// returned either way. On success the matched bookmark stands at the end
    /// of the input.
    pub fn run(&mut self, s: &Vec<char>) -> (r: LexingResult)
        requires
            old(self).wf(),
            s@.len() + 2 < usize::MAX,
        ensures
            final(self).wf(),
            final(self).spec_rules() == old(self).spec_rules(),
            r.kind != ResultKind::Partial,
            final(self).out_view().len() == 0,
            old(self).sound() ==> r.kind == ResultKind::Success,
            r.tokens.tokens@.map_values(|t: Token| token_view(t)) == lex_from(
                old(self).spec_rules(),
                s@,
                seq![Identifier { id: 0 }],
                Seq::empty(),
                0,
            ).0,
            (r.kind == ResultKind::Success) == lex_from(
                old(self).spec_rules(),
                s@,
                seq![Identifier { id: 0 }],
                Seq::empty(),
                0,
            ).1,
            r.kind == ResultKind::Success ==> final(self).spec_matched() == s@.len()
                && final(self).spec_position() == s@.len() + 1,
    {
        self.set_up();
        let ghost whole = lex_from(self.spec_rules(), s@, self.stack_view(), self.out_view(), 0);
        let mut going = true;
        let mut finished = false;
        while going
            invariant
                self.wf(),
                self.spec_rules() == old(self).spec_rules(),
                s@.len() + 2 < usize::MAX,
                self.spec_position() <= s@.len() + 1,
                going ==> self.spec_position() <= s@.len(),
                finished ==> !going && self.spec_matched() == s@.len() && self.spec_position()
                    == s@.len() + 1,
                old(self).sound() ==> (going || finished),
                whole == lex_from(old(self).spec_rules(), s@, seq![Identifier { id: 0 }], Seq::empty(), 0),
                going ==> lex_from(self.spec_rules(), s@, self.stack_view(), self.out_view(), self.spec_position() as int) == whole,
                !going ==> (self.out_view(), finished) == whole,
            decreases s@.len() + 2 - self.spec_position() + if going { 1int } else { 0int },
        {
            let ghost before = *self;
            let status = self.run_current_state(s);
            proof {
                let rules = self.spec_rules();
                let g = before.current();
                let p = before.spec_position() as int;
                assert(before.stack_view().len() > 0);
                assert(g == before.stack_view().last());
                if exists|k: int, e: int| winner(rules, g, s@, p, k, e) {
                    let (k1, e1) = choose|k: int, e: int| winner(rules, g, s@, p, k, e);
                    let k2 = choose|k: int| winner(rules, g, s@, p, k, self.spec_position() as int) && act(
                        rules[k].action,
                        s@.subrange(p, self.spec_matched() as int),
                        before.stack_view(),
                        before.out_view(),
                    ) == (self.stack_view(), self.out_view(), status != StageStatus::ExitFail);
                    lemma_winner_unique(rules, g, s@, p, k1, e1, k2, self.spec_position() as int);
                }
            }
            match status {
                StageStatus::ExitSuccess => {},
                StageStatus::ExitFinished => {
                    going = false;
                    finished = true;
                },
                StageStatus::ExitFail => {
                    going = false;
                },
            }
        }
        let mut tokens = TokenStream::new();
        std::mem::swap(&mut tokens, &mut self.output);
        assert(tokens.tokens@.map_values(|t: Token| token_view(t)) == whole.0);
        let result = if finished {
            LexingResult::success(tokens)
        } else {
            LexingResult::failure(tokens)
        };
        self.tear_down();
        result
    }

    /// Finish a run; nothing is left to release.
    pub fn tear_down(&mut self)
        ensures
            *final(self) == *old(self),
    {
    }
}

impl Default for TestLexer {
    fn default() -> (r: TestLexer)
        ensures
            r.wf(),
            r.spec_rules().len() == 0,
    {
        TestLexer::new()
    }
}

} // verus!
