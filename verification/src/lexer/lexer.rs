//! The lexer: a table-driven state machine that turns source text into tokens.
use crate::diagnostic::{Diagnostic, Span, Stage};
use crate::text::{chars_of, push_char, push_str, string_of_range};
use vstd::prelude::*;

verus! {

/// Tokens made of one or two fixed characters, and the keywords.
#[derive(Copy, Clone, Debug, PartialEq, Eq, Structural)]
pub enum SimpleToken {
    LeftParen,
    RightParen,
    LeftBrace,
    RightBrace,
    LeftBracket,
    RightBracket,
    Comma,
    Dot,
    Minus,
    Plus,
    Colon,
    SemiColon,
    Question,
    Slash,
    Star,
    Equal,
    EqualEqual,
    Bang,
    BangEqual,
    Greater,
    GreaterEqual,
    Less,
    LessEqual,
    KeyWord(KeyWordType),
    And,
    Or,
}

#[derive(Copy, Clone, Debug, PartialEq, Eq, Structural)]
pub enum KeyWordType {
    Class,
    Else,
    False,
    Fun,
    For,
    Nil,
    Print,
    Return,
    Super,
    This,
    True,
    Var,
    While,
    If,
    Elif,
    Enum,
    Break,
    Continue,
    MySelf,
}

/// The name of a keyword variant, as it is displayed (`Fun`, `MySelf`, ...).
pub open spec fn spec_keyword_name(k: KeyWordType) -> Seq<char> {
    match k {
        KeyWordType::Class => "Class"@,
        KeyWordType::Else => "Else"@,
        KeyWordType::False => "False"@,
        KeyWordType::Fun => "Fun"@,
        KeyWordType::For => "For"@,
        KeyWordType::Nil => "Nil"@,
        KeyWordType::Print => "Print"@,
        KeyWordType::Return => "Return"@,
        KeyWordType::Super => "Super"@,
        KeyWordType::This => "This"@,
        KeyWordType::True => "True"@,
        KeyWordType::Var => "Var"@,
        KeyWordType::While => "While"@,
        KeyWordType::If => "If"@,
        KeyWordType::Elif => "Elif"@,
        KeyWordType::Enum => "Enum"@,
        KeyWordType::Break => "Break"@,
        KeyWordType::Continue => "Continue"@,
        KeyWordType::MySelf => "MySelf"@,
    }
}

impl KeyWordType {
    /// The variant's name (`Fun`, `MySelf`, ...).
    pub fn to_string(&self) -> (s: String)
        ensures
            s@ == spec_keyword_name(*self),
    {
        match self {
            KeyWordType::Class => "Class".to_owned(),
            KeyWordType::Else => "Else".to_owned(),
            KeyWordType::False => "False".to_owned(),
            KeyWordType::Fun => "Fun".to_owned(),
            KeyWordType::For => "For".to_owned(),
            KeyWordType::Nil => "Nil".to_owned(),
            KeyWordType::Print => "Print".to_owned(),
            KeyWordType::Return => "Return".to_owned(),
            KeyWordType::Super => "Super".to_owned(),
            KeyWordType::This => "This".to_owned(),
            KeyWordType::True => "True".to_owned(),
            KeyWordType::Var => "Var".to_owned(),
            KeyWordType::While => "While".to_owned(),
            KeyWordType::If => "If".to_owned(),
            KeyWordType::Elif => "Elif".to_owned(),
            KeyWordType::Enum => "Enum".to_owned(),
            KeyWordType::Break => "Break".to_owned(),
            KeyWordType::Continue => "Continue".to_owned(),
            KeyWordType::MySelf => "MySelf".to_owned(),
        }
    }
}

/// How a simple token is written.
pub open spec fn spec_simple_token_text(t: SimpleToken) -> Seq<char> {
    match t {
        SimpleToken::LeftParen => "("@,
        SimpleToken::RightParen => ")"@,
        SimpleToken::LeftBrace => "{"@,
        SimpleToken::RightBrace => "}"@,
        SimpleToken::LeftBracket => "["@,
        SimpleToken::RightBracket => "]"@,
        SimpleToken::Comma => ","@,
        SimpleToken::Dot => "."@,
        SimpleToken::Minus => "-"@,
        SimpleToken::Plus => "+"@,
        SimpleToken::SemiColon => ";"@,
        SimpleToken::Slash => "/"@,
        SimpleToken::Star => "*"@,
        SimpleToken::Equal => "="@,
        SimpleToken::EqualEqual => "=="@,
        SimpleToken::Bang => "!"@,
        SimpleToken::BangEqual => "!="@,
        SimpleToken::Greater => ">"@,
        SimpleToken::GreaterEqual => ">="@,
        SimpleToken::Less => "<"@,
        SimpleToken::LessEqual => "<="@,
        SimpleToken::KeyWord(k) => spec_keyword_name(k),
        SimpleToken::And => "&"@,
        SimpleToken::Or => "|"@,
        SimpleToken::Colon => ":"@,
        SimpleToken::Question => "?"@,
    }
}

impl SimpleToken {
    /// How the token is written (a keyword shows its variant's name).
    pub fn to_string(&self) -> (s: String)
        ensures
            s@ == spec_simple_token_text(*self),
    {
        match self {
            SimpleToken::LeftParen => "(".to_owned(),
            SimpleToken::RightParen => ")".to_owned(),
            SimpleToken::LeftBrace => "{".to_owned(),
            SimpleToken::RightBrace => "}".to_owned(),
            SimpleToken::LeftBracket => "[".to_owned(),
            SimpleToken::RightBracket => "]".to_owned(),
            SimpleToken::Comma => ",".to_owned(),
            SimpleToken::Dot => ".".to_owned(),
            SimpleToken::Minus => "-".to_owned(),
            SimpleToken::Plus => "+".to_owned(),
            SimpleToken::SemiColon => ";".to_owned(),
            SimpleToken::Slash => "/".to_owned(),
            SimpleToken::Star => "*".to_owned(),
            SimpleToken::Equal => "=".to_owned(),
            SimpleToken::EqualEqual => "==".to_owned(),
            SimpleToken::Bang => "!".to_owned(),
            SimpleToken::BangEqual => "!=".to_owned(),
            SimpleToken::Greater => ">".to_owned(),
            SimpleToken::GreaterEqual => ">=".to_owned(),
            SimpleToken::Less => "<".to_owned(),
            SimpleToken::LessEqual => "<=".to_owned(),
            SimpleToken::KeyWord(k) => k.to_string(),
            SimpleToken::And => "&".to_owned(),
            SimpleToken::Or => "|".to_owned(),
            SimpleToken::Colon => ":".to_owned(),
            SimpleToken::Question => "?".to_owned(),
        }
    }
}

/// What a token is. A number keeps the text it was written with (digits, with
/// at most one decimal point); turning it into a value is left to the evaluator.
#[derive(Debug, PartialEq)]
pub enum TokenKind {
    Single(SimpleToken),
    StringLitteral(String),
    Identifier(String),
    Number(String),
    Comment(String),
}

/// The mathematical form of a `TokenKind`.
pub enum SpecTokenKind {
    Single(SimpleToken),
    StringLitteral(Seq<char>),
    Identifier(Seq<char>),
    Number(Seq<char>),
    Comment(Seq<char>),
}

impl View for TokenKind {
    type V = SpecTokenKind;

    open spec fn view(&self) -> SpecTokenKind {
        match self {
            TokenKind::Single(t) => SpecTokenKind::Single(*t),
            TokenKind::StringLitteral(s) => SpecTokenKind::StringLitteral(s@),
            TokenKind::Identifier(s) => SpecTokenKind::Identifier(s@),
            TokenKind::Number(s) => SpecTokenKind::Number(s@),
            TokenKind::Comment(s) => SpecTokenKind::Comment(s@),
        }
    }
}

impl Clone for TokenKind {
    fn clone(&self) -> (r: Self)
        ensures
            r == *self,
    {
        match self {
            TokenKind::Single(t) => TokenKind::Single(*t),
            TokenKind::StringLitteral(s) => TokenKind::StringLitteral(s.clone()),
            TokenKind::Identifier(s) => TokenKind::Identifier(s.clone()),
            TokenKind::Number(s) => TokenKind::Number(s.clone()),
            TokenKind::Comment(s) => TokenKind::Comment(s.clone()),
        }
    }
}

/// How a token of this kind is written back.
pub open spec fn spec_token_kind_text(k: SpecTokenKind) -> Seq<char> {
    match k {
        SpecTokenKind::Single(t) => spec_simple_token_text(t),
        SpecTokenKind::StringLitteral(s) => seq!['"'] + s + seq!['"'],
        SpecTokenKind::Identifier(s) => s,
        SpecTokenKind::Number(s) => s,
        SpecTokenKind::Comment(s) => seq!['/', '/'] + s,
    }
}

impl TokenKind {
    /// How the token is written back: strings between quotes, comments after `//`.
    pub fn to_string(&self) -> (s: String)
        ensures
            s@ == spec_token_kind_text(self@),
    {
        match self {
            TokenKind::Single(t) => t.to_string(),
            TokenKind::StringLitteral(v) => {
                let mut s = String::new();
                push_char(&mut s, '"');
                push_str(&mut s, v.as_str());
                push_char(&mut s, '"');
                s
            },
            TokenKind::Identifier(v) => v.clone(),
            TokenKind::Number(v) => v.clone(),
            TokenKind::Comment(v) => {
                let mut s = String::new();
                push_char(&mut s, '/');
                push_char(&mut s, '/');
                push_str(&mut s, v.as_str());
                s
            },
        }
    }
}

/// A token and the bytes of the source it was read from.
#[derive(Debug, PartialEq)]
pub struct Token {
    pub kind: TokenKind,
    pub span: Span,
}

pub struct SpecToken {
    pub kind: SpecTokenKind,
    pub span: Span,
}

impl View for Token {
    type V = SpecToken;

    open spec fn view(&self) -> SpecToken {
        SpecToken { kind: self.kind@, span: self.span }
    }
}

impl Clone for Token {
    fn clone(&self) -> (r: Self)
        ensures
            r == *self,
    {
        Token { kind: self.kind.clone(), span: self.span }
    }
}

impl Token {
    pub fn new(kind: TokenKind, span: Span) -> (t: Self)
        ensures
            t.kind == kind,
            t.span == span,
    {
        Token { kind, span }
    }

    /// How the token is written back.
    pub fn to_string(&self) -> (s: String)
        ensures
            s@ == spec_token_kind_text(self.kind@),
    {
        self.kind.to_string()
    }
}

/// The tokens of a source, in order.
#[derive(Debug, PartialEq, Default)]
pub struct TokenVec {
    pub tokens: Vec<Token>,
}

impl View for TokenVec {
    type V = Seq<SpecToken>;

    open spec fn view(&self) -> Seq<SpecToken> {
        self.tokens@.map_values(|t: Token| t@)
    }
}

impl Clone for TokenVec {
    fn clone(&self) -> (r: Self)
        ensures
            r@ == self@,
            r.tokens@ == self.tokens@,
    {
        let mut tokens: Vec<Token> = Vec::new();
        let mut i: usize = 0;
        while i < self.tokens.len()
            invariant
                i <= self.tokens@.len(),
                tokens@ == self.tokens@.take(i as int),
            decreases self.tokens@.len() - i,
        {
            tokens.push(self.tokens[i].clone());
            proof {
                assert(self.tokens@.take(i + 1) == self.tokens@.take(i as int).push(
                    self.tokens@[i as int],
                ));
            }
            i = i + 1;
        }
        proof {
            assert(self.tokens@.take(self.tokens@.len() as int) == self.tokens@);
        }
        let r = TokenVec { tokens };
        proof {
            assert(r@ =~= self@);
        }
        r
    }
}

impl TokenVec {
    pub fn push(&mut self, token: Token)
        ensures
            final(self)@ == old(self)@.push(token@),
            final(self).tokens@ == old(self).tokens@.push(token),
    {
        self.tokens.push(token);
        proof {
            assert(self@ =~= old(self)@.push(token@));
        }
    }

    /// The tokens written back, separated by single spaces.
    pub fn to_string(&self) -> (s: String)
        ensures
            s@ == spec_tokens_text(self@),
    {
        let mut s = String::new();
        let mut i: usize = 0;
        while i < self.tokens.len()
            invariant
                i <= self.tokens@.len(),
                s@ == spec_tokens_text(self@.take(i as int)),
            decreases self.tokens@.len() - i,
        {
            if i > 0 {
                push_char(&mut s, ' ');
            }
            let t = self.tokens[i].to_string();
            push_str(&mut s, t.as_str());
            proof {
                assert(self@.take(i + 1).drop_last() == self@.take(i as int));
            }
            i = i + 1;
        }
        proof {
            assert(self@.take(self@.len() as int) == self@);
        }
        s
    }
}

/// Tokens written back, separated by single spaces.
pub open spec fn spec_tokens_text(tokens: Seq<SpecToken>) -> Seq<char>
    decreases tokens.len(),
{
    if tokens.len() == 0 {
        Seq::empty()
    } else if tokens.len() == 1 {
        spec_token_kind_text(tokens[0].kind)
    } else {
        spec_tokens_text(tokens.drop_last()) + seq![' '] + spec_token_kind_text(tokens.last().kind)
    }
}

} // verus!

verus! {

#[derive(Copy, Clone, Debug, PartialEq, Eq, Structural)]
pub enum State {
    Default,
    BuildBang,
    BuildLess,
    BuildGreater,
    BuildEqualEqual,
    BuildComment,
    Comment,
    BuildIdentOrKeyword,
    BuildNumber,
    BuildNumberWithPoint,
    BuildString,
    BuildStringEscape,
}

/// The number of states, the width of a row of the table.
pub const STATE_COUNT: usize = 12;

/// The number of rows of the table: one per byte value below 255.
pub const ROW_COUNT: usize = 255;

pub open spec fn state_index(s: State) -> int {
    match s {
        State::Default => 0,
        State::BuildBang => 1,
        State::BuildLess => 2,
        State::BuildGreater => 3,
        State::BuildEqualEqual => 4,
        State::BuildComment => 5,
        State::Comment => 6,
        State::BuildIdentOrKeyword => 7,
        State::BuildNumber => 8,
        State::BuildNumberWithPoint => 9,
        State::BuildString => 10,
        State::BuildStringEscape => 11,
    }
}

fn state_idx(s: State) -> (i: usize)
    ensures
        i == state_index(s),
        i < STATE_COUNT,
{
    match s {
        State::Default => 0,
        State::BuildBang => 1,
        State::BuildLess => 2,
        State::BuildGreater => 3,
        State::BuildEqualEqual => 4,
        State::BuildComment => 5,
        State::Comment => 6,
        State::BuildIdentOrKeyword => 7,
        State::BuildNumber => 8,
        State::BuildNumberWithPoint => 9,
        State::BuildString => 10,
        State::BuildStringEscape => 11,
    }
}

/// What the lexer does on reading a character in a state.
#[derive(Copy, Clone, Debug, PartialEq, Eq, Structural)]
pub enum Action {
    Nothing,
    Push(SimpleToken),
    PushAndGoBack(SimpleToken),
    PushString,
    PushNumber,
    PushEscapedInString,
    PushIdentifierOrKeyWord,
    PushComment,
    Error,
}

/// Actions after which the character is read again, in the default state.
pub open spec fn goes_back(a: Action) -> bool {
    a is PushAndGoBack || a is PushNumber || a is PushIdentifierOrKeyWord
}

pub open spec fn is_lower(c: char) -> bool {
    "abcdefghijklmnopqrstuvwxyz"@.contains(c)
}

pub open spec fn is_upper(c: char) -> bool {
    "ABCDEFGHIJKLMNOPQRSTUVWXYZ"@.contains(c)
}

pub open spec fn is_digit(c: char) -> bool {
    "0123456789"@.contains(c)
}

/// Characters that end an identifier or a keyword.
pub open spec fn ends_identifier(c: char) -> bool {
    "=&|(){},.-+*;/<>!:? \n"@.contains(c)
}

/// Characters that end a number.
pub open spec fn ends_number(c: char) -> bool {
    "=(){}&|,-+*;/<>!:? \n"@.contains(c)
}

/// The entries of the default state: what each character starts. The sets of
/// characters tested here are disjoint.
pub open spec fn spec_default_entry(c: char) -> (State, Action) {
    if is_digit(c) {
        (State::BuildNumber, Action::Nothing)
    } else if c == '_' || is_upper(c) || is_lower(c) {
        (State::BuildIdentOrKeyword, Action::Nothing)
    } else if c == '"' {
        (State::BuildString, Action::Nothing)
    } else if c == '=' {
        (State::BuildEqualEqual, Action::Nothing)
    } else if c == '/' {
        (State::BuildComment, Action::Nothing)
    } else if c == '>' {
        (State::BuildGreater, Action::Nothing)
    } else if c == '<' {
        (State::BuildLess, Action::Nothing)
    } else if c == '!' {
        (State::BuildBang, Action::Nothing)
    } else if c == '?' {
        (State::Default, Action::Push(SimpleToken::Question))
    } else if c == ':' {
        (State::Default, Action::Push(SimpleToken::Colon))
    } else if c == '|' {
        (State::Default, Action::Push(SimpleToken::Or))
    } else if c == '&' {
        (State::Default, Action::Push(SimpleToken::And))
    } else if c == ';' {
        (State::Default, Action::Push(SimpleToken::SemiColon))
    } else if c == '*' {
        (State::Default, Action::Push(SimpleToken::Star))
    } else if c == '+' {
        (State::Default, Action::Push(SimpleToken::Plus))
    } else if c == '-' {
        (State::Default, Action::Push(SimpleToken::Minus))
    } else if c == '.' {
        (State::Default, Action::Push(SimpleToken::Dot))
    } else if c == ',' {
        (State::Default, Action::Push(SimpleToken::Comma))
    } else if c == '}' {
        (State::Default, Action::Push(SimpleToken::RightBrace))
    } else if c == '{' {
        (State::Default, Action::Push(SimpleToken::LeftBrace))
    } else if c == ')' {
        (State::Default, Action::Push(SimpleToken::RightParen))
    } else if c == '(' {
        (State::Default, Action::Push(SimpleToken::LeftParen))
    } else if " \t\n"@.contains(c) {
        (State::Default, Action::Nothing)
    } else {
        (State::Default, Action::Error)
    }
}

/// One character tokens that may be followed by `=`: `!` and `!=`, and so on.
pub open spec fn spec_one_or_two(c: char, two: SimpleToken, one: SimpleToken) -> (State, Action) {
    if c == '=' {
        (State::Default, Action::Push(two))
    } else {
        (State::Default, Action::PushAndGoBack(one))
    }
}

/// The transition table: the next state and the action, for the byte `b`
/// (below 255) read in state `s`.
pub open spec fn spec_table(b: u8, s: State) -> (State, Action) {
    let c = b as char;
    match s {
        State::Default => spec_default_entry(c),
        State::BuildBang => spec_one_or_two(c, SimpleToken::BangEqual, SimpleToken::Bang),
        State::BuildLess => spec_one_or_two(c, SimpleToken::LessEqual, SimpleToken::Less),
        State::BuildGreater => spec_one_or_two(c, SimpleToken::GreaterEqual, SimpleToken::Greater),
        State::BuildEqualEqual => spec_one_or_two(c, SimpleToken::EqualEqual, SimpleToken::Equal),
        State::BuildComment => if !"/;)}"@.contains(c) {
            (State::Default, Action::PushAndGoBack(SimpleToken::Slash))
        } else if c == '/' {
            (State::Comment, Action::Nothing)
        } else {
            (State::Default, Action::Error)
        },
        State::Comment => if c == '\n' {
            (State::Default, Action::PushComment)
        } else {
            (State::Comment, Action::Nothing)
        },
        State::BuildString => if c == '"' {
            (State::Default, Action::PushString)
        } else {
            (State::BuildString, Action::Nothing)
        },
        State::BuildStringEscape => if "\\\""@.contains(c) {
            (State::Default, Action::PushEscapedInString)
        } else {
            (State::Default, Action::Error)
        },
        State::BuildIdentOrKeyword => if ends_identifier(c) {
            (State::Default, Action::PushIdentifierOrKeyWord)
        } else if is_digit(c) || is_upper(c) || is_lower(c) || c == '_' {
            (State::BuildIdentOrKeyword, Action::Nothing)
        } else {
            (State::Default, Action::Error)
        },
        State::BuildNumber => if ends_number(c) {
            (State::Default, Action::PushNumber)
        } else if c == '.' {
            (State::BuildNumberWithPoint, Action::Nothing)
        } else if is_digit(c) {
            (State::BuildNumber, Action::Nothing)
        } else {
            (State::Default, Action::Error)
        },
        State::BuildNumberWithPoint => if ends_number(c) {
            (State::Default, Action::PushNumber)
        } else if is_digit(c) {
            (State::BuildNumberWithPoint, Action::Nothing)
        } else {
            (State::Default, Action::Error)
        },
    }
}

/// A byte below 256 read as a character is `c` exactly when `c`'s code is that byte.
proof fn lemma_byte_char(b: int, c: char)
    requires
        0 <= b < 256,
    ensures
        ((b as u8) as char == c) <==> (c as u32 == b),
{
    let ch = (b as u8) as char;
    assert((ch as u32) == b);
    vstd::utf8::char_u32_cast(c, c as u32);
    vstd::utf8::char_u32_cast(ch, ch as u32);
}

/// The transition table, one row per byte value below 255, one column per state.
struct Fsm {
    fsm: Vec<(State, Action)>,
}

impl Fsm {
    pub closed spec fn wf(&self) -> bool {
        self.fsm@.len() == ROW_COUNT * STATE_COUNT
    }

    pub closed spec fn entry(&self, b: int, s: State) -> (State, Action) {
        self.fsm@[b * STATE_COUNT + state_index(s)]
    }

    /// Every entry still holds its initial value.
    pub closed spec fn is_fresh(&self) -> bool {
        &&& self.wf()
        &&& forall|b: int, s: State|
            0 <= b < ROW_COUNT ==> #[trigger] self.entry(b, s) == (State::Default, Action::Error)
    }

    /// The table holds `spec_table`.
    pub closed spec fn is_built(&self) -> bool {
        &&& self.wf()
        &&& forall|b: int, s: State|
            0 <= b < ROW_COUNT ==> #[trigger] self.entry(b, s) == spec_table(b as u8, s)
    }

    /// Only the column of `s` may have changed.
    pub closed spec fn same_but(&self, other: &Fsm, s: State) -> bool {
        &&& self.wf()
        &&& other.wf()
        &&& forall|b: int, t: State|
            0 <= b < ROW_COUNT && t != s ==> #[trigger] self.entry(b, t) == other.entry(b, t)
    }

    proof fn lemma_index(b: int, s: State, b2: int, s2: State)
        requires
            0 <= b < ROW_COUNT,
            0 <= b2 < ROW_COUNT,
        ensures
            0 <= b * STATE_COUNT + state_index(s) < ROW_COUNT * STATE_COUNT,
            (b2 != b || s2 != s) ==> b2 * STATE_COUNT + state_index(s2) != b * STATE_COUNT
                + state_index(s),
    {
        if b2 < b {
            assert(b2 * STATE_COUNT + 12 <= b * STATE_COUNT) by (nonlinear_arith)
                requires
                    b2 < b,
            ;
        } else if b2 > b {
            assert(b * STATE_COUNT + 12 <= b2 * STATE_COUNT) by (nonlinear_arith)
                requires
                    b < b2,
            ;
        }
        assert(b * STATE_COUNT + 12 <= ROW_COUNT * STATE_COUNT) by (nonlinear_arith)
            requires
                b < ROW_COUNT,
        ;
        assert(0 <= b * STATE_COUNT) by (nonlinear_arith)
            requires
                0 <= b,
        ;
    }

    fn set(&mut self, b: usize, input: State, output: (State, Action))
        requires
            old(self).wf(),
            b < ROW_COUNT,
        ensures
            final(self).wf(),
            forall|b2: int, s2: State|
                0 <= b2 < ROW_COUNT ==> #[trigger] final(self).entry(b2, s2) == if b2 == b && s2
                    == input {
                    output
                } else {
                    old(self).entry(b2, s2)
                },
    {
        proof {
            Self::lemma_index(b as int, input, b as int, input);
        }
        let i = b * STATE_COUNT + state_idx(input);
        self.fsm.set(i, output);
        proof {
            assert forall|b2: int, s2: State| 0 <= b2 < ROW_COUNT implies #[trigger] self.entry(
                b2,
                s2,
            ) == if b2 == b && s2 == input {
                output
            } else {
                old(self).entry(b2, s2)
            } by {
                Self::lemma_index(b as int, input, b2, s2);
            }
        }
    }

    fn transition(&mut self, c: char, input: State, output: (State, Action))
        requires
            old(self).wf(),
            (c as u32) < ROW_COUNT,
        ensures
            final(self).wf(),
            forall|b: int, s: State|
                0 <= b < ROW_COUNT ==> #[trigger] final(self).entry(b, s) == if (b as u8) as char
                    == c && s == input {
                    output
                } else {
                    old(self).entry(b, s)
                },
    {
        self.set(c as u32 as usize, input, output);
        proof {
            assert forall|b: int, s: State| 0 <= b < ROW_COUNT implies #[trigger] self.entry(b, s)
                == if (b as u8) as char == c && s == input {
                output
            } else {
                old(self).entry(b, s)
            } by {
                lemma_byte_char(b, c);
            }
        }
    }

    fn transitions(&mut self, characters: &str, input: State, output: (State, Action))
        requires
            old(self).wf(),
            forall|i: int| 0 <= i < characters@.len() ==> (#[trigger] characters@[i] as u32)
                < ROW_COUNT,
        ensures
            final(self).wf(),
            forall|b: int, s: State|
                0 <= b < ROW_COUNT ==> #[trigger] final(self).entry(b, s) == if s == input
                    && characters@.contains((b as u8) as char) {
                    output
                } else {
                    old(self).entry(b, s)
                },
    {
        let chars = chars_of(characters);
        let mut i: usize = 0;
        while i < chars.len()
            invariant
                self.wf(),
                chars@ == characters@,
                i <= chars@.len(),
                forall|j: int| 0 <= j < chars@.len() ==> (#[trigger] chars@[j] as u32) < ROW_COUNT,
                forall|b: int, s: State|
                    0 <= b < ROW_COUNT ==> #[trigger] self.entry(b, s) == if s == input
                        && chars@.take(i as int).contains((b as u8) as char) {
                        output
                    } else {
                        old(self).entry(b, s)
                    },
            decreases chars@.len() - i,
        {
            let c = chars[i];
            self.transition(c, input, output);
            proof {
                assert forall|b: int, s: State| 0 <= b < ROW_COUNT implies #[trigger] self.entry(
                    b,
                    s,
                ) == if s == input && chars@.take(i + 1).contains((b as u8) as char) {
                    output
                } else {
                    old(self).entry(b, s)
                } by {
                    let ch = (b as u8) as char;
                    assert(chars@.take(i + 1) == chars@.take(i as int).push(c));
                    if ch == c {
                        assert(chars@.take(i + 1)[i as int] == c);
                    } else {
                        if chars@.take(i + 1).contains(ch) {
                            let k = choose|k: int|
                                0 <= k < i + 1 && #[trigger] chars@.take(i + 1)[k] == ch;
                            assert(chars@.take(i as int)[k] == ch);
                        }
                    }
                }
            }
            i = i + 1;
        }
        proof {
            assert(chars@.take(chars@.len() as int) == chars@);
        }
    }

    fn contains(chars: &Vec<char>, c: char) -> (r: bool)
        ensures
            r == chars@.contains(c),
    {
        let mut i: usize = 0;
        while i < chars.len()
            invariant
                i <= chars@.len(),
                forall|j: int| 0 <= j < i ==> chars@[j] != c,
            decreases chars@.len() - i,
        {
            if chars[i] == c {
                return true;
            }
            i = i + 1;
        }
        false
    }

    /// Sets the entry of `input` for every byte below 255 that is not one of `characters`.
    fn transitions_anti(&mut self, characters: &str, input: State, output: (State, Action))
        requires
            old(self).wf(),
        ensures
            final(self).wf(),
            forall|b: int, s: State|
                0 <= b < ROW_COUNT ==> #[trigger] final(self).entry(b, s) == if s == input
                    && !characters@.contains((b as u8) as char) {
                    output
                } else {
                    old(self).entry(b, s)
                },
    {
        let chars = chars_of(characters);
        let mut c: u8 = 0;
        while c < 255
            invariant
                self.wf(),
                chars@ == characters@,
                forall|b: int, s: State|
                    0 <= b < ROW_COUNT ==> #[trigger] self.entry(b, s) == if s == input && b < c
                        && !chars@.contains((b as u8) as char) {
                        output
                    } else {
                        old(self).entry(b, s)
                    },
            decreases 255 - c,
        {
            let ch = c as char;
            if !Self::contains(&chars, ch) {
                self.set(c as usize, input, output);
            }
            c = c + 1;
        }
    }


    pub closed spec fn column_fresh(&self, s: State) -> bool {
        &&& self.wf()
        &&& forall|b: int| 0 <= b < ROW_COUNT ==> #[trigger] self.entry(b, s) == (
            State::Default,
            Action::Error,
        )
    }

    pub closed spec fn column_built(&self, s: State) -> bool {
        &&& self.wf()
        &&& forall|b: int| 0 <= b < ROW_COUNT ==> #[trigger] self.entry(b, s) == spec_table(b as u8, s)
    }

    /// The default state: whitespace is skipped, single tokens are pushed, and
    /// the other characters start a longer token.
    fn build_default(&mut self)
        requires
            old(self).column_fresh(State::Default),
        ensures
            final(self).same_but(old(self), State::Default),
            final(self).column_built(State::Default),
    {
        proof {
            reveal_strlit(" \t\n");
            reveal_strlit("abcdefghijklmnopqrstuvwxyz");
            reveal_strlit("ABCDEFGHIJKLMNOPQRSTUVWXYZ");
            reveal_strlit("0123456789");
        }
        // Characters to skip
        self.transitions(" \t\n", State::Default, (State::Default, Action::Nothing));
        // Single tokens
        self.transition('(', State::Default, (State::Default, Action::Push(SimpleToken::LeftParen)));
        self.transition(')', State::Default, (State::Default, Action::Push(SimpleToken::RightParen)));
        self.transition('{', State::Default, (State::Default, Action::Push(SimpleToken::LeftBrace)));
        self.transition('}', State::Default, (State::Default, Action::Push(SimpleToken::RightBrace)));
        self.transition(',', State::Default, (State::Default, Action::Push(SimpleToken::Comma)));
        self.transition('.', State::Default, (State::Default, Action::Push(SimpleToken::Dot)));
        self.transition('-', State::Default, (State::Default, Action::Push(SimpleToken::Minus)));
        self.transition('+', State::Default, (State::Default, Action::Push(SimpleToken::Plus)));
        self.transition('*', State::Default, (State::Default, Action::Push(SimpleToken::Star)));
        self.transition(';', State::Default, (State::Default, Action::Push(SimpleToken::SemiColon)));
        self.transition('&', State::Default, (State::Default, Action::Push(SimpleToken::And)));
        self.transition('|', State::Default, (State::Default, Action::Push(SimpleToken::Or)));
        self.transition(':', State::Default, (State::Default, Action::Push(SimpleToken::Colon)));
        self.transition('?', State::Default, (State::Default, Action::Push(SimpleToken::Question)));
        // Tokens of one or two characters, like ! and !=, and comments
        self.transition('!', State::Default, (State::BuildBang, Action::Nothing));
        self.transition('<', State::Default, (State::BuildLess, Action::Nothing));
        self.transition('>', State::Default, (State::BuildGreater, Action::Nothing));
        self.transition('/', State::Default, (State::BuildComment, Action::Nothing));
        self.transition('=', State::Default, (State::BuildEqualEqual, Action::Nothing));
        // String literals
        self.transition('"', State::Default, (State::BuildString, Action::Nothing));
        // Identifiers and keywords
        self.transitions(
            "abcdefghijklmnopqrstuvwxyz",
            State::Default,
            (State::BuildIdentOrKeyword, Action::Nothing),
        );
        self.transitions(
            "ABCDEFGHIJKLMNOPQRSTUVWXYZ",
            State::Default,
            (State::BuildIdentOrKeyword, Action::Nothing),
        );
        self.transition('_', State::Default, (State::BuildIdentOrKeyword, Action::Nothing));
        // Numbers
        self.transitions("0123456789", State::Default, (State::BuildNumber, Action::Nothing));
    }

    /// A state after a character that may be followed by `=`.
    fn build_one_or_two(&mut self, input: State, two: SimpleToken, one: SimpleToken)
        requires
            old(self).column_fresh(input),
            forall|b: u8| b < ROW_COUNT ==> #[trigger] spec_table(b, input) == spec_one_or_two(
                b as char,
                two,
                one,
            ),
        ensures
            final(self).same_but(old(self), input),
            final(self).column_built(input),
    {
        self.transition('=', input, (State::Default, Action::Push(two)));
        self.transitions_anti("=", input, (State::Default, Action::PushAndGoBack(one)));
        proof {
            reveal_strlit("=");
            assert forall|b: int| 0 <= b < ROW_COUNT implies #[trigger] self.entry(b, input)
                == spec_table(b as u8, input) by {
                assert(spec_table(b as u8, input) == spec_one_or_two((b as u8) as char, two, one));
                if (b as u8) as char == '=' {
                    assert("="@[0] == '=');
                }
            }
        }
    }

    /// After `/`: a second `/` starts a comment, which runs to the end of the line.
    fn build_comments(&mut self)
        requires
            old(self).column_fresh(State::BuildComment),
            old(self).column_fresh(State::Comment),
        ensures
            forall|b: int, t: State|
                0 <= b < ROW_COUNT && t != State::BuildComment && t != State::Comment
                    ==> #[trigger] final(self).entry(b, t) == old(self).entry(b, t),
            final(self).column_built(State::BuildComment),
            final(self).column_built(State::Comment),
    {
        self.transition('/', State::BuildComment, (State::Comment, Action::Nothing));
        self.transitions_anti(
            "/;)}",
            State::BuildComment,
            (State::Default, Action::PushAndGoBack(SimpleToken::Slash)),
        );
        // Collect the comment's text until the end of the line
        self.transitions_anti("", State::Comment, (State::Comment, Action::Nothing));
        self.transition('\n', State::Comment, (State::Default, Action::PushComment));
        proof {
            reveal_strlit("");
            reveal_strlit("/;)}");
        }
    }

    /// String literals, like "Banana".
    fn build_strings(&mut self)
        requires
            old(self).column_fresh(State::BuildString),
            old(self).column_fresh(State::BuildStringEscape),
        ensures
            forall|b: int, t: State|
                0 <= b < ROW_COUNT && t != State::BuildString && t != State::BuildStringEscape
                    ==> #[trigger] final(self).entry(b, t) == old(self).entry(b, t),
            final(self).column_built(State::BuildString),
            final(self).column_built(State::BuildStringEscape),
    {
        proof {
            reveal_strlit("\"");
            reveal_strlit("\\\"");
        }
        self.transition('\\', State::BuildString, (State::BuildStringEscape, Action::Nothing));
        self.transitions_anti("\"", State::BuildString, (State::BuildString, Action::Nothing));
        self.transitions(
            "\\\"",
            State::BuildStringEscape,
            (State::Default, Action::PushEscapedInString),
        );
        self.transition('"', State::BuildString, (State::Default, Action::PushString));
    }

    /// Identifiers and keywords.
    fn build_identifiers(&mut self)
        requires
            old(self).column_fresh(State::BuildIdentOrKeyword),
        ensures
            final(self).same_but(old(self), State::BuildIdentOrKeyword),
            final(self).column_built(State::BuildIdentOrKeyword),
    {
        proof {
            reveal_strlit("abcdefghijklmnopqrstuvwxyz");
            reveal_strlit("ABCDEFGHIJKLMNOPQRSTUVWXYZ");
            reveal_strlit("0123456789");
            reveal_strlit("=&|(){},.-+*;/<>!:? \n");
        }
        self.transition('_', State::BuildIdentOrKeyword, (State::BuildIdentOrKeyword, Action::Nothing));
        self.transitions(
            "abcdefghijklmnopqrstuvwxyz",
            State::BuildIdentOrKeyword,
            (State::BuildIdentOrKeyword, Action::Nothing),
        );
        self.transitions(
            "ABCDEFGHIJKLMNOPQRSTUVWXYZ",
            State::BuildIdentOrKeyword,
            (State::BuildIdentOrKeyword, Action::Nothing),
        );
        self.transitions(
            "0123456789",
            State::BuildIdentOrKeyword,
            (State::BuildIdentOrKeyword, Action::Nothing),
        );
        self.transitions(
            "=&|(){},.-+*;/<>!:? \n",
            State::BuildIdentOrKeyword,
            (State::Default, Action::PushIdentifierOrKeyWord),
        );
    }

    /// Numbers, with an optional decimal point.
    fn build_numbers(&mut self)
        requires
            old(self).column_fresh(State::BuildNumber),
            old(self).column_fresh(State::BuildNumberWithPoint),
        ensures
            forall|b: int, t: State|
                0 <= b < ROW_COUNT && t != State::BuildNumber && t != State::BuildNumberWithPoint
                    ==> #[trigger] final(self).entry(b, t) == old(self).entry(b, t),
            final(self).column_built(State::BuildNumber),
            final(self).column_built(State::BuildNumberWithPoint),
    {
        proof {
            reveal_strlit("0123456789");
            reveal_strlit("=(){}&|,-+*;/<>!:? \n");
        }
        self.transitions("0123456789", State::BuildNumber, (State::BuildNumber, Action::Nothing));
        self.transitions(
            "0123456789",
            State::BuildNumberWithPoint,
            (State::BuildNumberWithPoint, Action::Nothing),
        );
        self.transition('.', State::BuildNumber, (State::BuildNumberWithPoint, Action::Nothing));
        self.transitions(
            "=(){}&|,-+*;/<>!:? \n",
            State::BuildNumber,
            (State::Default, Action::PushNumber),
        );
        self.transitions(
            "=(){}&|,-+*;/<>!:? \n",
            State::BuildNumberWithPoint,
            (State::Default, Action::PushNumber),
        );
    }

    /// Fills the table of a fresh machine with `spec_table`.
    pub fn build(&mut self)
        requires
            old(self).is_fresh(),
        ensures
            final(self).is_built(),
    {
        let ghost fresh = *self;
        self.build_default();
        self.build_one_or_two(State::BuildBang, SimpleToken::BangEqual, SimpleToken::Bang);
        self.build_one_or_two(State::BuildLess, SimpleToken::LessEqual, SimpleToken::Less);
        self.build_one_or_two(State::BuildGreater, SimpleToken::GreaterEqual, SimpleToken::Greater);
        self.build_one_or_two(State::BuildEqualEqual, SimpleToken::EqualEqual, SimpleToken::Equal);
        self.build_comments();
        self.build_strings();
        self.build_identifiers();
        self.build_numbers();
    }

    pub fn compute(&self, character: u8, state: State) -> (r: (State, Action))
        requires
            self.wf(),
            character < ROW_COUNT,
        ensures
            r == self.entry(character as int, state),
    {
        proof {
            Self::lemma_index(character as int, state, character as int, state);
        }
        self.fsm[character as usize * STATE_COUNT + state_idx(state)]
    }

    /// A table whose every entry is the error action.
    pub fn init() -> (r: Self)
        ensures
            r.is_fresh(),
    {
        let mut fsm: Vec<(State, Action)> = Vec::with_capacity(ROW_COUNT * STATE_COUNT);
        let mut i: usize = 0;
        while i < ROW_COUNT * STATE_COUNT
            invariant
                i <= ROW_COUNT * STATE_COUNT,
                fsm@.len() == i,
                forall|j: int| 0 <= j < i ==> fsm@[j] == (State::Default, Action::Error),
            decreases ROW_COUNT * STATE_COUNT - i,
        {
            fsm.push((State::Default, Action::Error));
            i = i + 1;
        }
        let r = Fsm { fsm };
        proof {
            assert forall|b: int, s: State| 0 <= b < ROW_COUNT implies #[trigger] r.entry(b, s) == (
            State::Default,
            Action::Error,
            ) by {
                Self::lemma_index(b, s, b, s);
            }
        }
        r
    }
}

} // verus!

verus! {

/// The mathematical form of a `LexError`.
pub struct SpecLexError {
    pub message: Seq<char>,
    pub span: Span,
}

/// How a run of the lexer ends: with the tokens, with an error, or, on some
/// texts that are not ASCII, in a panic (see `lex`).
pub enum LexOutcome {
    Tokens(Seq<SpecToken>),
    Failure(SpecLexError),
    Panic,
}

/// The byte that a character is taken for when it is looked up in the table
/// (its code, truncated to 8 bits).
pub open spec fn byte_of(c: char) -> int {
    (c as u32) as int % 256
}

/// The keyword written `s`, if `s` is one.
pub open spec fn spec_keyword(s: Seq<char>) -> Option<KeyWordType> {
    if s == "class"@ {
        Some(KeyWordType::Class)
    } else if s == "else"@ {
        Some(KeyWordType::Else)
    } else if s == "false"@ {
        Some(KeyWordType::False)
    } else if s == "fn"@ {
        Some(KeyWordType::Fun)
    } else if s == "for"@ {
        Some(KeyWordType::For)
    } else if s == "nil"@ {
        Some(KeyWordType::Nil)
    } else if s == "print"@ {
        Some(KeyWordType::Print)
    } else if s == "return"@ {
        Some(KeyWordType::Return)
    } else if s == "super"@ {
        Some(KeyWordType::Super)
    } else if s == "this"@ {
        Some(KeyWordType::This)
    } else if s == "true"@ {
        Some(KeyWordType::True)
    } else if s == "var"@ {
        Some(KeyWordType::Var)
    } else if s == "while"@ {
        Some(KeyWordType::While)
    } else if s == "if"@ {
        Some(KeyWordType::If)
    } else if s == "elif"@ {
        Some(KeyWordType::Elif)
    } else if s == "enum"@ {
        Some(KeyWordType::Enum)
    } else if s == "break"@ {
        Some(KeyWordType::Break)
    } else if s == "continue"@ {
        Some(KeyWordType::Continue)
    } else if s == "self"@ {
        Some(KeyWordType::MySelf)
    } else {
        None
    }
}

/// A letter made lowercase.
pub open spec fn lower(c: char) -> char {
    if 'A' <= c && c <= 'Z' {
        ((c as u32) + 32) as char
    } else {
        c
    }
}

pub open spec fn lowercase(s: Seq<char>) -> Seq<char> {
    Seq::new(s.len(), |i: int| lower(s[i]))
}

/// A word is a keyword exactly when it is the keyword's name in lowercase
/// (`fn` and `self` being the two keywords named otherwise): so each keyword
/// is read from its own word, and from no other.
pub proof fn lemma_keywords_are_their_names(s: Seq<char>)
    ensures
        spec_keyword(s) matches Some(k) ==> (k == KeyWordType::Fun && s == "fn"@) || (k
            == KeyWordType::MySelf && s == "self"@) || (k != KeyWordType::Fun && k
            != KeyWordType::MySelf && s == lowercase(spec_keyword_name(k))),
{
    reveal_strlit("class");
    reveal_strlit("Class");
    assert(lowercase("Class"@) =~= "class"@);
    reveal_strlit("else");
    reveal_strlit("Else");
    assert(lowercase("Else"@) =~= "else"@);
    reveal_strlit("false");
    reveal_strlit("False");
    assert(lowercase("False"@) =~= "false"@);
    reveal_strlit("for");
    reveal_strlit("For");
    assert(lowercase("For"@) =~= "for"@);
    reveal_strlit("nil");
    reveal_strlit("Nil");
    assert(lowercase("Nil"@) =~= "nil"@);
    reveal_strlit("print");
    reveal_strlit("Print");
    assert(lowercase("Print"@) =~= "print"@);
    reveal_strlit("return");
    reveal_strlit("Return");
    assert(lowercase("Return"@) =~= "return"@);
    reveal_strlit("super");
    reveal_strlit("Super");
    assert(lowercase("Super"@) =~= "super"@);
    reveal_strlit("this");
    reveal_strlit("This");
    assert(lowercase("This"@) =~= "this"@);
    reveal_strlit("true");
    reveal_strlit("True");
    assert(lowercase("True"@) =~= "true"@);
    reveal_strlit("var");
    reveal_strlit("Var");
    assert(lowercase("Var"@) =~= "var"@);
    reveal_strlit("while");
    reveal_strlit("While");
    assert(lowercase("While"@) =~= "while"@);
    reveal_strlit("if");
    reveal_strlit("If");
    assert(lowercase("If"@) =~= "if"@);
    reveal_strlit("elif");
    reveal_strlit("Elif");
    assert(lowercase("Elif"@) =~= "elif"@);
    reveal_strlit("enum");
    reveal_strlit("Enum");
    assert(lowercase("Enum"@) =~= "enum"@);
    reveal_strlit("break");
    reveal_strlit("Break");
    assert(lowercase("Break"@) =~= "break"@);
    reveal_strlit("continue");
    reveal_strlit("Continue");
    assert(lowercase("Continue"@) =~= "continue"@);
}

/// The token for a word: a keyword, or else an identifier.
pub open spec fn spec_word_token(s: Seq<char>) -> SpecTokenKind {
    match spec_keyword(s) {
        Some(k) => SpecTokenKind::Single(SimpleToken::KeyWord(k)),
        None => SpecTokenKind::Identifier(s),
    }
}

/// The message of the error on an unexpected character.
pub open spec fn spec_unexpected(c: char) -> Seq<char> {
    "Unexpected character \""@ + seq![c] + "\""@
}

pub open spec fn spec_token(kind: SpecTokenKind, start: int, end: int) -> SpecToken {
    SpecToken { kind, span: Span { start: start as usize, end: end as usize } }
}

/// The table never sends the lexer back from the default state, and every
/// action that reads the character again returns to the default state.
pub proof fn lemma_table_shape(b: u8, s: State)
    ensures
        goes_back(spec_table(b, s).1) ==> s != State::Default && spec_table(b, s).0
            == State::Default,
        spec_table(b, s).0 == State::BuildComment ==> s == State::Default,
        spec_table(b, s).0 == State::Comment ==> s == State::BuildComment || s == State::Comment,
        spec_table(b, s).1 is PushComment ==> s == State::Comment,
        s == State::BuildComment && spec_table(b, s).0 == State::Comment ==> b == 47,
        spec_table(b, s).1 is PushString || spec_table(b, s).1 is PushEscapedInString ==> s
            != State::Default,
{
}

/// The character that sends the lexer from the default state into `s`, for the
/// states that read one more character to tell a one-character token from a
/// two-character one.
pub open spec fn first_char_of(s: State) -> Option<char> {
    match s {
        State::BuildBang => Some('!'),
        State::BuildLess => Some('<'),
        State::BuildGreater => Some('>'),
        State::BuildEqualEqual => Some('='),
        State::BuildComment => Some('/'),
        _ => None,
    }
}

/// Every simple token the table gives is the text that was read: from the
/// default state, the character read; from a state entered on a character
/// `f` (and only on it), either `f` and the character read (two-character
/// tokens such as `!=`, `<=`, `>=`, `==`), or `f` alone when the character
/// read is given back.
pub proof fn lemma_tokens_are_their_text(b: u8, s: State)
    ensures
        s == State::Default ==> (spec_table(b, s).1 matches Action::Push(t) ==> spec_simple_token_text(t)
            == seq![b as char]),
        s == State::Default && first_char_of(spec_table(b, s).0) is Some ==> b as char == first_char_of(
            spec_table(b, s).0,
        )->0,
        first_char_of(s) is Some ==> (spec_table(b, s).1 matches Action::Push(t)
            ==> spec_simple_token_text(t) == seq![first_char_of(s)->0, b as char]),
        first_char_of(s) is Some ==> (spec_table(b, s).1 matches Action::PushAndGoBack(t)
            ==> spec_simple_token_text(t) == seq![first_char_of(s)->0]),
{
    reveal_strlit("(");
    reveal_strlit(")");
    reveal_strlit("{");
    reveal_strlit("}");
    reveal_strlit(",");
    reveal_strlit(".");
    reveal_strlit("-");
    reveal_strlit("+");
    reveal_strlit(";");
    reveal_strlit("/");
    reveal_strlit("*");
    reveal_strlit("=");
    reveal_strlit("==");
    reveal_strlit("!");
    reveal_strlit("!=");
    reveal_strlit(">");
    reveal_strlit(">=");
    reveal_strlit("<");
    reveal_strlit("<=");
    reveal_strlit("&");
    reveal_strlit("|");
    reveal_strlit(":");
    reveal_strlit("?");
    assert(seq![b as char] =~= seq![b as char]);
    if spec_table(b, s).1 is Push && first_char_of(s) is Some {
        assert(b as char == '=');
        assert(seq!['!', '='] =~= "!="@);
        assert(seq!['<', '='] =~= "<="@);
        assert(seq!['>', '='] =~= ">="@);
        assert(seq!['=', '='] =~= "=="@);
    }
    if s == State::Default && spec_table(b, s).1 is Push {
        let c = b as char;
        assert(seq![c] == seq![c]);
    }
}

/// The run of the lexer on `src` from position `pos`, where the token being
/// read began at `start`, in state `state`, with the tokens `toks` read so far.
pub open spec fn lex_from(
    src: Seq<char>,
    pos: int,
    start: int,
    state: State,
    toks: Seq<SpecToken>,
) -> LexOutcome
    decreases src.len() - pos, if state == State::Default {
        0int
    } else {
        1int
    },
{
    if pos >= src.len() || pos < 0 {
        if state == State::Comment {
            // A comment that runs to the end of the text, before the space that ends it
            LexOutcome::Tokens(
                toks.push(
                    spec_token(
                        SpecTokenKind::Comment(src.subrange(start + 2, src.len() - 1)),
                        start,
                        src.len() - 1,
                    ),
                ),
            )
        } else {
            LexOutcome::Tokens(toks)
        }
    } else {
        let start = if state == State::Default {
            pos
        } else {
            start
        };
        let c = src[pos];
        let b = byte_of(c);
        if b == 255 {
            LexOutcome::Panic
        } else {
            let (next, action) = spec_table(b as u8, state);
            if (c as u32) >= 128 && !(action is Error) && !goes_back(action) {
                // the lexer would go on in the middle of the character's bytes
                LexOutcome::Panic
            } else {
                proof {
                    lemma_table_shape(b as u8, state);
                }
                match action {
                    Action::Nothing => lex_from(src, pos + 1, start, next, toks),
                    Action::Push(t) => lex_from(
                        src,
                        pos + 1,
                        start,
                        next,
                        toks.push(spec_token(SpecTokenKind::Single(t), start, pos + 1)),
                    ),
                    Action::PushString => lex_from(
                        src,
                        pos + 1,
                        start,
                        next,
                        toks.push(
                            spec_token(
                                SpecTokenKind::StringLitteral(src.subrange(start + 1, pos)),
                                start,
                                pos + 1,
                            ),
                        ),
                    ),
                    Action::PushEscapedInString => lex_from(
                        src,
                        pos + 1,
                        start,
                        next,
                        toks.push(
                            spec_token(
                                SpecTokenKind::StringLitteral(src.subrange(start + 1, pos)),
                                start,
                                pos + 1,
                            ),
                        ),
                    ),
                    Action::PushNumber => lex_from(
                        src,
                        pos,
                        start,
                        next,
                        toks.push(
                            spec_token(SpecTokenKind::Number(src.subrange(start, pos)), start, pos),
                        ),
                    ),
                    Action::PushIdentifierOrKeyWord => lex_from(
                        src,
                        pos,
                        start,
                        next,
                        toks.push(spec_token(spec_word_token(src.subrange(start, pos)), start, pos)),
                    ),
                    Action::PushComment => lex_from(
                        src,
                        pos + 1,
                        start,
                        next,
                        toks.push(
                            spec_token(SpecTokenKind::Comment(src.subrange(start + 2, pos)), start, pos),
                        ),
                    ),
                    Action::Error => LexOutcome::Failure(
                        SpecLexError {
                            message: spec_unexpected(c),
                            span: Span { start: pos as usize, end: (pos + 1) as usize },
                        },
                    ),
                    Action::PushAndGoBack(t) => lex_from(
                        src,
                        pos,
                        start,
                        next,
                        toks.push(spec_token(SpecTokenKind::Single(t), start, pos)),
                    ),
                }
            }
        }
    }
}

/// How lexing `source` ends: the text, followed by a space, run from its start.
pub open spec fn spec_lex(source: Seq<char>) -> LexOutcome {
    lex_from(source.push(' '), 0, 0, State::Default, Seq::empty())
}

} // verus!

verus! {

/// An unexpected character, and where it is.
#[derive(Debug)]
pub struct LexError {
    pub message: String,
    pub span: Span,
}

impl View for LexError {
    type V = SpecLexError;

    open spec fn view(&self) -> SpecLexError {
        SpecLexError { message: self.message@, span: self.span }
    }
}

impl Clone for LexError {
    fn clone(&self) -> (r: Self)
        ensures
            r@ == self@,
    {
        LexError { message: self.message.clone(), span: self.span }
    }
}

impl Diagnostic for LexError {
    open spec fn spec_stage(&self) -> Stage {
        Stage::Lexing
    }

    open spec fn spec_span(&self) -> Option<Span> {
        Some(self.span)
    }

    open spec fn spec_message(&self) -> Seq<char> {
        self.message@
    }

    fn stage(&self) -> (s: Stage) {
        Stage::Lexing
    }

    fn span(&self) -> (s: Option<Span>) {
        Some(self.span)
    }

    fn message(&self) -> (m: String) {
        self.message.clone()
    }
}

/// `v[from..to]` is the text `lit`.
fn range_is(v: &Vec<char>, from: usize, to: usize, lit: &str) -> (r: bool)
    requires
        from <= to <= v@.len(),
    ensures
        r == (v@.subrange(from as int, to as int) == lit@),
{
    let w = chars_of(lit);
    if to - from != w.len() {
        return false;
    }
    let mut i: usize = 0;
    while i < w.len()
        invariant
            from <= to <= v@.len(),
            to - from == w@.len(),
            w@ == lit@,
            i <= w@.len(),
            forall|j: int| 0 <= j < i ==> v@[from + j] == w@[j],
        decreases w@.len() - i,
    {
        if v[from + i] != w[i] {
            assert(v@.subrange(from as int, to as int)[i as int] != lit@[i as int]);
            return false;
        }
        i = i + 1;
    }
    assert(v@.subrange(from as int, to as int) =~= lit@);
    true
}

/// The keyword written `v[from..to]`, if it is one.
fn keyword(v: &Vec<char>, from: usize, to: usize) -> (r: Option<KeyWordType>)
    requires
        from <= to <= v@.len(),
    ensures
        r == spec_keyword(v@.subrange(from as int, to as int)),
{
    if range_is(v, from, to, "class") {
        Some(KeyWordType::Class)
    } else if range_is(v, from, to, "else") {
        Some(KeyWordType::Else)
    } else if range_is(v, from, to, "false") {
        Some(KeyWordType::False)
    } else if range_is(v, from, to, "fn") {
        Some(KeyWordType::Fun)
    } else if range_is(v, from, to, "for") {
        Some(KeyWordType::For)
    } else if range_is(v, from, to, "nil") {
        Some(KeyWordType::Nil)
    } else if range_is(v, from, to, "print") {
        Some(KeyWordType::Print)
    } else if range_is(v, from, to, "return") {
        Some(KeyWordType::Return)
    } else if range_is(v, from, to, "super") {
        Some(KeyWordType::Super)
    } else if range_is(v, from, to, "this") {
        Some(KeyWordType::This)
    } else if range_is(v, from, to, "true") {
        Some(KeyWordType::True)
    } else if range_is(v, from, to, "var") {
        Some(KeyWordType::Var)
    } else if range_is(v, from, to, "while") {
        Some(KeyWordType::While)
    } else if range_is(v, from, to, "if") {
        Some(KeyWordType::If)
    } else if range_is(v, from, to, "elif") {
        Some(KeyWordType::Elif)
    } else if range_is(v, from, to, "enum") {
        Some(KeyWordType::Enum)
    } else if range_is(v, from, to, "break") {
        Some(KeyWordType::Break)
    } else if range_is(v, from, to, "continue") {
        Some(KeyWordType::Continue)
    } else if range_is(v, from, to, "self") {
        Some(KeyWordType::MySelf)
    } else {
        None
    }
}

struct Lexer {
    fsm: Fsm,
    source: Vec<char>,
    current: usize,
    start: usize,
    state: State,
    pub tokens: TokenVec,
}

impl Lexer {
    /// The lexer's position is consistent with its state.
    pub closed spec fn positions_ok(&self) -> bool {
        &&& self.current <= self.source@.len()
        &&& self.state != State::Default ==> self.start < self.current
        &&& self.state == State::BuildComment ==> self.start + 1 == self.current
        &&& self.state == State::Comment ==> self.start + 2 <= self.current
            && self.source@[self.start + 1] == '/'
    }

    fn new(source: String) -> (l: Self)
        ensures
            l.fsm.is_built(),
            l.source@ == source@,
            l.current == 0,
            l.start == 0,
            l.state == State::Default,
            l.tokens@ == Seq::<SpecToken>::empty(),
    {
        let mut fsm = Fsm::init();
        fsm.build();
        let l = Lexer {
            fsm: fsm,
            source: chars_of(source.as_str()),
            tokens: TokenVec { tokens: Vec::new() },
            start: 0,
            current: 0,
            state: State::Default,
        };
        proof {
            assert(l.tokens@ =~= Seq::<SpecToken>::empty());
        }
        l
    }

    fn is_at_end(&self) -> (r: bool)
        ensures
            r == (self.current == self.source@.len()),
    {
        self.source.len() == self.current
    }

    fn add_token(&mut self, kind: TokenKind, span: Span)
        ensures
            final(self).tokens@ == old(self).tokens@.push(SpecToken { kind: kind@, span }),
            final(self).fsm == old(self).fsm,
            final(self).source == old(self).source,
            final(self).current == old(self).current,
            final(self).start == old(self).start,
            final(self).state == old(self).state,
    {
        self.tokens.push(Token::new(kind, span));
    }

    fn push_string(&mut self)
        requires
            old(self).start < old(self).current < old(self).source@.len(),
            old(self).source@.len() <= usize::MAX,
        ensures
            final(self).tokens@ == old(self).tokens@.push(
                spec_token(
                    SpecTokenKind::StringLitteral(
                        old(self).source@.subrange(old(self).start + 1, old(self).current as int),
                    ),
                    old(self).start as int,
                    old(self).current + 1,
                ),
            ),
            final(self).fsm == old(self).fsm,
            final(self).source == old(self).source,
            final(self).current == old(self).current,
            final(self).start == old(self).start,
            final(self).state == old(self).state,
    {
        let span = Span::new(self.start, self.current + 1);
        let text = string_of_range(&self.source, self.start + 1, self.current);
        self.add_token(TokenKind::StringLitteral(text), span);
    }

    fn push_number(&mut self)
        requires
            old(self).start < old(self).current < old(self).source@.len(),
        ensures
            final(self).tokens@ == old(self).tokens@.push(
                spec_token(
                    SpecTokenKind::Number(
                        old(self).source@.subrange(old(self).start as int, old(self).current as int),
                    ),
                    old(self).start as int,
                    old(self).current as int,
                ),
            ),
            final(self).fsm == old(self).fsm,
            final(self).source == old(self).source,
            final(self).current == old(self).current - 1,
            final(self).start == old(self).start,
            final(self).state == old(self).state,
    {
        let text = string_of_range(&self.source, self.start, self.current);
        let span = Span::new(self.start, self.current);
        self.add_token(TokenKind::Number(text), span);
        self.current = self.current - 1;
    }

    fn push_identifier_or_keyword(&mut self)
        requires
            old(self).start < old(self).current < old(self).source@.len(),
        ensures
            final(self).tokens@ == old(self).tokens@.push(
                spec_token(
                    spec_word_token(
                        old(self).source@.subrange(old(self).start as int, old(self).current as int),
                    ),
                    old(self).start as int,
                    old(self).current as int,
                ),
            ),
            final(self).fsm == old(self).fsm,
            final(self).source == old(self).source,
            final(self).current == old(self).current - 1,
            final(self).start == old(self).start,
            final(self).state == old(self).state,
    {
        let span = Span::new(self.start, self.current);
        match keyword(&self.source, self.start, self.current) {
            Some(kw) => self.add_token(TokenKind::Single(SimpleToken::KeyWord(kw)), span),
            None => {
                let text = string_of_range(&self.source, self.start, self.current);
                self.add_token(TokenKind::Identifier(text), span);
            },
        }
        self.current = self.current - 1;
    }

    fn push_comment(&mut self)
        requires
            old(self).start + 2 <= old(self).current < old(self).source@.len(),
        ensures
            final(self).tokens@ == old(self).tokens@.push(
                spec_token(
                    SpecTokenKind::Comment(
                        old(self).source@.subrange(old(self).start + 2, old(self).current as int),
                    ),
                    old(self).start as int,
                    old(self).current as int,
                ),
            ),
            final(self).fsm == old(self).fsm,
            final(self).source == old(self).source,
            final(self).current == old(self).current,
            final(self).start == old(self).start,
            final(self).state == old(self).state,
    {
        // start is at the first '/': the text begins after both
        let text = string_of_range(&self.source, self.start + 2, self.current);
        let span = Span::new(self.start, self.current);
        self.add_token(TokenKind::Comment(text), span);
    }

    /// Runs the state machine over the source followed by a space. `None` where
    /// the text makes the lexer panic (see `lex`).
    fn run(&mut self) -> (r: Option<Result<(), LexError>>)
        requires
            old(self).fsm.is_built(),
            old(self).current == 0,
            old(self).start == 0,
            old(self).state == State::Default,
            old(self).tokens@ == Seq::<SpecToken>::empty(),
            old(self).source@.len() < usize::MAX,
        ensures
            match spec_lex(old(self).source@) {
                LexOutcome::Tokens(toks) => r matches Some(Ok(())) && final(self).tokens@ == toks,
                LexOutcome::Failure(e) => r matches Some(Err(err)) && err@ == e,
                LexOutcome::Panic => r is None,
            },
    {
        self.source.push(' ');
        let ghost src = self.source@;
        let ghost outcome = spec_lex(old(self).source@);
        while !self.is_at_end()
            invariant
                self.fsm.is_built(),
                self.source@ == src,
                src.len() <= usize::MAX,
                self.positions_ok(),
                lex_from(src, self.current as int, self.start as int, self.state, self.tokens@)
                    == outcome,
                outcome == spec_lex(old(self).source@),
                src == old(self).source@.push(' '),
            decreases 2 * (src.len() - self.current) + if self.state == State::Default {
                0int
            } else {
                1int
            },
        {
            if self.state == State::Default {
                self.start = self.current;
            }
            let c = self.source[self.current];
            let code = c as u32;
            let b = code % 256;
            if b == 255 {
                return None;
            }
            let (new_state, action) = self.fsm.compute(b as u8, self.state);
            proof {
                lemma_table_shape(b as u8, self.state);
            }
            let goes_back = match action {
                Action::PushAndGoBack(_) => true,
                Action::PushNumber => true,
                Action::PushIdentifierOrKeyWord => true,
                _ => false,
            };
            let is_error = match action {
                Action::Error => true,
                _ => false,
            };
            if code >= 128 && !is_error && !goes_back {
                return None;
            }
            match action {
                Action::Nothing => {},
                Action::Push(simple_token) => {
                    let span = Span::new(self.start, self.current + 1);
                    self.add_token(TokenKind::Single(simple_token), span);
                },
                Action::PushString => self.push_string(),
                Action::PushNumber => self.push_number(),
                Action::PushEscapedInString => self.push_string(),
                Action::PushIdentifierOrKeyWord => self.push_identifier_or_keyword(),
                Action::PushComment => self.push_comment(),
                Action::Error => {
                    let mut message = String::new();
                    push_str(&mut message, "Unexpected character \"");
                    push_char(&mut message, c);
                    push_str(&mut message, "\"");
                    proof {
                        assert(message@ =~= spec_unexpected(c));
                    }
                    return Some(Err(LexError { message, span: Span::point(self.current) }));
                },
                Action::PushAndGoBack(simple_token) => {
                    let span = Span::new(self.start, self.current);
                    self.add_token(TokenKind::Single(simple_token), span);
                    self.current = self.current - 1;
                },
            }
            proof {
                if new_state == State::Comment && self.state == State::BuildComment {
                    assert(b == 47);
                    assert(code < 128);
                    assert(c as u32 == 47);
                    assert('/' as u32 == 47);
                    vstd::utf8::char_u32_cast(c, c as u32);
                    vstd::utf8::char_u32_cast('/', '/' as u32);
                    assert(c == '/');
                }
            }
            self.state = new_state;
            self.current = self.current + 1;
        }
        // Flush a comment that ends at the end of the text
        if self.state == State::Comment {
            let end = self.source.len() - 1;
            let text = string_of_range(&self.source, self.start + 2, end);
            let span = Span::new(self.start, end);
            self.add_token(TokenKind::Comment(text), span);
        }
        Some(Ok(()))
    }

    /// Lexes the whole source into `self.tokens`.
    fn lex(&mut self) -> (r: Result<(), LexError>)
        requires
            old(self).fsm.is_built(),
            old(self).current == 0,
            old(self).start == 0,
            old(self).state == State::Default,
            old(self).tokens@ == Seq::<SpecToken>::empty(),
            old(self).source@.len() < usize::MAX,
            !(spec_lex(old(self).source@) is Panic),
        ensures
            match spec_lex(old(self).source@) {
                LexOutcome::Tokens(toks) => r is Ok && final(self).tokens@ == toks,
                LexOutcome::Failure(e) => r matches Err(err) && err@ == e,
                LexOutcome::Panic => false,
            },
    {
        match self.run() {
            Some(r) => r,
            None => Ok(()),
        }
    }
}

/// Lexes `source` into tokens, or the first unexpected character.
///
/// The lexer reads the text character by character and looks each one up by
/// its code truncated to a byte; it panics on a character whose truncated
/// code is 255, and on a non-ASCII character that it reads without stopping
/// on an error. `checked_lex` answers `None` on those texts.
pub fn lex(source: String) -> (r: Result<TokenVec, LexError>)
    requires
        source@.len() + 1 < usize::MAX,
        !(spec_lex(source@) is Panic),
    ensures
        match spec_lex(source@) {
            LexOutcome::Tokens(toks) => r matches Ok(tokens) && tokens@ == toks,
            LexOutcome::Failure(e) => r matches Err(err) && err@ == e,
            LexOutcome::Panic => false,
        },
{
    let mut lexer = Lexer::new(source);
    lexer.lex()?;
    Ok(lexer.tokens)
}

/// Lexes `source` as `lex` does, and answers `None` on the texts on which `lex`
/// would panic.
pub fn checked_lex(source: String) -> (r: Option<Result<TokenVec, LexError>>)
    requires
        source@.len() + 1 < usize::MAX,
    ensures
        match spec_lex(source@) {
            LexOutcome::Tokens(toks) => r matches Some(Ok(tokens)) && tokens@ == toks,
            LexOutcome::Failure(e) => r matches Some(Err(err)) && err@ == e,
            LexOutcome::Panic => r is None,
        },
{
    let mut lexer = Lexer::new(source);
    match lexer.run() {
        None => None,
        Some(Err(e)) => Some(Err(e)),
        Some(Ok(())) => Some(Ok(lexer.tokens)),
    }
}

} // verus!
