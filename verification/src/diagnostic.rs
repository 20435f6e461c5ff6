//! Source locations, and the rendering of an error with the line it points at.
use crate::text::{
    chars_of, push_char, push_decimal, push_repeat, push_str, spec_decimal, spec_repeat,
    string_of_range, utf8_len, lemma_encode_utf8_subrange,
};
use colored::Colorize;
use vstd::prelude::*;
use vstd::string::StringSliceAdditionalSpecFns;

verus! {

/// A range of byte offsets into the source: `start` inclusive, `end` exclusive.
#[derive(Debug, Clone, Copy, PartialEq, Eq, Structural)]
pub struct Span {
    pub start: usize,
    pub end: usize,
}

impl Span {
    pub fn new(start: usize, end: usize) -> (s: Span)
        ensures
            s == (Span { start, end }),
    {
        Span { start, end }
    }

    /// The one-byte span at `at`.
    pub fn point(at: usize) -> (s: Span)
        requires
            at < usize::MAX,
        ensures
            s == (Span { start: at, end: (at + 1) as usize }),
    {
        Span { start: at, end: at + 1 }
    }

    /// The smallest span covering both spans.
    pub fn union(self, other: Span) -> (s: Span)
        ensures
            s.start == if self.start <= other.start {
                self.start
            } else {
                other.start
            },
            s.end == if self.end >= other.end {
                self.end
            } else {
                other.end
            },
    {
        let start = if self.start <= other.start {
            self.start
        } else {
            other.start
        };
        let end = if self.end >= other.end {
            self.end
        } else {
            other.end
        };
        Span::new(start, end)
    }

    /// The same span, ending at `end` when one is given.
    pub fn extended_to(self, end: Option<usize>) -> (s: Span)
        ensures
            s.start == self.start,
            s.end == match end {
                Some(e) => e,
                None => self.end,
            },
    {
        match end {
            Some(e) => Span::new(self.start, e),
            None => Span::new(self.start, self.end),
        }
    }
}

/// The phase of the pipeline an error comes from.
#[derive(Debug, Clone, Copy, PartialEq, Eq, Structural)]
pub enum Stage {
    Lexing,
    Parsing,
    Runtime,
}

pub open spec fn spec_stage_label(stage: Stage) -> Seq<char> {
    match stage {
        Stage::Lexing => "Lexing error"@,
        Stage::Parsing => "Parsing error"@,
        Stage::Runtime => "Runtime error"@,
    }
}

impl Stage {
    /// The label that heads a rendered error, such as `Lexing error`.
    pub fn to_string(&self) -> (s: String)
        ensures
            s@ == spec_stage_label(*self),
    {
        match self {
            Stage::Lexing => "Lexing error".to_owned(),
            Stage::Parsing => "Parsing error".to_owned(),
            Stage::Runtime => "Runtime error".to_owned(),
        }
    }
}

/// An error that can be shown to the user: its stage, where it is, what it says.
pub trait Diagnostic {
    spec fn spec_stage(&self) -> Stage;

    spec fn spec_span(&self) -> Option<Span>;

    spec fn spec_message(&self) -> Seq<char>;

    fn stage(&self) -> (s: Stage)
        ensures
            s == self.spec_stage(),
    ;

    fn span(&self) -> (s: Option<Span>)
        ensures
            s == self.spec_span(),
    ;

    fn message(&self) -> (m: String)
        ensures
            m@ == self.spec_message(),
    ;
}

/// Bytes that start a character in UTF-8 (every byte but the continuation bytes).
pub open spec fn is_char_start(b: u8) -> bool {
    !(0x80 <= b && b <= 0xbf)
}

/// Line and column (both from 1) after reading `bytes`: a newline moves to the
/// next line, every other character moves one column right.
pub open spec fn spec_line_col(bytes: Seq<u8>) -> (nat, nat)
    decreases bytes.len(),
{
    if bytes.len() == 0 {
        (1, 1)
    } else {
        let (line, col) = spec_line_col(bytes.drop_last());
        let b = bytes.last();
        if b == 10 {
            (line + 1, 1)
        } else if is_char_start(b) {
            (line, col + 1)
        } else {
            (line, col)
        }
    }
}

/// The line of the end of `bytes` is one more than the number of newlines in
/// them.
pub proof fn lemma_line_counts_newlines(bytes: Seq<u8>)
    ensures
        spec_line_col(bytes).0 == 1 + bytes.filter(|b: u8| b == 10).len(),
        spec_line_col(bytes).1 >= 1,
    decreases bytes.len(),
{
    reveal(Seq::filter);
    if bytes.len() > 0 {
        lemma_line_counts_newlines(bytes.drop_last());
    }
}

/// Right after a newline the column is 1; a byte that starts a character
/// other than a newline moves one column right on the same line, and a
/// continuation byte moves nothing.
pub proof fn lemma_columns_move_by_characters(bytes: Seq<u8>, b: u8)
    ensures
        b == 10 ==> spec_line_col(bytes.push(b)) == (spec_line_col(bytes).0 + 1, 1nat),
        b != 10 && is_char_start(b) ==> spec_line_col(bytes.push(b)) == (
            spec_line_col(bytes).0,
            spec_line_col(bytes).1 + 1,
        ),
        !is_char_start(b) ==> spec_line_col(bytes.push(b)) == spec_line_col(bytes),
{
    assert(bytes.push(b).drop_last() =~= bytes);
}

/// The line and column of byte offset `offset` in a text whose UTF-8 encoding is `bytes`.
pub open spec fn spec_line_col_at(bytes: Seq<u8>, offset: int) -> (nat, nat) {
    spec_line_col(bytes.take(if offset < bytes.len() { offset } else { bytes.len() as int }))
}

/// The line and column (both counted from 1) of byte offset `offset` in `source`.
pub fn line_col(source: &str, offset: usize) -> (r: (usize, usize))
    requires
        source.spec_bytes().len() < usize::MAX,
    ensures
        (r.0 as nat, r.1 as nat) == spec_line_col_at(source.spec_bytes(), offset as int),
        r.0 >= 1,
        r.1 >= 1,
{
    let bytes = source.as_bytes();
    let n = bytes.len();
    let mut line: usize = 1;
    let mut col: usize = 1;
    let mut i: usize = 0;
    while i < n && i < offset
        invariant
            bytes@ == source.spec_bytes(),
            n == bytes@.len(),
            n < usize::MAX,
            i <= n,
            i <= offset,
            (line as nat, col as nat) == spec_line_col(bytes@.take(i as int)),
            1 <= line <= i + 1,
            1 <= col <= i + 1,
        decreases n - i,
    {
        let b = bytes[i];
        proof {
            assert(bytes@.take(i + 1).drop_last() == bytes@.take(i as int));
        }
        if b == 10 {
            line = line + 1;
            col = 1;
        } else if !(0x80 <= b && b <= 0xbf) {
            col = col + 1;
        }
        i = i + 1;
    }
    (line, col)
}

/// The end (exclusive) of the line that starts at `start`: the first newline at
/// or after `start`, or the end of the text.
pub open spec fn spec_line_end(s: Seq<char>, start: int) -> int
    decreases s.len() - start,
{
    if start >= s.len() || start < 0 {
        s.len() as int
    } else if s[start] == '\n' {
        start
    } else {
        spec_line_end(s, start + 1)
    }
}

/// A line without the carriage return before its newline.
pub open spec fn spec_strip_cr(t: Seq<char>) -> Seq<char> {
    if t.len() > 0 && t.last() == '\r' {
        t.drop_last()
    } else {
        t
    }
}

/// The `n`-th line (from 0) of the text from `start` on, as `str::lines` splits
/// it: on newlines, dropping a carriage return before a newline; no line after a
/// final newline.
pub open spec fn spec_nth_line(s: Seq<char>, start: int, n: nat) -> Option<Seq<char>>
    decreases s.len() - start,
{
    if start >= s.len() || start < 0 {
        None
    } else {
        let e = spec_line_end(s, start);
        if n == 0 {
            Some(
                if e < s.len() {
                    spec_strip_cr(s.subrange(start, e))
                } else {
                    s.subrange(start, e)
                },
            )
        } else if start < e + 1 <= s.len() {
            spec_nth_line(s, e + 1, (n - 1) as nat)
        } else {
            None
        }
    }
}

proof fn lemma_line_end_bounds(s: Seq<char>, start: int)
    requires
        0 <= start <= s.len(),
    ensures
        start <= spec_line_end(s, start) <= s.len(),
        spec_line_end(s, start) < s.len() ==> s[spec_line_end(s, start)] == '\n',
    decreases s.len() - start,
{
    if start < s.len() && s[start] != '\n' {
        lemma_line_end_bounds(s, start + 1);
    }
}

fn line_end(v: &Vec<char>, start: usize) -> (e: usize)
    requires
        start <= v@.len(),
    ensures
        e == spec_line_end(v@, start as int),
        start <= e <= v@.len(),
{
    let mut e = start;
    proof {
        lemma_line_end_bounds(v@, start as int);
    }
    while e < v.len() && v[e] != '\n'
        invariant
            start <= e <= v@.len(),
            spec_line_end(v@, e as int) == spec_line_end(v@, start as int),
        decreases v@.len() - e,
    {
        e = e + 1;
    }
    e
}

/// Where the `n`-th line (from 0) of `v` lies, when there is one.
fn nth_line(v: &Vec<char>, n: usize) -> (r: Option<(usize, usize)>)
    ensures
        match spec_nth_line(v@, 0, n as nat) {
            Some(t) => r matches Some((a, b)) && a <= b <= v@.len() && t == v@.subrange(
                a as int,
                b as int,
            ),
            None => r is None,
        },
{
    let mut start: usize = 0;
    let mut k: usize = n;
    while start < v.len()
        invariant
            start <= v@.len(),
            spec_nth_line(v@, start as int, k as nat) == spec_nth_line(v@, 0, n as nat),
        decreases v@.len() - start,
    {
        let e = line_end(v, start);
        if k == 0 {
            if e < v.len() && e > start && v[e - 1] == '\r' {
                proof {
                    assert(v@.subrange(start as int, e as int).drop_last() == v@.subrange(
                        start as int,
                        e - 1,
                    ));
                }
                return Some((start, e - 1));
            }
            return Some((start, e));
        }
        if e >= v.len() {
            return None;
        }
        k = k - 1;
        start = e + 1;
    }
    None
}

/// The escape sequence that turns the terminal's foreground red.
pub open spec fn spec_red_open() -> Seq<char> {
    seq!['\x1b', '[', '3', '1', 'm']
}

/// The escape sequence that resets the terminal's colors.
pub open spec fn spec_reset() -> Seq<char> {
    seq!['\x1b', '[', '0', 'm']
}

/// `s` painted red when `red` holds, as it is shown on a terminal that takes colors.
pub open spec fn spec_paint(s: Seq<char>, red: bool) -> Seq<char> {
    if red {
        spec_red_open() + s + spec_reset()
    } else {
        s
    }
}

/// The text holds no escape character.
pub open spec fn no_escape(s: Seq<char>) -> bool {
    forall|i: int| 0 <= i < s.len() ==> s[i] != '\x1b'
}

/// colored's `Colorize::red` on a `&str`, then `to_string`. Whether colors are
/// written depends on the environment and the terminal (colored reads
/// `CLICOLOR`, `NO_COLOR`, `CLICOLOR_FORCE` and whether stdout is a terminal),
/// so the contract states both possible outcomes: the text unchanged, or the
/// text between the red and the reset escape sequences. It is stated for texts
/// without an escape character (colored rewrites reset sequences inside the text).
#[verifier::external_body]
fn paint_red(s: &str) -> (r: String)
    ensures
        no_escape(s@) ==> (r@ == spec_paint(s@, false) || r@ == spec_paint(s@, true)),
{
    s.red().to_string()
}

/// The number of columns the `^` marker spans.
pub open spec fn spec_underline_len(
    line: nat,
    col: nat,
    end_line: nat,
    end_col: nat,
    line_text: Seq<char>,
) -> nat {
    let n: int = if end_line == line {
        end_col - col
    } else {
        encode_utf8_len(line_text) - (col - 1)
    };
    if n < 1 {
        1
    } else {
        n as nat
    }
}

/// The length in bytes of the UTF-8 encoding of `t`.
pub open spec fn encode_utf8_len(t: Seq<char>) -> nat {
    vstd::utf8::encode_utf8(t).len()
}

/// The text `render` writes, with the stage label painted red when `red_stage`
/// holds and the `^` marker painted red when `red_pointer` holds.
pub open spec fn spec_render(
    stage: Stage,
    span: Option<Span>,
    message: Seq<char>,
    source: Seq<char>,
    source_name: Seq<char>,
    red_stage: bool,
    red_pointer: bool,
) -> Seq<char> {
    let stage_text = spec_paint(spec_stage_label(stage), red_stage);
    match span {
        None => source_name + ": "@ + stage_text + ": "@ + message,
        Some(span) => {
            let bytes = vstd::utf8::encode_utf8(source);
            let (line, col) = spec_line_col_at(bytes, span.start as int);
            let end = if span.end >= span.start + 1 {
                span.end as int
            } else {
                span.start + 1
            };
            let (end_line, end_col) = spec_line_col_at(bytes, end);
            let line_text = match spec_nth_line(source, 0, (line - 1) as nat) {
                Some(t) => t,
                None => Seq::empty(),
            };
            let underline = spec_underline_len(line, col, end_line, end_col, line_text);
            let pointer = spec_repeat(' ', (col - 1) as nat) + spec_repeat('^', underline);
            source_name + seq![':'] + spec_decimal(line) + seq![':'] + spec_decimal(col) + ": "@
                + stage_text + ": "@ + message + seq!['\n', ' ', ' '] + line_text + seq![
                '\n',
                ' ',
                ' ',
            ] + spec_paint(pointer, red_pointer)
        },
    }
}

/// `name:line:col: stage: message`, then the line, then the marker.
fn compose_located(
    source_name: &str,
    line: usize,
    col: usize,
    stage: &str,
    message: &str,
    line_text: &str,
    pointer: &str,
) -> (r: String)
    ensures
        r@ == source_name@ + seq![':'] + spec_decimal(line as nat) + seq![':'] + spec_decimal(
            col as nat,
        ) + ": "@ + stage@ + ": "@ + message@ + seq!['\n', ' ', ' '] + line_text@ + seq![
            '\n',
            ' ',
            ' ',
        ] + pointer@,
{
    let mut r = String::new();
    push_str(&mut r, source_name);
    push_char(&mut r, ':');
    push_decimal(&mut r, line);
    push_char(&mut r, ':');
    push_decimal(&mut r, col);
    push_str(&mut r, ": ");
    push_str(&mut r, stage);
    push_str(&mut r, ": ");
    push_str(&mut r, message);
    push_char(&mut r, '\n');
    push_char(&mut r, ' ');
    push_char(&mut r, ' ');
    push_str(&mut r, line_text);
    push_char(&mut r, '\n');
    push_char(&mut r, ' ');
    push_char(&mut r, ' ');
    push_str(&mut r, pointer);
    r
}

proof fn lemma_label_no_escape(stage: Stage)
    ensures
        no_escape(spec_stage_label(stage)),
{
    reveal_strlit("Lexing error");
    reveal_strlit("Parsing error");
    reveal_strlit("Runtime error");
}

/// Renders an error: `name: stage: message` when it has no span; otherwise
/// `name:line:col: stage: message`, then the source line, then a `^` marker
/// under the span. The stage label and the marker are painted red where the
/// terminal takes colors.
pub fn render<D: Diagnostic>(diag: &D, source: &str, source_name: &str) -> (r: String)
    requires
        vstd::utf8::encode_utf8(source@).len() < usize::MAX,
        diag.spec_span() matches Some(span) ==> span.start < usize::MAX,
    ensures
        exists|red_stage: bool, red_pointer: bool|
            r@ == spec_render(
                diag.spec_stage(),
                diag.spec_span(),
                diag.spec_message(),
                source@,
                source_name@,
                red_stage,
                red_pointer,
            ),
{
    let stage_label = diag.stage().to_string();
    let stage = paint_red(stage_label.as_str());
    let message = diag.message();
    proof {
        lemma_label_no_escape(diag.spec_stage());
    }
    let ghost red_stage = stage@ != stage_label@;
    match diag.span() {
        None => {
            let mut r = String::new();
            push_str(&mut r, source_name);
            push_str(&mut r, ": ");
            push_str(&mut r, stage.as_str());
            push_str(&mut r, ": ");
            push_str(&mut r, message.as_str());
            proof {
                assert(r@ == spec_render(
                    diag.spec_stage(),
                    diag.spec_span(),
                    diag.spec_message(),
                    source@,
                    source_name@,
                    red_stage,
                    false,
                ));
            }
            r
        },
        Some(span) => {
            proof {
                assert(source.spec_bytes() == vstd::utf8::encode_utf8(source@));
            }
            let (line, col) = line_col(source, span.start);
            let end = if span.end >= span.start + 1 {
                span.end
            } else {
                span.start + 1
            };
            let (end_line, end_col) = line_col(source, end);
            let chars = chars_of(source);
            let (line_text, text_len) = match nth_line(&chars, line - 1) {
                Some((a, b)) => {
                    proof {
                        lemma_encode_utf8_subrange(chars@, a as int, b as int);
                    }
                    (string_of_range(&chars, a, b), utf8_len(&chars, a, b))
                },
                None => (String::new(), 0),
            };
            let underline: usize = if end_line == line {
                if end_col > col {
                    end_col - col
                } else {
                    1
                }
            } else {
                if text_len > col - 1 {
                    text_len - (col - 1)
                } else {
                    1
                }
            };
            let mut pointer = String::new();
            push_repeat(&mut pointer, ' ', col - 1);
            push_repeat(&mut pointer, '^', underline);
            proof {
                assert forall|i: int| 0 <= i < pointer@.len() implies pointer@[i] != '\x1b' by {
                    if i < col - 1 {
                        assert(pointer@[i] == ' ');
                    } else {
                        assert(pointer@[i] == '^');
                    }
                }
            }
            let painted = paint_red(pointer.as_str());
            let ghost red_pointer = painted@ != pointer@;
            let r = compose_located(
                source_name,
                line,
                col,
                stage.as_str(),
                message.as_str(),
                line_text.as_str(),
                painted.as_str(),
            );
            proof {
                let bytes = vstd::utf8::encode_utf8(source@);
                assert(stage@ == spec_paint(spec_stage_label(diag.spec_stage()), red_stage));
                assert(painted@ == spec_paint(pointer@, red_pointer));
                assert(text_len == encode_utf8_len(line_text@));
                assert(underline == spec_underline_len(
                    line as nat,
                    col as nat,
                    end_line as nat,
                    end_col as nat,
                    line_text@,
                ));
                assert(pointer@ == spec_repeat(' ', (col - 1) as nat) + spec_repeat('^', underline as nat));
                assert(r@ == spec_render(
                    diag.spec_stage(),
                    diag.spec_span(),
                    diag.spec_message(),
                    source@,
                    source_name@,
                    red_stage,
                    red_pointer,
                ));
            }
            r
        },
    }
}

} // verus!

verus! {

/// A rendered error begins with the source's name, then a colon.
pub proof fn lemma_render_names_the_source(
    stage: Stage,
    span: Option<Span>,
    message: Seq<char>,
    source: Seq<char>,
    source_name: Seq<char>,
    red_stage: bool,
    red_pointer: bool,
)
    ensures
        ({
            let r = spec_render(stage, span, message, source, source_name, red_stage, red_pointer);
            &&& r.len() > source_name.len()
            &&& r.take(source_name.len() as int) == source_name
            &&& r[source_name.len() as int] == ':'
        }),
{
    reveal_strlit(": ");
    let r = spec_render(stage, span, message, source, source_name, red_stage, red_pointer);
    match span {
        None => {
            assert(r.take(source_name.len() as int) =~= source_name);
        },
        Some(_) => {
            assert(r.take(source_name.len() as int) =~= source_name);
        },
    }
}

} // verus!
