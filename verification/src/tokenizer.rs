//! The tokenizer: a character-level state machine over the lines of a
//! source.
//!
//! The machine carries the tokens made so far, the text of the token being
//! read, and whether it is inside a string literal. A token is pending
//! exactly when that text is not empty. The machine is given here twice: once
//! as a function on sequences of characters, [`lex`], which says what the
//! tokens of a source are, and once as the code that makes them,
//! [`tokenizer`], which cuts each token out of its line when the token is
//! completed.
//!
//! Rows and columns count from 1, and columns count bytes. A token carries
//! the position at which it was completed, not the one at which it began.

use vstd::prelude::*;
use vstd::string::StringExecFns;
use crate::error::ErrorHandler;
use crate::error::ErrorTypes;
use crate::error::ErrorView;
use crate::error::Failure;
use crate::error::Res;
use crate::position::Position;
use crate::position::PositionView;
use crate::text::byte_len;
use crate::text::char_width;
use crate::text::is_white_space;
use crate::text::is_whitespace;
use crate::text::lemma_byte_len_empty;
use crate::text::lemma_byte_len_prefix;
use crate::text::lemma_byte_len_prefixes;
use crate::text::slice;
use crate::token::classify;
use crate::token::control_of;
use crate::token::control_of_char;
use crate::token::is_enum_str;
use crate::token::is_enum_text;
use crate::token::Token;
use crate::token::token_views;
use crate::token::TokenView;

verus! {

/// The state of the machine between two characters.
pub struct LexState {
    /// The tokens completed so far.
    pub tokens: Seq<TokenView>,
    /// The text read of the token that is not completed yet.
    pub buffer: Seq<char>,
    /// Whether a string literal is open.
    pub in_string: bool,
    /// Row of the quote that opened the last string literal.
    pub open_row: nat,
    /// Column just behind that quote.
    pub open_column: nat,
}

/// The state before the first character.
pub open spec fn lex_start() -> LexState {
    LexState {
        tokens: Seq::empty(),
        buffer: Seq::empty(),
        in_string: false,
        open_row: 0,
        open_column: 0,
    }
}

/// Completes the token in the buffer, at the given position.
pub open spec fn flush(st: LexState, file: Seq<char>, row: nat, column: nat) -> LexState {
    LexState {
        tokens: st.tokens.push(
            TokenView {
                kind: classify(st.buffer, st.in_string),
                position: PositionView { file, row, column },
            },
        ),
        buffer: Seq::empty(),
        ..st
    }
}

/// The state after the character `c`, which stands in `row` at `column`
/// (both counted from 1).
///
/// Outside a string literal, white space completes the token being read,
/// at the column of the white space. A quote opens a string literal, whose
/// place is kept as the column behind the quote, or closes one, which
/// completes a token at the column behind the quote; what was in the buffer
/// when the literal opened is part of it. Any other character is added to the
/// buffer. Outside a string literal the buffer is then completed at once, at
/// the column behind the character, if it spells a control symbol or a
/// reserved word. Failing that, a character that alone is a control symbol is
/// split off: what stood before it becomes one token, at the column of the
/// character, and the symbol the next, at the column behind it. (Something
/// did stand before it: on an empty buffer the symbol is completed by the
/// rule before.)
pub open spec fn lex_char(st: LexState, c: char, file: Seq<char>, row: nat, column: nat)
    -> LexState {
    if is_white_space(c) && !st.in_string {
        if st.buffer.len() > 0 {
            flush(st, file, row, column)
        } else {
            st
        }
    } else if c == '"' {
        if st.in_string {
            LexState { in_string: false, ..flush(st, file, row, column + 1) }
        } else {
            LexState { in_string: true, open_row: row, open_column: column + 1, ..st }
        }
    } else {
        let grown = LexState { buffer: st.buffer.push(c), ..st };
        if st.in_string {
            grown
        } else if is_enum_text(grown.buffer) {
            flush(grown, file, row, column + 1)
        } else if control_of(seq![c]) is Some {
            let before = flush(st, file, row, column);
            flush(LexState { buffer: seq![c], ..before }, file, row, column + 1)
        } else {
            grown
        }
    }
}

/// The state after the first `n` characters of `line`, which is row `row`.
/// The column of a character is the number of bytes before it in the line,
/// plus 1.
pub open spec fn lex_chars(st: LexState, file: Seq<char>, row: nat, line: Seq<char>, n: nat)
    -> LexState
    decreases n,
{
    if n == 0 {
        st
    } else {
        let k = (n - 1) as nat;
        lex_char(
            lex_chars(st, file, row, line, k),
            line[k as int],
            file,
            row,
            byte_len(line.take(k as int)) + 1,
        )
    }
}

/// The state after the whole of `line`. Outside a string literal the end of
/// a line completes the token being read, one column past the line's end.
pub open spec fn lex_line(st: LexState, file: Seq<char>, row: nat, line: Seq<char>) -> LexState {
    let end = lex_chars(st, file, row, line, line.len());
    if !end.in_string && end.buffer.len() > 0 {
        flush(end, file, row, byte_len(line) + 1)
    } else {
        end
    }
}

/// The state after the first `n` lines.
pub open spec fn lex_lines(file: Seq<char>, lines: Seq<Seq<char>>, n: nat) -> LexState
    decreases n,
{
    if n == 0 {
        lex_start()
    } else {
        let k = (n - 1) as nat;
        lex_line(lex_lines(file, lines, k), file, n, lines[k as int])
    }
}

/// The diagnostic for a string literal that is still open at the end.
pub open spec fn unclosed_string(file: Seq<char>, row: nat, column: nat) -> ErrorView {
    ErrorView {
        kind: ErrorTypes::UnclosedString,
        message: "expected '\"', but found end of file"@,
        position: PositionView { file, row, column },
    }
}

/// The tokens of a source, or the diagnostic for a string literal that its
/// end leaves open, which points just behind the opening quote.
pub open spec fn lex(file: Seq<char>, lines: Seq<Seq<char>>) -> Result<Seq<TokenView>, ErrorView> {
    let end = lex_lines(file, lines, lines.len());
    if end.in_string {
        Err(unclosed_string(file, end.open_row, end.open_column))
    } else {
        Ok(end.tokens)
    }
}

/// The texts of a run of lines.
pub open spec fn line_texts(lines: Seq<String>) -> Seq<Seq<char>> {
    lines.map_values(|l: String| l@)
}

/// The machine at work on a line. The text of the token being read is
/// kept in two parts: `held`, which earlier lines and the text before a quote
/// have left, and the part of the line from the byte `from` up to where the
/// machine stands, which is taken out of the line only when the token is
/// completed.
struct Lexer {
    tokens: Vec<Token>,
    held: String,
    from: usize,
    first: Ghost<int>,
    in_string: bool,
    open_row: usize,
    open_column: usize,
}

impl Lexer {
    /// The state of the machine when it stands before the character `i` of
    /// `line`.
    closed spec fn state(&self, line: Seq<char>, i: int) -> LexState {
        LexState {
            tokens: token_views(self.tokens@),
            buffer: self.held@ + line.subrange(self.first@, i),
            in_string: self.in_string,
            open_row: self.open_row as nat,
            open_column: self.open_column as nat,
        }
    }

    /// Whether the machine can stand before the character `i` of `line`:
    /// the part of the line that it has yet to take begins at or before `i`,
    /// and outside a string literal nothing is held.
    closed spec fn fits(&self, line: Seq<char>, i: int) -> bool {
        &&& 0 <= self.first@ <= i <= line.len()
        &&& self.from == byte_len(line.take(self.first@))
        &&& !self.in_string ==> self.held@.len() == 0
    }

    /// The state of the machine between two lines.
    closed spec fn rest(&self) -> LexState {
        LexState {
            tokens: token_views(self.tokens@),
            buffer: self.held@,
            in_string: self.in_string,
            open_row: self.open_row as nat,
            open_column: self.open_column as nat,
        }
    }

    /// Whether the machine stands between two lines: it has nothing of a
    /// line to take, and outside a string literal nothing is held.
    closed spec fn is_between_lines(&self) -> bool {
        &&& self.from == 0
        &&& self.first@ == 0
        &&& !self.in_string ==> self.held@.len() == 0
    }

    /// Between two lines the machine stands before the first character of
    /// any line.
    proof fn lemma_line_start(&self, line: Seq<char>)
        requires
            self.is_between_lines(),
        ensures
            self.fits(line, 0),
            self.state(line, 0) == self.rest(),
    {
        assert(line.take(0) =~= Seq::<char>::empty());
        lemma_byte_len_empty();
        assert(self.held@ + line.subrange(0, 0) =~= self.held@);
    }

    /// The machine before the first line.
    fn new() -> (l: Lexer)
        ensures
            l.is_between_lines(),
            l.rest() == lex_start(),
    {
        let l = Lexer {
            tokens: Vec::new(),
            held: String::new(),
            from: 0,
            first: Ghost(0),
            in_string: false,
            open_row: 0,
            open_column: 0,
        };
        assert(l.rest().tokens =~= Seq::empty());
        l
    }

    /// The part of the line that the machine has yet to take, up to the
    /// byte `to`, which is where the character `i` begins.
    fn pending<'a>(&self, line: &'a str, to: usize, Ghost(i): Ghost<int>) -> (piece: &'a str)
        requires
            self.fits(line@, i),
            to == byte_len(line@.take(i)),
        ensures
            piece@ == line@.subrange(self.first@, i),
    {
        proof {
            lemma_byte_len_prefixes(line@, self.first@, i);
        }
        slice(line, self.from, to, Ghost(self.first@), Ghost(i))
    }

    /// Takes up the line behind the byte `next`, where the character `i`
    /// begins.
    fn skip_to(&mut self, next: usize, Ghost(line): Ghost<Seq<char>>, Ghost(i): Ghost<int>)
        requires
            0 <= i <= line.len(),
            next == byte_len(line.take(i)),
            !old(self).in_string ==> old(self).held@.len() == 0,
        ensures
            final(self).fits(line, i),
            final(self).state(line, i) == (LexState {
                buffer: old(self).held@,
                ..old(self).state(line, i)
            }),
    {
        self.from = next;
        self.first = Ghost(i);
        assert(self.held@ + line.subrange(i, i) =~= self.held@);
    }

    /// Completes a token of what is held and `piece`.
    fn emit(&mut self, piece: &str, file_name: &str, row: usize, column: usize)
        ensures
            final(self).tokens@.len() == old(self).tokens@.len() + 1,
            token_views(final(self).tokens@) == token_views(old(self).tokens@).push(
                TokenView {
                    kind: classify(old(self).held@ + piece@, old(self).in_string),
                    position: PositionView {
                        file: file_name@,
                        row: row as nat,
                        column: column as nat,
                    },
                },
            ),
            final(self).held@ == Seq::<char>::empty(),
            final(self).from == old(self).from,
            final(self).first == old(self).first,
            final(self).in_string == old(self).in_string,
            final(self).open_row == old(self).open_row,
            final(self).open_column == old(self).open_column,
    {
        self.held.append(piece);
        let mut text = String::new();
        core::mem::swap(&mut self.held, &mut text);
        let position = Position::new(file_name.to_string(), row, column);
        let token = Token::new(text, position, self.in_string);
        self.tokens.push(token);
        assert(token_views(self.tokens@) =~= token_views(old(self).tokens@).push(token@));
    }

    /// Takes the character `c`, which is the character `i` of `line` and
    /// begins at the byte `at` of row `row`.
    fn step(
        &mut self,
        line: &str,
        c: char,
        at: usize,
        Ghost(i): Ghost<int>,
        file_name: &str,
        row: usize,
    ) -> (next: usize)
        requires
            0 <= i < line@.len(),
            line@[i] == c,
            at == byte_len(line@.take(i)),
            byte_len(line@) < usize::MAX,
            old(self).fits(line@, i),
        ensures
            next == byte_len(line@.take(i + 1)),
            final(self).fits(line@, i + 1),
            final(self).state(line@, i + 1) == lex_char(
                old(self).state(line@, i),
                c,
                file_name@,
                row as nat,
                (at + 1) as nat,
            ),
    {
        proof {
            lemma_byte_len_prefix(line@, i);
            lemma_byte_len_prefix(line@, i + 1);
        }
        let ghost text = line@;
        let ghost before = self.state(text, i);
        let column = at + 1;
        let next = at + char_width(c);
        let ghost goal = lex_char(before, c, file_name@, row as nat, (at + 1) as nat);
        if is_whitespace(c) && !self.in_string {
            let piece = self.pending(line, at, Ghost(i));
            if !piece.is_empty() {
                self.emit(piece, file_name, row, column);
            }
            assert(before.buffer =~= piece@);
            self.skip_to(next, Ghost(text), Ghost(i + 1));
            assert(self.state(text, i + 1).buffer =~= goal.buffer);
        } else if c == '"' {
            let piece = self.pending(line, at, Ghost(i));
            if self.in_string {
                self.emit(piece, file_name, row, column + 1);
                self.in_string = false;
            } else {
                self.held.append(piece);
                self.in_string = true;
                self.open_row = row;
                self.open_column = column + 1;
            }
            self.skip_to(next, Ghost(text), Ghost(i + 1));
            assert(self.state(text, i + 1).buffer =~= goal.buffer);
        } else {
            assert(text.subrange(self.first@, i + 1) =~= text.subrange(self.first@, i).push(c));
            assert(self.held@ + text.subrange(self.first@, i + 1) =~= before.buffer.push(c));
            if !self.in_string {
                let grown = self.pending(line, next, Ghost(i + 1));
                assert(before.buffer.push(c) =~= grown@);
                if is_enum_str(grown) {
                    self.emit(grown, file_name, row, column + 1);
                    self.skip_to(next, Ghost(text), Ghost(i + 1));
                    assert(self.state(text, i + 1).buffer =~= goal.buffer);
                } else if control_of_char(c).is_some() {
                    let piece = self.pending(line, at, Ghost(i));
                    assert(before.buffer =~= piece@);
                    self.emit(piece, file_name, row, column);
                    self.skip_to(at, Ghost(text), Ghost(i));
                    let symbol = self.pending(line, next, Ghost(i + 1));
                    assert(symbol@ =~= seq![c]);
                    assert(self.held@ + symbol@ =~= seq![c]);
                    self.emit(symbol, file_name, row, column + 1);
                    self.skip_to(next, Ghost(text), Ghost(i + 1));
                    assert(self.state(text, i + 1).buffer =~= goal.buffer);
                }
            }
        }
        next
    }

    /// Takes the end of `line`, whose last byte is the byte before `end`.
    fn end_line(&mut self, line: &str, end: usize, file_name: &str, row: usize)
        requires
            end == byte_len(line@),
            end < usize::MAX,
            old(self).fits(line@, line@.len() as int),
        ensures
            final(self).is_between_lines(),
            final(self).rest() == ({
                let st = old(self).state(line@, line@.len() as int);
                if !st.in_string && st.buffer.len() > 0 {
                    flush(st, file_name@, row as nat, (end + 1) as nat)
                } else {
                    st
                }
            }),
    {
        let ghost text = line@;
        let ghost before = self.state(text, text.len() as int);
        assert(text.take(text.len() as int) =~= text);
        let piece = self.pending(line, end, Ghost(text.len() as int));
        if self.in_string {
            self.held.append(piece);
        } else {
            assert(before.buffer =~= piece@);
            if !piece.is_empty() {
                self.emit(piece, file_name, row, end + 1);
            }
        }
        self.from = 0;
        self.first = Ghost(0);
        assert(self.rest().buffer =~= (if !before.in_string && before.buffer.len() > 0 {
            Seq::<char>::empty()
        } else {
            before.buffer
        }));
    }

    /// Takes the end of the source.
    fn finish(self, file_name: &str) -> (r: Res<Vec<Token>>)
        ensures
            match r {
                Ok(tokens) => !self.rest().in_string && token_views(tokens@) == self.rest().tokens,
                Err(Failure::Compiler(e)) => self.rest().in_string && e@ == unclosed_string(
                    file_name@,
                    self.rest().open_row,
                    self.rest().open_column,
                ),
                Err(Failure::Plain(_)) => false,
            },
    {
        if self.in_string {
            let position = Position::new(file_name.to_string(), self.open_row, self.open_column);
            ErrorHandler::compiler_err(
                ErrorTypes::UnclosedString,
                "expected '\"', but found end of file".to_string(),
                position,
            )
        } else {
            Ok(self.tokens)
        }
    }
}

/// Whether every line leaves room to count the column behind its last
/// byte.
pub open spec fn lines_fit(lines: Seq<String>) -> bool {
    forall|i: int| 0 <= i < lines.len() ==> byte_len(#[trigger] lines[i]@) < usize::MAX
}

/// Whether the tokenizer can take these lines: see [`lines_fit`].
pub fn can_tokenize(lines: &[String]) -> (b: bool)
    ensures
        b == lines_fit(lines@),
{
    let mut i: usize = 0;
    while i < lines.len()
        invariant
            i <= lines.len(),
            forall|j: int| 0 <= j < i ==> byte_len(#[trigger] lines@[j]@) < usize::MAX,
        decreases lines.len() - i,
    {
        if lines[i].as_str().as_bytes().len() == usize::MAX {
            return false;
        }
        i = i + 1;
    }
    true
}

/// Turns the lines of the source named `file_name` into its tokens.
///
/// The tokens are those of [`lex`]. The one failure is `UnclosedString`, for
/// a source whose end leaves a string literal open. No line may fill the
/// whole address space: the column behind its last byte must be a `usize`.
pub fn tokenizer(lines: &[String], file_name: &str) -> (r: Res<Vec<Token>>)
    requires
        lines_fit(lines@),
    ensures
        match r {
            Ok(tokens) => lex(file_name@, line_texts(lines@)) == Ok::<Seq<TokenView>, ErrorView>(
                token_views(tokens@),
            ),
            Err(Failure::Compiler(e)) => lex(file_name@, line_texts(lines@)) == Err::<
                Seq<TokenView>,
                ErrorView,
            >(e@),
            Err(Failure::Plain(_)) => false,
        },
{
    let ghost texts = line_texts(lines@);
    let mut lexer = Lexer::new();
    let mut row: usize = 0;
    while row < lines.len()
        invariant
            row <= lines.len(),
            texts == line_texts(lines@),
            lexer.is_between_lines(),
            lexer.rest() == lex_lines(file_name@, texts, row as nat),
            lines_fit(lines@),
        decreases lines.len() - row,
    {
        let line = lines[row].as_str();
        let ghost text = line@;
        let ghost start = lexer.rest();
        assert(text == texts[row as int]);
        proof {
            lexer.lemma_line_start(text);
            assert(text.take(0) =~= Seq::<char>::empty());
            lemma_byte_len_empty();
        }
        let mut at: usize = 0;
        for c in it: line.chars()
            invariant
                it.seq() == text,
                text == line@,
                at == byte_len(text.take(it.index() as int)),
                lexer.fits(text, it.index() as int),
                lexer.state(text, it.index() as int) == lex_chars(
                    start,
                    file_name@,
                    (row + 1) as nat,
                    text,
                    it.index() as nat,
                ),
                byte_len(text) < usize::MAX,
                row < lines.len(),
        {
            at = lexer.step(line, c, at, Ghost(it.index() as int), file_name, row + 1);
        }
        assert(text.take(text.len() as int) =~= text);
        lexer.end_line(line, at, file_name, row + 1);
        row = row + 1;
    }
    lexer.finish(file_name)
}

} // verus!
