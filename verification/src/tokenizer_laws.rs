//! What holds of the tokenizer: which texts it reads as one token, and that
//! the tokens it makes are read back from their canonical texts.

use vstd::prelude::*;
use crate::error::ErrorView;
use crate::position::PositionView;
use crate::spelling::is_symbol_char;
use crate::spelling::lemma_control_spellings;
use crate::spelling::lemma_symbol_char;
use crate::spelling::lemma_word_spellings;
use crate::text::byte_len;
use crate::text::is_white_space;
use crate::text::lemma_byte_len_prefix;
use crate::text::lemma_utf8_width_bounds;
use crate::token::boolean_of;
use crate::token::boolean_text;
use crate::token::classify;
use crate::token::control_of;
use crate::token::ControlVariants;
use crate::token::is_enum_text;
use crate::token::quoted;
use crate::token::TokenKind;
use crate::token::TokenVariant;
use crate::token::TokenView;
use crate::token::word_of;
use crate::token::WordVariants;
use crate::tokenizer::flush;
use crate::tokenizer::lex;
use crate::tokenizer::lex_char;
use crate::tokenizer::lex_chars;
use crate::tokenizer::lex_line;
use crate::tokenizer::lex_lines;
use crate::tokenizer::lex_start;
use crate::tokenizer::LexState;

verus! {

/// Whether the tokenizer reads `s`, outside a string literal, as one token:
/// nothing in `s` ends a token before its last character does.
pub open spec fn reads_as_one(s: Seq<char>) -> bool {
    &&& s.len() > 0
    &&& forall|i: int| 0 <= i < s.len() ==> !is_white_space(#[trigger] s[i]) && s[i] != '"'
    &&& forall|k: int|
        0 < k < s.len() ==> !is_enum_text(#[trigger] s.take(k)) && control_of(seq![s[k - 1]])
            is None
    &&& is_enum_text(s) || control_of(seq![s.last()]) is None
}

/// Every reserved word is read as one token, and as itself.
proof fn lemma_word_reads_as_one(w: WordVariants)
    ensures
        reads_as_one(w.text()),
        classify(w.text(), false) == TokenKind::Word(w),
{
    let s = w.text();
    lemma_control_spellings(s);
    lemma_word_spellings(s);
    assert(word_of(s) == Some(w));
    assert(control_of(s) is None);
    assert forall|i: int| 0 <= i < s.len() implies !is_white_space(#[trigger] s[i]) && s[i]
        != '"' && !is_symbol_char(s[i]) by {}
    assert forall|k: int| 0 < k < s.len() implies !is_enum_text(#[trigger] s.take(k)) && control_of(
        seq![s[k - 1]],
    ) is None by {
        let p = s.take(k);
        assert(p.len() == k);
        lemma_control_spellings(p);
        lemma_word_spellings(p);
        lemma_symbol_char(s[k - 1]);
    }
}

/// Every control symbol of one character is read as one token, and as
/// itself.
proof fn lemma_symbol_reads_as_one(c: ControlVariants)
    requires
        c.text().len() == 1,
    ensures
        reads_as_one(c.text()),
        classify(c.text(), false) == TokenKind::Control(c),
{
    let s = c.text();
    lemma_control_spellings(s);
    assert(control_of(s) == Some(c));
    assert(s[0] != '"' && !is_white_space(s[0]));
}

/// Both truth values are read as one token, and as themselves.
proof fn lemma_boolean_reads_as_one(b: bool)
    ensures
        reads_as_one(boolean_text(b)),
        classify(boolean_text(b), false) == TokenKind::Boolean(b),
{
    let s = boolean_text(b);
    lemma_control_spellings(s);
    lemma_word_spellings(s);
    assert(boolean_of(s) == Some(b));
    assert(!is_enum_text(s));
    assert forall|i: int| 0 <= i < s.len() implies !is_white_space(#[trigger] s[i]) && s[i]
        != '"' && !is_symbol_char(s[i]) by {}
    assert forall|k: int| 0 < k < s.len() implies !is_enum_text(#[trigger] s.take(k)) && control_of(
        seq![s[k - 1]],
    ) is None by {
        let p = s.take(k);
        assert(p.len() == k);
        lemma_control_spellings(p);
        lemma_word_spellings(p);
        lemma_symbol_char(s[k - 1]);
    }
    lemma_symbol_char(s.last());
}

/// A control symbol or reserved word is spelled in ASCII, and its canonical
/// text is what spells it, between quotes or not.
pub proof fn lemma_enum_text_is_ascii(s: Seq<char>)
    requires
        is_enum_text(s),
    ensures
        s.len() > 0,
        forall|i: int| 0 <= i < s.len() ==> (#[trigger] s[i] as u32) < 0x80,
        classify(s, false).text() == s,
        classify(s, true) == classify(s, false),
        classify(s, false) is Control || classify(s, false) is Word,
{
    lemma_control_spellings(s);
    lemma_word_spellings(s);
}

/// The canonical text of what `s` is classified as, outside a string
/// literal, is `s`.
pub proof fn lemma_classify_keeps_text(s: Seq<char>)
    ensures
        classify(s, false).text() == s,
{
    if is_enum_text(s) {
        lemma_enum_text_is_ascii(s);
    }
}

/// Whether the character at `i` of `line` goes into the buffer, outside a
/// string literal, and completes no token there. `held` is the buffer at
/// `from`.
pub open spec fn stays_open(held: Seq<char>, line: Seq<char>, from: int, i: int) -> bool {
    &&& !is_white_space(line[i])
    &&& line[i] != '"'
    &&& control_of(seq![line[i]]) is None
    &&& !is_enum_text(held + line.subrange(from, i + 1))
}

/// Outside a string literal, characters that complete no token gather in
/// the buffer.
pub proof fn lemma_buffer_grows(
    st: LexState,
    file: Seq<char>,
    row: nat,
    line: Seq<char>,
    from: nat,
    to: nat,
)
    requires
        from <= to <= line.len(),
        !lex_chars(st, file, row, line, from).in_string,
        forall|i: int|
            from <= i < to ==> #[trigger] stays_open(
                lex_chars(st, file, row, line, from).buffer,
                line,
                from as int,
                i,
            ),
    ensures
        lex_chars(st, file, row, line, to) == (LexState {
            buffer: lex_chars(st, file, row, line, from).buffer + line.subrange(
                from as int,
                to as int,
            ),
            ..lex_chars(st, file, row, line, from)
        }),
    decreases to - from,
{
    let mid = lex_chars(st, file, row, line, from);
    if from < to {
        let last = (to - 1) as nat;
        lemma_buffer_grows(st, file, row, line, from, last);
        let prev = lex_chars(st, file, row, line, last);
        assert(stays_open(mid.buffer, line, from as int, last as int));
        assert(prev.buffer.push(line[last as int]) =~= mid.buffer + line.subrange(
            from as int,
            to as int,
        ));
    } else {
        assert(mid.buffer + line.subrange(from as int, to as int) =~= mid.buffer);
    }
}

/// Inside a string literal, everything but a quote gathers in the buffer.
pub proof fn lemma_string_grows(
    st: LexState,
    file: Seq<char>,
    row: nat,
    line: Seq<char>,
    from: nat,
    to: nat,
)
    requires
        from <= to <= line.len(),
        lex_chars(st, file, row, line, from).in_string,
        forall|i: int| from <= i < to ==> #[trigger] line[i] != '"',
    ensures
        lex_chars(st, file, row, line, to) == (LexState {
            buffer: lex_chars(st, file, row, line, from).buffer + line.subrange(
                from as int,
                to as int,
            ),
            ..lex_chars(st, file, row, line, from)
        }),
    decreases to - from,
{
    let mid = lex_chars(st, file, row, line, from);
    if from < to {
        let last = (to - 1) as nat;
        lemma_string_grows(st, file, row, line, from, last);
        let prev = lex_chars(st, file, row, line, last);
        assert(prev.buffer.push(line[last as int]) =~= mid.buffer + line.subrange(
            from as int,
            to as int,
        ));
    } else {
        assert(mid.buffer + line.subrange(from as int, to as int) =~= mid.buffer);
    }
}

/// Whether the tokenizer makes, of the canonical text of a token of this
/// kind, a token of this kind again. A string literal must hold no quote and
/// spell no control symbol or reserved word; any other text must be read as
/// one token, and classified as this kind.
pub open spec fn reads_back(kind: TokenKind) -> bool {
    match kind {
        TokenKind::String(content) => !content.contains('"') && !is_enum_text(content),
        _ => reads_as_one(kind.text()) && classify(kind.text(), false) == kind,
    }
}

/// The tokens with a fixed text read back, but for the control symbols of
/// more than one character: every reserved word, every control symbol of one
/// character and both truth values.
pub proof fn lemma_fixed_tokens_read_back(kind: TokenKind)
    requires
        kind is Word || kind is Boolean || (kind is Control && kind.text().len() == 1),
    ensures
        reads_back(kind),
{
    match kind {
        TokenKind::Word(w) => {
            lemma_word_reads_as_one(w);
        },
        TokenKind::Boolean(b) => {
            lemma_boolean_reads_as_one(b);
        },
        TokenKind::Control(c) => {
            lemma_symbol_reads_as_one(c);
        },
        _ => {},
    }
}

/// The one token that a line makes which holds `kind` and nothing else.
pub open spec fn alone_on_line(kind: TokenKind, file: Seq<char>) -> Seq<TokenView> {
    seq![
        TokenView {
            kind,
            position: PositionView { file, row: 1, column: byte_len(kind.text()) + 1 },
        },
    ]
}

/// The law for every kind but the string literals.
proof fn lemma_bare_text_reads_back(kind: TokenKind, file: Seq<char>)
    requires
        !(kind is String),
        reads_back(kind),
    ensures
        lex(file, seq![kind.text()]) == Ok::<Seq<TokenView>, ErrorView>(alone_on_line(kind, file)),
{
    let s = kind.text();
    let lines = seq![s];
    let n = s.len();
    let st = lex_start();
    reveal_with_fuel(lex_lines, 2);
    assert(lex_lines(file, lines, 1) == lex_line(st, file, 1, s));
    assert(st.buffer + s.subrange(0, 0) =~= st.buffer);
    let m = (n - 1) as nat;
    assert forall|i: int| 0 <= i < m implies #[trigger] stays_open(st.buffer, s, 0, i) by {
        assert(st.buffer + s.subrange(0, i + 1) =~= s.take(i + 1));
        assert(s[i + 1 - 1] == s[i]);
    }
    lemma_buffer_grows(st, file, 1, s, 0, m);
    let before = lex_chars(st, file, 1, s, m);
    assert(before.buffer =~= s.take(m as int));
    assert(before.buffer.push(s[m as int]) =~= s);
    assert(s.take(n as int) =~= s);
    lemma_byte_len_prefix(s, m as int);
    let end = lex_chars(st, file, 1, s, n);
    if is_enum_text(s) {
        lemma_enum_text_is_ascii(s);
        lemma_utf8_width_bounds(s[m as int]);
        assert(end.tokens =~= alone_on_line(kind, file));
    } else {
        assert(end.buffer == s);
        assert(lex_line(st, file, 1, s).tokens =~= alone_on_line(kind, file));
    }
}

/// The law for the string literals.
proof fn lemma_string_reads_back(content: Seq<char>, file: Seq<char>)
    requires
        reads_back(TokenKind::String(content)),
    ensures
        lex(file, seq![quoted(content)]) == Ok::<Seq<TokenView>, ErrorView>(
            alone_on_line(TokenKind::String(content), file),
        ),
{
    let kind = TokenKind::String(content);
    let s = quoted(content);
    let lines = seq![s];
    let n = s.len();
    let st = lex_start();
    reveal_with_fuel(lex_lines, 2);
    reveal_with_fuel(lex_chars, 2);
    assert(lex_lines(file, lines, 1) == lex_line(st, file, 1, s));
    let opened = lex_chars(st, file, 1, s, 1);
    assert(s[0] == '"');
    assert(opened.in_string && opened.buffer == st.buffer);
    let m = (n - 1) as nat;
    assert forall|i: int| 1 <= i < m implies #[trigger] s[i] != '"' by {
        assert(s[i] == content[i - 1]);
        assert(content.contains(content[i - 1]));
    }
    lemma_string_grows(st, file, 1, s, 1, m);
    let before = lex_chars(st, file, 1, s, m);
    assert(before.buffer =~= content);
    assert(s[m as int] == '"');
    assert(s.take(n as int) =~= s);
    lemma_byte_len_prefix(s, m as int);
    lemma_utf8_width_bounds('"');
    let end = lex_chars(st, file, 1, s, n);
    assert(end.tokens =~= alone_on_line(kind, file));
}

/// Tokenizing the canonical text of a token gives that token again, if it
/// is one that reads back: a line that holds the text and nothing else makes
/// one token, of the same kind, completed one column past the text.
pub proof fn law_canonical_text_reads_back(kind: TokenKind, file: Seq<char>)
    requires
        reads_back(kind),
    ensures
        lex(file, seq![kind.text()]) == Ok::<Seq<TokenView>, ErrorView>(alone_on_line(kind, file)),
{
    match kind {
        TokenKind::String(content) => {
            lemma_string_reads_back(content, file);
        },
        _ => {
            lemma_bare_text_reads_back(kind, file);
        },
    }
}

/// Whether `s` spells a control symbol of more than one character.
pub open spec fn is_compound_symbol(s: Seq<char>) -> bool {
    control_of(s) is Some && s.len() > 1
}

/// Every reserved word, and every control symbol of one character, gives
/// one token when it stands alone: the token of that word or symbol, whose
/// canonical text is the input.
pub proof fn law_symbol_alone_is_one_token(text: Seq<char>, file: Seq<char>)
    requires
        is_enum_text(text),
        !is_compound_symbol(text),
    ensures
        lex(file, seq![text]) == Ok::<Seq<TokenView>, ErrorView>(
            alone_on_line(classify(text, false), file),
        ),
        classify(text, false).text() == text,
        classify(text, false) is Control || classify(text, false) is Word,
{
    lemma_enum_text_is_ascii(text);
    lemma_fixed_tokens_read_back(classify(text, false));
    law_canonical_text_reads_back(classify(text, false), file);
}

/// A control symbol of more than one character, alone on a line, is not
/// read as itself: its first character is a control symbol too and is
/// completed at once, and so is its second.
pub proof fn law_compound_symbol_splits(c: ControlVariants, file: Seq<char>)
    requires
        c.text().len() > 1,
    ensures
        control_of(c.text().take(1)) is Some,
        control_of(c.text().skip(1)) is Some,
        lex(file, seq![c.text()]) == Ok::<Seq<TokenView>, ErrorView>(
            seq![
                TokenView {
                    kind: TokenKind::Control(control_of(c.text().take(1))->0),
                    position: PositionView { file, row: 1, column: 2 },
                },
                TokenView {
                    kind: TokenKind::Control(control_of(c.text().skip(1))->0),
                    position: PositionView { file, row: 1, column: 3 },
                },
            ],
        ),
{
    let s = c.text();
    let st = lex_start();
    lemma_control_spellings(s);
    assert(s.len() == 2);
    let first = seq![s[0]];
    let second = seq![s[1]];
    assert(s.take(1) =~= first);
    assert(s.skip(1) =~= second);
    lemma_symbol_char(s[0]);
    lemma_symbol_char(s[1]);
    assert(control_of(first) is Some);
    assert(control_of(second) is Some);
    assert(s[0] != '"' && !is_white_space(s[0]));
    assert(s[1] != '"' && !is_white_space(s[1]));
    reveal_with_fuel(lex_lines, 2);
    reveal_with_fuel(lex_chars, 3);
    assert(lex_lines(file, seq![s], 1) == lex_line(st, file, 1, s));
    assert(s.take(0) =~= Seq::<char>::empty());
    assert(byte_len(s.take(0)) == 0) by {
        reveal_with_fuel(vstd::utf8::encode_utf8, 1);
    }
    lemma_byte_len_prefix(s, 0);
    lemma_utf8_width_bounds(s[0]);
    assert(st.buffer.push(s[0]) =~= first);
    let one = lex_chars(st, file, 1, s, 1);
    assert(one == flush(LexState { buffer: first, ..st }, file, 1, 2));
    assert(one.buffer.push(s[1]) =~= second);
    let two = lex_chars(st, file, 1, s, 2);
    assert(two == flush(LexState { buffer: second, ..one }, file, 1, 3));
    lemma_enum_text_is_ascii(first);
    lemma_enum_text_is_ascii(second);
    assert(lex(file, seq![s])->Ok_0 =~= seq![
        TokenView {
            kind: TokenKind::Control(control_of(first)->0),
            position: PositionView { file, row: 1, column: 2 },
        },
        TokenView {
            kind: TokenKind::Control(control_of(second)->0),
            position: PositionView { file, row: 1, column: 3 },
        },
    ]);
}

/// Whether a token of this kind is regular: one that reads back, or else
/// a control symbol of more than one character.
pub open spec fn is_regular(kind: TokenKind) -> bool {
    reads_back(kind) || (kind is Control && is_compound_symbol(kind.text()))
}

/// Whether the buffer holds what the tokenizer lets gather outside a string
/// literal.
pub open spec fn is_open_text(buffer: Seq<char>) -> bool {
    &&& forall|i: int|
        0 <= i < buffer.len() ==> !is_white_space(#[trigger] buffer[i]) && control_of(
            seq![buffer[i]],
        ) is None
    &&& forall|k: int| 0 < k <= buffer.len() ==> !is_enum_text(#[trigger] buffer.take(k))
}

/// What holds of every state that the tokenizer reaches: its tokens are
/// regular, its buffer holds no quote and, outside a string literal, only
/// what may gather there.
pub open spec fn is_regular_state(st: LexState) -> bool {
    &&& forall|i: int| 0 <= i < st.tokens.len() ==> is_regular(#[trigger] st.tokens[i].kind)
    &&& forall|i: int| 0 <= i < st.buffer.len() ==> #[trigger] st.buffer[i] != '"'
    &&& !st.in_string ==> is_open_text(st.buffer)
}

/// A control symbol or reserved word is regular, from between quotes or
/// not.
proof fn lemma_enum_kind_is_regular(s: Seq<char>, is_in_string: bool)
    requires
        is_enum_text(s),
    ensures
        is_regular(classify(s, is_in_string)),
{
    lemma_enum_text_is_ascii(s);
    if !is_compound_symbol(s) {
        lemma_fixed_tokens_read_back(classify(s, false));
    }
}

/// What has gathered outside a string literal makes a regular token.
proof fn lemma_open_text_is_regular(buffer: Seq<char>)
    requires
        buffer.len() > 0,
        is_open_text(buffer),
        forall|i: int| 0 <= i < buffer.len() ==> #[trigger] buffer[i] != '"',
    ensures
        is_regular(classify(buffer, false)),
{
    lemma_classify_keeps_text(buffer);
    assert(buffer.take(buffer.len() as int) =~= buffer);
    assert(!is_enum_text(buffer));
    assert(reads_as_one(buffer));
    assert(!(classify(buffer, false) is String));
}

/// Completing a token keeps the state regular.
proof fn lemma_flush_is_regular(st: LexState, file: Seq<char>, row: nat, column: nat)
    requires
        is_regular_state(st),
        st.in_string || st.buffer.len() > 0,
    ensures
        is_regular_state(LexState { in_string: false, ..flush(st, file, row, column) }),
        is_regular_state(LexState { in_string: true, ..flush(st, file, row, column) }),
{
    let kind = classify(st.buffer, st.in_string);
    if is_enum_text(st.buffer) {
        lemma_enum_kind_is_regular(st.buffer, st.in_string);
    } else if st.in_string {
        assert(kind == TokenKind::String(st.buffer));
        assert(!st.buffer.contains('"'));
    } else {
        lemma_open_text_is_regular(st.buffer);
    }
    let after = flush(st, file, row, column);
    assert forall|i: int| 0 <= i < after.tokens.len() implies is_regular(
        #[trigger] after.tokens[i].kind,
    ) by {
        if i < st.tokens.len() {
            assert(after.tokens[i] == st.tokens[i]);
        }
    }
}

/// A character keeps the state regular.
proof fn lemma_step_is_regular(st: LexState, c: char, file: Seq<char>, row: nat, column: nat)
    requires
        is_regular_state(st),
    ensures
        is_regular_state(lex_char(st, c, file, row, column)),
{
    let next = lex_char(st, c, file, row, column);
    if is_white_space(c) && !st.in_string {
        if st.buffer.len() > 0 {
            lemma_flush_is_regular(st, file, row, column);
        }
    } else if c == '"' {
        if st.in_string {
            lemma_flush_is_regular(st, file, row, column + 1);
        }
    } else {
        let grown = LexState { buffer: st.buffer.push(c), ..st };
        if st.in_string {
        } else if is_enum_text(grown.buffer) {
            lemma_enum_kind_is_regular(grown.buffer, false);
            let after = flush(grown, file, row, column + 1);
            assert forall|i: int| 0 <= i < after.tokens.len() implies is_regular(
                #[trigger] after.tokens[i].kind,
            ) by {
                if i < st.tokens.len() {
                    assert(after.tokens[i] == st.tokens[i]);
                }
            }
        } else if control_of(seq![c]) is Some {
            if st.buffer.len() == 0 {
                assert(grown.buffer =~= seq![c]);
            }
            lemma_flush_is_regular(st, file, row, column);
            let before = flush(st, file, row, column);
            let single = LexState { buffer: seq![c], ..before };
            lemma_enum_kind_is_regular(seq![c], false);
            let after = flush(single, file, row, column + 1);
            assert forall|i: int| 0 <= i < after.tokens.len() implies is_regular(
                #[trigger] after.tokens[i].kind,
            ) by {
                if i < before.tokens.len() {
                    assert(after.tokens[i] == before.tokens[i]);
                }
            }
        } else {
            assert forall|k: int| 0 < k <= grown.buffer.len() implies !is_enum_text(
                #[trigger] grown.buffer.take(k),
            ) by {
                if k <= st.buffer.len() {
                    assert(grown.buffer.take(k) =~= st.buffer.take(k));
                } else {
                    assert(grown.buffer.take(k) =~= grown.buffer);
                }
            }
        }
    }
}

/// The characters of a line keep the state regular.
proof fn lemma_chars_are_regular(st: LexState, file: Seq<char>, row: nat, line: Seq<char>, n: nat)
    requires
        is_regular_state(st),
    ensures
        is_regular_state(lex_chars(st, file, row, line, n)),
    decreases n,
{
    if n > 0 {
        let k = (n - 1) as nat;
        lemma_chars_are_regular(st, file, row, line, k);
        lemma_step_is_regular(
            lex_chars(st, file, row, line, k),
            line[k as int],
            file,
            row,
            byte_len(line.take(k as int)) + 1,
        );
    }
}

/// The state after any number of lines is regular.
proof fn lemma_lines_are_regular(file: Seq<char>, lines: Seq<Seq<char>>, n: nat)
    ensures
        is_regular_state(lex_lines(file, lines, n)),
    decreases n,
{
    if n > 0 {
        let k = (n - 1) as nat;
        lemma_lines_are_regular(file, lines, k);
        let st = lex_lines(file, lines, k);
        let line = lines[k as int];
        lemma_chars_are_regular(st, file, n, line, line.len());
        let end = lex_chars(st, file, n, line, line.len());
        if !end.in_string && end.buffer.len() > 0 {
            lemma_flush_is_regular(end, file, n, byte_len(line) + 1);
        }
    } else {
        assert(lex_start().buffer.len() == 0);
    }
}

/// Re-tokenizing the canonical text of a token that the tokenizer made
/// gives a token of the same kind again: put alone on a line of any source,
/// the text makes that one token. The control symbols of more than one
/// character are the exception: [`law_compound_symbol_splits`] says what
/// becomes of them.
pub proof fn law_tokens_read_back(
    file: Seq<char>,
    lines: Seq<Seq<char>>,
    i: int,
    again: Seq<char>,
)
    requires
        lex(file, lines) is Ok,
        0 <= i < lex(file, lines)->Ok_0.len(),
        !(lex(file, lines)->Ok_0[i].kind is Control && is_compound_symbol(
            lex(file, lines)->Ok_0[i].kind.text(),
        )),
    ensures
        lex(again, seq![lex(file, lines)->Ok_0[i].kind.text()]) == Ok::<Seq<TokenView>, ErrorView>(
            alone_on_line(lex(file, lines)->Ok_0[i].kind, again),
        ),
{
    lemma_lines_are_regular(file, lines, lines.len());
    let kind = lex(file, lines)->Ok_0[i].kind;
    assert(is_regular(kind));
    law_canonical_text_reads_back(kind, again);
}

/// The number of characters that a token of this kind was made of: those
/// of its canonical text, less the quotes of a string literal.
pub open spec fn content_len(kind: TokenKind) -> nat {
    match kind {
        TokenKind::String(content) => content.len(),
        _ => kind.text().len(),
    }
}

/// The number of characters that the tokens were made of.
pub open spec fn total_content(tokens: Seq<TokenView>) -> nat
    decreases tokens.len(),
{
    if tokens.len() == 0 {
        0
    } else {
        total_content(tokens.drop_last()) + content_len(tokens.last().kind)
    }
}

/// The number of characters that the state holds, in its tokens and in its
/// buffer.
pub open spec fn weight(st: LexState) -> nat {
    total_content(st.tokens) + st.buffer.len()
}

/// Completing a token moves what the buffer holds into one more token.
proof fn lemma_flush_keeps_weight(st: LexState, file: Seq<char>, row: nat, column: nat)
    ensures
        weight(flush(st, file, row, column)) == weight(st),
        st.tokens.is_prefix_of(flush(st, file, row, column).tokens),
        flush(st, file, row, column).tokens.len() == st.tokens.len() + 1,
{
    let after = flush(st, file, row, column);
    assert(after.tokens.drop_last() =~= st.tokens);
    if is_enum_text(st.buffer) {
        lemma_enum_text_is_ascii(st.buffer);
    } else if !st.in_string {
        lemma_classify_keeps_text(st.buffer);
    }
}

/// A character adds at most itself to what the state holds, and nothing if
/// it is a quote or white space outside a string literal. No token is taken
/// back.
proof fn lemma_step_weight(st: LexState, c: char, file: Seq<char>, row: nat, column: nat)
    ensures
        weight(lex_char(st, c, file, row, column)) <= weight(st) + 1,
        c == '"' || (is_white_space(c) && !st.in_string) ==> weight(
            lex_char(st, c, file, row, column),
        ) == weight(st),
        st.tokens.is_prefix_of(lex_char(st, c, file, row, column).tokens),
{
    lemma_flush_keeps_weight(st, file, row, column);
    lemma_flush_keeps_weight(st, file, row, column + 1);
    let grown = LexState { buffer: st.buffer.push(c), ..st };
    lemma_flush_keeps_weight(grown, file, row, column + 1);
    let before = flush(st, file, row, column);
    let single = LexState { buffer: seq![c], ..before };
    lemma_flush_keeps_weight(single, file, row, column + 1);
}

/// The characters of a line add at most themselves to what the state
/// holds, and take no token back.
proof fn lemma_chars_weight(
    st: LexState,
    file: Seq<char>,
    row: nat,
    line: Seq<char>,
    from: nat,
    to: nat,
)
    requires
        from <= to,
    ensures
        weight(lex_chars(st, file, row, line, to)) <= weight(lex_chars(st, file, row, line, from))
            + (to - from),
        lex_chars(st, file, row, line, from).tokens.is_prefix_of(
            lex_chars(st, file, row, line, to).tokens,
        ),
    decreases to - from,
{
    if from < to {
        let k = (to - 1) as nat;
        lemma_chars_weight(st, file, row, line, from, k);
        lemma_step_weight(
            lex_chars(st, file, row, line, k),
            line[k as int],
            file,
            row,
            byte_len(line.take(k as int)) + 1,
        );
    }
}

/// What a line leaves in the state when it has been read up to `at` and
/// the character there adds nothing.
proof fn lemma_line_weight_after_gap(file: Seq<char>, line: Seq<char>, at: nat)
    requires
        at < line.len(),
        line[at as int] == '"' || (is_white_space(line[at as int]) && !lex_chars(
            lex_start(),
            file,
            1,
            line,
            at,
        ).in_string),
    ensures
        weight(lex_line(lex_start(), file, 1, line)) < line.len(),
{
    let st = lex_start();
    assert(total_content(st.tokens) == 0);
    lemma_chars_weight(st, file, 1, line, 0, at);
    lemma_step_weight(
        lex_chars(st, file, 1, line, at),
        line[at as int],
        file,
        1,
        byte_len(line.take(at as int)) + 1,
    );
    lemma_chars_weight(st, file, 1, line, at + 1, line.len());
    lemma_flush_keeps_weight(
        lex_chars(st, file, 1, line, line.len()),
        file,
        1,
        byte_len(line) + 1,
    );
}

/// The tokens that a line has made by the time it has been read up to `at`
/// are the first of those that it makes in all.
proof fn lemma_line_keeps_tokens(file: Seq<char>, line: Seq<char>, at: nat)
    requires
        at <= line.len(),
    ensures
        lex_chars(lex_start(), file, 1, line, at).tokens.is_prefix_of(
            lex_line(lex_start(), file, 1, line).tokens,
        ),
{
    let st = lex_start();
    lemma_chars_weight(st, file, 1, line, at, line.len());
    lemma_flush_keeps_weight(
        lex_chars(st, file, 1, line, line.len()),
        file,
        1,
        byte_len(line) + 1,
    );
}

/// Whether the tokenizer makes, of the canonical text of a token of this
/// kind alone on a line, one token, and of this kind.
pub open spec fn is_read_back(kind: TokenKind, file: Seq<char>) -> bool {
    lex(file, seq![kind.text()]) matches Ok(tokens) && tokens.len() == 1 && tokens[0].kind == kind
}

/// A string literal that holds a quote, or spells a control symbol or
/// reserved word, is not read back.
proof fn lemma_string_not_read_back(content: Seq<char>, file: Seq<char>)
    requires
        !reads_back(TokenKind::String(content)),
    ensures
        !is_read_back(TokenKind::String(content), file),
{
    let kind = TokenKind::String(content);
    let s = quoted(content);
    let n = s.len();
    let st = lex_start();
    reveal_with_fuel(lex_lines, 2);
    reveal_with_fuel(lex_chars, 2);
    assert(lex_lines(file, seq![s], 1) == lex_line(st, file, 1, s));
    assert(s[0] == '"');
    let opened = lex_chars(st, file, 1, s, 1);
    assert(opened.in_string && opened.buffer == st.buffer && opened.tokens == st.tokens);
    // `m` is where the first quote of the content stands, or its end.
    let m: int = if content.contains('"') {
        choose|q: int|
            0 <= q < content.len() && content[q] == '"' && forall|j: int|
                0 <= j < q ==> content[j] != '"'
    } else {
        content.len() as int
    };
    if content.contains('"') {
        lemma_first_quote(content, content.len() as int);
    }
    assert forall|i: int| 1 <= i < 1 + m implies #[trigger] s[i] != '"' by {
        assert(s[i] == content[i - 1]);
        if !content.contains('"') {
            assert(content.contains(content[i - 1]));
        }
    }
    lemma_string_grows(st, file, 1, s, 1, (1 + m) as nat);
    let before = lex_chars(st, file, 1, s, (1 + m) as nat);
    assert(before.buffer =~= content.take(m));
    assert(s[1 + m] == '"');
    assert(s.take(1 + m + 1 - 1) =~= s.take(1 + m));
    let closed = lex_chars(st, file, 1, s, (2 + m) as nat);
    let first = classify(content.take(m), true);
    assert(closed.tokens.len() == 1 && closed.tokens[0].kind == first);
    lemma_line_keeps_tokens(file, s, (2 + m) as nat);
    if content.contains('"') {
        assert(content.take(m).len() < content.len());
    } else {
        assert(content.take(m) =~= content);
        lemma_enum_text_is_ascii(content);
    }
    assert(first != kind);
}

/// Where a text holds a quote, it holds a first one.
proof fn lemma_first_quote(content: Seq<char>, n: int)
    requires
        0 <= n <= content.len(),
        exists|q: int| 0 <= q < n && content[q] == '"',
    ensures
        exists|q: int|
            0 <= q < n && content[q] == '"' && forall|j: int| 0 <= j < q ==> content[j] != '"',
    decreases n,
{
    let last = choose|q: int| 0 <= q < n && content[q] == '"';
    if exists|q: int| 0 <= q < last && content[q] == '"' {
        lemma_first_quote(content, last);
    } else {
        assert(forall|j: int| 0 <= j < last ==> content[j] != '"');
    }
}

/// Where not every character of a text stays open, there is a first that
/// does not.
proof fn lemma_first_closing(s: Seq<char>, n: int) -> (i: int)
    requires
        0 <= n <= s.len(),
        exists|i: int| 0 <= i < n && !stays_open(Seq::empty(), s, 0, i),
    ensures
        0 <= i < n,
        !stays_open(Seq::empty(), s, 0, i),
        forall|j: int| 0 <= j < i ==> #[trigger] stays_open(Seq::empty(), s, 0, j),
    decreases n,
{
    let last = choose|i: int| 0 <= i < n && !stays_open(Seq::empty(), s, 0, i);
    if exists|i: int| 0 <= i < last && !stays_open(Seq::empty(), s, 0, i) {
        lemma_first_closing(s, last)
    } else {
        last
    }
}

/// A text that stays open up to its last character, which completes it or
/// stays open too, is read as one token.
proof fn lemma_open_text_reads_as_one(s: Seq<char>)
    requires
        s.len() > 0,
        forall|i: int| 0 <= i < s.len() - 1 ==> #[trigger] stays_open(Seq::empty(), s, 0, i),
        !is_white_space(s.last()),
        s.last() != '"',
        is_enum_text(s) || control_of(seq![s.last()]) is None,
    ensures
        reads_as_one(s),
{
    let none = Seq::<char>::empty();
    assert forall|i: int| 0 <= i < s.len() implies !is_white_space(#[trigger] s[i]) && s[i]
        != '"' by {
        if i < s.len() - 1 {
            assert(stays_open(none, s, 0, i));
        }
    }
    assert forall|k: int| 0 < k < s.len() implies !is_enum_text(#[trigger] s.take(k)) && control_of(
        seq![s[k - 1]],
    ) is None by {
        assert(stays_open(none, s, 0, k - 1));
        assert(none + s.subrange(0, k) =~= s.take(k));
    }
}

/// What the tokenizer holds when it has read a line up to its first
/// character that does not stay open.
proof fn lemma_open_start(s: Seq<char>, at: int, file: Seq<char>)
    requires
        0 <= at <= s.len(),
        forall|j: int| 0 <= j < at ==> #[trigger] stays_open(Seq::empty(), s, 0, j),
    ensures
        lex_chars(lex_start(), file, 1, s, at as nat) == (LexState {
            buffer: s.take(at),
            ..lex_start()
        }),
{
    let st = lex_start();
    assert forall|i: int| 0 <= i < at implies #[trigger] stays_open(st.buffer, s, 0, i) by {
        assert(stays_open(Seq::empty(), s, 0, i));
    }
    lemma_buffer_grows(st, file, 1, s, 0, at as nat);
    assert(st.buffer + s.subrange(0, at) =~= s.take(at));
}

/// The tokens that a line makes of its first character that does not stay
/// open, where that is neither a quote nor white space: one token, of what
/// the line holds up to there, if that spells a control symbol or reserved
/// word, and else two.
proof fn lemma_first_tokens(s: Seq<char>, at: int, file: Seq<char>)
    requires
        0 <= at < s.len(),
        forall|j: int| 0 <= j < at ==> #[trigger] stays_open(Seq::empty(), s, 0, j),
        !stays_open(Seq::empty(), s, 0, at),
        !is_white_space(s[at]),
        s[at] != '"',
    ensures
        ({
            let tokens = lex_line(lex_start(), file, 1, s).tokens;
            if is_enum_text(s.take(at + 1)) {
                tokens.len() >= 1 && tokens[0].kind == classify(s.take(at + 1), false)
            } else {
                tokens.len() >= 2
            }
        }),
{
    let st = lex_start();
    let c = s[at];
    let grown = s.take(at + 1);
    lemma_open_start(s, at, file);
    let before = lex_chars(st, file, 1, s, at as nat);
    assert(before.buffer.push(c) =~= grown);
    assert(Seq::<char>::empty() + s.subrange(0, at + 1) =~= grown);
    let after = lex_chars(st, file, 1, s, (at + 1) as nat);
    assert(after == lex_char(before, c, file, 1, byte_len(s.take(at)) + 1));
    lemma_line_keeps_tokens(file, s, (at + 1) as nat);
    if is_enum_text(grown) {
        assert(after.tokens.len() == 1);
        assert(after.tokens[0].kind == classify(grown, false));
    } else {
        assert(control_of(seq![c]) is Some);
        assert(after.tokens.len() == 2);
    }
}

/// A token of any other kind whose text is not read as one token, or is
/// classified as another kind, is not read back.
proof fn lemma_bare_text_not_read_back(kind: TokenKind, file: Seq<char>)
    requires
        !(kind is String),
        !reads_back(kind),
    ensures
        !is_read_back(kind, file),
{
    let s = kind.text();
    let n = s.len();
    let st = lex_start();
    let none = Seq::<char>::empty();
    reveal_with_fuel(lex_lines, 2);
    assert(lex_lines(file, seq![s], 1) == lex_line(st, file, 1, s));
    let end = lex_line(st, file, 1, s);
    if reads_as_one(s) {
        lemma_classify_keeps_text(s);
        lemma_bare_text_reads_back(classify(s, false), file);
    } else if n == 0 {
        assert(end.tokens.len() == 0);
    } else if forall|i: int| 0 <= i < n ==> #[trigger] stays_open(none, s, 0, i) {
        assert(stays_open(none, s, 0, n - 1));
        lemma_open_text_reads_as_one(s);
    } else {
        let at = lemma_first_closing(s, n as int);
        let c = s[at];
        let grown = s.take(at + 1);
        if c == '"' || is_white_space(c) {
            lemma_open_start(s, at, file);
            lemma_line_weight_after_gap(file, s, at as nat);
            if is_read_back(kind, file) {
                // The one token would hold all of the text.
                assert(end.tokens.drop_last() =~= st.tokens);
                assert(total_content(st.tokens) == 0);
                assert(weight(end) >= n);
            }
        } else {
            lemma_first_tokens(s, at, file);
            if is_enum_text(grown) {
                lemma_enum_text_is_ascii(grown);
                if at + 1 < n {
                    assert(grown.len() < s.len());
                } else {
                    assert(grown =~= s);
                    lemma_open_text_reads_as_one(s);
                }
            }
        }
    }
}

/// A token is read back from its canonical text only if it is one that
/// reads back: of any other, the text alone on a line makes no token, more
/// than one, one of another kind, or fails.
pub proof fn law_reads_back_only(kind: TokenKind, file: Seq<char>)
    ensures
        is_read_back(kind, file) <==> reads_back(kind),
{
    if reads_back(kind) {
        law_canonical_text_reads_back(kind, file);
    } else {
        match kind {
            TokenKind::String(content) => {
                lemma_string_not_read_back(content, file);
            },
            _ => {
                lemma_bare_text_not_read_back(kind, file);
            },
        }
    }
}

} // verus!
