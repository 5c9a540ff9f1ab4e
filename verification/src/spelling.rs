//! The characters of the control symbols, the reserved words and the
//! truth values, one by one.

use vstd::prelude::*;
use crate::token::boolean_of;
use crate::token::control_of;
use crate::token::is_enum_text;
use crate::token::word_of;

verus! {

/// Whether `s` is the one character.
pub open spec fn is1(s: Seq<char>, a: char) -> bool {
    s.len() == 1 && s[0] == a
}

/// Whether `s` is these 2 characters.
pub open spec fn is2(s: Seq<char>, a: char, b: char) -> bool {
    s.len() == 2 && s[0] == a && s[1] == b
}

/// Whether `s` is these 3 characters.
pub open spec fn is3(s: Seq<char>, a: char, b: char, c: char) -> bool {
    s.len() == 3 && s[0] == a && s[1] == b && s[2] == c
}

/// Whether `s` is these 4 characters.
pub open spec fn is4(s: Seq<char>, a: char, b: char, c: char, d: char) -> bool {
    s.len() == 4 && s[0] == a && s[1] == b && s[2] == c && s[3] == d
}

/// Whether `s` is these 5 characters.
pub open spec fn is5(s: Seq<char>, a: char, b: char, c: char, d: char, e: char) -> bool {
    s.len() == 5 && s[0] == a && s[1] == b && s[2] == c && s[3] == d && s[4] == e
}

/// Whether `s` is these 6 characters.
pub open spec fn is6(s: Seq<char>, a: char, b: char, c: char, d: char, e: char, f: char) -> bool {
    s.len() == 6 && s[0] == a && s[1] == b && s[2] == c && s[3] == d && s[4] == e && s[5] == f
}

/// Whether `s` is these 7 characters.
pub open spec fn is7(s: Seq<char>, a: char, b: char, c: char, d: char, e: char, f: char, g: char) -> bool {
    s.len() == 7 && s[0] == a && s[1] == b && s[2] == c && s[3] == d && s[4] == e && s[5] == f && s[6] == g
}

/// Whether `s` is these 8 characters.
pub open spec fn is8(s: Seq<char>, a: char, b: char, c: char, d: char, e: char, f: char, g: char, h: char) -> bool {
    s.len() == 8 && s[0] == a && s[1] == b && s[2] == c && s[3] == d && s[4] == e && s[5] == f && s[6] == g && s[7] == h
}

/// What it is to be spelled as a control symbol, character by character.
pub proof fn lemma_control_spellings(s: Seq<char>)
    ensures
        (s == ","@) == is1(s, ','),
        (s == ";"@) == is1(s, ';'),
        (s == "("@) == is1(s, '('),
        (s == ")"@) == is1(s, ')'),
        (s == "{"@) == is1(s, '{'),
        (s == "}"@) == is1(s, '}'),
        (s == "["@) == is1(s, '['),
        (s == "]"@) == is1(s, ']'),
        (s == ":"@) == is1(s, ':'),
        (s == "?"@) == is1(s, '?'),
        (s == "<"@) == is1(s, '<'),
        (s == "<="@) == is2(s, '<', '='),
        (s == ">"@) == is1(s, '>'),
        (s == ">="@) == is2(s, '>', '='),
        (s == "="@) == is1(s, '='),
        (s == "=="@) == is2(s, '=', '='),
        (s == "||"@) == is2(s, '|', '|'),
        (s == "&&"@) == is2(s, '&', '&'),
        (s == "|"@) == is1(s, '|'),
        (s == "&"@) == is1(s, '&'),
        (s == "+"@) == is1(s, '+'),
        (s == "-"@) == is1(s, '-'),
        (s == "*"@) == is1(s, '*'),
        (s == "**"@) == is2(s, '*', '*'),
        (s == "/"@) == is1(s, '/'),
        (s == "!"@) == is1(s, '!'),
        (s == "!="@) == is2(s, '!', '='),
{
    reveal_strlit(",");
    if is1(s, ',') {
        assert(s =~= ","@);
    }
    reveal_strlit(";");
    if is1(s, ';') {
        assert(s =~= ";"@);
    }
    reveal_strlit("(");
    if is1(s, '(') {
        assert(s =~= "("@);
    }
    reveal_strlit(")");
    if is1(s, ')') {
        assert(s =~= ")"@);
    }
    reveal_strlit("{");
    if is1(s, '{') {
        assert(s =~= "{"@);
    }
    reveal_strlit("}");
    if is1(s, '}') {
        assert(s =~= "}"@);
    }
    reveal_strlit("[");
    if is1(s, '[') {
        assert(s =~= "["@);
    }
    reveal_strlit("]");
    if is1(s, ']') {
        assert(s =~= "]"@);
    }
    reveal_strlit(":");
    if is1(s, ':') {
        assert(s =~= ":"@);
    }
    reveal_strlit("?");
    if is1(s, '?') {
        assert(s =~= "?"@);
    }
    reveal_strlit("<");
    if is1(s, '<') {
        assert(s =~= "<"@);
    }
    reveal_strlit("<=");
    if is2(s, '<', '=') {
        assert(s =~= "<="@);
    }
    reveal_strlit(">");
    if is1(s, '>') {
        assert(s =~= ">"@);
    }
    reveal_strlit(">=");
    if is2(s, '>', '=') {
        assert(s =~= ">="@);
    }
    reveal_strlit("=");
    if is1(s, '=') {
        assert(s =~= "="@);
    }
    reveal_strlit("==");
    if is2(s, '=', '=') {
        assert(s =~= "=="@);
    }
    reveal_strlit("||");
    if is2(s, '|', '|') {
        assert(s =~= "||"@);
    }
    reveal_strlit("&&");
    if is2(s, '&', '&') {
        assert(s =~= "&&"@);
    }
    reveal_strlit("|");
    if is1(s, '|') {
        assert(s =~= "|"@);
    }
    reveal_strlit("&");
    if is1(s, '&') {
        assert(s =~= "&"@);
    }
    reveal_strlit("+");
    if is1(s, '+') {
        assert(s =~= "+"@);
    }
    reveal_strlit("-");
    if is1(s, '-') {
        assert(s =~= "-"@);
    }
    reveal_strlit("*");
    if is1(s, '*') {
        assert(s =~= "*"@);
    }
    reveal_strlit("**");
    if is2(s, '*', '*') {
        assert(s =~= "**"@);
    }
    reveal_strlit("/");
    if is1(s, '/') {
        assert(s =~= "/"@);
    }
    reveal_strlit("!");
    if is1(s, '!') {
        assert(s =~= "!"@);
    }
    reveal_strlit("!=");
    if is2(s, '!', '=') {
        assert(s =~= "!="@);
    }
}

/// What it is to be spelled as a reserved word or a truth value, character by
/// character.
pub proof fn lemma_word_spellings(s: Seq<char>)
    ensures
        (s == "func"@) == is4(s, 'f', 'u', 'n', 'c'),
        (s == "num"@) == is3(s, 'n', 'u', 'm'),
        (s == "str"@) == is3(s, 's', 't', 'r'),
        (s == "bool"@) == is4(s, 'b', 'o', 'o', 'l'),
        (s == "args"@) == is4(s, 'a', 'r', 'g', 's'),
        (s == "return"@) == is6(s, 'r', 'e', 't', 'u', 'r', 'n'),
        (s == "const"@) == is5(s, 'c', 'o', 'n', 's', 't'),
        (s == "if"@) == is2(s, 'i', 'f'),
        (s == "else"@) == is4(s, 'e', 'l', 's', 'e'),
        (s == "while"@) == is5(s, 'w', 'h', 'i', 'l', 'e'),
        (s == "for"@) == is3(s, 'f', 'o', 'r'),
        (s == "continue"@) == is8(s, 'c', 'o', 'n', 't', 'i', 'n', 'u', 'e'),
        (s == "break"@) == is5(s, 'b', 'r', 'e', 'a', 'k'),
        (s == "match"@) == is5(s, 'm', 'a', 't', 'c', 'h'),
        (s == "def"@) == is3(s, 'd', 'e', 'f'),
        (s == "true"@) == is4(s, 't', 'r', 'u', 'e'),
        (s == "false"@) == is5(s, 'f', 'a', 'l', 's', 'e'),
{
    reveal_strlit("func");
    if is4(s, 'f', 'u', 'n', 'c') {
        assert(s =~= "func"@);
    }
    reveal_strlit("num");
    if is3(s, 'n', 'u', 'm') {
        assert(s =~= "num"@);
    }
    reveal_strlit("str");
    if is3(s, 's', 't', 'r') {
        assert(s =~= "str"@);
    }
    reveal_strlit("bool");
    if is4(s, 'b', 'o', 'o', 'l') {
        assert(s =~= "bool"@);
    }
    reveal_strlit("args");
    if is4(s, 'a', 'r', 'g', 's') {
        assert(s =~= "args"@);
    }
    reveal_strlit("return");
    if is6(s, 'r', 'e', 't', 'u', 'r', 'n') {
        assert(s =~= "return"@);
    }
    reveal_strlit("const");
    if is5(s, 'c', 'o', 'n', 's', 't') {
        assert(s =~= "const"@);
    }
    reveal_strlit("if");
    if is2(s, 'i', 'f') {
        assert(s =~= "if"@);
    }
    reveal_strlit("else");
    if is4(s, 'e', 'l', 's', 'e') {
        assert(s =~= "else"@);
    }
    reveal_strlit("while");
    if is5(s, 'w', 'h', 'i', 'l', 'e') {
        assert(s =~= "while"@);
    }
    reveal_strlit("for");
    if is3(s, 'f', 'o', 'r') {
        assert(s =~= "for"@);
    }
    reveal_strlit("continue");
    if is8(s, 'c', 'o', 'n', 't', 'i', 'n', 'u', 'e') {
        assert(s =~= "continue"@);
    }
    reveal_strlit("break");
    if is5(s, 'b', 'r', 'e', 'a', 'k') {
        assert(s =~= "break"@);
    }
    reveal_strlit("match");
    if is5(s, 'm', 'a', 't', 'c', 'h') {
        assert(s =~= "match"@);
    }
    reveal_strlit("def");
    if is3(s, 'd', 'e', 'f') {
        assert(s =~= "def"@);
    }
    reveal_strlit("true");
    if is4(s, 't', 'r', 'u', 'e') {
        assert(s =~= "true"@);
    }
    reveal_strlit("false");
    if is5(s, 'f', 'a', 'l', 's', 'e') {
        assert(s =~= "false"@);
    }
}

/// Whether `c` alone is a control symbol.
pub open spec fn is_symbol_char(c: char) -> bool {
    ||| c == ','
    ||| c == ';'
    ||| c == '('
    ||| c == ')'
    ||| c == '{'
    ||| c == '}'
    ||| c == '['
    ||| c == ']'
    ||| c == ':'
    ||| c == '?'
    ||| c == '<'
    ||| c == '>'
    ||| c == '='
    ||| c == '|'
    ||| c == '&'
    ||| c == '+'
    ||| c == '-'
    ||| c == '*'
    ||| c == '/'
    ||| c == '!'
}

/// A character alone is a control symbol exactly if it is one of those
/// listed, and never a reserved word or a truth value.
pub proof fn lemma_symbol_char(c: char)
    ensures
        control_of(seq![c]) is Some <==> is_symbol_char(c),
        word_of(seq![c]) is None,
        boolean_of(seq![c]) is None,
        is_enum_text(seq![c]) <==> is_symbol_char(c),
{
    let s = seq![c];
    assert(s.len() == 1 && s[0] == c);
    lemma_control_spellings(s);
    lemma_word_spellings(s);
}

} // verus!
