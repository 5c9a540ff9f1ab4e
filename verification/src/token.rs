//! The token model: the closed set of token kinds, how a piece of source text
//! is classified into one of them, and the canonical text of each.

use vstd::prelude::*;
use vstd::string::StringExecFns;
use crate::number::is_number;
use crate::number::is_number_text;
use crate::position::Position;
use crate::position::PositionView;
use crate::spelling::lemma_control_spellings;
use crate::text::str_eq;

verus! {

/// What the kinds of token have in common: each is made from a piece of
/// source text, has a canonical text and belongs to a named kind.
pub trait TokenVariant: Sized {
    /// Whether `value` denotes a token of this kind.
    spec fn accepts(value: Seq<char>) -> bool;

    /// The canonical text of the token that `value` denotes.
    spec fn spelling(value: Seq<char>) -> Seq<char>;

    /// The canonical text of this token.
    spec fn text(&self) -> Seq<char>;

    /// The name of the kind.
    spec fn kind_name() -> Seq<char>;

    /// The token of this kind that `value` denotes, if it denotes one.
    fn new(value: &str) -> (r: Option<Self>)
        ensures
            r is Some <==> Self::accepts(value@),
            r matches Some(v) ==> v.text() == Self::spelling(value@),
    ;

    /// The canonical text of this token.
    fn to_string(&self) -> (s: String)
        ensures
            s@ == self.text(),
    ;

    /// The name of the kind.
    fn token_type(&self) -> (s: &str)
        ensures
            s@ == Self::kind_name(),
    ;
}

/// The punctuation and operator symbols.
#[derive(Debug, Clone, Copy, PartialEq, Eq, Structural)]
pub enum ControlVariants {
    /// `,`
    Comma,
    /// `;`
    Semicolon,
    /// `(`
    OpenParanthesis,
    /// `)`
    CloseParanthesis,
    /// `{`
    OpenCurly,
    /// `}`
    CloseCurly,
    /// `[`
    OpenSquare,
    /// `]`
    CloseSquare,
    /// `:`
    Colon,
    /// `?`
    Questionmark,
    /// `<`
    Less,
    /// `<=`
    LessEqual,
    /// `>`
    Greater,
    /// `>=`
    GreaterEqual,
    /// `=`
    Asign,
    /// `==`
    Equal,
    /// `||`
    Or,
    /// `&&`
    And,
    /// `|`
    BitOr,
    /// `&`
    BitAnd,
    /// `+`
    Plus,
    /// `-`
    Minus,
    /// `*`
    Multiplikation,
    /// `**`
    Power,
    /// `/`
    Divide,
    /// `!`
    Not,
    /// `!=`
    NotEqual,
}

/// The control symbol that `value` spells, if any.
pub open spec fn control_of(value: Seq<char>) -> Option<ControlVariants> {
    if value == ","@ {
        Some(ControlVariants::Comma)
    } else if value == ";"@ {
        Some(ControlVariants::Semicolon)
    } else if value == "("@ {
        Some(ControlVariants::OpenParanthesis)
    } else if value == ")"@ {
        Some(ControlVariants::CloseParanthesis)
    } else if value == "{"@ {
        Some(ControlVariants::OpenCurly)
    } else if value == "}"@ {
        Some(ControlVariants::CloseCurly)
    } else if value == "["@ {
        Some(ControlVariants::OpenSquare)
    } else if value == "]"@ {
        Some(ControlVariants::CloseSquare)
    } else if value == ":"@ {
        Some(ControlVariants::Colon)
    } else if value == "?"@ {
        Some(ControlVariants::Questionmark)
    } else if value == "<"@ {
        Some(ControlVariants::Less)
    } else if value == "<="@ {
        Some(ControlVariants::LessEqual)
    } else if value == ">"@ {
        Some(ControlVariants::Greater)
    } else if value == ">="@ {
        Some(ControlVariants::GreaterEqual)
    } else if value == "="@ {
        Some(ControlVariants::Asign)
    } else if value == "=="@ {
        Some(ControlVariants::Equal)
    } else if value == "||"@ {
        Some(ControlVariants::Or)
    } else if value == "&&"@ {
        Some(ControlVariants::And)
    } else if value == "|"@ {
        Some(ControlVariants::BitOr)
    } else if value == "&"@ {
        Some(ControlVariants::BitAnd)
    } else if value == "+"@ {
        Some(ControlVariants::Plus)
    } else if value == "-"@ {
        Some(ControlVariants::Minus)
    } else if value == "*"@ {
        Some(ControlVariants::Multiplikation)
    } else if value == "**"@ {
        Some(ControlVariants::Power)
    } else if value == "/"@ {
        Some(ControlVariants::Divide)
    } else if value == "!"@ {
        Some(ControlVariants::Not)
    } else if value == "!="@ {
        Some(ControlVariants::NotEqual)
    } else {
        None
    }
}

impl TokenVariant for ControlVariants {
    open spec fn accepts(value: Seq<char>) -> bool {
        control_of(value) is Some
    }

    open spec fn spelling(value: Seq<char>) -> Seq<char> {
        value
    }

    open spec fn text(&self) -> Seq<char> {
        match self {
            ControlVariants::Comma => ","@,
            ControlVariants::Semicolon => ";"@,
            ControlVariants::OpenParanthesis => "("@,
            ControlVariants::CloseParanthesis => ")"@,
            ControlVariants::OpenCurly => "{"@,
            ControlVariants::CloseCurly => "}"@,
            ControlVariants::OpenSquare => "["@,
            ControlVariants::CloseSquare => "]"@,
            ControlVariants::Colon => ":"@,
            ControlVariants::Questionmark => "?"@,
            ControlVariants::Less => "<"@,
            ControlVariants::LessEqual => "<="@,
            ControlVariants::Greater => ">"@,
            ControlVariants::GreaterEqual => ">="@,
            ControlVariants::Asign => "="@,
            ControlVariants::Equal => "=="@,
            ControlVariants::Or => "||"@,
            ControlVariants::And => "&&"@,
            ControlVariants::BitOr => "|"@,
            ControlVariants::BitAnd => "&"@,
            ControlVariants::Plus => "+"@,
            ControlVariants::Minus => "-"@,
            ControlVariants::Multiplikation => "*"@,
            ControlVariants::Power => "**"@,
            ControlVariants::Divide => "/"@,
            ControlVariants::Not => "!"@,
            ControlVariants::NotEqual => "!="@,
        }
    }

    open spec fn kind_name() -> Seq<char> {
        "Control"@
    }

    fn new(value: &str) -> (r: Option<Self>)
        ensures
            r == control_of(value@),
    {
        if str_eq(value, ",") {
            Some(ControlVariants::Comma)
        } else if str_eq(value, ";") {
            Some(ControlVariants::Semicolon)
        } else if str_eq(value, "(") {
            Some(ControlVariants::OpenParanthesis)
        } else if str_eq(value, ")") {
            Some(ControlVariants::CloseParanthesis)
        } else if str_eq(value, "{") {
            Some(ControlVariants::OpenCurly)
        } else if str_eq(value, "}") {
            Some(ControlVariants::CloseCurly)
        } else if str_eq(value, "[") {
            Some(ControlVariants::OpenSquare)
        } else if str_eq(value, "]") {
            Some(ControlVariants::CloseSquare)
        } else if str_eq(value, ":") {
            Some(ControlVariants::Colon)
        } else if str_eq(value, "?") {
            Some(ControlVariants::Questionmark)
        } else if str_eq(value, "<") {
            Some(ControlVariants::Less)
        } else if str_eq(value, "<=") {
            Some(ControlVariants::LessEqual)
        } else if str_eq(value, ">") {
            Some(ControlVariants::Greater)
        } else if str_eq(value, ">=") {
            Some(ControlVariants::GreaterEqual)
        } else if str_eq(value, "=") {
            Some(ControlVariants::Asign)
        } else if str_eq(value, "==") {
            Some(ControlVariants::Equal)
        } else if str_eq(value, "||") {
            Some(ControlVariants::Or)
        } else if str_eq(value, "&&") {
            Some(ControlVariants::And)
        } else if str_eq(value, "|") {
            Some(ControlVariants::BitOr)
        } else if str_eq(value, "&") {
            Some(ControlVariants::BitAnd)
        } else if str_eq(value, "+") {
            Some(ControlVariants::Plus)
        } else if str_eq(value, "-") {
            Some(ControlVariants::Minus)
        } else if str_eq(value, "*") {
            Some(ControlVariants::Multiplikation)
        } else if str_eq(value, "**") {
            Some(ControlVariants::Power)
        } else if str_eq(value, "/") {
            Some(ControlVariants::Divide)
        } else if str_eq(value, "!") {
            Some(ControlVariants::Not)
        } else if str_eq(value, "!=") {
            Some(ControlVariants::NotEqual)
        } else {
            None
        }
    }

    fn to_string(&self) -> (s: String) {
        match self {
            ControlVariants::Comma => ",".to_string(),
            ControlVariants::Semicolon => ";".to_string(),
            ControlVariants::OpenParanthesis => "(".to_string(),
            ControlVariants::CloseParanthesis => ")".to_string(),
            ControlVariants::OpenCurly => "{".to_string(),
            ControlVariants::CloseCurly => "}".to_string(),
            ControlVariants::OpenSquare => "[".to_string(),
            ControlVariants::CloseSquare => "]".to_string(),
            ControlVariants::Colon => ":".to_string(),
            ControlVariants::Questionmark => "?".to_string(),
            ControlVariants::Less => "<".to_string(),
            ControlVariants::LessEqual => "<=".to_string(),
            ControlVariants::Greater => ">".to_string(),
            ControlVariants::GreaterEqual => ">=".to_string(),
            ControlVariants::Asign => "=".to_string(),
            ControlVariants::Equal => "==".to_string(),
            ControlVariants::Or => "||".to_string(),
            ControlVariants::And => "&&".to_string(),
            ControlVariants::BitOr => "|".to_string(),
            ControlVariants::BitAnd => "&".to_string(),
            ControlVariants::Plus => "+".to_string(),
            ControlVariants::Minus => "-".to_string(),
            ControlVariants::Multiplikation => "*".to_string(),
            ControlVariants::Power => "**".to_string(),
            ControlVariants::Divide => "/".to_string(),
            ControlVariants::Not => "!".to_string(),
            ControlVariants::NotEqual => "!=".to_string(),
        }
    }

    fn token_type(&self) -> (s: &str) {
        "Control"
    }
}

/// The reserved words.
#[derive(Debug, Clone, Copy, PartialEq, Eq, Structural)]
pub enum WordVariants {
    /// `func`
    Func,
    /// `num`
    Num,
    /// `str`
    Str,
    /// `bool`
    Bool,
    /// `args`
    Args,
    /// `return`
    Return,
    /// `const`
    Const,
    /// `if`
    If,
    /// `else`
    Else,
    /// `while`
    While,
    /// `for`
    For,
    /// `continue`
    Continue,
    /// `break`
    Break,
    /// `match`
    Match,
    /// `def`
    Def,
}

/// The reserved word that `value` spells, if any.
pub open spec fn word_of(value: Seq<char>) -> Option<WordVariants> {
    if value == "func"@ {
        Some(WordVariants::Func)
    } else if value == "num"@ {
        Some(WordVariants::Num)
    } else if value == "str"@ {
        Some(WordVariants::Str)
    } else if value == "bool"@ {
        Some(WordVariants::Bool)
    } else if value == "args"@ {
        Some(WordVariants::Args)
    } else if value == "return"@ {
        Some(WordVariants::Return)
    } else if value == "const"@ {
        Some(WordVariants::Const)
    } else if value == "if"@ {
        Some(WordVariants::If)
    } else if value == "else"@ {
        Some(WordVariants::Else)
    } else if value == "while"@ {
        Some(WordVariants::While)
    } else if value == "for"@ {
        Some(WordVariants::For)
    } else if value == "continue"@ {
        Some(WordVariants::Continue)
    } else if value == "break"@ {
        Some(WordVariants::Break)
    } else if value == "match"@ {
        Some(WordVariants::Match)
    } else if value == "def"@ {
        Some(WordVariants::Def)
    } else {
        None
    }
}

impl TokenVariant for WordVariants {
    open spec fn accepts(value: Seq<char>) -> bool {
        word_of(value) is Some
    }

    open spec fn spelling(value: Seq<char>) -> Seq<char> {
        value
    }

    open spec fn text(&self) -> Seq<char> {
        match self {
            WordVariants::Func => "func"@,
            WordVariants::Num => "num"@,
            WordVariants::Str => "str"@,
            WordVariants::Bool => "bool"@,
            WordVariants::Args => "args"@,
            WordVariants::Return => "return"@,
            WordVariants::Const => "const"@,
            WordVariants::If => "if"@,
            WordVariants::Else => "else"@,
            WordVariants::While => "while"@,
            WordVariants::For => "for"@,
            WordVariants::Continue => "continue"@,
            WordVariants::Break => "break"@,
            WordVariants::Match => "match"@,
            WordVariants::Def => "def"@,
        }
    }

    open spec fn kind_name() -> Seq<char> {
        "Word"@
    }

    fn new(value: &str) -> (r: Option<Self>)
        ensures
            r == word_of(value@),
    {
        if str_eq(value, "func") {
            Some(WordVariants::Func)
        } else if str_eq(value, "num") {
            Some(WordVariants::Num)
        } else if str_eq(value, "str") {
            Some(WordVariants::Str)
        } else if str_eq(value, "bool") {
            Some(WordVariants::Bool)
        } else if str_eq(value, "args") {
            Some(WordVariants::Args)
        } else if str_eq(value, "return") {
            Some(WordVariants::Return)
        } else if str_eq(value, "const") {
            Some(WordVariants::Const)
        } else if str_eq(value, "if") {
            Some(WordVariants::If)
        } else if str_eq(value, "else") {
            Some(WordVariants::Else)
        } else if str_eq(value, "while") {
            Some(WordVariants::While)
        } else if str_eq(value, "for") {
            Some(WordVariants::For)
        } else if str_eq(value, "continue") {
            Some(WordVariants::Continue)
        } else if str_eq(value, "break") {
            Some(WordVariants::Break)
        } else if str_eq(value, "match") {
            Some(WordVariants::Match)
        } else if str_eq(value, "def") {
            Some(WordVariants::Def)
        } else {
            None
        }
    }

    fn to_string(&self) -> (s: String) {
        match self {
            WordVariants::Func => "func".to_string(),
            WordVariants::Num => "num".to_string(),
            WordVariants::Str => "str".to_string(),
            WordVariants::Bool => "bool".to_string(),
            WordVariants::Args => "args".to_string(),
            WordVariants::Return => "return".to_string(),
            WordVariants::Const => "const".to_string(),
            WordVariants::If => "if".to_string(),
            WordVariants::Else => "else".to_string(),
            WordVariants::While => "while".to_string(),
            WordVariants::For => "for".to_string(),
            WordVariants::Continue => "continue".to_string(),
            WordVariants::Break => "break".to_string(),
            WordVariants::Match => "match".to_string(),
            WordVariants::Def => "def".to_string(),
        }
    }

    fn token_type(&self) -> (s: &str) {
        "Word"
    }
}

/// An identifier: free text.
pub struct NameVariants {
    name: String,
}

impl View for NameVariants {
    type V = Seq<char>;

    closed spec fn view(&self) -> Seq<char> {
        self.name@
    }
}

impl Clone for NameVariants {
    fn clone(&self) -> (r: Self)
        ensures
            r == *self,
    {
        NameVariants { name: self.name.clone() }
    }
}

impl TokenVariant for NameVariants {
    open spec fn accepts(value: Seq<char>) -> bool {
        true
    }

    open spec fn spelling(value: Seq<char>) -> Seq<char> {
        value
    }

    open spec fn text(&self) -> Seq<char> {
        self@
    }

    open spec fn kind_name() -> Seq<char> {
        "Name"@
    }

    fn new(value: &str) -> (r: Option<Self>) {
        Some(NameVariants { name: value.to_string() })
    }

    fn to_string(&self) -> (s: String) {
        self.name.clone()
    }

    fn token_type(&self) -> (s: &str) {
        "Name"
    }
}

/// The text between quotes with the quotes put back around it.
pub open spec fn quoted(content: Seq<char>) -> Seq<char> {
    seq!['"'] + content + seq!['"']
}

/// A string literal. Its view is what stood between the quotes.
pub struct StringVariants {
    content: String,
}

impl View for StringVariants {
    type V = Seq<char>;

    closed spec fn view(&self) -> Seq<char> {
        self.content@
    }
}

impl Clone for StringVariants {
    fn clone(&self) -> (r: Self)
        ensures
            r == *self,
    {
        StringVariants { content: self.content.clone() }
    }
}

impl TokenVariant for StringVariants {
    open spec fn accepts(value: Seq<char>) -> bool {
        true
    }

    open spec fn spelling(value: Seq<char>) -> Seq<char> {
        quoted(value)
    }

    open spec fn text(&self) -> Seq<char> {
        quoted(self@)
    }

    open spec fn kind_name() -> Seq<char> {
        "str"@
    }

    fn new(value: &str) -> (r: Option<Self>)
        ensures
            r matches Some(v) && v@ == value@,
    {
        Some(StringVariants { content: value.to_string() })
    }

    fn to_string(&self) -> (s: String) {
        proof {
            reveal_strlit("\"");
        }
        let mut s = "\"".to_string();
        s.append(self.content.as_str());
        s.append("\"");
        assert(s@ =~= quoted(self@));
        s
    }

    fn token_type(&self) -> (s: &str) {
        "str"
    }
}

/// The truth value that `value` spells, if any.
pub open spec fn boolean_of(value: Seq<char>) -> Option<bool> {
    if value == "true"@ {
        Some(true)
    } else if value == "false"@ {
        Some(false)
    } else {
        None
    }
}

/// The spelling of a truth value.
pub open spec fn boolean_text(b: bool) -> Seq<char> {
    if b {
        "true"@
    } else {
        "false"@
    }
}

/// A boolean literal.
#[derive(Clone, Copy)]
pub struct BooleanVariants {
    value: bool,
}

impl View for BooleanVariants {
    type V = bool;

    closed spec fn view(&self) -> bool {
        self.value
    }
}

impl TokenVariant for BooleanVariants {
    open spec fn accepts(value: Seq<char>) -> bool {
        boolean_of(value) is Some
    }

    open spec fn spelling(value: Seq<char>) -> Seq<char> {
        value
    }

    open spec fn text(&self) -> Seq<char> {
        boolean_text(self@)
    }

    open spec fn kind_name() -> Seq<char> {
        "bool"@
    }

    fn new(value: &str) -> (r: Option<Self>)
        ensures
            r matches Some(v) ==> boolean_of(value@) == Some(v@),
    {
        if str_eq(value, "true") {
            Some(BooleanVariants { value: true })
        } else if str_eq(value, "false") {
            Some(BooleanVariants { value: false })
        } else {
            None
        }
    }

    fn to_string(&self) -> (s: String) {
        if self.value {
            "true".to_string()
        } else {
            "false".to_string()
        }
    }

    fn token_type(&self) -> (s: &str) {
        "bool"
    }
}

/// A number literal, kept as it was spelled.
pub struct NumberVariants {
    text: String,
}

impl View for NumberVariants {
    type V = Seq<char>;

    closed spec fn view(&self) -> Seq<char> {
        self.text@
    }
}

impl Clone for NumberVariants {
    fn clone(&self) -> (r: Self)
        ensures
            r == *self,
    {
        NumberVariants { text: self.text.clone() }
    }
}

impl TokenVariant for NumberVariants {
    open spec fn accepts(value: Seq<char>) -> bool {
        is_number_text(value)
    }

    open spec fn spelling(value: Seq<char>) -> Seq<char> {
        value
    }

    open spec fn text(&self) -> Seq<char> {
        self@
    }

    open spec fn kind_name() -> Seq<char> {
        "num"@
    }

    fn new(value: &str) -> (r: Option<Self>) {
        if is_number(value) {
            Some(NumberVariants { text: value.to_string() })
        } else {
            None
        }
    }

    fn to_string(&self) -> (s: String) {
        self.text.clone()
    }

    fn token_type(&self) -> (s: &str) {
        "num"
    }
}

/// Whether `value` spells a control symbol or a reserved word.
pub open spec fn is_enum_text(value: Seq<char>) -> bool {
    control_of(value) is Some || word_of(value) is Some
}

/// Whether `value` spells a control symbol or a reserved word.
pub fn is_enum_str(value: &str) -> (b: bool)
    ensures
        b == is_enum_text(value@),
{
    ControlVariants::new(value).is_some() || WordVariants::new(value).is_some()
}

/// Whether `token_value` spells a control symbol or a reserved word.
pub fn is_enum_token_variant(token_value: String) -> (b: bool)
    ensures
        b == is_enum_text(token_value@),
{
    is_enum_str(token_value.as_str())
}

/// The control symbol that the one character spells, if any.
pub fn control_of_char(c: char) -> (r: Option<ControlVariants>)
    ensures
        r == control_of(seq![c]),
{
    proof {
        let s = seq![c];
        assert(s.len() == 1 && s[0] == c);
        lemma_control_spellings(s);
    }
    match c {
        ',' => Some(ControlVariants::Comma),
        ';' => Some(ControlVariants::Semicolon),
        '(' => Some(ControlVariants::OpenParanthesis),
        ')' => Some(ControlVariants::CloseParanthesis),
        '{' => Some(ControlVariants::OpenCurly),
        '}' => Some(ControlVariants::CloseCurly),
        '[' => Some(ControlVariants::OpenSquare),
        ']' => Some(ControlVariants::CloseSquare),
        ':' => Some(ControlVariants::Colon),
        '?' => Some(ControlVariants::Questionmark),
        '<' => Some(ControlVariants::Less),
        '>' => Some(ControlVariants::Greater),
        '=' => Some(ControlVariants::Asign),
        '|' => Some(ControlVariants::BitOr),
        '&' => Some(ControlVariants::BitAnd),
        '+' => Some(ControlVariants::Plus),
        '-' => Some(ControlVariants::Minus),
        '*' => Some(ControlVariants::Multiplikation),
        '/' => Some(ControlVariants::Divide),
        '!' => Some(ControlVariants::Not),
        _ => None,
    }
}

/// What a [`TokenTypes`] stands for: the kind of a token together with what
/// it holds.
pub enum TokenKind {
    Control(ControlVariants),
    Word(WordVariants),
    Name(Seq<char>),
    /// A string literal, given by what stands between its quotes.
    String(Seq<char>),
    Number(Seq<char>),
    Boolean(bool),
}

impl TokenKind {
    /// The canonical text: the spelling in the source, and for a string literal
    /// its content between quotes.
    pub open spec fn text(self) -> Seq<char> {
        match self {
            TokenKind::Control(c) => c.text(),
            TokenKind::Word(w) => w.text(),
            TokenKind::Name(n) => n,
            TokenKind::String(s) => quoted(s),
            TokenKind::Number(n) => n,
            TokenKind::Boolean(b) => boolean_text(b),
        }
    }

    /// Whether the token is a number, a truth value or a string literal.
    pub open spec fn is_literal(self) -> bool {
        self is Number || self is Boolean || self is String
    }

    /// The name of the kind; for a literal, the name of its type.
    pub open spec fn kind_name(self) -> Seq<char> {
        match self {
            TokenKind::Control(_) => ControlVariants::kind_name(),
            TokenKind::Word(_) => WordVariants::kind_name(),
            TokenKind::Name(_) => NameVariants::kind_name(),
            TokenKind::String(_) => StringVariants::kind_name(),
            TokenKind::Number(_) => NumberVariants::kind_name(),
            TokenKind::Boolean(_) => BooleanVariants::kind_name(),
        }
    }
}

/// The kind of token that `value` is. A control symbol or a reserved word
/// is always itself, even between quotes; other text is a string literal
/// between quotes and else, in this order, a boolean, a number or a name.
pub open spec fn classify(value: Seq<char>, is_in_string: bool) -> TokenKind {
    if control_of(value) is Some {
        TokenKind::Control(control_of(value)->0)
    } else if word_of(value) is Some {
        TokenKind::Word(word_of(value)->0)
    } else if is_in_string {
        TokenKind::String(value)
    } else if boolean_of(value) is Some {
        TokenKind::Boolean(boolean_of(value)->0)
    } else if is_number_text(value) {
        TokenKind::Number(value)
    } else {
        TokenKind::Name(value)
    }
}

/// A token of one of the six kinds.
pub enum TokenTypes {
    Control(ControlVariants),
    Word(WordVariants),
    Name(NameVariants),
    String(StringVariants),
    Number(NumberVariants),
    Boolean(BooleanVariants),
}

impl View for TokenTypes {
    type V = TokenKind;

    open spec fn view(&self) -> TokenKind {
        match self {
            TokenTypes::Control(c) => TokenKind::Control(*c),
            TokenTypes::Word(w) => TokenKind::Word(*w),
            TokenTypes::Name(n) => TokenKind::Name(n@),
            TokenTypes::String(s) => TokenKind::String(s@),
            TokenTypes::Number(n) => TokenKind::Number(n@),
            TokenTypes::Boolean(b) => TokenKind::Boolean(b@),
        }
    }
}

impl Clone for TokenTypes {
    fn clone(&self) -> (r: Self)
        ensures
            r == *self,
    {
        match self {
            TokenTypes::Control(c) => TokenTypes::Control(*c),
            TokenTypes::Word(w) => TokenTypes::Word(*w),
            TokenTypes::Name(n) => TokenTypes::Name(n.clone()),
            TokenTypes::String(s) => TokenTypes::String(s.clone()),
            TokenTypes::Number(n) => TokenTypes::Number(n.clone()),
            TokenTypes::Boolean(b) => TokenTypes::Boolean(*b),
        }
    }
}

impl TokenTypes {
    /// Classifies `token_value`; `is_in_string` says that it stood between
    /// quotes.
    pub fn new(token_value: &str, is_in_string: bool) -> (t: Self)
        ensures
            t@ == classify(token_value@, is_in_string),
    {
        match ControlVariants::new(token_value) {
            Some(c) => TokenTypes::Control(c),
            None => match WordVariants::new(token_value) {
                Some(w) => TokenTypes::Word(w),
                None => {
                    if is_in_string {
                        TokenTypes::String(StringVariants { content: token_value.to_string() })
                    } else {
                        match BooleanVariants::new(token_value) {
                            Some(b) => TokenTypes::Boolean(b),
                            None => match NumberVariants::new(token_value) {
                                Some(n) => TokenTypes::Number(n),
                                None => TokenTypes::Name(
                                    NameVariants { name: token_value.to_string() },
                                ),
                            },
                        }
                    }
                },
            },
        }
    }

    /// Whether the token is a number, a truth value or a string literal.
    pub fn is_literal(&self) -> (b: bool)
        ensures
            b == self@.is_literal(),
    {
        match self {
            TokenTypes::Number(_) => true,
            TokenTypes::Boolean(_) => true,
            TokenTypes::String(_) => true,
            _ => false,
        }
    }

    /// The canonical text of the token.
    pub fn to_string(&self) -> (s: String)
        ensures
            s@ == self@.text(),
    {
        match self {
            TokenTypes::Control(c) => c.to_string(),
            TokenTypes::Word(w) => w.to_string(),
            TokenTypes::Name(n) => n.to_string(),
            TokenTypes::String(s) => s.to_string(),
            TokenTypes::Number(n) => n.to_string(),
            TokenTypes::Boolean(b) => b.to_string(),
        }
    }

    /// The name of the token's kind; for a literal, the name of its type.
    pub fn token_type(&self) -> (s: &str)
        ensures
            s@ == self@.kind_name(),
    {
        match self {
            TokenTypes::Control(c) => c.token_type(),
            TokenTypes::Word(w) => w.token_type(),
            TokenTypes::Name(n) => n.token_type(),
            TokenTypes::String(s) => s.token_type(),
            TokenTypes::Number(n) => n.token_type(),
            TokenTypes::Boolean(b) => b.token_type(),
        }
    }
}

/// What a [`Token`] stands for.
pub struct TokenView {
    pub kind: TokenKind,
    pub position: PositionView,
}

/// A token with the position at which it was completed.
pub struct Token {
    pub token: TokenTypes,
    pub position: Position,
}

impl View for Token {
    type V = TokenView;

    open spec fn view(&self) -> TokenView {
        TokenView { kind: self.token@, position: self.position@ }
    }
}

impl Clone for Token {
    fn clone(&self) -> (r: Self)
        ensures
            r == *self,
    {
        Token { token: self.token.clone(), position: self.position.clone() }
    }
}

/// The views of a run of tokens.
pub open spec fn token_views(tokens: Seq<Token>) -> Seq<TokenView> {
    tokens.map_values(|t: Token| t@)
}

/// The rendering of a token for a trace: `{ token: '<text>', position: '<position>' }`.
pub open spec fn token_trace(t: TokenView) -> Seq<char> {
    "{ token: '"@ + t.kind.text() + "', position: '"@ + t.position.text() + "' }"@
}

impl Token {
    /// The token that `token_value` is, at `pos`; `is_in_string` says that
    /// the text stood between quotes.
    pub fn new(token_value: String, pos: Position, is_in_string: bool) -> (t: Token)
        ensures
            t@ == (TokenView { kind: classify(token_value@, is_in_string), position: pos@ }),
    {
        Token { token: TokenTypes::new(token_value.as_str(), is_in_string), position: pos }
    }

    /// The rendering of the token for a trace.
    pub fn debug_string(&self) -> (s: String)
        ensures
            s@ == token_trace(self@),
    {
        let mut s = "{ token: '".to_string();
        let text = self.token.to_string();
        s.append(text.as_str());
        s.append("', position: '");
        self.position.write_to(&mut s);
        s.append("' }");
        assert(s@ =~= token_trace(self@));
        s
    }
}

} // verus!
