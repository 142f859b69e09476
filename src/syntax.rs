use vstd::prelude::*;

verus! {

/// The terminal categories produced by the tokenizer.
#[derive(Debug, Clone, Copy, PartialEq, Eq, Structural)]
pub enum TokenKind {
    FuncKw,
    SetKw,
    SemiColon,
    Identifier,
    Number,
    String,
    Plus,
    Minus,
    Asterisk,
    Slash,
    Equals,
    LBrace,
    RBrace,
    LParen,
    RParen,
    Whitespace,
    Comment,
    Error,
}

impl TokenKind {
    pub open spec fn spec_is_trivia(self) -> bool {
        self == TokenKind::Whitespace || self == TokenKind::Comment
    }

    /// Whitespace and comments carry no grammatical meaning.
    pub fn is_trivia(self) -> (r: bool)
        ensures
            r == self.spec_is_trivia(),
    {
        match self {
            TokenKind::Whitespace | TokenKind::Comment => true,
            _ => false,
        }
    }

    /// The human-readable name used in diagnostics.
    pub fn name(self) -> (r: &'static str)
        ensures
            r@ == token_kind_name(self),
    {
        match self {
            TokenKind::Whitespace => "whitespace",
            TokenKind::FuncKw => "'func'",
            TokenKind::SetKw => "'set'",
            TokenKind::SemiColon => "';'",
            TokenKind::Identifier => "identifier",
            TokenKind::Number => "number",
            TokenKind::String => "string",
            TokenKind::Plus => "'+'",
            TokenKind::Minus => "'-'",
            TokenKind::Asterisk => "'*'",
            TokenKind::Slash => "'/'",
            TokenKind::Equals => "'='",
            TokenKind::LParen => "'('",
            TokenKind::RParen => "')'",
            TokenKind::LBrace => "'{'",
            TokenKind::RBrace => "'}'",
            TokenKind::Comment => "comment",
            TokenKind::Error => "an unrecognized token",
        }
    }
}

pub open spec fn token_kind_name(k: TokenKind) -> Seq<char> {
    match k {
        TokenKind::Whitespace => "whitespace"@,
        TokenKind::FuncKw => "'func'"@,
        TokenKind::SetKw => "'set'"@,
        TokenKind::SemiColon => "';'"@,
        TokenKind::Identifier => "identifier"@,
        TokenKind::Number => "number"@,
        TokenKind::String => "string"@,
        TokenKind::Plus => "'+'"@,
        TokenKind::Minus => "'-'"@,
        TokenKind::Asterisk => "'*'"@,
        TokenKind::Slash => "'/'"@,
        TokenKind::Equals => "'='"@,
        TokenKind::LParen => "'('"@,
        TokenKind::RParen => "')'"@,
        TokenKind::LBrace => "'{'"@,
        TokenKind::RBrace => "'}'"@,
        TokenKind::Comment => "comment"@,
        TokenKind::Error => "an unrecognized token"@,
    }
}

/// Every kind that can label a tree element: the token kinds and the composite node kinds.
#[derive(Debug, Clone, Copy, PartialEq, Eq, Structural, PartialOrd, Ord, Hash)]
pub enum SyntaxKind {
    Whitespace,
    FuncKw,
    SetKw,
    SemiColon,
    Identifier,
    Number,
    String,
    Plus,
    Minus,
    Asterisk,
    Slash,
    Equals,
    LParen,
    RParen,
    LBrace,
    RBrace,
    Comment,
    Error,
    Root,
    InfixExpr,
    Literal,
    ParenExpr,
    PrefixExpr,
    VariableRef,
    VariableDef,
}

/// The syntax kind that labels a token of the given kind.
pub open spec fn syntax_kind_of(k: TokenKind) -> SyntaxKind {
    match k {
        TokenKind::Whitespace => SyntaxKind::Whitespace,
        TokenKind::FuncKw => SyntaxKind::FuncKw,
        TokenKind::SetKw => SyntaxKind::SetKw,
        TokenKind::SemiColon => SyntaxKind::SemiColon,
        TokenKind::Identifier => SyntaxKind::Identifier,
        TokenKind::Number => SyntaxKind::Number,
        TokenKind::String => SyntaxKind::String,
        TokenKind::Plus => SyntaxKind::Plus,
        TokenKind::Minus => SyntaxKind::Minus,
        TokenKind::Asterisk => SyntaxKind::Asterisk,
        TokenKind::Slash => SyntaxKind::Slash,
        TokenKind::Equals => SyntaxKind::Equals,
        TokenKind::LParen => SyntaxKind::LParen,
        TokenKind::RParen => SyntaxKind::RParen,
        TokenKind::LBrace => SyntaxKind::LBrace,
        TokenKind::RBrace => SyntaxKind::RBrace,
        TokenKind::Comment => SyntaxKind::Comment,
        TokenKind::Error => SyntaxKind::Error,
    }
}

impl From<TokenKind> for SyntaxKind {
    fn from(token_kind: TokenKind) -> (r: SyntaxKind)
        ensures
            r == syntax_kind_of(token_kind),
    {
        match token_kind {
            TokenKind::Whitespace => SyntaxKind::Whitespace,
            TokenKind::FuncKw => SyntaxKind::FuncKw,
            TokenKind::SetKw => SyntaxKind::SetKw,
            TokenKind::SemiColon => SyntaxKind::SemiColon,
            TokenKind::Identifier => SyntaxKind::Identifier,
            TokenKind::Number => SyntaxKind::Number,
            TokenKind::String => SyntaxKind::String,
            TokenKind::Plus => SyntaxKind::Plus,
            TokenKind::Minus => SyntaxKind::Minus,
            TokenKind::Asterisk => SyntaxKind::Asterisk,
            TokenKind::Slash => SyntaxKind::Slash,
            TokenKind::Equals => SyntaxKind::Equals,
            TokenKind::LParen => SyntaxKind::LParen,
            TokenKind::RParen => SyntaxKind::RParen,
            TokenKind::LBrace => SyntaxKind::LBrace,
            TokenKind::RBrace => SyntaxKind::RBrace,
            TokenKind::Comment => SyntaxKind::Comment,
            TokenKind::Error => SyntaxKind::Error,
        }
    }
}

impl vstd::std_specs::convert::FromSpecImpl<TokenKind> for SyntaxKind {
    open spec fn obeys_from_spec() -> bool {
        true
    }

    open spec fn from_spec(token_kind: TokenKind) -> SyntaxKind {
        syntax_kind_of(token_kind)
    }
}

/// The raw number of each kind, in declaration order.
pub open spec fn raw_of(k: SyntaxKind) -> u16 {
    match k {
        SyntaxKind::Whitespace => 0,
        SyntaxKind::FuncKw => 1,
        SyntaxKind::SetKw => 2,
        SyntaxKind::SemiColon => 3,
        SyntaxKind::Identifier => 4,
        SyntaxKind::Number => 5,
        SyntaxKind::String => 6,
        SyntaxKind::Plus => 7,
        SyntaxKind::Minus => 8,
        SyntaxKind::Asterisk => 9,
        SyntaxKind::Slash => 10,
        SyntaxKind::Equals => 11,
        SyntaxKind::LParen => 12,
        SyntaxKind::RParen => 13,
        SyntaxKind::LBrace => 14,
        SyntaxKind::RBrace => 15,
        SyntaxKind::Comment => 16,
        SyntaxKind::Error => 17,
        SyntaxKind::Root => 18,
        SyntaxKind::InfixExpr => 19,
        SyntaxKind::Literal => 20,
        SyntaxKind::ParenExpr => 21,
        SyntaxKind::PrefixExpr => 22,
        SyntaxKind::VariableRef => 23,
        SyntaxKind::VariableDef => 24,
    }
}

/// The number of syntax kinds; raw numbers run from zero up to, not including, this bound.
pub const SYNTAX_KIND_COUNT: u16 = 25;

impl SyntaxKind {
    pub open spec fn spec_is_trivia(self) -> bool {
        self == SyntaxKind::Whitespace || self == SyntaxKind::Comment
    }

    pub fn is_trivia(self) -> (r: bool)
        ensures
            r == self.spec_is_trivia(),
    {
        match self {
            SyntaxKind::Whitespace | SyntaxKind::Comment => true,
            _ => false,
        }
    }

    /// The human-readable name used in diagnostics.
    pub fn name(self) -> (r: &'static str)
        ensures
            r@ == syntax_kind_name(self),
    {
        match self {
            SyntaxKind::Whitespace => "whitespace",
            SyntaxKind::FuncKw => "'func'",
            SyntaxKind::SetKw => "'set'",
            SyntaxKind::SemiColon => "';'",
            SyntaxKind::Identifier => "identifier",
            SyntaxKind::Number => "number",
            SyntaxKind::String => "string",
            SyntaxKind::Plus => "'+'",
            SyntaxKind::Minus => "'-'",
            SyntaxKind::Asterisk => "'*'",
            SyntaxKind::Slash => "'/'",
            SyntaxKind::Equals => "'='",
            SyntaxKind::LParen => "'('",
            SyntaxKind::RParen => "')'",
            SyntaxKind::LBrace => "'{'",
            SyntaxKind::RBrace => "'}'",
            SyntaxKind::Comment => "comment",
            SyntaxKind::Error => "an unrecognized token",
            SyntaxKind::Root => "root",
            SyntaxKind::InfixExpr => "infix expression",
            SyntaxKind::Literal => "literal",
            SyntaxKind::ParenExpr => "parenthesized expression",
            SyntaxKind::PrefixExpr => "prefix expression",
            SyntaxKind::VariableRef => "variable reference",
            SyntaxKind::VariableDef => "variable definition",
        }
    }

    /// The identifier of the kind, as written in the tree's debug output.
    pub fn label(self) -> (r: &'static str)
        ensures
            r@ == syntax_kind_label(self),
    {
        match self {
            SyntaxKind::Whitespace => "Whitespace",
            SyntaxKind::FuncKw => "FuncKw",
            SyntaxKind::SetKw => "SetKw",
            SyntaxKind::SemiColon => "SemiColon",
            SyntaxKind::Identifier => "Identifier",
            SyntaxKind::Number => "Number",
            SyntaxKind::String => "String",
            SyntaxKind::Plus => "Plus",
            SyntaxKind::Minus => "Minus",
            SyntaxKind::Asterisk => "Asterisk",
            SyntaxKind::Slash => "Slash",
            SyntaxKind::Equals => "Equals",
            SyntaxKind::LParen => "LParen",
            SyntaxKind::RParen => "RParen",
            SyntaxKind::LBrace => "LBrace",
            SyntaxKind::RBrace => "RBrace",
            SyntaxKind::Comment => "Comment",
            SyntaxKind::Error => "Error",
            SyntaxKind::Root => "Root",
            SyntaxKind::InfixExpr => "InfixExpr",
            SyntaxKind::Literal => "Literal",
            SyntaxKind::ParenExpr => "ParenExpr",
            SyntaxKind::PrefixExpr => "PrefixExpr",
            SyntaxKind::VariableRef => "VariableRef",
            SyntaxKind::VariableDef => "VariableDef",
        }
    }
}

pub open spec fn syntax_kind_name(k: SyntaxKind) -> Seq<char> {
    match k {
        SyntaxKind::Whitespace => "whitespace"@,
        SyntaxKind::FuncKw => "'func'"@,
        SyntaxKind::SetKw => "'set'"@,
        SyntaxKind::SemiColon => "';'"@,
        SyntaxKind::Identifier => "identifier"@,
        SyntaxKind::Number => "number"@,
        SyntaxKind::String => "string"@,
        SyntaxKind::Plus => "'+'"@,
        SyntaxKind::Minus => "'-'"@,
        SyntaxKind::Asterisk => "'*'"@,
        SyntaxKind::Slash => "'/'"@,
        SyntaxKind::Equals => "'='"@,
        SyntaxKind::LParen => "'('"@,
        SyntaxKind::RParen => "')'"@,
        SyntaxKind::LBrace => "'{'"@,
        SyntaxKind::RBrace => "'}'"@,
        SyntaxKind::Comment => "comment"@,
        SyntaxKind::Error => "an unrecognized token"@,
        SyntaxKind::Root => "root"@,
        SyntaxKind::InfixExpr => "infix expression"@,
        SyntaxKind::Literal => "literal"@,
        SyntaxKind::ParenExpr => "parenthesized expression"@,
        SyntaxKind::PrefixExpr => "prefix expression"@,
        SyntaxKind::VariableRef => "variable reference"@,
        SyntaxKind::VariableDef => "variable definition"@,
    }
}

pub open spec fn syntax_kind_label(k: SyntaxKind) -> Seq<char> {
    match k {
        SyntaxKind::Whitespace => "Whitespace"@,
        SyntaxKind::FuncKw => "FuncKw"@,
        SyntaxKind::SetKw => "SetKw"@,
        SyntaxKind::SemiColon => "SemiColon"@,
        SyntaxKind::Identifier => "Identifier"@,
        SyntaxKind::Number => "Number"@,
        SyntaxKind::String => "String"@,
        SyntaxKind::Plus => "Plus"@,
        SyntaxKind::Minus => "Minus"@,
        SyntaxKind::Asterisk => "Asterisk"@,
        SyntaxKind::Slash => "Slash"@,
        SyntaxKind::Equals => "Equals"@,
        SyntaxKind::LParen => "LParen"@,
        SyntaxKind::RParen => "RParen"@,
        SyntaxKind::LBrace => "LBrace"@,
        SyntaxKind::RBrace => "RBrace"@,
        SyntaxKind::Comment => "Comment"@,
        SyntaxKind::Error => "Error"@,
        SyntaxKind::Root => "Root"@,
        SyntaxKind::InfixExpr => "InfixExpr"@,
        SyntaxKind::Literal => "Literal"@,
        SyntaxKind::ParenExpr => "ParenExpr"@,
        SyntaxKind::PrefixExpr => "PrefixExpr"@,
        SyntaxKind::VariableRef => "VariableRef"@,
        SyntaxKind::VariableDef => "VariableDef"@,
    }
}

/// The language tag that maps syntax kinds to and from their raw numbers.
#[derive(Debug, Clone, Copy, PartialEq, Eq, Structural)]
pub enum MonkeLanguage {
    Monke,
}

impl MonkeLanguage {
    /// The kind with the given raw number.
    pub fn kind_from_raw(raw: u16) -> (r: SyntaxKind)
        requires
            raw < SYNTAX_KIND_COUNT,
        ensures
            raw_of(r) == raw,
    {
        match raw {
            0 => SyntaxKind::Whitespace,
            1 => SyntaxKind::FuncKw,
            2 => SyntaxKind::SetKw,
            3 => SyntaxKind::SemiColon,
            4 => SyntaxKind::Identifier,
            5 => SyntaxKind::Number,
            6 => SyntaxKind::String,
            7 => SyntaxKind::Plus,
            8 => SyntaxKind::Minus,
            9 => SyntaxKind::Asterisk,
            10 => SyntaxKind::Slash,
            11 => SyntaxKind::Equals,
            12 => SyntaxKind::LParen,
            13 => SyntaxKind::RParen,
            14 => SyntaxKind::LBrace,
            15 => SyntaxKind::RBrace,
            16 => SyntaxKind::Comment,
            17 => SyntaxKind::Error,
            18 => SyntaxKind::Root,
            19 => SyntaxKind::InfixExpr,
            20 => SyntaxKind::Literal,
            21 => SyntaxKind::ParenExpr,
            22 => SyntaxKind::PrefixExpr,
            23 => SyntaxKind::VariableRef,
            _ => SyntaxKind::VariableDef,
        }
    }

    /// The raw number of the given kind.
    pub fn kind_to_raw(kind: SyntaxKind) -> (r: u16)
        ensures
            r == raw_of(kind),
            r < SYNTAX_KIND_COUNT,
    {
        match kind {
            SyntaxKind::Whitespace => 0,
            SyntaxKind::FuncKw => 1,
            SyntaxKind::SetKw => 2,
            SyntaxKind::SemiColon => 3,
            SyntaxKind::Identifier => 4,
            SyntaxKind::Number => 5,
            SyntaxKind::String => 6,
            SyntaxKind::Plus => 7,
            SyntaxKind::Minus => 8,
            SyntaxKind::Asterisk => 9,
            SyntaxKind::Slash => 10,
            SyntaxKind::Equals => 11,
            SyntaxKind::LParen => 12,
            SyntaxKind::RParen => 13,
            SyntaxKind::LBrace => 14,
            SyntaxKind::RBrace => 15,
            SyntaxKind::Comment => 16,
            SyntaxKind::Error => 17,
            SyntaxKind::Root => 18,
            SyntaxKind::InfixExpr => 19,
            SyntaxKind::Literal => 20,
            SyntaxKind::ParenExpr => 21,
            SyntaxKind::PrefixExpr => 22,
            SyntaxKind::VariableRef => 23,
            SyntaxKind::VariableDef => 24,
        }
    }
}

/// Distinct kinds have distinct raw numbers, and the raw mapping can be undone.
pub proof fn lemma_raw_round_trip(k: SyntaxKind, j: SyntaxKind)
    ensures
        raw_of(k) < SYNTAX_KIND_COUNT,
        raw_of(k) == raw_of(j) ==> k == j,
{
}

} // verus!
