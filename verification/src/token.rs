//! Token kinds, tokens, and the ordered table of patterns that defines the
//! lexical grammar.
use crate::matching::{
    compile, describe, error_words, find, pattern_accepted, pattern_find, refusal_words,
    regex_source,
};
use crate::text::{decimal, push_decimal};
use regex::Regex;
use std::ops::Range;
use vstd::prelude::*;
use vstd::string::*;
use vstd::utf8::*;

verus! {

/// The lexical categories of the language.
#[derive(Debug, Copy, Clone, PartialEq, Eq, Structural)]
pub enum TokenKind {
    // keywords
    FROM_KEYWORD,
    IMPORT_KEYWORD,
    CONST_KEYWORD,
    VAR_KEYWORD,
    RETURN_KEYWORD,
    IF_KEYWORD,
    ELSE_KEYWORD,
    ELSEIF_KEYWORD,
    MATCH_KEYWORD,
    WHILE_KEYWORD,
    FOR_KEYWORD,
    FN_KEYWORD,
    STRUCT_KEYWORD,
    ENUM_KEYWORD,
    IDENTIFIER,
    // literals
    COMMENT,
    STRING_LITERAL,
    FLOAT_LITERAL,
    INT_LITERAL,
    // logical operators
    AND,
    OR,
    XOR,
    NOT,
    EQ,
    NOT_EQ,
    GREATER,
    LESS,
    GREATER_EQ,
    LESS_EQ,
    // arithmetic operators
    POW,
    ADD,
    SUB,
    DIV,
    MUL,
    MOD,
    // assignment operators
    ASSIGN,
    ADD_ASSIGN,
    SUB_ASSIGN,
    DIV_ASSIGN,
    MUL_ASSIGN,
    MOD_ASSIGN,
    POW_ASSIGN,
    AND_ASSIGN,
    OR_ASSIGN,
    XOR_ASSIGN,
    // misc operators
    RETURNS_OP,
    // parenthesis
    L_BRACKET,
    R_BRACKET,
    L_CURLY,
    R_CURLY,
    L_PAREN,
    R_PAREN,
    L_CARET,
    R_CARET,
    // punctuation
    COMMA,
    DOT,
    COLON,
    SEMICOLON,
    // misc
    WHITESPACE,
    EOF,
}

impl TokenKind {
    /// The name of the kind: the identifier it is declared under.
    pub open spec fn label(self) -> Seq<char> {
        match self {
            TokenKind::FROM_KEYWORD => "FROM_KEYWORD"@,
            TokenKind::IMPORT_KEYWORD => "IMPORT_KEYWORD"@,
            TokenKind::CONST_KEYWORD => "CONST_KEYWORD"@,
            TokenKind::VAR_KEYWORD => "VAR_KEYWORD"@,
            TokenKind::RETURN_KEYWORD => "RETURN_KEYWORD"@,
            TokenKind::IF_KEYWORD => "IF_KEYWORD"@,
            TokenKind::ELSE_KEYWORD => "ELSE_KEYWORD"@,
            TokenKind::ELSEIF_KEYWORD => "ELSEIF_KEYWORD"@,
            TokenKind::MATCH_KEYWORD => "MATCH_KEYWORD"@,
            TokenKind::WHILE_KEYWORD => "WHILE_KEYWORD"@,
            TokenKind::FOR_KEYWORD => "FOR_KEYWORD"@,
            TokenKind::FN_KEYWORD => "FN_KEYWORD"@,
            TokenKind::STRUCT_KEYWORD => "STRUCT_KEYWORD"@,
            TokenKind::ENUM_KEYWORD => "ENUM_KEYWORD"@,
            TokenKind::IDENTIFIER => "IDENTIFIER"@,
            TokenKind::COMMENT => "COMMENT"@,
            TokenKind::STRING_LITERAL => "STRING_LITERAL"@,
            TokenKind::FLOAT_LITERAL => "FLOAT_LITERAL"@,
            TokenKind::INT_LITERAL => "INT_LITERAL"@,
            TokenKind::AND => "AND"@,
            TokenKind::OR => "OR"@,
            TokenKind::XOR => "XOR"@,
            TokenKind::NOT => "NOT"@,
            TokenKind::EQ => "EQ"@,
            TokenKind::NOT_EQ => "NOT_EQ"@,
            TokenKind::GREATER => "GREATER"@,
            TokenKind::LESS => "LESS"@,
            TokenKind::GREATER_EQ => "GREATER_EQ"@,
            TokenKind::LESS_EQ => "LESS_EQ"@,
            TokenKind::POW => "POW"@,
            TokenKind::ADD => "ADD"@,
            TokenKind::SUB => "SUB"@,
            TokenKind::DIV => "DIV"@,
            TokenKind::MUL => "MUL"@,
            TokenKind::MOD => "MOD"@,
            TokenKind::ASSIGN => "ASSIGN"@,
            TokenKind::ADD_ASSIGN => "ADD_ASSIGN"@,
            TokenKind::SUB_ASSIGN => "SUB_ASSIGN"@,
            TokenKind::DIV_ASSIGN => "DIV_ASSIGN"@,
            TokenKind::MUL_ASSIGN => "MUL_ASSIGN"@,
            TokenKind::MOD_ASSIGN => "MOD_ASSIGN"@,
            TokenKind::POW_ASSIGN => "POW_ASSIGN"@,
            TokenKind::AND_ASSIGN => "AND_ASSIGN"@,
            TokenKind::OR_ASSIGN => "OR_ASSIGN"@,
            TokenKind::XOR_ASSIGN => "XOR_ASSIGN"@,
            TokenKind::RETURNS_OP => "RETURNS_OP"@,
            TokenKind::L_BRACKET => "L_BRACKET"@,
            TokenKind::R_BRACKET => "R_BRACKET"@,
            TokenKind::L_CURLY => "L_CURLY"@,
            TokenKind::R_CURLY => "R_CURLY"@,
            TokenKind::L_PAREN => "L_PAREN"@,
            TokenKind::R_PAREN => "R_PAREN"@,
            TokenKind::L_CARET => "L_CARET"@,
            TokenKind::R_CARET => "R_CARET"@,
            TokenKind::COMMA => "COMMA"@,
            TokenKind::DOT => "DOT"@,
            TokenKind::COLON => "COLON"@,
            TokenKind::SEMICOLON => "SEMICOLON"@,
            TokenKind::WHITESPACE => "WHITESPACE"@,
            TokenKind::EOF => "EOF"@,
        }
    }

    /// The name of the kind, as text.
    pub fn name(&self) -> (name: &'static str)
        ensures
            name@ == self.label(),
    {
        match self {
            TokenKind::FROM_KEYWORD => "FROM_KEYWORD",
            TokenKind::IMPORT_KEYWORD => "IMPORT_KEYWORD",
            TokenKind::CONST_KEYWORD => "CONST_KEYWORD",
            TokenKind::VAR_KEYWORD => "VAR_KEYWORD",
            TokenKind::RETURN_KEYWORD => "RETURN_KEYWORD",
            TokenKind::IF_KEYWORD => "IF_KEYWORD",
            TokenKind::ELSE_KEYWORD => "ELSE_KEYWORD",
            TokenKind::ELSEIF_KEYWORD => "ELSEIF_KEYWORD",
            TokenKind::MATCH_KEYWORD => "MATCH_KEYWORD",
            TokenKind::WHILE_KEYWORD => "WHILE_KEYWORD",
            TokenKind::FOR_KEYWORD => "FOR_KEYWORD",
            TokenKind::FN_KEYWORD => "FN_KEYWORD",
            TokenKind::STRUCT_KEYWORD => "STRUCT_KEYWORD",
            TokenKind::ENUM_KEYWORD => "ENUM_KEYWORD",
            TokenKind::IDENTIFIER => "IDENTIFIER",
            TokenKind::COMMENT => "COMMENT",
            TokenKind::STRING_LITERAL => "STRING_LITERAL",
            TokenKind::FLOAT_LITERAL => "FLOAT_LITERAL",
            TokenKind::INT_LITERAL => "INT_LITERAL",
            TokenKind::AND => "AND",
            TokenKind::OR => "OR",
            TokenKind::XOR => "XOR",
            TokenKind::NOT => "NOT",
            TokenKind::EQ => "EQ",
            TokenKind::NOT_EQ => "NOT_EQ",
            TokenKind::GREATER => "GREATER",
            TokenKind::LESS => "LESS",
            TokenKind::GREATER_EQ => "GREATER_EQ",
            TokenKind::LESS_EQ => "LESS_EQ",
            TokenKind::POW => "POW",
            TokenKind::ADD => "ADD",
            TokenKind::SUB => "SUB",
            TokenKind::DIV => "DIV",
            TokenKind::MUL => "MUL",
            TokenKind::MOD => "MOD",
            TokenKind::ASSIGN => "ASSIGN",
            TokenKind::ADD_ASSIGN => "ADD_ASSIGN",
            TokenKind::SUB_ASSIGN => "SUB_ASSIGN",
            TokenKind::DIV_ASSIGN => "DIV_ASSIGN",
            TokenKind::MUL_ASSIGN => "MUL_ASSIGN",
            TokenKind::MOD_ASSIGN => "MOD_ASSIGN",
            TokenKind::POW_ASSIGN => "POW_ASSIGN",
            TokenKind::AND_ASSIGN => "AND_ASSIGN",
            TokenKind::OR_ASSIGN => "OR_ASSIGN",
            TokenKind::XOR_ASSIGN => "XOR_ASSIGN",
            TokenKind::RETURNS_OP => "RETURNS_OP",
            TokenKind::L_BRACKET => "L_BRACKET",
            TokenKind::R_BRACKET => "R_BRACKET",
            TokenKind::L_CURLY => "L_CURLY",
            TokenKind::R_CURLY => "R_CURLY",
            TokenKind::L_PAREN => "L_PAREN",
            TokenKind::R_PAREN => "R_PAREN",
            TokenKind::L_CARET => "L_CARET",
            TokenKind::R_CARET => "R_CARET",
            TokenKind::COMMA => "COMMA",
            TokenKind::DOT => "DOT",
            TokenKind::COLON => "COLON",
            TokenKind::SEMICOLON => "SEMICOLON",
            TokenKind::WHITESPACE => "WHITESPACE",
            TokenKind::EOF => "EOF",
        }
    }
}

/// A token: its kind and the half-open range of byte offsets it occupies in
/// the source text.
#[derive(Debug)]
pub struct Token {
    pub kind: TokenKind,
    pub span: Range<usize>,
}

impl Token {
    pub fn new(kind: TokenKind, span: Range<usize>) -> (token: Token)
        ensures
            token.kind == kind,
            token.span == span,
    {
        Token { kind, span }
    }

    /// The short form of the token: its kind's name, a colon and its span,
    /// as in `IDENTIFIER: 0..7`.
    pub open spec fn short_text(self) -> Seq<char> {
        self.kind.label() + ": "@ + decimal(self.span.start as nat) + ".."@ + decimal(
            self.span.end as nat,
        )
    }

    /// The long form of the token, which names its fields, as in
    /// `Token { kind: IDENTIFIER, span: 0..7 }`.
    pub open spec fn long_text(self) -> Seq<char> {
        "Token { kind: "@ + self.kind.label() + ", span: "@ + decimal(self.span.start as nat)
            + ".."@ + decimal(self.span.end as nat) + " }"@
    }

    /// Renders the token in its short form.
    pub fn to_string(&self) -> (text: String)
        ensures
            text@ == self.short_text(),
    {
        let mut text = String::new();
        text.append(self.kind.name());
        text.append(": ");
        push_decimal(&mut text, self.span.start);
        text.append("..");
        push_decimal(&mut text, self.span.end);
        text
    }

    /// Appends the long form of the token to `out`.
    pub fn push_long_text(&self, out: &mut String)
        ensures
            final(out)@ == old(out)@ + self.long_text(),
    {
        out.append("Token { kind: ");
        out.append(self.kind.name());
        out.append(", span: ");
        push_decimal(out, self.span.start);
        out.append("..");
        push_decimal(out, self.span.end);
        out.append(" }");
    }
}

/// One entry of the pattern table: a compiled expression and the kind of the
/// tokens it yields. Its rank is its position in the table.
pub struct TokenPattern {
    pub pattern: Regex,
    pub token_kind: TokenKind,
}

/// What a [`TokenPattern`] stands for: the text of its expression and its
/// kind.
pub struct Rule {
    pub pattern: Seq<char>,
    pub kind: TokenKind,
}

/// A pattern text that the expression engine refused, and the engine's words
/// about it.
#[derive(Debug)]
pub struct PatternError {
    pub pattern: String,
    pub reason: String,
}

impl View for TokenPattern {
    type V = Rule;

    open spec fn view(&self) -> Rule {
        Rule { pattern: regex_source(&self.pattern), kind: self.token_kind }
    }
}

/// The rules that a table of patterns stands for, in table order.
pub open spec fn rules_of(table: Seq<TokenPattern>) -> Seq<Rule> {
    Seq::new(table.len(), |i: int| table[i]@)
}

/// The length of the prefix of `rest` that a search result stands for.
///
/// `found` holds the offsets of the leftmost match of an expression in the
/// text with the bytes `rest`. It counts as a match at the scan position only
/// if it starts at offset 0, is not empty and ends inside the text on a
/// character boundary.
pub open spec fn accepted_length(found: Option<(usize, usize)>, rest: Seq<u8>) -> Option<usize> {
    match found {
        Some((start, end)) => if start == 0 && 0 < end <= rest.len() && is_char_boundary(
            rest,
            end as int,
        ) {
            Some(end)
        } else {
            None
        },
        None => None,
    }
}

/// The length of the prefix of `rest` that the expression with the source
/// `pattern` matches, if it matches one.
pub open spec fn rule_match(pattern: Seq<char>, rest: Seq<u8>) -> Option<usize> {
    accepted_length(pattern_find(pattern, rest), rest)
}

/// Decides whether a search result is a match at the start of `rest`, and
/// gives its length.
pub fn match_length(found: Option<(usize, usize)>, rest: &str) -> (length: Option<usize>)
    ensures
        length == accepted_length(found, rest.spec_bytes()),
{
    proof {
        encode_utf8_valid_utf8(rest@);
    }
    match found {
        Some((start, end)) => {
            if start == 0 && 0 < end && rest.is_char_boundary(end) {
                Some(end)
            } else {
                None
            }
        },
        None => None,
    }
}

impl TokenPattern {
    /// Compiles `pattern` into a table entry for `token_kind`.
    ///
    /// It succeeds exactly on the texts that the engine accepts. The error
    /// holds the text and the engine's words about it.
    pub fn new(pattern: &str, token_kind: TokenKind) -> (made: Result<TokenPattern, PatternError>)
        ensures
            made is Ok <==> pattern_accepted(pattern@),
            made matches Ok(entry) ==> entry@ == (Rule { pattern: pattern@, kind: token_kind }),
            made matches Err(error) ==> error.pattern@ == pattern@ && error.reason@
                == refusal_words(pattern@),
    {
        TokenPattern::from_compiled(compile(pattern), pattern, token_kind)
    }

    /// Turns the engine's answer for `pattern` into a table entry or an error
    /// of this library.
    pub fn from_compiled(
        compiled: Result<Regex, regex::Error>,
        pattern: &str,
        token_kind: TokenKind,
    ) -> (made: Result<TokenPattern, PatternError>)
        ensures
            match compiled {
                Ok(expression) => made matches Ok(entry) && entry.pattern == expression
                    && entry.token_kind == token_kind,
                Err(cause) => made matches Err(error) && error.pattern@ == pattern@
                    && error.reason@ == error_words(&cause),
            },
    {
        match compiled {
            Ok(expression) => Ok(TokenPattern { pattern: expression, token_kind }),
            Err(cause) => Err(
                PatternError { pattern: pattern.to_owned(), reason: describe(&cause) },
            ),
        }
    }

    /// The length of the prefix of `rest` that this entry matches, if it
    /// matches one.
    pub fn match_prefix(&self, rest: &str) -> (length: Option<usize>)
        ensures
            length == rule_match(self@.pattern, rest.spec_bytes()),
    {
        match_length(find(&self.pattern, rest), rest)
    }
}

/// The number of rules in the built-in table.
pub const RULE_COUNT: usize = 57;

/// The built-in table: the lexical grammar of the language, most specific
/// rule first.
///
/// The first rule that matches at the scan position wins, whatever the length
/// of its match. So a keyword ends at a word boundary and stands before the
/// identifier rule, `else if` stands before `else`, and an operator of several
/// characters stands before the operators it starts with.
pub open spec fn default_rules() -> Seq<Rule> {
    seq![
        // keywords
        Rule { pattern: r"^const\b"@, kind: TokenKind::CONST_KEYWORD },
        Rule { pattern: r"^var\b"@, kind: TokenKind::VAR_KEYWORD },
        Rule { pattern: r"^return\b"@, kind: TokenKind::RETURN_KEYWORD },
        Rule { pattern: r"^if\b"@, kind: TokenKind::IF_KEYWORD },
        Rule { pattern: r"^else if\b"@, kind: TokenKind::ELSEIF_KEYWORD },
        Rule { pattern: r"^else\b"@, kind: TokenKind::ELSE_KEYWORD },
        Rule { pattern: r"^match\b"@, kind: TokenKind::MATCH_KEYWORD },
        Rule { pattern: r"^while\b"@, kind: TokenKind::WHILE_KEYWORD },
        Rule { pattern: r"^for\b"@, kind: TokenKind::FOR_KEYWORD },
        Rule { pattern: r"^fn\b"@, kind: TokenKind::FN_KEYWORD },
        Rule { pattern: r"^struct\b"@, kind: TokenKind::STRUCT_KEYWORD },
        Rule { pattern: r"^enum\b"@, kind: TokenKind::ENUM_KEYWORD },
        Rule { pattern: r"^[a-zA-Z_][a-zA-Z0-9_]*"@, kind: TokenKind::IDENTIFIER },
        // literals
        Rule { pattern: r"^\/\/.*"@, kind: TokenKind::COMMENT },
        Rule { pattern: r#"^"[^"]*""#@, kind: TokenKind::STRING_LITERAL },
        Rule { pattern: r"^[0-9]*\.[0-9]+"@, kind: TokenKind::FLOAT_LITERAL },
        Rule { pattern: r"^[0-9]+"@, kind: TokenKind::INT_LITERAL },
        // composite operators
        Rule { pattern: r"^=="@, kind: TokenKind::EQ },
        Rule { pattern: r"^!="@, kind: TokenKind::NOT_EQ },
        Rule { pattern: r"^>="@, kind: TokenKind::GREATER_EQ },
        Rule { pattern: r"^<="@, kind: TokenKind::LESS_EQ },
        Rule { pattern: r"^\+="@, kind: TokenKind::ADD_ASSIGN },
        Rule { pattern: r"^\-="@, kind: TokenKind::SUB_ASSIGN },
        Rule { pattern: r"^\/="@, kind: TokenKind::DIV_ASSIGN },
        Rule { pattern: r"^\*="@, kind: TokenKind::MUL_ASSIGN },
        Rule { pattern: r"^\%="@, kind: TokenKind::MOD_ASSIGN },
        Rule { pattern: r"^\*\*="@, kind: TokenKind::POW_ASSIGN },
        Rule { pattern: r"^\&="@, kind: TokenKind::AND_ASSIGN },
        Rule { pattern: r"^\|="@, kind: TokenKind::OR_ASSIGN },
        Rule { pattern: r"^\^="@, kind: TokenKind::XOR_ASSIGN },
        Rule { pattern: r"^\*\*"@, kind: TokenKind::POW },
        Rule { pattern: r"^\->"@, kind: TokenKind::RETURNS_OP },
        // single operators
        Rule { pattern: r"^="@, kind: TokenKind::ASSIGN },
        Rule { pattern: r"^\+"@, kind: TokenKind::ADD },
        Rule { pattern: r"^\-"@, kind: TokenKind::SUB },
        Rule { pattern: r"^\/"@, kind: TokenKind::DIV },
        Rule { pattern: r"^\*"@, kind: TokenKind::MUL },
        Rule { pattern: r"^\%"@, kind: TokenKind::MOD },
        Rule { pattern: r"^\&"@, kind: TokenKind::AND },
        Rule { pattern: r"^\|"@, kind: TokenKind::OR },
        Rule { pattern: r"^\^"@, kind: TokenKind::XOR },
        Rule { pattern: r"^\!"@, kind: TokenKind::NOT },
        Rule { pattern: r"^>"@, kind: TokenKind::GREATER },
        Rule { pattern: r"^<"@, kind: TokenKind::LESS },
        // parenthesis
        Rule { pattern: r"^\["@, kind: TokenKind::L_BRACKET },
        Rule { pattern: r"^\]"@, kind: TokenKind::R_BRACKET },
        Rule { pattern: r"^\{"@, kind: TokenKind::L_CURLY },
        Rule { pattern: r"^\}"@, kind: TokenKind::R_CURLY },
        Rule { pattern: r"^\("@, kind: TokenKind::L_PAREN },
        Rule { pattern: r"^\)"@, kind: TokenKind::R_PAREN },
        Rule { pattern: r"^<"@, kind: TokenKind::L_CARET },
        Rule { pattern: r"^>"@, kind: TokenKind::R_CARET },
        // punctuation
        Rule { pattern: r"^,"@, kind: TokenKind::COMMA },
        Rule { pattern: r"^\."@, kind: TokenKind::DOT },
        Rule { pattern: r"^:"@, kind: TokenKind::COLON },
        Rule { pattern: r"^;"@, kind: TokenKind::SEMICOLON },
        Rule { pattern: r"^\s+"@, kind: TokenKind::WHITESPACE },
    ]
}

/// The text and the kind of the rule with rank `rank` in the built-in table.
pub fn default_rule(rank: usize) -> (rule: (&'static str, TokenKind))
    requires
        rank < RULE_COUNT,
    ensures
        rule.0@ == default_rules()[rank as int].pattern,
        rule.1 == default_rules()[rank as int].kind,
{
    match rank {
        0 => (r"^const\b", TokenKind::CONST_KEYWORD),
        1 => (r"^var\b", TokenKind::VAR_KEYWORD),
        2 => (r"^return\b", TokenKind::RETURN_KEYWORD),
        3 => (r"^if\b", TokenKind::IF_KEYWORD),
        4 => (r"^else if\b", TokenKind::ELSEIF_KEYWORD),
        5 => (r"^else\b", TokenKind::ELSE_KEYWORD),
        6 => (r"^match\b", TokenKind::MATCH_KEYWORD),
        7 => (r"^while\b", TokenKind::WHILE_KEYWORD),
        8 => (r"^for\b", TokenKind::FOR_KEYWORD),
        9 => (r"^fn\b", TokenKind::FN_KEYWORD),
        10 => (r"^struct\b", TokenKind::STRUCT_KEYWORD),
        11 => (r"^enum\b", TokenKind::ENUM_KEYWORD),
        12 => (r"^[a-zA-Z_][a-zA-Z0-9_]*", TokenKind::IDENTIFIER),
        13 => (r"^\/\/.*", TokenKind::COMMENT),
        14 => (r#"^"[^"]*""#, TokenKind::STRING_LITERAL),
        15 => (r"^[0-9]*\.[0-9]+", TokenKind::FLOAT_LITERAL),
        16 => (r"^[0-9]+", TokenKind::INT_LITERAL),
        17 => (r"^==", TokenKind::EQ),
        18 => (r"^!=", TokenKind::NOT_EQ),
        19 => (r"^>=", TokenKind::GREATER_EQ),
        20 => (r"^<=", TokenKind::LESS_EQ),
        21 => (r"^\+=", TokenKind::ADD_ASSIGN),
        22 => (r"^\-=", TokenKind::SUB_ASSIGN),
        23 => (r"^\/=", TokenKind::DIV_ASSIGN),
        24 => (r"^\*=", TokenKind::MUL_ASSIGN),
        25 => (r"^\%=", TokenKind::MOD_ASSIGN),
        26 => (r"^\*\*=", TokenKind::POW_ASSIGN),
        27 => (r"^\&=", TokenKind::AND_ASSIGN),
        28 => (r"^\|=", TokenKind::OR_ASSIGN),
        29 => (r"^\^=", TokenKind::XOR_ASSIGN),
        30 => (r"^\*\*", TokenKind::POW),
        31 => (r"^\->", TokenKind::RETURNS_OP),
        32 => (r"^=", TokenKind::ASSIGN),
        33 => (r"^\+", TokenKind::ADD),
        34 => (r"^\-", TokenKind::SUB),
        35 => (r"^\/", TokenKind::DIV),
        36 => (r"^\*", TokenKind::MUL),
        37 => (r"^\%", TokenKind::MOD),
        38 => (r"^\&", TokenKind::AND),
        39 => (r"^\|", TokenKind::OR),
        40 => (r"^\^", TokenKind::XOR),
        41 => (r"^\!", TokenKind::NOT),
        42 => (r"^>", TokenKind::GREATER),
        43 => (r"^<", TokenKind::LESS),
        44 => (r"^\[", TokenKind::L_BRACKET),
        45 => (r"^\]", TokenKind::R_BRACKET),
        46 => (r"^\{", TokenKind::L_CURLY),
        47 => (r"^\}", TokenKind::R_CURLY),
        48 => (r"^\(", TokenKind::L_PAREN),
        49 => (r"^\)", TokenKind::R_PAREN),
        50 => (r"^<", TokenKind::L_CARET),
        51 => (r"^>", TokenKind::R_CARET),
        52 => (r"^,", TokenKind::COMMA),
        53 => (r"^\.", TokenKind::DOT),
        54 => (r"^:", TokenKind::COLON),
        55 => (r"^;", TokenKind::SEMICOLON),
        _ => (r"^\s+", TokenKind::WHITESPACE),
    }
}

/// The engine accepts the pattern of every rule of the built-in table.
pub open spec fn table_accepted() -> bool {
    forall|rank: int|
        0 <= rank < RULE_COUNT ==> pattern_accepted((#[trigger] default_rules()[rank]).pattern)
}

/// Rank `rank` is the first rule of the built-in table whose pattern the
/// engine refuses.
pub open spec fn is_first_refused(rank: int) -> bool {
    &&& 0 <= rank < RULE_COUNT
    &&& !pattern_accepted(default_rules()[rank].pattern)
    &&& forall|r: int| 0 <= r < rank ==> pattern_accepted((#[trigger] default_rules()[r]).pattern)
}

/// The error `error` reports the first rule of the built-in table whose
/// pattern the engine refuses: it holds that pattern's text and the engine's
/// words about it.
pub open spec fn reports_first_refused(error: PatternError) -> bool {
    exists|rank: int|
        #[trigger] is_first_refused(rank) && error.pattern@ == default_rules()[rank].pattern
            && error.reason@ == refusal_words(default_rules()[rank].pattern)
}

/// The built-in table is fixed: what compiling it gives depends on nothing.
/// Two outcomes of [`generate_token_patterns`] are two tables with the same
/// rules in the same order, or two errors with the same text and words.
pub proof fn lemma_table_is_fixed(
    first: Result<Vec<TokenPattern>, PatternError>,
    second: Result<Vec<TokenPattern>, PatternError>,
)
    requires
        first is Ok <==> table_accepted(),
        first matches Ok(table) ==> rules_of(table@) == default_rules(),
        first matches Err(error) ==> reports_first_refused(error),
        second is Ok <==> table_accepted(),
        second matches Ok(table) ==> rules_of(table@) == default_rules(),
        second matches Err(error) ==> reports_first_refused(error),
    ensures
        first is Ok <==> second is Ok,
        first matches Ok(a) ==> (second matches Ok(b) ==> rules_of(a@) == rules_of(b@)),
        first matches Err(a) ==> (second matches Err(b) ==> a.pattern@ == b.pattern@ && a.reason@
            == b.reason@),
{
    if first is Err && second is Err {
        let a = first->Err_0;
        let b = second->Err_0;
        let i = choose|rank: int|
            #[trigger] is_first_refused(rank) && a.pattern@ == default_rules()[rank].pattern
                && a.reason@ == refusal_words(default_rules()[rank].pattern);
        let j = choose|rank: int|
            #[trigger] is_first_refused(rank) && b.pattern@ == default_rules()[rank].pattern
                && b.reason@ == refusal_words(default_rules()[rank].pattern);
        assert(i == j) by {
            if i < j {
                assert(pattern_accepted(default_rules()[i].pattern));
            }
            if j < i {
                assert(pattern_accepted(default_rules()[j].pattern));
            }
        }
    }
}

/// Compiles the built-in table, rule by rule.
///
/// The table comes back whole and in order exactly if the engine accepts
/// every pattern of it. Else compiling stops at the first pattern that the
/// engine refuses, and the error reports that one.
pub fn generate_token_patterns() -> (made: Result<Vec<TokenPattern>, PatternError>)
    ensures
        made is Ok <==> table_accepted(),
        made matches Ok(table) ==> rules_of(table@) == default_rules(),
        made matches Err(error) ==> reports_first_refused(error),
{
    let mut table: Vec<TokenPattern> = Vec::with_capacity(RULE_COUNT);
    let mut rank: usize = 0;
    while rank < RULE_COUNT
        invariant
            rank <= RULE_COUNT,
            default_rules().len() == RULE_COUNT,
            table@.len() == rank,
            rules_of(table@) == default_rules().subrange(0, rank as int),
            forall|r: int|
                0 <= r < rank ==> pattern_accepted((#[trigger] default_rules()[r]).pattern),
        decreases RULE_COUNT - rank,
    {
        let (pattern, kind) = default_rule(rank);
        let ghost before = table@;
        match TokenPattern::new(pattern, kind) {
            Ok(entry) => {
                table.push(entry);
            },
            Err(error) => {
                assert(is_first_refused(rank as int));
                return Err(error);
            },
        }
        rank = rank + 1;
        proof {
            let made = rules_of(table@);
            let wanted = default_rules().subrange(0, rank as int);
            assert forall|j: int| 0 <= j < rank implies made[j] == wanted[j] by {
                if j < rank - 1 {
                    assert(table@[j] == before[j]);
                    assert(rules_of(before)[j] == default_rules().subrange(0, rank - 1)[j]);
                }
            }
            assert(made =~= wanted);
        }
    }
    Ok(table)
}

} // verus!
