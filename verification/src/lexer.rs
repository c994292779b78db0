//! The scanner.
//!
//! [`scan`] defines what scanning a text means, [`lexed`] what the scanner
//! hands out, and [`Lexer::tokenize`] computes exactly that. The laws of the
//! scan are proved about these definitions.
use crate::text::{is_span, lemma_boundary_in_tail, slice, span_text};
use crate::token::{
    default_rules, generate_token_patterns, reports_first_refused, rule_match, rules_of,
    table_accepted, PatternError, Rule, Token, TokenKind, TokenPattern,
};
use std::ops::Range;
use vstd::prelude::*;
use vstd::string::*;
use vstd::utf8::*;

verus! {

/// A scanner: an ordered table of patterns and the byte offset at which the
/// next scan starts.
pub struct Lexer {
    pos: usize,
    patterns: Vec<TokenPattern>,
}

/// What a [`Lexer`] stands for.
pub struct LexerView {
    pub position: usize,
    pub rules: Seq<Rule>,
}

/// No rule matches at `position`; `remainder` is the text from there on.
#[derive(Debug)]
pub struct LexError {
    pub position: usize,
    pub remainder: String,
}

impl LexError {
    /// The error says that the scan of `source` is stuck at `stuck`: it holds
    /// that position and the text from there to the end.
    pub open spec fn reports(self, source: Seq<u8>, stuck: int) -> bool {
        &&& self.position == stuck
        &&& self.remainder@ == span_text(source, stuck, source.len() as int)
    }
}

impl View for Lexer {
    type V = LexerView;

    closed spec fn view(&self) -> LexerView {
        LexerView { position: self.pos, rules: rules_of(self.patterns@) }
    }
}

/// The first rule of the table, from rank `from` on, that matches at the start
/// of `rest`: its kind and the length of its match.
pub open spec fn first_match(rules: Seq<Rule>, rest: Seq<u8>, from: int) -> Option<
    (TokenKind, usize),
>
    decreases rules.len() - from,
{
    if from < 0 || from >= rules.len() {
        None
    } else {
        match rule_match(rules[from].pattern, rest) {
            Some(length) => Some((rules[from].kind, length)),
            None => first_match(rules, rest, from + 1),
        }
    }
}

/// The token of kind `kind` that covers `length` bytes from `position` on.
pub open spec fn token_at(kind: TokenKind, position: int, length: int) -> Token {
    Token { kind, span: Range { start: position as usize, end: (position + length) as usize } }
}

/// Puts the tokens `done` in front of the outcome of the rest of a scan.
pub open spec fn after(done: Seq<Token>, rest: Result<Seq<Token>, int>) -> Result<Seq<Token>, int> {
    match rest {
        Ok(tokens) => Ok(done + tokens),
        Err(stuck) => Err(stuck),
    }
}

/// A match of the first matching rule is not empty, ends inside the text and
/// ends on a character boundary of it.
pub proof fn lemma_first_match_fits(rules: Seq<Rule>, rest: Seq<u8>, from: int)
    ensures
        first_match(rules, rest, from) matches Some((_, length)) ==> 0 < length <= rest.len()
            && is_char_boundary(rest, length as int),
    decreases rules.len() - from,
{
    if 0 <= from < rules.len() && rule_match(rules[from].pattern, rest) is None {
        lemma_first_match_fits(rules, rest, from + 1);
    }
}

/// The scan of `source` from `position` to its end.
///
/// At each position the first matching rule of the table yields a token and
/// the scan goes on behind it. The result holds every token, blanks
/// included, or the position at which the scan is stuck: one that lies inside
/// a character, or one at which no rule matches.
pub open spec fn scan(rules: Seq<Rule>, source: Seq<u8>, position: int) -> Result<Seq<Token>, int>
    decreases source.len() - position,
    via scan_terminates
{
    if position < 0 || position >= source.len() {
        Ok(Seq::empty())
    } else if !is_char_boundary(source, position) {
        Err(position)
    } else {
        match first_match(rules, source.subrange(position, source.len() as int), 0) {
            None => Err(position),
            Some((kind, length)) => after(
                seq![token_at(kind, position, length as int)],
                scan(rules, source, position + length),
            ),
        }
    }
}

/// The scan goes forward: a match is not empty and ends inside the text.
#[via_fn]
proof fn scan_terminates(rules: Seq<Rule>, source: Seq<u8>, position: int) {
    if 0 <= position < source.len() {
        lemma_first_match_fits(rules, source.subrange(position, source.len() as int), 0);
    }
}

/// Blanks separate tokens and are not handed out.
pub open spec fn is_visible(token: Token) -> bool {
    token.kind != TokenKind::WHITESPACE
}

/// The position at which a successful scan from `position` ends.
pub open spec fn scan_end(source: Seq<u8>, position: int) -> int {
    if position >= source.len() {
        position
    } else {
        source.len() as int
    }
}

/// The result of tokenizing `source` from `position`: the visible tokens of
/// the scan and the end-of-input token behind them, or the position at which
/// the scan is stuck.
pub open spec fn lexed(rules: Seq<Rule>, source: Seq<u8>, position: int) -> Result<
    Seq<Token>,
    int,
> {
    match scan(rules, source, position) {
        Ok(all) => Ok(
            all.filter(|t: Token| is_visible(t)).push(
                token_at(TokenKind::EOF, scan_end(source, position), 0),
            ),
        ),
        Err(stuck) => Err(stuck),
    }
}

/// The line of the listing for `token`: the name of its kind, a colon and the
/// text that its span cuts out of `source`.
pub open spec fn listing_line(token: Token, source: Seq<u8>) -> Seq<char> {
    token.kind.label() + ": "@ + span_text(
        source,
        token.span.start as int,
        token.span.end as int,
    ) + "\n"@
}

/// The listing of `tokens`: their lines, in order.
pub open spec fn listing(tokens: Seq<Token>, source: Seq<u8>) -> Seq<char>
    decreases tokens.len(),
{
    if tokens.len() == 0 {
        Seq::empty()
    } else {
        listing(tokens.drop_last(), source) + listing_line(tokens.last(), source)
    }
}

/// The spans of `tokens` follow one another from `from` to `to` without gap
/// or overlap, and none of them is empty.
pub open spec fn tiles(tokens: Seq<Token>, from: int, to: int) -> bool {
    &&& tokens.len() == 0 ==> from == to
    &&& tokens.len() > 0 ==> tokens[0].span.start == from && tokens.last().span.end == to
    &&& forall|i: int|
        0 <= i < tokens.len() ==> (#[trigger] tokens[i]).span.start < tokens[i].span.end
    &&& forall|i: int, j: int|
        0 <= i && j == i + 1 && j < tokens.len() ==> (#[trigger] tokens[i]).span.end
            == (#[trigger] tokens[j]).span.start
}

/// No rule of the table yields the end-of-input kind.
pub open spec fn keeps_eof_apart(rules: Seq<Rule>) -> bool {
    forall|rank: int| 0 <= rank < rules.len() ==> (#[trigger] rules[rank]).kind != TokenKind::EOF
}

/// No rule of the built-in table yields the end-of-input kind, so a scan over
/// it ends with the only token of that kind.
pub proof fn lemma_default_rules_keep_eof_apart()
    ensures
        keeps_eof_apart(default_rules()),
{
    let rules = default_rules();
    assert forall|rank: int| 0 <= rank < rules.len() implies (#[trigger] rules[rank]).kind
        != TokenKind::EOF by {
    }
}

/// The kind of the first matching rule is the kind of a rule of the table.
pub proof fn lemma_first_match_kind(rules: Seq<Rule>, rest: Seq<u8>, from: int)
    ensures
        first_match(rules, rest, from) matches Some((kind, _)) ==> exists|rank: int|
            0 <= rank < rules.len() && (#[trigger] rules[rank]).kind == kind,
    decreases rules.len() - from,
{
    if 0 <= from < rules.len() {
        if rule_match(rules[from].pattern, rest) is None {
            lemma_first_match_kind(rules, rest, from + 1);
        } else {
            assert(rules[from].kind == first_match(rules, rest, from)->Some_0.0);
        }
    }
}

/// Coverage: the tokens of a successful scan, blanks included, tile the text
/// from the starting position to its end. From position 0 they cover the
/// whole text.
pub proof fn lemma_scan_covers(rules: Seq<Rule>, source: Seq<u8>, position: int)
    requires
        0 <= position <= source.len() <= usize::MAX,
        scan(rules, source, position) is Ok,
    ensures
        tiles(scan(rules, source, position)->Ok_0, position, source.len() as int),
    decreases source.len() - position,
{
    if position < source.len() {
        let hit = first_match(rules, source.subrange(position, source.len() as int), 0);
        let (kind, length) = hit->Some_0;
        let first = token_at(kind, position, length as int);
        let rest = scan(rules, source, position + length)->Ok_0;
        let all = scan(rules, source, position)->Ok_0;
        lemma_first_match_fits(rules, source.subrange(position, source.len() as int), 0);
        lemma_scan_covers(rules, source, position + length);
        assert(all == seq![first] + rest);
        assert(all[0] == first);
        assert forall|i: int| 0 <= i < all.len() implies (#[trigger] all[i]).span.start
            < all[i].span.end by {
            if i > 0 {
                assert(all[i] == rest[i - 1]);
            }
        }
        assert forall|i: int, j: int| 0 <= i && j == i + 1 && j < all.len() implies (
        #[trigger] all[i]).span.end == (#[trigger] all[j]).span.start by {
            assert(all[j] == rest[i]);
            if i > 0 {
                assert(all[i] == rest[i - 1]);
            }
        }
        if rest.len() > 0 {
            assert(all.last() == rest.last());
        }
    }
}

/// Every token of a successful scan cuts a piece of text out of the source:
/// its span lies inside the text and on character boundaries.
pub proof fn lemma_scan_spans(rules: Seq<Rule>, source: Seq<u8>, position: int)
    requires
        valid_utf8(source),
        0 <= position <= source.len() <= usize::MAX,
        scan(rules, source, position) is Ok,
    ensures
        forall|i: int|
            0 <= i < scan(rules, source, position)->Ok_0.len() ==> is_span(
                source,
                (#[trigger] scan(rules, source, position)->Ok_0[i]).span.start as int,
                scan(rules, source, position)->Ok_0[i].span.end as int,
            ),
    decreases source.len() - position,
{
    if position < source.len() {
        let tail = source.subrange(position, source.len() as int);
        let (kind, length) = first_match(rules, tail, 0)->Some_0;
        let first = token_at(kind, position, length as int);
        let rest = scan(rules, source, position + length)->Ok_0;
        let all = scan(rules, source, position)->Ok_0;
        lemma_first_match_fits(rules, tail, 0);
        lemma_boundary_in_tail(source, position, length as int);
        lemma_scan_spans(rules, source, position + length);
        assert(all == seq![first] + rest);
        assert forall|i: int| 0 <= i < all.len() implies is_span(
            source,
            (#[trigger] all[i]).span.start as int,
            all[i].span.end as int,
        ) by {
            if i > 0 {
                assert(all[i] == rest[i - 1]);
            } else {
                assert(all[0] == first);
            }
        }
    }
}

/// Every token of a scan has the kind of a rule of the table.
pub proof fn lemma_scan_kinds(rules: Seq<Rule>, source: Seq<u8>, position: int)
    requires
        scan(rules, source, position) is Ok,
    ensures
        forall|i: int|
            0 <= i < scan(rules, source, position)->Ok_0.len() ==> exists|rank: int|
                0 <= rank < rules.len() && (#[trigger] rules[rank]).kind == (#[trigger] scan(
                    rules,
                    source,
                    position,
                )->Ok_0[i]).kind,
    decreases source.len() - position,
{
    if 0 <= position < source.len() {
        let tail = source.subrange(position, source.len() as int);
        let (kind, length) = first_match(rules, tail, 0)->Some_0;
        let first = token_at(kind, position, length as int);
        let rest = scan(rules, source, position + length)->Ok_0;
        let all = scan(rules, source, position)->Ok_0;
        lemma_first_match_kind(rules, tail, 0);
        lemma_first_match_fits(rules, tail, 0);
        lemma_scan_kinds(rules, source, position + length);
        assert(all == seq![first] + rest);
        assert forall|i: int| 0 <= i < all.len() implies exists|rank: int|
            0 <= rank < rules.len() && (#[trigger] rules[rank]).kind == (
            #[trigger] all[i]).kind by {
            if i > 0 {
                assert(all[i] == rest[i - 1]);
            } else {
                assert(all[0] == first);
            }
        }
    }
}

/// Termination token: a successful result ends with the end-of-input token,
/// whose span is empty and lies where the scan ended. It is the only token of
/// that kind unless a rule of the table yields the kind itself.
pub proof fn lemma_lexed_ends_with_eof(rules: Seq<Rule>, source: Seq<u8>, position: int)
    requires
        lexed(rules, source, position) is Ok,
    ensures
        lexed(rules, source, position)->Ok_0.len() >= 1,
        lexed(rules, source, position)->Ok_0.last() == token_at(
            TokenKind::EOF,
            scan_end(source, position),
            0,
        ),
        keeps_eof_apart(rules) ==> forall|i: int|
            0 <= i < lexed(rules, source, position)->Ok_0.len() - 1 ==> (#[trigger] lexed(
                rules,
                source,
                position,
            )->Ok_0[i]).kind != TokenKind::EOF,
{
    let all = scan(rules, source, position)->Ok_0;
    let visible = all.filter(|t: Token| is_visible(t));
    let tokens = lexed(rules, source, position)->Ok_0;
    if keeps_eof_apart(rules) {
        lemma_scan_kinds(rules, source, position);
        assert forall|i: int| 0 <= i < tokens.len() - 1 implies (#[trigger] tokens[i]).kind
            != TokenKind::EOF by {
            assert(tokens[i] == visible[i]);
            assert(visible.contains(visible[i]));
            all.lemma_filter_contains_rev(|t: Token| is_visible(t), visible[i]);
            let j = choose|j: int| 0 <= j < all.len() && all[j] == visible[i];
            let rank = choose|rank: int|
                0 <= rank < rules.len() && (#[trigger] rules[rank]).kind == all[j].kind;
            assert(rules[rank].kind != TokenKind::EOF);
        }
    }
}

/// Whitespace exclusion: no token of a successful result is a blank.
pub proof fn lemma_lexed_without_blanks(rules: Seq<Rule>, source: Seq<u8>, position: int)
    requires
        lexed(rules, source, position) is Ok,
    ensures
        forall|i: int|
            0 <= i < lexed(rules, source, position)->Ok_0.len() ==> (#[trigger] lexed(
                rules,
                source,
                position,
            )->Ok_0[i]).kind != TokenKind::WHITESPACE,
{
    let all = scan(rules, source, position)->Ok_0;
    let keep = |t: Token| is_visible(t);
    let visible = all.filter(keep);
    let tokens = lexed(rules, source, position)->Ok_0;
    assert forall|i: int| 0 <= i < tokens.len() implies (#[trigger] tokens[i]).kind
        != TokenKind::WHITESPACE by {
        if i < visible.len() {
            all.lemma_filter_pred(keep, i);
            assert(tokens[i] == visible[i]);
        }
    }
}

/// Determinism: the result is a function of the table, the text and the
/// starting position. Two scanners that agree on table and position give the
/// same result on the same text; as a scan leaves the table as it is, so does
/// one scanner that is reset between two scans.
pub proof fn lemma_lexed_is_repeatable(first: LexerView, second: LexerView, source: Seq<u8>)
    requires
        first.rules == second.rules,
        first.position == second.position,
    ensures
        lexed(first.rules, source, first.position as int) == lexed(
            second.rules,
            source,
            second.position as int,
        ),
{
}

/// Finds the first pattern of the table that matches at the start of `rest`.
pub fn find_first_match(patterns: &Vec<TokenPattern>, rest: &str) -> (hit: Option<
    (TokenKind, usize),
>)
    ensures
        hit == first_match(rules_of(patterns@), rest.spec_bytes(), 0),
{
    let ghost rules = rules_of(patterns@);
    let mut rank: usize = 0;
    while rank < patterns.len()
        invariant
            rank <= patterns.len(),
            rules == rules_of(patterns@),
            first_match(rules, rest.spec_bytes(), 0) == first_match(
                rules,
                rest.spec_bytes(),
                rank as int,
            ),
        decreases patterns.len() - rank,
    {
        assert(rules[rank as int] == patterns@[rank as int]@);
        match patterns[rank].match_prefix(rest) {
            Some(length) => {
                return Some((patterns[rank].token_kind, length));
            },
            None => {},
        }
        rank = rank + 1;
    }
    None
}

impl Lexer {
    /// A scanner over `patterns`, at the start of the text.
    pub fn new(patterns: Vec<TokenPattern>) -> (lexer: Lexer)
        ensures
            lexer@ == (LexerView { position: 0, rules: rules_of(patterns@) }),
    {
        Lexer { pos: 0, patterns }
    }

    /// A scanner over the built-in table, at the start of the text.
    ///
    /// It is made exactly if the engine accepts every pattern of the table;
    /// else the error is that of [`generate_token_patterns`].
    pub fn default() -> (made: Result<Lexer, PatternError>)
        ensures
            made is Ok <==> table_accepted(),
            made matches Ok(lexer) ==> lexer@ == (LexerView {
                position: 0,
                rules: default_rules(),
            }),
            made matches Err(error) ==> reports_first_refused(error),
    {
        match generate_token_patterns() {
            Ok(patterns) => Ok(Lexer::new(patterns)),
            Err(error) => Err(error),
        }
    }

    /// The byte offset at which the next scan starts.
    pub fn position(&self) -> (position: usize)
        ensures
            position == self@.position,
    {
        self.pos
    }

    /// Moves the scanner back to the start of the text.
    pub fn reset_position(&mut self)
        ensures
            final(self)@ == (LexerView { position: 0, rules: old(self)@.rules }),
    {
        self.pos = 0;
    }

    /// Scans `source` from the scanner's position to its end.
    ///
    /// The result is exactly [`lexed`]: the visible tokens in order and one
    /// end-of-input token behind them, or the error of the position at which
    /// no rule matches. The scanner stays where the scan ended, so the next
    /// scan of a text starts there unless the scanner is reset.
    pub fn tokenize(&mut self, source: &str) -> (result: Result<Vec<Token>, LexError>)
        ensures
            final(self)@.rules == old(self)@.rules,
            match lexed(old(self)@.rules, source.spec_bytes(), old(self)@.position as int) {
                Ok(tokens) => result matches Ok(made) && made@ == tokens && final(self)@.position
                    == scan_end(source.spec_bytes(), old(self)@.position as int),
                Err(stuck) => result matches Err(error) && error.reports(
                    source.spec_bytes(),
                    stuck,
                ) && final(self)@.position == stuck,
            },
            result matches Ok(made) ==> made@.len() >= 1 && made@.last().kind == TokenKind::EOF,
            result matches Ok(made) ==> forall|i: int|
                0 <= i < made@.len() ==> (#[trigger] made@[i]).kind != TokenKind::WHITESPACE,
            keeps_eof_apart(old(self)@.rules) ==> (result matches Ok(made) ==> forall|i: int|
                0 <= i < made@.len() - 1 ==> (#[trigger] made@[i]).kind != TokenKind::EOF),
    {
        let len = source.as_bytes().len();
        let ghost bytes = source.spec_bytes();
        let ghost start = self.pos as int;
        let ghost rules = self@.rules;
        let ghost visible = |t: Token| is_visible(t);
        let ghost mut all: Seq<Token> = Seq::empty();
        let mut tokens: Vec<Token> = Vec::new();
        proof {
            encode_utf8_valid_utf8(source@);
            assert(after(all, scan(rules, bytes, start)) == scan(rules, bytes, start)) by {
                match scan(rules, bytes, start) {
                    Ok(rest) => assert(all + rest =~= rest),
                    Err(_) => {},
                }
            }
        }
        if self.pos < len && !source.is_char_boundary(self.pos) {
            let remainder = slice(source, self.pos, len).to_owned();
            return Err(LexError { position: self.pos, remainder });
        }
        while self.pos < len
            invariant
                len == bytes.len(),
                bytes == source.spec_bytes(),
                valid_utf8(bytes),
                rules == old(self)@.rules,
                start == old(self)@.position,
                self@.rules == rules,
                visible == (|t: Token| is_visible(t)),
                self.pos < len ==> is_char_boundary(bytes, self.pos as int),
                scan(rules, bytes, start) == after(all, scan(rules, bytes, self.pos as int)),
                scan_end(bytes, start) == scan_end(bytes, self.pos as int),
                tokens@ == all.filter(visible),
            decreases len - self.pos,
        {
            let (_, rest) = source.split_at(self.pos);
            let ghost tail = bytes.subrange(self.pos as int, len as int);
            assert(rest.spec_bytes() == tail);
            match find_first_match(&self.patterns, rest) {
                None => {
                    let remainder = slice(source, self.pos, len).to_owned();
                    return Err(LexError { position: self.pos, remainder });
                },
                Some((kind, length)) => {
                    proof {
                        lemma_first_match_fits(rules, tail, 0);
                        lemma_boundary_in_tail(bytes, self.pos as int, length as int);
                    }
                    let new_pos = self.pos + length;
                    let ghost token = token_at(kind, self.pos as int, length as int);
                    proof {
                        let rest_scan = scan(rules, bytes, new_pos as int);
                        assert(scan(rules, bytes, self.pos as int) == after(
                            seq![token],
                            rest_scan,
                        ));
                        match rest_scan {
                            Ok(more) => assert(all + (seq![token] + more) =~= all.push(token)
                                + more),
                            Err(_) => {},
                        }
                        Seq::filter_distributes_over_add(all, seq![token], visible);
                        assert(all.push(token) =~= all + seq![token]);
                        reveal_with_fuel(Seq::filter, 2);
                        assert(seq![token].drop_last() =~= Seq::<Token>::empty());
                        assert(seq![token].filter(visible) =~= if is_visible(token) {
                            seq![token]
                        } else {
                            Seq::empty()
                        });
                        all = all.push(token);
                    }
                    if kind != TokenKind::WHITESPACE {
                        tokens.push(Token::new(kind, self.pos..new_pos));
                    }
                    self.pos = new_pos;
                },
            }
        }
        tokens.push(Token::new(TokenKind::EOF, self.pos..self.pos));
        proof {
            assert(scan(rules, bytes, self.pos as int) == Ok::<Seq<Token>, int>(Seq::empty()));
            assert(all + Seq::<Token>::empty() =~= all);
            lemma_lexed_ends_with_eof(rules, bytes, start);
            lemma_lexed_without_blanks(rules, bytes, start);
        }
        Ok(tokens)
    }

    /// Scans `source` as [`Lexer::tokenize`] does and renders the result as a
    /// listing: one line for each token, with its kind and its text.
    pub fn tokenize_and_pretty_print(&mut self, source: &str) -> (result: Result<String, LexError>)
        ensures
            final(self)@.rules == old(self)@.rules,
            match lexed(old(self)@.rules, source.spec_bytes(), old(self)@.position as int) {
                Ok(tokens) => result matches Ok(text) && text@ == listing(
                    tokens,
                    source.spec_bytes(),
                ) && final(self)@.position == scan_end(
                    source.spec_bytes(),
                    old(self)@.position as int,
                ),
                Err(stuck) => result matches Err(error) && error.reports(
                    source.spec_bytes(),
                    stuck,
                ) && final(self)@.position == stuck,
            },
    {
        match self.tokenize(source) {
            Ok(tokens) => Ok(render_listing(&tokens, source)),
            Err(error) => Err(error),
        }
    }
}

/// Renders the listing of `tokens` over the text they were scanned from.
pub fn render_listing(tokens: &Vec<Token>, source: &str) -> (text: String)
    ensures
        text@ == listing(tokens@, source.spec_bytes()),
{
    let mut text = String::new();
    let mut next: usize = 0;
    while next < tokens.len()
        invariant
            next <= tokens.len(),
            text@ == listing(tokens@.subrange(0, next as int), source.spec_bytes()),
        decreases tokens.len() - next,
    {
        let token = &tokens[next];
        text.append(token.kind.name());
        text.append(": ");
        text.append(slice(source, token.span.start, token.span.end));
        text.append("\n");
        proof {
            let done = tokens@.subrange(0, next + 1);
            assert(done.drop_last() =~= tokens@.subrange(0, next as int));
            assert(done.last() == tokens@[next as int]);
        }
        next = next + 1;
    }
    assert(tokens@.subrange(0, next as int) =~= tokens@);
    text
}

} // verus!
