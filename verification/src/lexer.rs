//! The lexer: it cuts source text into tokens, with the words of the mood.
//!
//! The text is cut from left to right. White space parts lexemes and is
//! dropped. A quote opens a text literal, a digit a number literal, and each
//! of `{ } ( ) ; , = < >` is a token by itself. Every other run of characters
//! up to the next white space, quote or punctuation mark is a word. A word
//! that is the comment marker of the mood hides the rest of its line. Other
//! words are compliments, questions, keywords, operators or identifiers, as
//! [`word_kind`] says. A compliment is a word in which a compliment keyword
//! of the mood stands, so that a whole sentence written as one word, such as
//! `dear_pubu_you_look_gorgeous_today`, is one.

use crate::chance::{first_draw, later_draws, Dice};
use crate::error::PubuError;
use crate::mood::Mood;
use crate::number::{Number, SCALE};
use crate::text::{chars_of, contains, is_word, occurs, occurs_at, text_of};
use vstd::prelude::*;

verus! {

/// The kinds of token, with what a literal or an identifier holds.
#[derive(Debug, Clone, PartialEq)]
pub enum TokenType {
    Identifier(String),
    Number(Number),
    String(String),
    VariableDeclaration,
    FunctionDeclaration,
    Conditional,
    Loop,
    Return,
    EndBlock,
    Plus,
    Minus,
    Times,
    Divide,
    Equal,
    NotEqual,
    GreaterThan,
    LessThan,
    Compliment,
    PhilosophicalQuestion,
    MoodDeclaration,
    LunarPhase,
    LeftBrace,
    RightBrace,
    LeftParen,
    RightParen,
    Semicolon,
    Comma,
    Assignment,
    EOF,
}

/// What a [`TokenType`] is.
pub enum TokenTypeView {
    Identifier(Seq<char>),
    Number(Number),
    String(Seq<char>),
    VariableDeclaration,
    FunctionDeclaration,
    Conditional,
    Loop,
    Return,
    EndBlock,
    Plus,
    Minus,
    Times,
    Divide,
    Equal,
    NotEqual,
    GreaterThan,
    LessThan,
    Compliment,
    PhilosophicalQuestion,
    MoodDeclaration,
    LunarPhase,
    LeftBrace,
    RightBrace,
    LeftParen,
    RightParen,
    Semicolon,
    Comma,
    Assignment,
    EOF,
}

impl View for TokenType {
    type V = TokenTypeView;

    open spec fn view(&self) -> TokenTypeView {
        match self {
            TokenType::Identifier(name) => TokenTypeView::Identifier(name@),
            TokenType::Number(n) => TokenTypeView::Number(*n),
            TokenType::String(s) => TokenTypeView::String(s@),
            TokenType::VariableDeclaration => TokenTypeView::VariableDeclaration,
            TokenType::FunctionDeclaration => TokenTypeView::FunctionDeclaration,
            TokenType::Conditional => TokenTypeView::Conditional,
            TokenType::Loop => TokenTypeView::Loop,
            TokenType::Return => TokenTypeView::Return,
            TokenType::EndBlock => TokenTypeView::EndBlock,
            TokenType::Plus => TokenTypeView::Plus,
            TokenType::Minus => TokenTypeView::Minus,
            TokenType::Times => TokenTypeView::Times,
            TokenType::Divide => TokenTypeView::Divide,
            TokenType::Equal => TokenTypeView::Equal,
            TokenType::NotEqual => TokenTypeView::NotEqual,
            TokenType::GreaterThan => TokenTypeView::GreaterThan,
            TokenType::LessThan => TokenTypeView::LessThan,
            TokenType::Compliment => TokenTypeView::Compliment,
            TokenType::PhilosophicalQuestion => TokenTypeView::PhilosophicalQuestion,
            TokenType::MoodDeclaration => TokenTypeView::MoodDeclaration,
            TokenType::LunarPhase => TokenTypeView::LunarPhase,
            TokenType::LeftBrace => TokenTypeView::LeftBrace,
            TokenType::RightBrace => TokenTypeView::RightBrace,
            TokenType::LeftParen => TokenTypeView::LeftParen,
            TokenType::RightParen => TokenTypeView::RightParen,
            TokenType::Semicolon => TokenTypeView::Semicolon,
            TokenType::Comma => TokenTypeView::Comma,
            TokenType::Assignment => TokenTypeView::Assignment,
            TokenType::EOF => TokenTypeView::EOF,
        }
    }
}

/// A token: its kind, the text it was cut from, and the line on which that
/// text begins.
#[derive(Debug, Clone, PartialEq)]
pub struct Token {
    pub token_type: TokenType,
    pub lexeme: String,
    pub line: usize,
}

/// What a [`Token`] is.
pub struct TokenView {
    pub token_type: TokenTypeView,
    pub lexeme: Seq<char>,
    pub line: nat,
}

impl View for Token {
    type V = TokenView;

    open spec fn view(&self) -> TokenView {
        TokenView { token_type: self.token_type@, lexeme: self.lexeme@, line: self.line as nat }
    }
}

/// What each token of the list is.
pub open spec fn tokens_view(tokens: Seq<Token>) -> Seq<TokenView> {
    Seq::new(tokens.len(), |i: int| tokens[i]@)
}

impl Token {
    pub fn new(token_type: TokenType, lexeme: String, line: usize) -> (token: Self)
        ensures
            token.token_type == token_type,
            token.lexeme == lexeme,
            token.line == line,
    {
        Self { token_type, lexeme, line }
    }
}

/// One of `keywords` stands somewhere in `text`.
pub open spec fn mentions_one_of(text: Seq<char>, keywords: Seq<Seq<char>>) -> bool {
    exists|k: int| 0 <= k < keywords.len() && occurs(text, #[trigger] keywords[k])
}

/// A word is a compliment if a compliment keyword of the mood stands in
/// it: `dear_pubu_you_look_gorgeous_today` is one in the happy mood, for
/// `dear_pubu` and for `gorgeous`.
pub open spec fn is_compliment_word(word: Seq<char>, mood: Mood) -> bool {
    mentions_one_of(word, mood.compliments())
}

/// A word is a philosophical question if it ends with a question mark and
/// one of "why", "meaning", "purpose", "existence" stands in it, in lower
/// case.
pub open spec fn is_question_word(word: Seq<char>) -> bool {
    &&& word.len() > 0
    &&& word.last() == '?'
    &&& (occurs(word, "why"@) || occurs(word, "meaning"@) || occurs(word, "purpose"@) || occurs(
        word,
        "existence"@,
    ))
}

/// The keyword that `word` is in `mood`, if it is one: a word of the keyword
/// table, the name of the mood, which opens a mood block, or `lunar_phase`,
/// which opens a lunar block.
pub open spec fn keyword_kind(word: Seq<char>, mood: Mood) -> Option<TokenTypeView> {
    let table = mood.keywords();
    if word == table.variable_declaration@ {
        Some(TokenTypeView::VariableDeclaration)
    } else if word == table.function_declaration@ {
        Some(TokenTypeView::FunctionDeclaration)
    } else if word == table.conditional@ {
        Some(TokenTypeView::Conditional)
    } else if word == table.loop_construct@ {
        Some(TokenTypeView::Loop)
    } else if word == table.return_statement@ {
        Some(TokenTypeView::Return)
    } else if word == table.end_block@ {
        Some(TokenTypeView::EndBlock)
    } else if word == table.assignment@ {
        Some(TokenTypeView::Assignment)
    } else if word == mood.declaration()@ {
        Some(TokenTypeView::MoodDeclaration)
    } else if word == "lunar_phase"@ {
        Some(TokenTypeView::LunarPhase)
    } else {
        None
    }
}

/// The operator that `word` is in `mood`, if it is one.
pub open spec fn operator_kind(word: Seq<char>, mood: Mood) -> Option<TokenTypeView> {
    let table = mood.operators();
    if word == table.addition@ {
        Some(TokenTypeView::Plus)
    } else if word == table.subtraction@ {
        Some(TokenTypeView::Minus)
    } else if word == table.multiplication@ {
        Some(TokenTypeView::Times)
    } else if word == table.division@ {
        Some(TokenTypeView::Divide)
    } else if word == table.equality@ {
        Some(TokenTypeView::Equal)
    } else if word == table.inequality@ {
        Some(TokenTypeView::NotEqual)
    } else {
        None
    }
}

/// The kind of token that `word` is in `mood`: a compliment, else a
/// question, else a keyword, else an operator, else an identifier.
pub open spec fn word_kind(word: Seq<char>, mood: Mood) -> TokenTypeView {
    if is_compliment_word(word, mood) {
        TokenTypeView::Compliment
    } else if is_question_word(word) {
        TokenTypeView::PhilosophicalQuestion
    } else {
        match keyword_kind(word, mood) {
            Some(kind) => kind,
            None => match operator_kind(word, mood) {
                Some(kind) => kind,
                None => TokenTypeView::Identifier(word),
            },
        }
    }
}

/// Whether a compliment keyword stands in `word`.
pub fn is_compliment(word: &Vec<char>, mood: Mood) -> (found: bool)
    ensures
        found == is_compliment_word(word@, mood),
{
    let ghost known = mood.compliments();
    match mood {
        Mood::Happy => {
            let found = contains(word, "dear_pubu") || contains(word, "gorgeous") || contains(
                word,
                "brilliant",
            ) || contains(word, "amazing");
            proof {
                assert(known[0] == "dear_pubu"@ && known[1] == "gorgeous"@ && known[2]
                    == "brilliant"@ && known[3] == "amazing"@);
                assert(found == mentions_one_of(word@, known));
            }
            found
        },
        Mood::Grumpy => {
            let found = contains(word, "fine_pubu") || contains(word, "not_bad") || contains(
                word,
                "decent",
            );
            proof {
                assert(known[0] == "fine_pubu"@ && known[1] == "not_bad"@ && known[2]
                    == "decent"@);
                assert(found == mentions_one_of(word@, known));
            }
            found
        },
        _ => {
            let found = contains(word, "magnificent") || contains(word, "wonderful") || contains(
                word,
                "clever",
            ) || contains(word, "smart");
            proof {
                assert(known[0] == "magnificent"@ && known[1] == "wonderful"@ && known[2]
                    == "clever"@ && known[3] == "smart"@);
                assert(found == mentions_one_of(word@, known));
            }
            found
        },
    }
}

/// The least draw on which the lexer looks at the text: five draws in a
/// hundred make it fail first.
pub const SCAN_FAILS_BELOW: u32 = 50;

/// The kinds of run that the lexer cuts out of the text.
#[derive(Clone, Copy)]
pub enum Run {
    /// Up to the next white space, quote or punctuation mark.
    Word,
    /// As long as digits follow.
    Digits,
    /// Up to the end of the line.
    Line,
}

/// White space: blank, tab, carriage return and line feed.
pub open spec fn is_space(c: char) -> bool {
    c == ' ' || c == '\t' || c == '\r' || c == '\n'
}

/// The value of a decimal digit, if `c` is one.
pub open spec fn digit(c: char) -> Option<nat> {
    match c {
        '0' => Some(0),
        '1' => Some(1),
        '2' => Some(2),
        '3' => Some(3),
        '4' => Some(4),
        '5' => Some(5),
        '6' => Some(6),
        '7' => Some(7),
        '8' => Some(8),
        '9' => Some(9),
        _ => None,
    }
}

/// The value of the digit `c`; zero for every other character.
pub open spec fn digit_of(c: char) -> nat {
    match digit(c) {
        Some(value) => value,
        None => 0,
    }
}

/// The token that the punctuation mark `c` is, if it is one.
pub open spec fn punctuation(c: char) -> Option<TokenTypeView> {
    match c {
        '{' => Some(TokenTypeView::LeftBrace),
        '}' => Some(TokenTypeView::RightBrace),
        '(' => Some(TokenTypeView::LeftParen),
        ')' => Some(TokenTypeView::RightParen),
        ';' => Some(TokenTypeView::Semicolon),
        ',' => Some(TokenTypeView::Comma),
        '=' => Some(TokenTypeView::Assignment),
        '>' => Some(TokenTypeView::GreaterThan),
        '<' => Some(TokenTypeView::LessThan),
        _ => None,
    }
}

/// Whether `c` ends a run of the kind `run`.
pub open spec fn stops(run: Run, c: char) -> bool {
    match run {
        Run::Word => is_space(c) || c == '"' || punctuation(c) is Some,
        Run::Digits => digit(c) is None,
        Run::Line => c == '\n',
    }
}

/// Where the run that begins at `pos` ends: at the first character from
/// `pos` on that stops it, or at the end of the text.
pub open spec fn run_end(src: Seq<char>, pos: int, run: Run) -> int
    decreases src.len() - pos,
{
    if 0 <= pos < src.len() && !stops(run, src[pos]) {
        run_end(src, pos + 1, run)
    } else {
        pos
    }
}

/// Where the quote stands that closes a text literal whose body begins at
/// `pos`; the end of the text where none does. A backslash takes the
/// character after it along, so that it cannot close the literal.
pub open spec fn text_end(src: Seq<char>, pos: int) -> int
    decreases src.len() - pos,
{
    if pos < 0 || pos >= src.len() {
        src.len() as int
    } else if src[pos] == '"' {
        pos
    } else if src[pos] == '\\' && pos + 1 < src.len() {
        text_end(src, pos + 2)
    } else {
        text_end(src, pos + 1)
    }
}

/// The character that stands for `c` after a backslash.
pub open spec fn escape(c: char) -> char {
    match c {
        'n' => '\n',
        't' => '\t',
        'r' => '\r',
        '0' => '\0',
        _ => c,
    }
}

/// What the body of a text literal from `pos` up to `end` holds: its
/// characters, with each backslash and the character after it read as
/// [`escape`] says.
pub open spec fn unescaped_between(src: Seq<char>, pos: int, end: int) -> Seq<char>
    decreases end - pos,
{
    if pos < 0 || pos >= end || end > src.len() {
        Seq::empty()
    } else if src[pos] == '\\' && pos + 1 < end {
        seq![escape(src[pos + 1])] + unescaped_between(src, pos + 2, end)
    } else {
        seq![src[pos]] + unescaped_between(src, pos + 1, end)
    }
}

/// How many line feeds stand in the text from `pos` up to `end`.
pub open spec fn newlines_between(src: Seq<char>, pos: int, end: int) -> nat
    decreases end - pos,
{
    if pos < 0 || pos >= end || end > src.len() {
        0
    } else if src[pos] == '\n' {
        1 + newlines_between(src, pos + 1, end)
    } else {
        newlines_between(src, pos + 1, end)
    }
}

/// The number that the digits from `pos` up to `end` write.
pub open spec fn digits_value(src: Seq<char>, pos: int, end: int) -> nat
    decreases end - pos,
{
    if pos < 0 || end <= pos || end > src.len() {
        0
    } else {
        digits_value(src, pos, end - 1) * 10 + digit_of(src[end - 1])
    }
}

/// The value of the digits from `pos` up to `end` where the first of them
/// counts `weight` and each later one a tenth of the one before it. With a
/// first weight of a hundred thousand, six digits count and the value is in
/// millionths.
pub open spec fn fraction_value(src: Seq<char>, pos: int, end: int, weight: nat) -> nat
    decreases end - pos,
{
    if pos < 0 || pos >= end || end > src.len() || weight == 0 {
        0
    } else {
        digit_of(src[pos]) * weight + fraction_value(src, pos + 1, end, weight / 10)
    }
}

/// The millionths of a number literal with the whole part `whole` and
/// `fraction` millionths after the point; the largest count that can be held
/// where they are more.
pub open spec fn number_micros(whole: nat, fraction: nat) -> int {
    let total = whole * SCALE + fraction;
    if total > i64::MAX {
        i64::MAX as int
    } else {
        total
    }
}

/// One step of the lexer: the token it cuts, if any, where the next step
/// begins, and the line there.
pub struct Step {
    pub token: Option<TokenView>,
    pub next: int,
    pub line: nat,
}

/// The step that the lexer takes at `pos`, a place in the text, on `line`.
pub open spec fn step_at(src: Seq<char>, mood: Mood, pos: int, line: nat) -> Step {
    let c = src[pos];
    if c == '\n' {
        Step { token: None, next: pos + 1, line: line + 1 }
    } else if is_space(c) {
        Step { token: None, next: pos + 1, line }
    } else if c == '"' {
        let close = text_end(src, pos + 1);
        let next = if close < src.len() {
            close + 1
        } else {
            src.len() as int
        };
        Step {
            token: Some(
                TokenView {
                    token_type: TokenTypeView::String(unescaped_between(src, pos + 1, close)),
                    lexeme: src.subrange(pos, next),
                    line,
                },
            ),
            next,
            line: line + newlines_between(src, pos + 1, close),
        }
    } else if punctuation(c) is Some {
        Step {
            token: Some(
                TokenView {
                    token_type: punctuation(c)->0,
                    lexeme: src.subrange(pos, pos + 1),
                    line,
                },
            ),
            next: pos + 1,
            line,
        }
    } else if digit(c) is Some {
        let point = run_end(src, pos, Run::Digits);
        let fractional = point + 1 < src.len() && src[point] == '.' && digit(src[point + 1]) is Some;
        let end = if fractional {
            run_end(src, point + 1, Run::Digits)
        } else {
            point
        };
        let fraction = if fractional {
            fraction_value(src, point + 1, end, 100_000)
        } else {
            0
        };
        Step {
            token: Some(
                TokenView {
                    token_type: TokenTypeView::Number(
                        Number {
                            micros: number_micros(digits_value(src, pos, point), fraction) as i64,
                        },
                    ),
                    lexeme: src.subrange(pos, end),
                    line,
                },
            ),
            next: end,
            line,
        }
    } else {
        let end = run_end(src, pos, Run::Word);
        let word = src.subrange(pos, end);
        if word == mood.keywords().comment_marker@ {
            Step { token: None, next: run_end(src, end, Run::Line), line }
        } else {
            Step {
                token: Some(TokenView { token_type: word_kind(word, mood), lexeme: word, line }),
                next: end,
                line,
            }
        }
    }
}

/// The token that ends every sequence of tokens.
pub open spec fn end_of_input(line: nat) -> TokenView {
    TokenView { token_type: TokenTypeView::EOF, lexeme: Seq::empty(), line }
}

/// The tokens of the text from `pos` on, where `pos` is on `line`.
pub open spec fn scan_from(src: Seq<char>, mood: Mood, pos: int, line: nat) -> Seq<TokenView>
    decreases src.len() - pos,
{
    if pos < 0 || pos >= src.len() {
        seq![end_of_input(line)]
    } else {
        let step = step_at(src, mood, pos, line);
        proof {
            lemma_step_advances(src, mood, pos, line);
        }
        let rest = scan_from(src, mood, step.next, step.line);
        match step.token {
            Some(token) => seq![token] + rest,
            None => rest,
        }
    }
}

/// The tokens of `src` in `mood`. The first line is line one.
pub open spec fn scanned(src: Seq<char>, mood: Mood) -> Seq<TokenView> {
    scan_from(src, mood, 0, 1)
}

/// A run ends at or after its start and within the text.
pub proof fn lemma_run_end_bounds(src: Seq<char>, pos: int, run: Run)
    requires
        0 <= pos <= src.len(),
    ensures
        pos <= run_end(src, pos, run) <= src.len(),
        run_end(src, pos, run) < src.len() ==> stops(run, src[run_end(src, pos, run)]),
        pos < src.len() && !stops(run, src[pos]) ==> pos < run_end(src, pos, run),
    decreases src.len() - pos,
{
    if pos < src.len() && !stops(run, src[pos]) {
        lemma_run_end_bounds(src, pos + 1, run);
    }
}

/// The closing quote of a text literal stands at or after the start of its
/// body and within the text.
pub proof fn lemma_text_end_bounds(src: Seq<char>, pos: int)
    requires
        0 <= pos <= src.len(),
    ensures
        pos <= text_end(src, pos) <= src.len(),
    decreases src.len() - pos,
{
    if pos < src.len() && src[pos] != '"' {
        if src[pos] == '\\' && pos + 1 < src.len() {
            lemma_text_end_bounds(src, pos + 2);
        } else {
            lemma_text_end_bounds(src, pos + 1);
        }
    }
}

/// There are no more line feeds in a stretch of text than characters.
pub proof fn lemma_newlines_bound(src: Seq<char>, pos: int, end: int)
    requires
        0 <= pos <= end <= src.len(),
    ensures
        newlines_between(src, pos, end) <= end - pos,
    decreases end - pos,
{
    if pos < end {
        lemma_newlines_bound(src, pos + 1, end);
    }
}

/// Every step of the lexer moves on, stays within the text, and never goes
/// back a line.
pub proof fn lemma_step_advances(src: Seq<char>, mood: Mood, pos: int, line: nat)
    requires
        0 <= pos < src.len(),
    ensures
        pos < step_at(src, mood, pos, line).next <= src.len(),
        line <= step_at(src, mood, pos, line).line,
        step_at(src, mood, pos, line).line - line <= step_at(src, mood, pos, line).next - pos,
{
    let c = src[pos];
    if c == '\n' {
    } else if is_space(c) {
    } else if c == '"' {
        lemma_text_end_bounds(src, pos + 1);
        lemma_newlines_bound(src, pos + 1, text_end(src, pos + 1));
    } else if punctuation(c) is Some {
    } else if digit(c) is Some {
        lemma_run_end_bounds(src, pos, Run::Digits);
        let point = run_end(src, pos, Run::Digits);
        if point + 1 < src.len() {
            lemma_run_end_bounds(src, point + 1, Run::Digits);
        }
    } else {
        lemma_run_end_bounds(src, pos, Run::Word);
        lemma_run_end_bounds(src, run_end(src, pos, Run::Word), Run::Line);
    }
}

/// The sequence ends with an end-of-input token and holds no other.
pub open spec fn ends_with_one_eof(tokens: Seq<TokenView>) -> bool {
    &&& tokens.len() > 0
    &&& tokens.last().token_type is EOF
    &&& forall|i: int| 0 <= i < tokens.len() - 1 ==> !((#[trigger] tokens[i]).token_type is EOF)
}

/// No token stands on an earlier line than a token before it.
pub open spec fn lines_ascend(tokens: Seq<TokenView>) -> bool {
    forall|i: int, j: int|
        0 <= i <= j < tokens.len() ==> (#[trigger] tokens[i]).line <= (#[trigger] tokens[j]).line
}

/// No token is a compliment.
pub open spec fn compliment_free(tokens: Seq<TokenView>) -> bool {
    forall|i: int| 0 <= i < tokens.len() ==> !((#[trigger] tokens[i]).token_type is Compliment)
}

/// No compliment keyword of the mood stands in the text.
pub open spec fn flatters_nobody(src: Seq<char>, mood: Mood) -> bool {
    !mentions_one_of(src, mood.compliments())
}

/// What stands in a part of a text stands in the text.
pub proof fn lemma_occurs_in_part(src: Seq<char>, from: int, to: int, needle: Seq<char>)
    requires
        0 <= from <= to <= src.len(),
        occurs(src.subrange(from, to), needle),
    ensures
        occurs(src, needle),
{
    let part = src.subrange(from, to);
    let at = choose|at: int| occurs_at(part, needle, at);
    assert(part.subrange(at, at + needle.len()) =~= src.subrange(
        from + at,
        from + at + needle.len(),
    ));
    assert(occurs_at(src, needle, from + at));
}

/// A compliment word in a part of a text shows that the text flatters.
proof fn lemma_compliment_word_flatters(src: Seq<char>, from: int, to: int, mood: Mood)
    requires
        0 <= from <= to <= src.len(),
        is_compliment_word(src.subrange(from, to), mood),
    ensures
        !flatters_nobody(src, mood),
{
    let word = src.subrange(from, to);
    let k = choose|k: int|
        0 <= k < mood.compliments().len() && occurs(word, #[trigger] mood.compliments()[k]);
    lemma_occurs_in_part(src, from, to, mood.compliments()[k]);
}

/// The tokens from any place on end with the one end-of-input token, stand
/// on ascending lines from the line of that place on, and hold no compliment
/// where the text flatters nobody.
proof fn lemma_scan_from_shape(src: Seq<char>, mood: Mood, pos: int, line: nat)
    requires
        0 <= pos <= src.len(),
    ensures
        ends_with_one_eof(scan_from(src, mood, pos, line)),
        lines_ascend(scan_from(src, mood, pos, line)),
        forall|i: int|
            0 <= i < scan_from(src, mood, pos, line).len() ==> (#[trigger] scan_from(
                src,
                mood,
                pos,
                line,
            )[i]).line >= line,
        flatters_nobody(src, mood) ==> compliment_free(scan_from(src, mood, pos, line)),
    decreases src.len() - pos,
{
    if pos < src.len() {
        let step = step_at(src, mood, pos, line);
        lemma_step_advances(src, mood, pos, line);
        lemma_scan_from_shape(src, mood, step.next, step.line);
        let rest = scan_from(src, mood, step.next, step.line);
        match step.token {
            Some(token) => {
                let all = seq![token] + rest;
                assert(all == scan_from(src, mood, pos, line));
                assert(token.line == line);
                assert(!(token.token_type is EOF));
                assert(all[0] == token);
                assert forall|i: int| 1 <= i < all.len() implies all[i] == rest[i - 1] by {}
                assert(all.last() == rest.last());
                assert forall|i: int| 0 <= i < all.len() - 1 implies !((
                #[trigger] all[i]).token_type is EOF) by {
                    if i > 0 {
                        assert(all[i] == rest[i - 1]);
                    }
                }
                assert forall|i: int, j: int| 0 <= i <= j < all.len() implies (
                #[trigger] all[i]).line <= (#[trigger] all[j]).line by {
                    if i > 0 {
                        assert(all[i] == rest[i - 1]);
                        assert(all[j] == rest[j - 1]);
                    } else if j > 0 {
                        assert(all[j] == rest[j - 1]);
                    }
                }
                assert forall|i: int| 0 <= i < all.len() implies (#[trigger] all[i]).line
                    >= line by {
                    if i > 0 {
                        assert(all[i] == rest[i - 1]);
                    }
                }
                if flatters_nobody(src, mood) {
                    if token.token_type is Compliment {
                        lemma_run_end_bounds(src, pos, Run::Word);
                        lemma_compliment_word_flatters(
                            src,
                            pos,
                            run_end(src, pos, Run::Word),
                            mood,
                        );
                    }
                    assert forall|i: int| 0 <= i < all.len() implies !((
                    #[trigger] all[i]).token_type is Compliment) by {
                        if i > 0 {
                            assert(all[i] == rest[i - 1]);
                        }
                    }
                }
            },
            None => {},
        }
    }
}

/// From any place on there are no more tokens than characters, but for the
/// end of input.
proof fn lemma_scan_from_length(src: Seq<char>, mood: Mood, pos: int, line: nat)
    requires
        0 <= pos <= src.len(),
    ensures
        scan_from(src, mood, pos, line).len() <= src.len() - pos + 1,
    decreases src.len() - pos,
{
    if pos < src.len() {
        let step = step_at(src, mood, pos, line);
        lemma_step_advances(src, mood, pos, line);
        lemma_scan_from_length(src, mood, step.next, step.line);
    }
}

/// A text has no more tokens than characters, but for the end of input.
pub proof fn lemma_tokens_no_more_than_characters(src: Seq<char>, mood: Mood)
    ensures
        scanned(src, mood).len() <= src.len() + 1,
{
    lemma_scan_from_length(src, mood, 0, 1);
}

/// The tokens of every text end with the one end-of-input token and stand on
/// ascending lines.
pub proof fn lemma_scanned_shape(src: Seq<char>, mood: Mood)
    ensures
        ends_with_one_eof(scanned(src, mood)),
        lines_ascend(scanned(src, mood)),
{
    lemma_scan_from_shape(src, mood, 0, 1);
}

/// A text in which no compliment keyword stands gives no compliment token.
pub proof fn lemma_no_keyword_no_compliment(src: Seq<char>, mood: Mood)
    requires
        flatters_nobody(src, mood),
    ensures
        compliment_free(scanned(src, mood)),
{
    lemma_scan_from_shape(src, mood, 0, 1);
}

/// Whether `c` is white space.
fn is_space_char(c: char) -> (space: bool)
    ensures
        space == is_space(c),
{
    c == ' ' || c == '\t' || c == '\r' || c == '\n'
}

/// The value of the digit `c`, if it is one.
fn digit_value(c: char) -> (value: Option<u8>)
    ensures
        match value {
            Some(v) => digit(c) == Some(v as nat) && v <= 9,
            None => digit(c) is None,
        },
{
    match c {
        '0' => Some(0),
        '1' => Some(1),
        '2' => Some(2),
        '3' => Some(3),
        '4' => Some(4),
        '5' => Some(5),
        '6' => Some(6),
        '7' => Some(7),
        '8' => Some(8),
        '9' => Some(9),
        _ => None,
    }
}

/// The token that the punctuation mark `c` is, if it is one.
fn punctuation_type(c: char) -> (kind: Option<TokenType>)
    ensures
        match kind {
            Some(k) => punctuation(c) == Some(k@),
            None => punctuation(c) is None,
        },
{
    match c {
        '{' => Some(TokenType::LeftBrace),
        '}' => Some(TokenType::RightBrace),
        '(' => Some(TokenType::LeftParen),
        ')' => Some(TokenType::RightParen),
        ';' => Some(TokenType::Semicolon),
        ',' => Some(TokenType::Comma),
        '=' => Some(TokenType::Assignment),
        '>' => Some(TokenType::GreaterThan),
        '<' => Some(TokenType::LessThan),
        _ => None,
    }
}

/// Whether `c` ends a run of the kind `run`.
fn stops_run(run: Run, c: char) -> (stop: bool)
    ensures
        stop == stops(run, c),
{
    match run {
        Run::Word => is_space_char(c) || c == '"' || punctuation_type(c).is_some(),
        Run::Digits => digit_value(c).is_none(),
        Run::Line => c == '\n',
    }
}

/// Where the run that begins at `pos` ends.
fn find_run_end(chars: &Vec<char>, pos: usize, run: Run) -> (end: usize)
    requires
        pos <= chars@.len(),
    ensures
        end == run_end(chars@, pos as int, run),
        pos <= end <= chars@.len(),
{
    let mut at: usize = pos;
    while at < chars.len() && !stops_run(run, chars[at])
        invariant
            pos <= at <= chars@.len(),
            run_end(chars@, pos as int, run) == run_end(chars@, at as int, run),
        decreases chars@.len() - at,
    {
        at = at + 1;
    }
    at
}

/// Where the quote stands that closes the text literal whose body begins at
/// `pos`.
fn find_text_end(chars: &Vec<char>, pos: usize) -> (end: usize)
    requires
        pos <= chars@.len(),
    ensures
        end == text_end(chars@, pos as int),
        pos <= end <= chars@.len(),
{
    let mut at: usize = pos;
    while at < chars.len() && chars[at] != '"'
        invariant
            pos <= at <= chars@.len(),
            text_end(chars@, pos as int) == text_end(chars@, at as int),
        decreases chars@.len() - at,
    {
        if chars[at] == '\\' && at + 1 < chars.len() {
            at = at + 2;
        } else {
            at = at + 1;
        }
    }
    at
}

/// The character that stands for `c` after a backslash.
fn escape_char(c: char) -> (read: char)
    ensures
        read == escape(c),
{
    match c {
        'n' => '\n',
        't' => '\t',
        'r' => '\r',
        '0' => '\0',
        _ => c,
    }
}

/// What the body of a text literal from `pos` up to `end` holds.
fn unescape(chars: &Vec<char>, pos: usize, end: usize) -> (body: String)
    requires
        pos <= end <= chars@.len(),
    ensures
        body@ == unescaped_between(chars@, pos as int, end as int),
{
    let mut body = String::new();
    let mut at: usize = pos;
    while at < end
        invariant
            pos <= at <= end <= chars@.len(),
            body@ + unescaped_between(chars@, at as int, end as int) == unescaped_between(
                chars@,
                pos as int,
                end as int,
            ),
        decreases end - at,
    {
        let ghost before = body@;
        if chars[at] == '\\' && at + 1 < end {
            body.push(escape_char(chars[at + 1]));
            assert(body@ + unescaped_between(chars@, at + 2, end as int) =~= before
                + unescaped_between(chars@, at as int, end as int));
            at = at + 2;
        } else {
            body.push(chars[at]);
            assert(body@ + unescaped_between(chars@, at + 1, end as int) =~= before
                + unescaped_between(chars@, at as int, end as int));
            at = at + 1;
        }
    }
    assert(body@ + Seq::<char>::empty() =~= body@);
    body
}

/// How many line feeds stand in the text from `pos` up to `end`.
fn count_newlines(chars: &Vec<char>, pos: usize, end: usize) -> (count: usize)
    requires
        pos <= end <= chars@.len(),
    ensures
        count == newlines_between(chars@, pos as int, end as int),
        count <= end - pos,
{
    let mut count: usize = 0;
    let mut at: usize = pos;
    while at < end
        invariant
            pos <= at <= end <= chars@.len(),
            count <= at - pos,
            count + newlines_between(chars@, at as int, end as int) == newlines_between(
                chars@,
                pos as int,
                end as int,
            ),
        decreases end - at,
    {
        if chars[at] == '\n' {
            count = count + 1;
        }
        at = at + 1;
    }
    count
}

/// The largest whole part that the lexer counts up to. A number literal with
/// a larger one is the largest number that can be held in any case.
pub const WHOLE_CAP: u64 = 10_000_000_000_000;

/// The number that the digits from `pos` up to `end` write, counted up to
/// [`WHOLE_CAP`].
fn whole_part(chars: &Vec<char>, pos: usize, end: usize) -> (whole: u64)
    requires
        pos <= end <= chars@.len(),
    ensures
        whole == if digits_value(chars@, pos as int, end as int) > WHOLE_CAP {
            WHOLE_CAP as nat
        } else {
            digits_value(chars@, pos as int, end as int)
        },
{
    let mut whole: u64 = 0;
    let mut at: usize = pos;
    while at < end
        invariant
            pos <= at <= end <= chars@.len(),
            whole <= WHOLE_CAP,
            whole == if digits_value(chars@, pos as int, at as int) > WHOLE_CAP {
                WHOLE_CAP as nat
            } else {
                digits_value(chars@, pos as int, at as int)
            },
        decreases end - at,
    {
        let step: u64 = match digit_value(chars[at]) {
            Some(value) => value as u64,
            None => 0,
        };
        assert(step == digit_of(chars@[at as int]));
        let grown: u64 = whole * 10 + step;
        whole = if grown > WHOLE_CAP {
            WHOLE_CAP
        } else {
            grown
        };
        at = at + 1;
    }
    whole
}

/// The millionths that the digits from `pos` up to `end` write after the
/// point.
fn fraction_part(chars: &Vec<char>, pos: usize, end: usize) -> (fraction: u64)
    requires
        pos <= end <= chars@.len(),
    ensures
        fraction == fraction_value(chars@, pos as int, end as int, 100_000),
        fraction < 1_000_000,
{
    let mut fraction: u64 = 0;
    let mut weight: u64 = 100_000;
    let mut at: usize = pos;
    while at < end && weight > 0
        invariant
            pos <= at <= end <= chars@.len(),
            weight <= 100_000,
            fraction + 10 * weight <= 1_000_000,
            fraction < 1_000_000,
            fraction + fraction_value(chars@, at as int, end as int, weight as nat)
                == fraction_value(chars@, pos as int, end as int, 100_000),
        decreases end - at,
    {
        let step: u64 = match digit_value(chars[at]) {
            Some(value) => value as u64,
            None => 0,
        };
        assert(step == digit_of(chars@[at as int]));
        assert(step * weight <= 9 * weight) by (nonlinear_arith)
            requires
                step <= 9,
        ;
        fraction = fraction + step * weight;
        weight = weight / 10;
        at = at + 1;
    }
    fraction
}

/// What the lexer cuts in one step.
struct Cut {
    token: Option<Token>,
    next: usize,
    line: usize,
}

/// The mood of a lexing session and the text to cut.
pub struct Lexer {
    pub source: String,
    pub current_mood: Mood,
}

impl Lexer {
    pub fn new(source: String, mood: Mood) -> (lexer: Self)
        ensures
            lexer.source == source,
            lexer.current_mood == mood,
    {
        Self { source, current_mood: mood }
    }

    /// Detect philosophical questions.
    pub fn is_philosophical_question(&self, text: &Vec<char>) -> (question: bool)
        ensures
            question == is_question_word(text@),
    {
        text.len() > 0 && text[text.len() - 1] == '?' && (contains(text, "why") || contains(
            text,
            "meaning",
        ) || contains(text, "purpose") || contains(text, "existence"))
    }

    /// Detect operators based on mood.
    pub fn operator_type(&self, text: &Vec<char>) -> (kind: Option<TokenType>)
        ensures
            match kind {
                Some(k) => operator_kind(text@, self.current_mood) == Some(k@),
                None => operator_kind(text@, self.current_mood) is None,
            },
    {
        let table = self.current_mood.get_operators();
        if is_word(text, table.addition) {
            Some(TokenType::Plus)
        } else if is_word(text, table.subtraction) {
            Some(TokenType::Minus)
        } else if is_word(text, table.multiplication) {
            Some(TokenType::Times)
        } else if is_word(text, table.division) {
            Some(TokenType::Divide)
        } else if is_word(text, table.equality) {
            Some(TokenType::Equal)
        } else if is_word(text, table.inequality) {
            Some(TokenType::NotEqual)
        } else {
            None
        }
    }

    /// The keyword that `text` is in the mood of this lexer, if it is one.
    pub fn keyword_type(&self, text: &Vec<char>) -> (kind: Option<TokenType>)
        ensures
            match kind {
                Some(k) => keyword_kind(text@, self.current_mood) == Some(k@),
                None => keyword_kind(text@, self.current_mood) is None,
            },
    {
        let table = self.current_mood.get_keywords();
        if is_word(text, table.variable_declaration) {
            Some(TokenType::VariableDeclaration)
        } else if is_word(text, table.function_declaration) {
            Some(TokenType::FunctionDeclaration)
        } else if is_word(text, table.conditional) {
            Some(TokenType::Conditional)
        } else if is_word(text, table.loop_construct) {
            Some(TokenType::Loop)
        } else if is_word(text, table.return_statement) {
            Some(TokenType::Return)
        } else if is_word(text, table.end_block) {
            Some(TokenType::EndBlock)
        } else if is_word(text, table.assignment) {
            Some(TokenType::Assignment)
        } else if is_word(text, self.current_mood.get_declaration()) {
            Some(TokenType::MoodDeclaration)
        } else if is_word(text, "lunar_phase") {
            Some(TokenType::LunarPhase)
        } else {
            None
        }
    }

    /// Detect the kind of a word: compliments and questions first, then the
    /// keywords and operators of the mood, then identifiers.
    pub fn identifier_type(&self, text: &Vec<char>) -> (kind: TokenType)
        ensures
            kind@ == word_kind(text@, self.current_mood),
    {
        if is_compliment(text, self.current_mood) {
            return TokenType::Compliment;
        }
        if self.is_philosophical_question(text) {
            return TokenType::PhilosophicalQuestion;
        }
        match self.keyword_type(text) {
            Some(kind) => kind,
            None => match self.operator_type(text) {
                Some(kind) => kind,
                None => {
                    let name = text_of(text, 0, text.len());
                    assert(text@.subrange(0, text@.len() as int) =~= text@);
                    TokenType::Identifier(name)
                },
            },
        }
    }

    /// One step of the lexer at `pos`, a place in the text, on `line`.
    fn cut(&self, chars: &Vec<char>, pos: usize, line: usize) -> (cut: Cut)
        requires
            pos < chars@.len() < usize::MAX,
            line <= pos + 1,
        ensures
            ({
                let step = step_at(chars@, self.current_mood, pos as int, line as nat);
                &&& cut.next == step.next
                &&& cut.line == step.line
                &&& match cut.token {
                    Some(token) => step.token == Some(token@),
                    None => step.token is None,
                }
            }),
    {
        let c = chars[pos];
        if c == '\n' {
            Cut { token: None, next: pos + 1, line: line + 1 }
        } else if is_space_char(c) {
            Cut { token: None, next: pos + 1, line }
        } else if c == '"' {
            let close = find_text_end(chars, pos + 1);
            let next = if close < chars.len() {
                close + 1
            } else {
                chars.len()
            };
            let body = unescape(chars, pos + 1, close);
            let lines = count_newlines(chars, pos + 1, close);
            let token = Token::new(TokenType::String(body), text_of(chars, pos, next), line);
            Cut { token: Some(token), next, line: line + lines }
        } else if let Some(kind) = punctuation_type(c) {
            let token = Token::new(kind, text_of(chars, pos, pos + 1), line);
            Cut { token: Some(token), next: pos + 1, line }
        } else if digit_value(c).is_some() {
            let point = find_run_end(chars, pos, Run::Digits);
            let whole = whole_part(chars, pos, point);
            let fractional = point < chars.len() - 1 && chars[point] == '.' && digit_value(
                chars[point + 1],
            ).is_some();
            let end = if fractional {
                find_run_end(chars, point + 1, Run::Digits)
            } else {
                point
            };
            let fraction: u64 = if fractional {
                fraction_part(chars, point + 1, end)
            } else {
                0
            };
            let total: u64 = whole * 1_000_000 + fraction;
            let micros: i64 = if total > (i64::MAX as u64) {
                i64::MAX
            } else {
                total as i64
            };
            let token = Token::new(
                TokenType::Number(Number { micros }),
                text_of(chars, pos, end),
                line,
            );
            Cut { token: Some(token), next: end, line }
        } else {
            let end = find_run_end(chars, pos, Run::Word);
            let mut word: Vec<char> = Vec::new();
            let mut at: usize = pos;
            while at < end
                invariant
                    pos <= at <= end <= chars@.len(),
                    word@ == chars@.subrange(pos as int, at as int),
                decreases end - at,
            {
                word.push(chars[at]);
                assert(chars@.subrange(pos as int, at + 1) =~= chars@.subrange(
                    pos as int,
                    at as int,
                ).push(chars@[at as int]));
                at = at + 1;
            }
            if is_word(&word, self.current_mood.get_keywords().comment_marker) {
                Cut { token: None, next: find_run_end(chars, end, Run::Line), line }
            } else {
                let kind = self.identifier_type(&word);
                let token = Token::new(kind, text_of(chars, pos, end), line);
                Cut { token: Some(token), next: end, line }
            }
        }
    }

    /// Cuts the source into tokens. A draw below [`SCAN_FAILS_BELOW`] makes
    /// the lexer fail before it has looked at the text; on every other draw
    /// it gives the tokens of the text, closed by one end-of-input token.
    pub fn scan_tokens(&mut self, dice: &mut Dice) -> (result: Result<Vec<Token>, PubuError>)
        requires
            old(self).source@.len() < usize::MAX,
        ensures
            *final(self) == *old(self),
            final(dice)@ == later_draws(old(dice)@),
            match result {
                Ok(tokens) => first_draw(old(dice)@) >= SCAN_FAILS_BELOW && tokens_view(tokens@)
                    == scanned(old(self).source@, old(self).current_mood),
                Err(error) => first_draw(old(dice)@) < SCAN_FAILS_BELOW && error
                    == PubuError::RandomFailure,
            },
    {
        if dice.below(SCAN_FAILS_BELOW) {
            return Err(PubuError::RandomFailure);
        }
        let chars = chars_of(self.source.as_str());
        let ghost src = chars@;
        let ghost mood = self.current_mood;
        let mut tokens: Vec<Token> = Vec::new();
        let mut pos: usize = 0;
        let mut line: usize = 1;
        while pos < chars.len()
            invariant
                pos <= chars@.len() < usize::MAX,
                src == chars@,
                mood == self.current_mood,
                line <= pos + 1,
                tokens_view(tokens@) + scan_from(src, mood, pos as int, line as nat) == scanned(
                    src,
                    mood,
                ),
            decreases chars@.len() - pos,
        {
            proof {
                lemma_step_advances(src, mood, pos as int, line as nat);
            }
            let ghost before = tokens_view(tokens@);
            let cut = self.cut(&chars, pos, line);
            match cut.token {
                Some(token) => {
                    tokens.push(token);
                    assert(tokens_view(tokens@) =~= before.push(token@));
                    assert(tokens_view(tokens@) + scan_from(
                        src,
                        mood,
                        cut.next as int,
                        cut.line as nat,
                    ) =~= before + scan_from(src, mood, pos as int, line as nat));
                },
                None => {},
            }
            pos = cut.next;
            line = cut.line;
        }
        let ghost before = tokens_view(tokens@);
        tokens.push(Token::new(TokenType::EOF, String::new(), line));
        assert(tokens_view(tokens@) =~= before + scan_from(src, mood, pos as int, line as nat));
        Ok(tokens)
    }
}

} // verus!
