//! The parser: it builds the syntax tree of a program from its tokens.
//!
//! ```text
//! program    := statement* end-of-input
//! statement  := VAR name ASSIGN expression ";"
//!             | FUNCTION name "(" (name ("," name)*)? ")" block
//!             | IF expression block ("{" statement* "}")?
//!             | LOOP block | MOOD block | LUNAR block
//!             | RETURN expression? ";"
//!             | compliment ";"? | question ";"?
//!             | name ASSIGN expression ";"
//!             | expression ";"
//! block      := "{" statement* "}" | statement* END
//! expression := comparison
//! comparison := additive ((EQUAL | NOT-EQUAL | ">" | "<") additive)*
//! additive   := multiplicative ((PLUS | MINUS) multiplicative)*
//! multiplicative := unary ((TIMES | DIVIDE) unary)*
//! unary      := MINUS unary | primary
//! primary    := number | text | "true" | "false" | name
//!             | name "(" (expression ("," expression)*)? ")"
//!             | "(" expression ")"
//! ```
//!
//! The words in capitals are the keywords and operators of the mood. Before
//! each statement and each expression the parser takes a draw: the first may
//! end the parse in a crisis, the second wraps the expression in a reality
//! distortion. What the parser gives for given tokens and draws is stated by
//! [`parsed_program`].

use crate::ast::{nodes_view, MoodType, Node, NodeView, Operator};
use crate::chance::{first_draw, later_draws, Dice};
use crate::error::PubuError;
use crate::interpreter::{
    has_compliment, holds_compliment, lemma_weight_of_lists, weight, weight_of_first,
};
use crate::text::{chars_of, is_word};
use crate::lexer::{
    compliment_free, flatters_nobody, lemma_no_keyword_no_compliment, scanned, tokens_view, Token,
    TokenType, TokenTypeView, TokenView,
};
use crate::mood::Mood;
use vstd::prelude::*;

verus! {

/// The least draw on which a parse that found its compliment succeeds: five
/// draws in a hundred make it fail all the same.
pub const PARSE_FAILS_BELOW: u32 = 50;

/// The least draw on which the parser takes up a statement: two draws in a
/// hundred end the parse in a crisis.
pub const CRISIS_BELOW: u32 = 20;

/// The least draw that leaves an expression as it was written: one draw in
/// ten wraps it in a reality distortion.
pub const WRAP_BELOW: u32 = 100;

/// The loosest level of binary operators: comparison. Below it stand the
/// additive operators (level two) and the multiplicative ones (level one).
pub const LOOSEST: u8 = 3;

/// How a parse ended: the tree or the error, the place of the next token
/// (where it succeeded), and the draws left to come.
pub struct Parsed<T> {
    pub result: Result<T, PubuError>,
    pub pos: int,
    pub draws: Seq<u32>,
}

/// A parse that gave up with `error`.
pub open spec fn failed<T>(error: PubuError, draws: Seq<u32>) -> Parsed<T> {
    Parsed { result: Err(error), pos: 0, draws }
}

/// A parse that gave `tree` and stopped before the token at `pos`.
pub open spec fn done<T>(tree: T, pos: int, draws: Seq<u32>) -> Parsed<T> {
    Parsed { result: Ok(tree), pos, draws }
}

/// What a list of statements ends with.
#[derive(Clone, Copy, PartialEq, Eq, Structural)]
pub enum Closer {
    /// The end of the input.
    End,
    /// A closing brace.
    Brace,
    /// The end-of-block keyword of the mood.
    Word,
}

/// The kind of the token at `pos`; end of input where there is none.
pub open spec fn kind_at(tokens: Seq<TokenView>, pos: int) -> TokenTypeView {
    if 0 <= pos < tokens.len() {
        tokens[pos].token_type
    } else {
        TokenTypeView::EOF
    }
}

/// Whether a token of this kind ends a list of statements that `closer`
/// closes. The end of the input ends every list.
pub open spec fn closes(kind: TokenTypeView, closer: Closer) -> bool {
    ||| kind is EOF
    ||| closer == Closer::Brace && kind is RightBrace
    ||| closer == Closer::Word && kind is EndBlock
}

/// The tag that the parser gives the mood blocks it reads in `mood`.
pub open spec fn mood_tag(mood: Mood) -> MoodType {
    match mood {
        Mood::Happy => MoodType::Happy,
        Mood::Grumpy => MoodType::Grumpy,
        Mood::Philosophical => MoodType::Philosophical,
        Mood::Sarcastic => MoodType::Sarcastic,
        Mood::Confused => MoodType::Confused,
    }
}

/// The binary operator that a token of this kind is at `level`, if it is
/// one.
pub open spec fn operator_at(level: nat, kind: TokenTypeView) -> Option<Operator> {
    if level == 3 {
        match kind {
            TokenTypeView::Equal => Some(Operator::Equal),
            TokenTypeView::NotEqual => Some(Operator::NotEqual),
            TokenTypeView::GreaterThan => Some(Operator::GreaterThan),
            TokenTypeView::LessThan => Some(Operator::LessThan),
            _ => None,
        }
    } else if level == 2 {
        match kind {
            TokenTypeView::Plus => Some(Operator::Add),
            TokenTypeView::Minus => Some(Operator::Subtract),
            _ => None,
        }
    } else if level == 1 {
        match kind {
            TokenTypeView::Times => Some(Operator::Multiply),
            TokenTypeView::Divide => Some(Operator::Divide),
            _ => None,
        }
    } else {
        None
    }
}

/// The names of the parameters that stand from `pos` on, up to the closing
/// bracket, and the place after that bracket; nothing where the tokens are
/// no list of parameters. An empty list is one only where `first` holds:
/// after a comma a name must follow.
pub open spec fn parsed_parameters(tokens: Seq<TokenView>, pos: int, first: bool) -> Option<
    (Seq<Seq<char>>, int),
>
    decreases tokens.len() - pos,
{
    match kind_at(tokens, pos) {
        TokenTypeView::Identifier(name) => match kind_at(tokens, pos + 1) {
            TokenTypeView::Comma => match parsed_parameters(tokens, pos + 2, false) {
                Some((names, after)) => Some((seq![name] + names, after)),
                None => None,
            },
            TokenTypeView::RightParen => Some((seq![name], pos + 2)),
            _ => None,
        },
        TokenTypeView::RightParen => if first {
            Some((Seq::empty(), pos + 1))
        } else {
            None
        },
        _ => None,
    }
}

/// A list of parameters ends after its start and within the tokens.
pub proof fn lemma_parameters_bounds(tokens: Seq<TokenView>, pos: int, first: bool)
    requires
        0 <= pos,
    ensures
        match parsed_parameters(tokens, pos, first) {
            Some((_, after)) => pos < after <= tokens.len(),
            None => true,
        },
    decreases tokens.len() - pos,
{
    match kind_at(tokens, pos) {
        TokenTypeView::Identifier(name) => match kind_at(tokens, pos + 1) {
            TokenTypeView::Comma => {
                lemma_parameters_bounds(tokens, pos + 2, false);
            },
            _ => {},
        },
        _ => {},
    }
}

/// The statements from `pos` up to the token that closes the list.
///
/// A statement that were to succeed without moving on would end the parse
/// with a syntax error; the same holds wherever a part of a construct is
/// parsed after another. No statement and no expression does so.
pub open spec fn parsed_statements(
    tokens: Seq<TokenView>,
    mood: Mood,
    pos: int,
    draws: Seq<u32>,
    closer: Closer,
) -> Parsed<Seq<NodeView>>
    decreases tokens.len() - pos, 30nat,
{
    if pos < 0 || pos >= tokens.len() || closes(kind_at(tokens, pos), closer) {
        done(Seq::empty(), pos, draws)
    } else {
        let first = parsed_statement(tokens, mood, pos, draws);
        match first.result {
            Err(error) => failed(error, first.draws),
            Ok(node) => if !(pos < first.pos <= tokens.len()) {
                failed(PubuError::SyntaxError, first.draws)
            } else {
                let rest = parsed_statements(tokens, mood, first.pos, first.draws, closer);
                match rest.result {
                    Err(error) => failed(error, rest.draws),
                    Ok(nodes) => done(seq![node] + nodes, rest.pos, rest.draws),
                }
            },
        }
    }
}

/// The block that begins at `pos`: statements in braces, or statements up to
/// the end-of-block keyword.
pub open spec fn parsed_block(tokens: Seq<TokenView>, mood: Mood, pos: int, draws: Seq<u32>)
    -> Parsed<Seq<NodeView>>
    decreases tokens.len() - pos, 40nat,
{
    if pos < 0 {
        failed(PubuError::SyntaxError, draws)
    } else if kind_at(tokens, pos) is LeftBrace {
        let body = parsed_statements(tokens, mood, pos + 1, draws, Closer::Brace);
        match body.result {
            Err(error) => failed(error, body.draws),
            Ok(nodes) => if kind_at(tokens, body.pos) is RightBrace {
                done(nodes, body.pos + 1, body.draws)
            } else {
                failed(PubuError::SyntaxError, body.draws)
            },
        }
    } else {
        let body = parsed_statements(tokens, mood, pos, draws, Closer::Word);
        match body.result {
            Err(error) => failed(error, body.draws),
            Ok(nodes) => if kind_at(tokens, body.pos) is EndBlock {
                done(nodes, body.pos + 1, body.draws)
            } else {
                failed(PubuError::SyntaxError, body.draws)
            },
        }
    }
}

/// `value`, closed by the semicolon that must stand at `value.pos`.
pub open spec fn closed_by_semicolon(tokens: Seq<TokenView>, value: Parsed<NodeView>) -> Parsed<
    NodeView,
> {
    match value.result {
        Err(error) => failed(error, value.draws),
        Ok(node) => if kind_at(tokens, value.pos) is Semicolon {
            done(node, value.pos + 1, value.draws)
        } else {
            failed(PubuError::SyntaxError, value.draws)
        },
    }
}

/// The declaration of a variable, whose keyword stands at `pos`: a name, the
/// assignment word, an expression and a semicolon.
pub open spec fn parsed_variable_declaration(
    tokens: Seq<TokenView>,
    mood: Mood,
    pos: int,
    draws: Seq<u32>,
) -> Parsed<NodeView>
    decreases tokens.len() - pos, 19nat,
{
    match (kind_at(tokens, pos + 1), kind_at(tokens, pos + 2)) {
        (TokenTypeView::Identifier(name), TokenTypeView::Assignment) => if pos < 0 {
            failed(PubuError::SyntaxError, draws)
        } else {
            let value = closed_by_semicolon(
                tokens,
                parsed_expression(tokens, mood, pos + 3, draws),
            );
            match value.result {
                Err(error) => failed(error, value.draws),
                Ok(node) => done(
                    NodeView::VariableDeclaration(name, Box::new(node)),
                    value.pos,
                    value.draws,
                ),
            }
        },
        _ => failed(PubuError::SyntaxError, draws),
    }
}

/// The declaration of a function, whose keyword stands at `pos`: a name, the
/// parameters in brackets, and a block.
pub open spec fn parsed_function_declaration(
    tokens: Seq<TokenView>,
    mood: Mood,
    pos: int,
    draws: Seq<u32>,
) -> Parsed<NodeView>
    decreases tokens.len() - pos, 19nat,
{
    match (kind_at(tokens, pos + 1), kind_at(tokens, pos + 2)) {
        (TokenTypeView::Identifier(name), TokenTypeView::LeftParen) => {
            match parsed_parameters(tokens, pos + 3, true) {
                None => failed(PubuError::SyntaxError, draws),
                Some((names, after)) => if pos < 0 {
                    failed(PubuError::SyntaxError, draws)
                } else {
                    proof {
                        lemma_parameters_bounds(tokens, pos + 3, true);
                    }
                    let body = parsed_block(tokens, mood, after, draws);
                    match body.result {
                        Err(error) => failed(error, body.draws),
                        Ok(nodes) => done(
                            NodeView::FunctionDeclaration(name, names, nodes),
                            body.pos,
                            body.draws,
                        ),
                    }
                },
            }
        },
        _ => failed(PubuError::SyntaxError, draws),
    }
}

/// The conditional whose keyword stands at `pos`: an expression, a block,
/// and, where a brace follows that block, a second block in braces for the
/// other case.
pub open spec fn parsed_conditional(tokens: Seq<TokenView>, mood: Mood, pos: int, draws: Seq<u32>)
    -> Parsed<NodeView>
    decreases tokens.len() - pos, 19nat,
{
    if pos < 0 || pos >= tokens.len() {
        failed(PubuError::SyntaxError, draws)
    } else {
        let condition = parsed_expression(tokens, mood, pos + 1, draws);
        match condition.result {
            Err(error) => failed(error, condition.draws),
            Ok(test) => if !(pos < condition.pos <= tokens.len()) {
                failed(PubuError::SyntaxError, condition.draws)
            } else {
                let then = parsed_block(tokens, mood, condition.pos, condition.draws);
                match then.result {
                    Err(error) => failed(error, then.draws),
                    Ok(nodes) => if !(pos < then.pos <= tokens.len()) {
                        failed(PubuError::SyntaxError, then.draws)
                    } else if kind_at(tokens, then.pos) is LeftBrace {
                        let other = parsed_block(tokens, mood, then.pos, then.draws);
                        match other.result {
                            Err(error) => failed(error, other.draws),
                            Ok(others) => done(
                                NodeView::IfStatement(Box::new(test), nodes, Some(others)),
                                other.pos,
                                other.draws,
                            ),
                        }
                    } else {
                        done(
                            NodeView::IfStatement(Box::new(test), nodes, None),
                            then.pos,
                            then.draws,
                        )
                    },
                }
            },
        }
    }
}

/// The loop whose keyword stands at `pos`: a block.
pub open spec fn parsed_loop(tokens: Seq<TokenView>, mood: Mood, pos: int, draws: Seq<u32>)
    -> Parsed<NodeView>
    decreases tokens.len() - pos, 19nat,
{
    if pos < 0 || pos >= tokens.len() {
        failed(PubuError::SyntaxError, draws)
    } else {
        let body = parsed_block(tokens, mood, pos + 1, draws);
        match body.result {
            Err(error) => failed(error, body.draws),
            Ok(nodes) => done(NodeView::Loop(nodes), body.pos, body.draws),
        }
    }
}

/// The mood block whose opening word stands at `pos`: a block, tagged with
/// the mood in which the parser reads.
pub open spec fn parsed_mood_block(tokens: Seq<TokenView>, mood: Mood, pos: int, draws: Seq<u32>)
    -> Parsed<NodeView>
    decreases tokens.len() - pos, 19nat,
{
    if pos < 0 || pos >= tokens.len() {
        failed(PubuError::SyntaxError, draws)
    } else {
        let body = parsed_block(tokens, mood, pos + 1, draws);
        match body.result {
            Err(error) => failed(error, body.draws),
            Ok(nodes) => done(NodeView::MoodBlock(mood_tag(mood), nodes), body.pos, body.draws),
        }
    }
}

/// The lunar block whose opening word stands at `pos`: a block.
pub open spec fn parsed_lunar_phase_block(
    tokens: Seq<TokenView>,
    mood: Mood,
    pos: int,
    draws: Seq<u32>,
) -> Parsed<NodeView>
    decreases tokens.len() - pos, 19nat,
{
    if pos < 0 || pos >= tokens.len() {
        failed(PubuError::SyntaxError, draws)
    } else {
        let body = parsed_block(tokens, mood, pos + 1, draws);
        match body.result {
            Err(error) => failed(error, body.draws),
            Ok(nodes) => done(NodeView::LunarPhaseBlock(nodes), body.pos, body.draws),
        }
    }
}

/// The return statement whose keyword stands at `pos`: a semicolon, or an
/// expression and a semicolon.
pub open spec fn parsed_return(tokens: Seq<TokenView>, mood: Mood, pos: int, draws: Seq<u32>)
    -> Parsed<NodeView>
    decreases tokens.len() - pos, 19nat,
{
    if pos < 0 || pos >= tokens.len() {
        failed(PubuError::SyntaxError, draws)
    } else if kind_at(tokens, pos + 1) is Semicolon {
        done(NodeView::Return(None), pos + 2, draws)
    } else {
        let value = closed_by_semicolon(tokens, parsed_expression(tokens, mood, pos + 1, draws));
        match value.result {
            Err(error) => failed(error, value.draws),
            Ok(node) => done(NodeView::Return(Some(Box::new(node))), value.pos, value.draws),
        }
    }
}

/// The place after the token at `pos` and the semicolon that may follow it.
pub open spec fn after_optional_semicolon(tokens: Seq<TokenView>, pos: int) -> int {
    if kind_at(tokens, pos + 1) is Semicolon {
        pos + 2
    } else {
        pos + 1
    }
}

/// The compliment that stands at `pos`, with the semicolon that may follow
/// it. The text of the node is the text of the token.
pub open spec fn parsed_compliment(tokens: Seq<TokenView>, pos: int, draws: Seq<u32>) -> Parsed<
    NodeView,
> {
    done(NodeView::Compliment(tokens[pos].lexeme), after_optional_semicolon(tokens, pos), draws)
}

/// The question that stands at `pos`, with the semicolon that may follow it.
pub open spec fn parsed_philosophical_question(tokens: Seq<TokenView>, pos: int, draws: Seq<u32>)
    -> Parsed<NodeView> {
    done(
        NodeView::PhilosophicalQuestion(tokens[pos].lexeme),
        after_optional_semicolon(tokens, pos),
        draws,
    )
}

/// The assignment to `name`, which stands at `pos` before the assignment
/// word: an expression and a semicolon.
pub open spec fn parsed_assignment(
    tokens: Seq<TokenView>,
    mood: Mood,
    name: Seq<char>,
    pos: int,
    draws: Seq<u32>,
) -> Parsed<NodeView>
    decreases tokens.len() - pos, 19nat,
{
    if pos < 0 || pos + 1 >= tokens.len() {
        failed(PubuError::SyntaxError, draws)
    } else {
        let value = closed_by_semicolon(tokens, parsed_expression(tokens, mood, pos + 2, draws));
        match value.result {
            Err(error) => failed(error, value.draws),
            Ok(node) => done(NodeView::Assignment(name, Box::new(node)), value.pos, value.draws),
        }
    }
}

/// The statement that begins at `pos`. A draw below [`CRISIS_BELOW`] ends
/// the parse before the statement is looked at; else the kind of the token
/// at `pos` decides which statement it is. What begins with no keyword is an
/// assignment, where the assignment word follows a name, and else an
/// expression with its semicolon.
pub open spec fn parsed_statement(tokens: Seq<TokenView>, mood: Mood, pos: int, draws: Seq<u32>)
    -> Parsed<NodeView>
    decreases tokens.len() - pos, 20nat,
{
    let left = later_draws(draws);
    if first_draw(draws) < CRISIS_BELOW {
        failed(PubuError::PhilosophicalCrisis, left)
    } else if pos < 0 {
        failed(PubuError::SyntaxError, left)
    } else {
        match kind_at(tokens, pos) {
            TokenTypeView::VariableDeclaration => parsed_variable_declaration(
                tokens,
                mood,
                pos,
                left,
            ),
            TokenTypeView::FunctionDeclaration => parsed_function_declaration(
                tokens,
                mood,
                pos,
                left,
            ),
            TokenTypeView::Conditional => parsed_conditional(tokens, mood, pos, left),
            TokenTypeView::Loop => parsed_loop(tokens, mood, pos, left),
            TokenTypeView::MoodDeclaration => parsed_mood_block(tokens, mood, pos, left),
            TokenTypeView::LunarPhase => parsed_lunar_phase_block(tokens, mood, pos, left),
            TokenTypeView::Return => parsed_return(tokens, mood, pos, left),
            TokenTypeView::Compliment => parsed_compliment(tokens, pos, left),
            TokenTypeView::PhilosophicalQuestion => parsed_philosophical_question(
                tokens,
                pos,
                left,
            ),
            kind => {
                if kind is Identifier && kind_at(tokens, pos + 1) is Assignment {
                    parsed_assignment(tokens, mood, kind->Identifier_0, pos, left)
                } else {
                    closed_by_semicolon(tokens, parsed_expression(tokens, mood, pos, left))
                }
            },
        }
    }
}

/// The expressions from `pos` up to the closing bracket, parted by commas.
/// An empty list is one only where `first` holds.
pub open spec fn parsed_arguments(
    tokens: Seq<TokenView>,
    mood: Mood,
    pos: int,
    draws: Seq<u32>,
    first: bool,
) -> Parsed<Seq<NodeView>>
    decreases tokens.len() - pos, 15nat,
{
    if pos < 0 {
        failed(PubuError::SyntaxError, draws)
    } else if first && kind_at(tokens, pos) is RightParen {
        done(Seq::empty(), pos + 1, draws)
    } else {
        let head = parsed_expression(tokens, mood, pos, draws);
        match head.result {
            Err(error) => failed(error, head.draws),
            Ok(node) => if !(pos < head.pos <= tokens.len()) {
                failed(PubuError::SyntaxError, head.draws)
            } else {
                match kind_at(tokens, head.pos) {
                    TokenTypeView::RightParen => done(seq![node], head.pos + 1, head.draws),
                    TokenTypeView::Comma => {
                        let rest = parsed_arguments(
                            tokens,
                            mood,
                            head.pos + 1,
                            head.draws,
                            false,
                        );
                        match rest.result {
                            Err(error) => failed(error, rest.draws),
                            Ok(nodes) => done(seq![node] + nodes, rest.pos, rest.draws),
                        }
                    },
                    _ => failed(PubuError::SyntaxError, head.draws),
                }
            },
        }
    }
}

/// The expression that begins at `pos`. A draw below [`WRAP_BELOW`], taken
/// first, wraps it in a reality distortion.
pub open spec fn parsed_expression(tokens: Seq<TokenView>, mood: Mood, pos: int, draws: Seq<u32>)
    -> Parsed<NodeView>
    decreases tokens.len() - pos, 10nat,
{
    let inner = parsed_binary(tokens, mood, 3, pos, later_draws(draws));
    match inner.result {
        Err(error) => failed(error, inner.draws),
        Ok(node) => if first_draw(draws) < WRAP_BELOW {
            done(NodeView::RealityDistortion(Box::new(node)), inner.pos, inner.draws)
        } else {
            inner
        },
    }
}

/// The operand chain of `level` that begins at `pos`: operands of the level
/// below, joined from the left by the operators of `level`. Level zero is a
/// unary expression.
pub open spec fn parsed_binary(
    tokens: Seq<TokenView>,
    mood: Mood,
    level: nat,
    pos: int,
    draws: Seq<u32>,
) -> Parsed<NodeView>
    decreases tokens.len() - pos, level + 2,
{
    if level == 0 {
        parsed_unary(tokens, mood, pos, draws)
    } else {
        let left = parsed_binary(tokens, mood, (level - 1) as nat, pos, draws);
        match left.result {
            Err(error) => failed(error, left.draws),
            Ok(node) => if !(pos < left.pos <= tokens.len()) {
                failed(PubuError::SyntaxError, left.draws)
            } else {
                parsed_binary_rest(tokens, mood, level, node, left.pos, left.draws)
            },
        }
    }
}

/// What follows the operand `left` in a chain of `level`: as long as an
/// operator of the level stands at `pos`, the operand after it joins what
/// came before.
pub open spec fn parsed_binary_rest(
    tokens: Seq<TokenView>,
    mood: Mood,
    level: nat,
    left: NodeView,
    pos: int,
    draws: Seq<u32>,
) -> Parsed<NodeView>
    decreases tokens.len() - pos, 0nat,
{
    match operator_at(level, kind_at(tokens, pos)) {
        None => done(left, pos, draws),
        Some(operator) => if level == 0 || pos < 0 || pos >= tokens.len() {
            failed(PubuError::SyntaxError, draws)
        } else {
            let right = parsed_binary(tokens, mood, (level - 1) as nat, pos + 1, draws);
            match right.result {
                Err(error) => failed(error, right.draws),
                Ok(node) => if !(pos < right.pos <= tokens.len()) {
                    failed(PubuError::SyntaxError, right.draws)
                } else {
                    parsed_binary_rest(
                        tokens,
                        mood,
                        level,
                        NodeView::BinaryOp(Box::new(left), operator, Box::new(node)),
                        right.pos,
                        right.draws,
                    )
                },
            }
        },
    }
}

/// The unary expression that begins at `pos`: a primary expression behind
/// any number of minus operators.
pub open spec fn parsed_unary(tokens: Seq<TokenView>, mood: Mood, pos: int, draws: Seq<u32>)
    -> Parsed<NodeView>
    decreases tokens.len() - pos, 1nat,
{
    if pos >= 0 && kind_at(tokens, pos) is Minus {
        let operand = parsed_unary(tokens, mood, pos + 1, draws);
        match operand.result {
            Err(error) => failed(error, operand.draws),
            Ok(node) => done(
                NodeView::UnaryOp(Operator::Subtract, Box::new(node)),
                operand.pos,
                operand.draws,
            ),
        }
    } else {
        parsed_primary(tokens, mood, pos, draws)
    }
}

/// The primary expression that begins at `pos`.
pub open spec fn parsed_primary(tokens: Seq<TokenView>, mood: Mood, pos: int, draws: Seq<u32>)
    -> Parsed<NodeView>
    decreases tokens.len() - pos, 0nat,
{
    if pos < 0 {
        failed(PubuError::SyntaxError, draws)
    } else {
        match kind_at(tokens, pos) {
            TokenTypeView::Number(n) => done(NodeView::Number(n), pos + 1, draws),
            TokenTypeView::String(s) => done(NodeView::String(s), pos + 1, draws),
            TokenTypeView::Identifier(name) => if name == "true"@ {
                done(NodeView::Boolean(true), pos + 1, draws)
            } else if name == "false"@ {
                done(NodeView::Boolean(false), pos + 1, draws)
            } else if kind_at(tokens, pos + 1) is LeftParen {
                let arguments = parsed_arguments(tokens, mood, pos + 2, draws, true);
                match arguments.result {
                    Err(error) => failed(error, arguments.draws),
                    Ok(nodes) => done(
                        NodeView::FunctionCall(name, nodes),
                        arguments.pos,
                        arguments.draws,
                    ),
                }
            } else {
                done(NodeView::Identifier(name), pos + 1, draws)
            },
            TokenTypeView::LeftParen => {
                let inner = parsed_expression(tokens, mood, pos + 1, draws);
                match inner.result {
                    Err(error) => failed(error, inner.draws),
                    Ok(node) => if kind_at(tokens, inner.pos) is RightParen {
                        done(node, inner.pos + 1, inner.draws)
                    } else {
                        failed(PubuError::SyntaxError, inner.draws)
                    },
                }
            },
            _ => failed(PubuError::SyntaxError, draws),
        }
    }
}

/// The program that the tokens write: its statements up to the end of the
/// input.
///
/// A crisis ends the parse wherever it strikes. Tokens without a compliment
/// among them fail for want of a compliment, whatever else is wrong with
/// them; other tokens fail with the error of the statement that does not
/// parse. Statements that parse make a program only with a compliment among
/// them, and even then a last draw below [`PARSE_FAILS_BELOW`] makes the
/// parse fail.
pub open spec fn parsed_program(tokens: Seq<TokenView>, mood: Mood, draws: Seq<u32>) -> Parsed<
    NodeView,
> {
    let body = parsed_statements(tokens, mood, 0, draws, Closer::End);
    match body.result {
        Err(error) => if compliment_free(tokens) && !(error is PhilosophicalCrisis) {
            failed(PubuError::NotEnoughCompliments, body.draws)
        } else {
            failed(error, body.draws)
        },
        Ok(statements) => if !holds_compliment(statements) {
            failed(PubuError::NotEnoughCompliments, body.draws)
        } else if first_draw(body.draws) < PARSE_FAILS_BELOW {
            failed(PubuError::RandomFailure, later_draws(body.draws))
        } else {
            done(NodeView::Program(statements), body.pos, later_draws(body.draws))
        },
    }
}

/// The node is no program and holds none, however deep.
pub open spec fn nests_no_program(node: NodeView) -> bool
    decreases node,
{
    match node {
        NodeView::Program(_) => false,
        NodeView::VariableDeclaration(_, value) => nests_no_program(*value),
        NodeView::IfStatement(condition, then_branch, else_branch) => {
            &&& nests_no_program(*condition)
            &&& none_nests_program(then_branch)
            &&& match else_branch {
                Some(statements) => none_nests_program(statements),
                None => true,
            }
        },
        NodeView::Loop(body) => none_nests_program(body),
        NodeView::MoodBlock(_, body) => none_nests_program(body),
        NodeView::LunarPhaseBlock(body) => none_nests_program(body),
        NodeView::FunctionDeclaration(_, _, body) => none_nests_program(body),
        NodeView::FunctionCall(_, arguments) => none_nests_program(arguments),
        NodeView::Return(value) => match value {
            Some(inner) => nests_no_program(*inner),
            None => true,
        },
        NodeView::RealityDistortion(inner) => nests_no_program(*inner),
        NodeView::BinaryOp(left, _, right) => nests_no_program(*left) && nests_no_program(*right),
        NodeView::UnaryOp(_, operand) => nests_no_program(*operand),
        NodeView::Assignment(_, value) => nests_no_program(*value),
        _ => true,
    }
}

/// None of the nodes is a program or holds one.
pub open spec fn none_nests_program(nodes: Seq<NodeView>) -> bool
    decreases nodes,
{
    forall|i: int| 0 <= i < nodes.len() ==> nests_no_program(#[trigger] nodes[i])
}

/// A node before nodes that nest no program nests none with them if it nests
/// none itself.
proof fn lemma_none_nests_program_after(node: NodeView, nodes: Seq<NodeView>)
    requires
        nests_no_program(node),
        none_nests_program(nodes),
    ensures
        none_nests_program(seq![node] + nodes),
{
    let all = seq![node] + nodes;
    assert forall|i: int| 0 <= i < all.len() implies nests_no_program(#[trigger] all[i]) by {
        if i > 0 {
            assert(all[i] == nodes[i - 1]);
        }
    }
}

/// What every expression is: a node that is no compliment, that counts
/// nothing when it is evaluated, and that nests no program.
pub open spec fn plain(node: NodeView) -> bool {
    !(node is Compliment) && weight(node) == 0 && nests_no_program(node)
}

/// A parse that succeeded gave a plain node and stopped after `pos`, within
/// the tokens.
pub open spec fn plain_and_on(parsed: Parsed<NodeView>, pos: int, len: nat) -> bool {
    match parsed.result {
        Ok(node) => plain(node) && pos < parsed.pos <= len,
        Err(_) => true,
    }
}

/// Every expression is a plain node, and its parse moves on.
proof fn lemma_expression_shape(tokens: Seq<TokenView>, mood: Mood, pos: int, draws: Seq<u32>)
    requires
        0 <= pos,
    ensures
        plain_and_on(parsed_expression(tokens, mood, pos, draws), pos, tokens.len()),
    decreases tokens.len() - pos, 10nat,
{
    lemma_binary_shape(tokens, mood, 3, pos, later_draws(draws));
}

/// Every operand chain is a plain node, and its parse moves on.
proof fn lemma_binary_shape(
    tokens: Seq<TokenView>,
    mood: Mood,
    level: nat,
    pos: int,
    draws: Seq<u32>,
)
    requires
        0 <= pos,
    ensures
        plain_and_on(parsed_binary(tokens, mood, level, pos, draws), pos, tokens.len()),
    decreases tokens.len() - pos, level + 2,
{
    if level == 0 {
        lemma_unary_shape(tokens, mood, pos, draws);
    } else {
        let left = parsed_binary(tokens, mood, (level - 1) as nat, pos, draws);
        lemma_binary_shape(tokens, mood, (level - 1) as nat, pos, draws);
        match left.result {
            Ok(node) => {
                if pos < left.pos <= tokens.len() {
                    lemma_binary_rest_shape(tokens, mood, level, node, left.pos, left.draws);
                }
            },
            Err(_) => {},
        }
    }
}

/// What follows a plain operand makes a plain node of it, and does not go
/// back.
proof fn lemma_binary_rest_shape(
    tokens: Seq<TokenView>,
    mood: Mood,
    level: nat,
    left: NodeView,
    pos: int,
    draws: Seq<u32>,
)
    requires
        plain(left),
        0 <= pos <= tokens.len(),
    ensures
        plain_and_on(
            parsed_binary_rest(tokens, mood, level, left, pos, draws),
            pos - 1,
            tokens.len(),
        ),
    decreases tokens.len() - pos, 0nat,
{
    match operator_at(level, kind_at(tokens, pos)) {
        None => {},
        Some(operator) => {
            if !(level == 0 || pos < 0 || pos >= tokens.len()) {
                let right = parsed_binary(tokens, mood, (level - 1) as nat, pos + 1, draws);
                lemma_binary_shape(tokens, mood, (level - 1) as nat, pos + 1, draws);
                match right.result {
                    Ok(node) => {
                        if pos < right.pos <= tokens.len() {
                            lemma_binary_rest_shape(
                                tokens,
                                mood,
                                level,
                                NodeView::BinaryOp(Box::new(left), operator, Box::new(node)),
                                right.pos,
                                right.draws,
                            );
                        }
                    },
                    Err(_) => {},
                }
            }
        },
    }
}

/// Every unary expression is a plain node, and its parse moves on.
proof fn lemma_unary_shape(tokens: Seq<TokenView>, mood: Mood, pos: int, draws: Seq<u32>)
    requires
        0 <= pos,
    ensures
        plain_and_on(parsed_unary(tokens, mood, pos, draws), pos, tokens.len()),
    decreases tokens.len() - pos, 1nat,
{
    if kind_at(tokens, pos) is Minus {
        lemma_unary_shape(tokens, mood, pos + 1, draws);
    } else {
        lemma_primary_shape(tokens, mood, pos, draws);
    }
}

/// Every primary expression is a plain node, and its parse moves on.
proof fn lemma_primary_shape(tokens: Seq<TokenView>, mood: Mood, pos: int, draws: Seq<u32>)
    requires
        0 <= pos,
    ensures
        plain_and_on(parsed_primary(tokens, mood, pos, draws), pos, tokens.len()),
    decreases tokens.len() - pos, 0nat,
{
    match kind_at(tokens, pos) {
        TokenTypeView::Identifier(name) => {
            if name != "true"@ && name != "false"@ && kind_at(tokens, pos + 1) is LeftParen {
                lemma_arguments_shape(tokens, mood, pos + 2, draws, true);
            }
        },
        TokenTypeView::LeftParen => {
            lemma_expression_shape(tokens, mood, pos + 1, draws);
        },
        _ => {},
    }
}

/// The parse of a list of arguments moves on.
proof fn lemma_arguments_shape(
    tokens: Seq<TokenView>,
    mood: Mood,
    pos: int,
    draws: Seq<u32>,
    first: bool,
)
    requires
        0 <= pos,
    ensures
        match parsed_arguments(tokens, mood, pos, draws, first).result {
            Ok(nodes) => none_nests_program(nodes) && pos < parsed_arguments(
                tokens,
                mood,
                pos,
                draws,
                first,
            ).pos <= tokens.len(),
            Err(_) => true,
        },
    decreases tokens.len() - pos, 15nat,
{
    if !(first && kind_at(tokens, pos) is RightParen) {
        let head = parsed_expression(tokens, mood, pos, draws);
        lemma_expression_shape(tokens, mood, pos, draws);
        match head.result {
            Ok(node) => {
                if pos < head.pos <= tokens.len() {
                    if kind_at(tokens, head.pos) is Comma {
                        let rest = parsed_arguments(tokens, mood, head.pos + 1, head.draws, false);
                        lemma_arguments_shape(tokens, mood, head.pos + 1, head.draws, false);
                        match rest.result {
                            Ok(nodes) => {
                                lemma_none_nests_program_after(node, nodes);
                            },
                            Err(_) => {},
                        }
                    } else {
                        lemma_none_nests_program_after(node, Seq::empty());
                        assert(seq![node] + Seq::<NodeView>::empty() =~= seq![node]);
                    }
                }
            },
            Err(_) => {},
        }
    }
}

/// A parse that succeeded gave a node that is a compliment only where a
/// compliment token stands at `pos`, that counts no more than the tokens it
/// was made of when it is evaluated, and that nests no program; and it
/// stopped after `pos`, within the tokens.
pub open spec fn sound_statement(tokens: Seq<TokenView>, parsed: Parsed<NodeView>, pos: int)
    -> bool {
    match parsed.result {
        Ok(node) => {
            &&& pos < parsed.pos <= tokens.len()
            &&& weight(node) <= parsed.pos - pos
            &&& node is Compliment ==> kind_at(tokens, pos) is Compliment
            &&& nests_no_program(node)
        },
        Err(_) => true,
    }
}

/// A parse that succeeded gave statements that count no more than the tokens
/// they were made of, none of them a compliment where no token is one, and
/// none of them with a program in it; and it did not stop before `pos` nor
/// beyond the tokens.
pub open spec fn sound_statements(
    tokens: Seq<TokenView>,
    parsed: Parsed<Seq<NodeView>>,
    pos: int,
) -> bool {
    match parsed.result {
        Ok(nodes) => {
            &&& pos <= parsed.pos <= tokens.len()
            &&& weight_of_first(nodes, nodes.len()) <= parsed.pos - pos
            &&& compliment_free(tokens) ==> !holds_compliment(nodes)
            &&& none_nests_program(nodes)
        },
        Err(_) => true,
    }
}

/// Every statement that parses is sound.
pub proof fn lemma_statement_shape(
    tokens: Seq<TokenView>,
    mood: Mood,
    pos: int,
    draws: Seq<u32>,
)
    requires
        0 <= pos,
    ensures
        sound_statement(tokens, parsed_statement(tokens, mood, pos, draws), pos),
    decreases tokens.len() - pos, 20nat,
{
    let left = later_draws(draws);
    if first_draw(draws) >= CRISIS_BELOW {
        match kind_at(tokens, pos) {
            TokenTypeView::VariableDeclaration => {
                if kind_at(tokens, pos + 2) is Assignment {
                    lemma_expression_shape(tokens, mood, pos + 3, left);
                }
            },
            TokenTypeView::FunctionDeclaration => {
                if kind_at(tokens, pos + 2) is LeftParen {
                    match parsed_parameters(tokens, pos + 3, true) {
                        Some((names, after)) => {
                            lemma_parameters_bounds(tokens, pos + 3, true);
                            lemma_block_shape(tokens, mood, after, left);
                        },
                        None => {},
                    }
                }
            },
            TokenTypeView::Conditional => {
                let condition = parsed_expression(tokens, mood, pos + 1, left);
                lemma_expression_shape(tokens, mood, pos + 1, left);
                if condition.result is Ok && pos < condition.pos <= tokens.len() {
                    let then = parsed_block(tokens, mood, condition.pos, condition.draws);
                    lemma_block_shape(tokens, mood, condition.pos, condition.draws);
                    if then.result is Ok && pos < then.pos <= tokens.len() {
                        lemma_block_shape(tokens, mood, then.pos, then.draws);
                    }
                }
            },
            TokenTypeView::Loop => {
                lemma_block_shape(tokens, mood, pos + 1, left);
            },
            TokenTypeView::MoodDeclaration => {
                lemma_block_shape(tokens, mood, pos + 1, left);
            },
            TokenTypeView::LunarPhase => {
                lemma_block_shape(tokens, mood, pos + 1, left);
            },
            TokenTypeView::Return => {
                lemma_expression_shape(tokens, mood, pos + 1, left);
            },
            TokenTypeView::Compliment => {},
            TokenTypeView::PhilosophicalQuestion => {},
            kind => {
                if kind is Identifier && kind_at(tokens, pos + 1) is Assignment {
                    lemma_expression_shape(tokens, mood, pos + 2, left);
                } else {
                    lemma_expression_shape(tokens, mood, pos, left);
                }
            },
        }
    }
}

/// Every block that parses is sound, and its parse moves on.
pub proof fn lemma_block_shape(tokens: Seq<TokenView>, mood: Mood, pos: int, draws: Seq<u32>)
    requires
        0 <= pos <= tokens.len(),
    ensures
        sound_statements(tokens, parsed_block(tokens, mood, pos, draws), pos),
        parsed_block(tokens, mood, pos, draws).result is Ok ==> pos < parsed_block(
            tokens,
            mood,
            pos,
            draws,
        ).pos,
    decreases tokens.len() - pos, 40nat,
{
    if kind_at(tokens, pos) is LeftBrace {
        lemma_statements_shape(tokens, mood, pos + 1, draws, Closer::Brace);
    } else {
        lemma_statements_shape(tokens, mood, pos, draws, Closer::Word);
    }
}

/// Every list of statements that parses is sound.
pub proof fn lemma_statements_shape(
    tokens: Seq<TokenView>,
    mood: Mood,
    pos: int,
    draws: Seq<u32>,
    closer: Closer,
)
    requires
        0 <= pos <= tokens.len(),
    ensures
        sound_statements(tokens, parsed_statements(tokens, mood, pos, draws, closer), pos),
    decreases tokens.len() - pos, 30nat,
{
    if !(pos >= tokens.len() || closes(kind_at(tokens, pos), closer)) {
        let first = parsed_statement(tokens, mood, pos, draws);
        lemma_statement_shape(tokens, mood, pos, draws);
        match first.result {
            Ok(node) => {
                if pos < first.pos <= tokens.len() {
                    let rest = parsed_statements(tokens, mood, first.pos, first.draws, closer);
                    lemma_statements_shape(tokens, mood, first.pos, first.draws, closer);
                    match rest.result {
                        Ok(nodes) => {
                            let head = seq![node];
                            let all = head + nodes;
                            lemma_weight_of_lists(head, nodes, nodes.len());
                            lemma_none_nests_program_after(node, nodes);
                            assert(weight_of_first(head, 1) == weight(node)) by {
                                assert(weight_of_first(head, 0) == 0);
                                assert(head[0] == node);
                            }
                            if compliment_free(tokens) {
                                assert forall|i: int| 0 <= i < all.len() implies !((
                                #[trigger] all[i]) is Compliment) by {
                                    if i > 0 {
                                        assert(all[i] == nodes[i - 1]);
                                    }
                                }
                            }
                        },
                        Err(_) => {},
                    }
                }
            },
            Err(_) => {},
        }
    }
}

/// What parses is a program at its root, and no program stands anywhere
/// below the root.
pub proof fn lemma_program_is_the_root(tokens: Seq<TokenView>, mood: Mood, draws: Seq<u32>)
    ensures
        match parsed_program(tokens, mood, draws).result {
            Ok(program) => match program {
                NodeView::Program(statements) => none_nests_program(statements),
                _ => false,
            },
            Err(_) => true,
        },
{
    lemma_statements_shape(tokens, mood, 0, draws, Closer::End);
}

/// A program that parses counts no more than there are tokens when it is
/// evaluated: the counters of a new interpreter have room for it.
pub proof fn lemma_program_weighs_no_more_than_its_tokens(
    tokens: Seq<TokenView>,
    mood: Mood,
    draws: Seq<u32>,
)
    ensures
        match parsed_program(tokens, mood, draws).result {
            Ok(program) => weight(program) <= tokens.len(),
            Err(_) => true,
        },
{
    lemma_statements_shape(tokens, mood, 0, draws, Closer::End);
}

/// No draw to come strikes the parser with a crisis.
pub open spec fn calm(draws: Seq<u32>) -> bool {
    forall|i: int| 0 <= i < draws.len() ==> #[trigger] draws[i] >= CRISIS_BELOW
}

/// Where no draw to come strikes with a crisis, the parse did not end in one
/// and left no such draw.
pub open spec fn spared<T>(draws: Seq<u32>, parsed: Parsed<T>) -> bool {
    calm(draws) ==> calm(parsed.draws) && match parsed.result {
        Ok(_) => true,
        Err(error) => !(error is PhilosophicalCrisis),
    }
}

/// After a draw that is calm, what is to come is calm.
proof fn lemma_calm_later(draws: Seq<u32>)
    requires
        calm(draws),
    ensures
        calm(later_draws(draws)),
        first_draw(draws) >= CRISIS_BELOW,
{
    let later = later_draws(draws);
    assert forall|i: int| 0 <= i < later.len() implies #[trigger] later[i] >= CRISIS_BELOW by {
        if draws.len() > 0 {
            assert(later[i] == draws[i + 1]);
        }
    }
}

/// No expression ends in a crisis of its own.
proof fn lemma_expression_spared(tokens: Seq<TokenView>, mood: Mood, pos: int, draws: Seq<u32>)
    requires
        0 <= pos <= tokens.len(),
    ensures
        spared(draws, parsed_expression(tokens, mood, pos, draws)),
    decreases tokens.len() - pos, 10nat,
{
    if calm(draws) {
        lemma_calm_later(draws);
    }
    lemma_binary_spared(tokens, mood, 3, pos, later_draws(draws));
}

/// No operand chain ends in a crisis of its own.
proof fn lemma_binary_spared(
    tokens: Seq<TokenView>,
    mood: Mood,
    level: nat,
    pos: int,
    draws: Seq<u32>,
)
    requires
        0 <= pos <= tokens.len(),
    ensures
        spared(draws, parsed_binary(tokens, mood, level, pos, draws)),
    decreases tokens.len() - pos, level + 2,
{
    if level == 0 {
        lemma_unary_spared(tokens, mood, pos, draws);
    } else {
        let left = parsed_binary(tokens, mood, (level - 1) as nat, pos, draws);
        lemma_binary_spared(tokens, mood, (level - 1) as nat, pos, draws);
        match left.result {
            Ok(node) => {
                if pos < left.pos <= tokens.len() {
                    lemma_binary_rest_spared(tokens, mood, level, node, left.pos, left.draws);
                }
            },
            Err(_) => {},
        }
    }
}

/// What follows an operand does not end in a crisis of its own.
proof fn lemma_binary_rest_spared(
    tokens: Seq<TokenView>,
    mood: Mood,
    level: nat,
    left: NodeView,
    pos: int,
    draws: Seq<u32>,
)
    requires
        0 <= pos <= tokens.len(),
    ensures
        spared(draws, parsed_binary_rest(tokens, mood, level, left, pos, draws)),
    decreases tokens.len() - pos, 0nat,
{
    match operator_at(level, kind_at(tokens, pos)) {
        None => {},
        Some(operator) => {
            if !(level == 0 || pos < 0 || pos >= tokens.len()) {
                let right = parsed_binary(tokens, mood, (level - 1) as nat, pos + 1, draws);
                lemma_binary_spared(tokens, mood, (level - 1) as nat, pos + 1, draws);
                match right.result {
                    Ok(node) => {
                        if pos < right.pos <= tokens.len() {
                            lemma_binary_rest_spared(
                                tokens,
                                mood,
                                level,
                                NodeView::BinaryOp(Box::new(left), operator, Box::new(node)),
                                right.pos,
                                right.draws,
                            );
                        }
                    },
                    Err(_) => {},
                }
            }
        },
    }
}

/// No unary expression ends in a crisis of its own.
proof fn lemma_unary_spared(tokens: Seq<TokenView>, mood: Mood, pos: int, draws: Seq<u32>)
    requires
        0 <= pos <= tokens.len(),
    ensures
        spared(draws, parsed_unary(tokens, mood, pos, draws)),
    decreases tokens.len() - pos, 1nat,
{
    if kind_at(tokens, pos) is Minus {
        lemma_unary_spared(tokens, mood, pos + 1, draws);
    } else {
        lemma_primary_spared(tokens, mood, pos, draws);
    }
}

/// No primary expression ends in a crisis of its own.
proof fn lemma_primary_spared(tokens: Seq<TokenView>, mood: Mood, pos: int, draws: Seq<u32>)
    requires
        0 <= pos <= tokens.len(),
    ensures
        spared(draws, parsed_primary(tokens, mood, pos, draws)),
    decreases tokens.len() - pos, 0nat,
{
    match kind_at(tokens, pos) {
        TokenTypeView::Identifier(name) => {
            if name != "true"@ && name != "false"@ && kind_at(tokens, pos + 1) is LeftParen {
                lemma_arguments_spared(tokens, mood, pos + 2, draws, true);
            }
        },
        TokenTypeView::LeftParen => {
            lemma_expression_spared(tokens, mood, pos + 1, draws);
        },
        _ => {},
    }
}

/// No list of arguments ends in a crisis of its own.
proof fn lemma_arguments_spared(
    tokens: Seq<TokenView>,
    mood: Mood,
    pos: int,
    draws: Seq<u32>,
    first: bool,
)
    requires
        0 <= pos <= tokens.len(),
    ensures
        spared(draws, parsed_arguments(tokens, mood, pos, draws, first)),
    decreases tokens.len() - pos, 15nat,
{
    if !(first && kind_at(tokens, pos) is RightParen) {
        let head = parsed_expression(tokens, mood, pos, draws);
        lemma_expression_spared(tokens, mood, pos, draws);
        match head.result {
            Ok(node) => {
                if pos < head.pos <= tokens.len() && kind_at(tokens, head.pos) is Comma {
                    lemma_arguments_spared(tokens, mood, head.pos + 1, head.draws, false);
                }
            },
            Err(_) => {},
        }
    }
}

/// Behind the draw of its statement, no declaration of a variable ends in a
/// crisis.
proof fn lemma_variable_declaration_spared(
    tokens: Seq<TokenView>,
    mood: Mood,
    pos: int,
    draws: Seq<u32>,
)
    requires
        0 <= pos <= tokens.len(),
    ensures
        spared(draws, parsed_variable_declaration(tokens, mood, pos, draws)),
    decreases tokens.len() - pos, 19nat,
{
    if kind_at(tokens, pos + 2) is Assignment {
        lemma_expression_spared(tokens, mood, pos + 3, draws);
    }
}

/// Behind the draw of its statement, no declaration of a function ends in a
/// crisis but by a statement of its block.
proof fn lemma_function_declaration_spared(
    tokens: Seq<TokenView>,
    mood: Mood,
    pos: int,
    draws: Seq<u32>,
)
    requires
        0 <= pos <= tokens.len(),
    ensures
        spared(draws, parsed_function_declaration(tokens, mood, pos, draws)),
    decreases tokens.len() - pos, 19nat,
{
    if kind_at(tokens, pos + 2) is LeftParen {
        match parsed_parameters(tokens, pos + 3, true) {
            Some((names, after)) => {
                lemma_parameters_bounds(tokens, pos + 3, true);
                lemma_block_spared(tokens, mood, after, draws);
            },
            None => {},
        }
    }
}

/// The same for a conditional.
proof fn lemma_conditional_spared(tokens: Seq<TokenView>, mood: Mood, pos: int, draws: Seq<u32>)
    requires
        0 <= pos <= tokens.len(),
    ensures
        spared(draws, parsed_conditional(tokens, mood, pos, draws)),
    decreases tokens.len() - pos, 19nat,
{
    if pos < tokens.len() {
        let condition = parsed_expression(tokens, mood, pos + 1, draws);
        lemma_expression_spared(tokens, mood, pos + 1, draws);
        if condition.result is Ok && pos < condition.pos <= tokens.len() {
            let then = parsed_block(tokens, mood, condition.pos, condition.draws);
            lemma_block_spared(tokens, mood, condition.pos, condition.draws);
            if then.result is Ok && pos < then.pos <= tokens.len() {
                lemma_block_spared(tokens, mood, then.pos, then.draws);
            }
        }
    }
}

/// The same for a loop.
proof fn lemma_loop_spared(tokens: Seq<TokenView>, mood: Mood, pos: int, draws: Seq<u32>)
    requires
        0 <= pos <= tokens.len(),
    ensures
        spared(draws, parsed_loop(tokens, mood, pos, draws)),
    decreases tokens.len() - pos, 19nat,
{
    if pos < tokens.len() {
        lemma_block_spared(tokens, mood, pos + 1, draws);
    }
}

/// The same for a mood block.
proof fn lemma_mood_block_spared(tokens: Seq<TokenView>, mood: Mood, pos: int, draws: Seq<u32>)
    requires
        0 <= pos <= tokens.len(),
    ensures
        spared(draws, parsed_mood_block(tokens, mood, pos, draws)),
    decreases tokens.len() - pos, 19nat,
{
    if pos < tokens.len() {
        lemma_block_spared(tokens, mood, pos + 1, draws);
    }
}

/// The same for a lunar block.
proof fn lemma_lunar_phase_block_spared(
    tokens: Seq<TokenView>,
    mood: Mood,
    pos: int,
    draws: Seq<u32>,
)
    requires
        0 <= pos <= tokens.len(),
    ensures
        spared(draws, parsed_lunar_phase_block(tokens, mood, pos, draws)),
    decreases tokens.len() - pos, 19nat,
{
    if pos < tokens.len() {
        lemma_block_spared(tokens, mood, pos + 1, draws);
    }
}

/// The same for a return statement.
proof fn lemma_return_spared(tokens: Seq<TokenView>, mood: Mood, pos: int, draws: Seq<u32>)
    requires
        0 <= pos <= tokens.len(),
    ensures
        spared(draws, parsed_return(tokens, mood, pos, draws)),
    decreases tokens.len() - pos, 19nat,
{
    if pos < tokens.len() && !(kind_at(tokens, pos + 1) is Semicolon) {
        lemma_expression_spared(tokens, mood, pos + 1, draws);
    }
}

/// The same for an assignment.
proof fn lemma_assignment_spared(
    tokens: Seq<TokenView>,
    mood: Mood,
    name: Seq<char>,
    pos: int,
    draws: Seq<u32>,
)
    requires
        0 <= pos <= tokens.len(),
    ensures
        spared(draws, parsed_assignment(tokens, mood, name, pos, draws)),
    decreases tokens.len() - pos, 19nat,
{
    if pos + 1 < tokens.len() {
        lemma_expression_spared(tokens, mood, pos + 2, draws);
    }
}

/// A statement ends in a crisis only by a draw below [`CRISIS_BELOW`].
proof fn lemma_statement_spared(tokens: Seq<TokenView>, mood: Mood, pos: int, draws: Seq<u32>)
    requires
        0 <= pos <= tokens.len(),
    ensures
        spared(draws, parsed_statement(tokens, mood, pos, draws)),
    decreases tokens.len() - pos, 20nat,
{
    let left = later_draws(draws);
    if calm(draws) {
        lemma_calm_later(draws);
    }
    if first_draw(draws) >= CRISIS_BELOW {
        match kind_at(tokens, pos) {
            TokenTypeView::VariableDeclaration => {
                lemma_variable_declaration_spared(tokens, mood, pos, left);
            },
            TokenTypeView::FunctionDeclaration => {
                lemma_function_declaration_spared(tokens, mood, pos, left);
            },
            TokenTypeView::Conditional => {
                lemma_conditional_spared(tokens, mood, pos, left);
            },
            TokenTypeView::Loop => {
                lemma_loop_spared(tokens, mood, pos, left);
            },
            TokenTypeView::MoodDeclaration => {
                lemma_mood_block_spared(tokens, mood, pos, left);
            },
            TokenTypeView::LunarPhase => {
                lemma_lunar_phase_block_spared(tokens, mood, pos, left);
            },
            TokenTypeView::Return => {
                lemma_return_spared(tokens, mood, pos, left);
            },
            TokenTypeView::Compliment => {},
            TokenTypeView::PhilosophicalQuestion => {},
            kind => {
                if kind is Identifier && kind_at(tokens, pos + 1) is Assignment {
                    lemma_assignment_spared(tokens, mood, kind->Identifier_0, pos, left);
                } else {
                    lemma_expression_spared(tokens, mood, pos, left);
                }
            },
        }
    }
}

/// A block ends in a crisis only by a draw below [`CRISIS_BELOW`].
proof fn lemma_block_spared(tokens: Seq<TokenView>, mood: Mood, pos: int, draws: Seq<u32>)
    requires
        0 <= pos <= tokens.len(),
    ensures
        spared(draws, parsed_block(tokens, mood, pos, draws)),
    decreases tokens.len() - pos, 40nat,
{
    if kind_at(tokens, pos) is LeftBrace {
        lemma_statements_spared(tokens, mood, pos + 1, draws, Closer::Brace);
    } else {
        lemma_statements_spared(tokens, mood, pos, draws, Closer::Word);
    }
}

/// A list of statements ends in a crisis only by a draw below
/// [`CRISIS_BELOW`].
proof fn lemma_statements_spared(
    tokens: Seq<TokenView>,
    mood: Mood,
    pos: int,
    draws: Seq<u32>,
    closer: Closer,
)
    requires
        0 <= pos <= tokens.len(),
    ensures
        spared(draws, parsed_statements(tokens, mood, pos, draws, closer)),
    decreases tokens.len() - pos, 30nat,
{
    if !(pos >= tokens.len() || closes(kind_at(tokens, pos), closer)) {
        let first = parsed_statement(tokens, mood, pos, draws);
        lemma_statement_spared(tokens, mood, pos, draws);
        match first.result {
            Ok(node) => {
                if pos < first.pos <= tokens.len() {
                    lemma_statements_spared(tokens, mood, first.pos, first.draws, closer);
                }
            },
            Err(_) => {},
        }
    }
}

/// A parse ends in a crisis only by a draw below [`CRISIS_BELOW`].
pub proof fn lemma_crisis_needs_its_draw(tokens: Seq<TokenView>, mood: Mood, draws: Seq<u32>)
    requires
        calm(draws),
    ensures
        parsed_program(tokens, mood, draws).result != Err::<NodeView, PubuError>(
            PubuError::PhilosophicalCrisis,
        ),
{
    lemma_statements_spared(tokens, mood, 0, draws, Closer::End);
}

/// Tokens without a compliment among them never parse into a program: the
/// parse fails for want of a compliment, unless a crisis ends it first, and
/// no crisis does where no draw to come is below [`CRISIS_BELOW`].
pub proof fn lemma_no_compliment_token_no_program(
    tokens: Seq<TokenView>,
    mood: Mood,
    draws: Seq<u32>,
)
    requires
        compliment_free(tokens),
    ensures
        parsed_program(tokens, mood, draws).result == Err::<NodeView, PubuError>(
            PubuError::NotEnoughCompliments,
        ) || parsed_program(tokens, mood, draws).result == Err::<NodeView, PubuError>(
            PubuError::PhilosophicalCrisis,
        ),
        calm(draws) ==> parsed_program(tokens, mood, draws).result == Err::<NodeView, PubuError>(
            PubuError::NotEnoughCompliments,
        ),
{
    lemma_statements_shape(tokens, mood, 0, draws, Closer::End);
    lemma_statements_spared(tokens, mood, 0, draws, Closer::End);
}

/// A text in which no compliment keyword of the mood stands never parses
/// into a program: the parse of its tokens fails for want of a compliment,
/// unless a crisis ends it first, and no crisis does where no draw to come
/// is below [`CRISIS_BELOW`].
pub proof fn lemma_unflattering_text_is_refused(src: Seq<char>, mood: Mood, draws: Seq<u32>)
    requires
        flatters_nobody(src, mood),
    ensures
        parsed_program(scanned(src, mood), mood, draws).result == Err::<NodeView, PubuError>(
            PubuError::NotEnoughCompliments,
        ) || parsed_program(scanned(src, mood), mood, draws).result == Err::<
            NodeView,
            PubuError,
        >(PubuError::PhilosophicalCrisis),
        calm(draws) ==> parsed_program(scanned(src, mood), mood, draws).result == Err::<
            NodeView,
            PubuError,
        >(PubuError::NotEnoughCompliments),
{
    lemma_no_keyword_no_compliment(src, mood);
    lemma_no_compliment_token_no_program(scanned(src, mood), mood, draws);
}

/// `out` is what `parsed` says, with `draws` left to come.
pub open spec fn gives_node(
    out: Result<(Node, usize), PubuError>,
    draws: Seq<u32>,
    parsed: Parsed<NodeView>,
) -> bool {
    &&& draws == parsed.draws
    &&& match out {
        Ok((node, next)) => parsed.result == Ok::<NodeView, PubuError>(node@) && next
            == parsed.pos,
        Err(error) => parsed.result == Err::<NodeView, PubuError>(error),
    }
}

/// `out` is what `parsed` says, with `draws` left to come.
pub open spec fn gives_nodes(
    out: Result<(Vec<Node>, usize), PubuError>,
    draws: Seq<u32>,
    parsed: Parsed<Seq<NodeView>>,
) -> bool {
    &&& draws == parsed.draws
    &&& match out {
        Ok((nodes, next)) => parsed.result == Ok::<Seq<NodeView>, PubuError>(nodes_view(nodes@))
            && next == parsed.pos,
        Err(error) => parsed.result == Err::<Seq<NodeView>, PubuError>(error),
    }
}

/// `out`, where it succeeded, stopped after `pos` and within `len` tokens.
pub open spec fn moved_on<T>(out: Result<(T, usize), PubuError>, pos: usize, len: nat) -> bool {
    match out {
        Ok((_, next)) => pos < next <= len,
        Err(_) => true,
    }
}

/// `parsed` with the statements `front` put before its own.
pub open spec fn prepended(front: Seq<NodeView>, parsed: Parsed<Seq<NodeView>>) -> Parsed<
    Seq<NodeView>,
> {
    match parsed.result {
        Ok(rest) => done(front + rest, parsed.pos, parsed.draws),
        Err(error) => failed(error, parsed.draws),
    }
}

/// The tokens of a program, the place of the next token to read, and the
/// mood in which they are read.
pub struct Parser {
    pub tokens: Vec<Token>,
    pub current: usize,
    pub current_mood: Mood,
}

impl Parser {
    /// What the tokens are.
    pub open spec fn view_tokens(&self) -> Seq<TokenView> {
        tokens_view(self.tokens@)
    }

    pub fn new(tokens: Vec<Token>, mood: Mood) -> (parser: Self)
        ensures
            parser.tokens == tokens,
            parser.current == 0,
            parser.current_mood == mood,
    {
        Self { tokens, current: 0, current_mood: mood }
    }

    /// Parses the tokens into a program, with the draws of `dice`. The parse
    /// begins at the first token, wherever an earlier parse has stopped;
    /// after a parse that succeeded, `current` is the place at which it
    /// stopped.
    pub fn parse(&mut self, dice: &mut Dice) -> (result: Result<Node, PubuError>)
        ensures
            final(self).tokens == old(self).tokens,
            final(self).current_mood == old(self).current_mood,
            final(dice)@ == parsed_program(
                old(self).view_tokens(),
                old(self).current_mood,
                old(dice)@,
            ).draws,
            match result {
                Ok(program) => parsed_program(
                    old(self).view_tokens(),
                    old(self).current_mood,
                    old(dice)@,
                ).result == Ok::<NodeView, PubuError>(program@) && final(self).current
                    == parsed_program(
                    old(self).view_tokens(),
                    old(self).current_mood,
                    old(dice)@,
                ).pos,
                Err(error) => parsed_program(
                    old(self).view_tokens(),
                    old(self).current_mood,
                    old(dice)@,
                ).result == Err::<NodeView, PubuError>(error),
            },
    {
        let (statements, next) = match self.parse_statements(0, dice, Closer::End) {
            Ok(parsed) => parsed,
            Err(error) => {
                let crisis = match error {
                    PubuError::PhilosophicalCrisis => true,
                    _ => false,
                };
                if !crisis && !self.holds_compliment_token() {
                    return Err(PubuError::NotEnoughCompliments);
                }
                return Err(error);
            },
        };
        self.current = next;
        if !has_compliment(&statements) {
            return Err(PubuError::NotEnoughCompliments);
        }
        if dice.below(PARSE_FAILS_BELOW) {
            return Err(PubuError::RandomFailure);
        }
        Ok(Node::Program(statements))
    }

    /// Whether one of the tokens is a compliment.
    pub fn holds_compliment_token(&self) -> (found: bool)
        ensures
            found == !compliment_free(self.view_tokens()),
    {
        let ghost tokens = self.view_tokens();
        let mut at: usize = 0;
        while at < self.tokens.len()
            invariant
                at <= self.tokens@.len(),
                tokens == self.view_tokens(),
                forall|i: int| 0 <= i < at ==> !((#[trigger] tokens[i]).token_type is Compliment),
            decreases self.tokens@.len() - at,
        {
            match self.tokens[at].token_type {
                TokenType::Compliment => {
                    assert(tokens[at as int].token_type is Compliment);
                    return true;
                },
                _ => {},
            }
            at = at + 1;
        }
        false
    }

    /// Whether all tokens have been read: the next is the end of the input,
    /// or there is none.
    pub fn is_at_end(&self) -> (at_end: bool)
        ensures
            at_end == (kind_at(self.view_tokens(), self.current as int) is EOF),
    {
        match self.peek(self.current) {
            Some(TokenType::EOF) => true,
            Some(_) => false,
            None => true,
        }
    }

    /// The kind of the token at `at`, if there is one.
    fn peek(&self, at: usize) -> (kind: Option<&TokenType>)
        ensures
            match kind {
                Some(k) => at < self.tokens@.len() <= usize::MAX && *k
                    == self.tokens@[at as int].token_type && k@ == kind_at(
                    self.view_tokens(),
                    at as int,
                ),
                None => at >= self.tokens@.len() && kind_at(self.view_tokens(), at as int) is EOF,
            },
    {
        if at < self.tokens.len() {
            Some(&self.tokens[at].token_type)
        } else {
            None
        }
    }

    /// Whether a semicolon stands at `at`.
    fn semicolon_at(&self, at: usize) -> (found: bool)
        ensures
            found == (kind_at(self.view_tokens(), at as int) is Semicolon),
            found ==> at < self.tokens@.len() <= usize::MAX,
    {
        match self.peek(at) {
            Some(TokenType::Semicolon) => true,
            _ => false,
        }
    }

    /// Whether the token at `at` ends a list of statements that `closer`
    /// closes.
    fn closes_at(&self, at: usize, closer: Closer) -> (found: bool)
        ensures
            found == (at >= self.tokens@.len() || closes(
                kind_at(self.view_tokens(), at as int),
                closer,
            )),
    {
        match self.peek(at) {
            None => true,
            Some(TokenType::EOF) => true,
            Some(TokenType::RightBrace) => closer == Closer::Brace,
            Some(TokenType::EndBlock) => closer == Closer::Word,
            Some(_) => false,
        }
    }

    /// The binary operator of `level` that stands at `at`, if one does.
    fn operator_here(&self, level: u8, at: usize) -> (operator: Option<Operator>)
        ensures
            operator == operator_at(level as nat, kind_at(self.view_tokens(), at as int)),
            operator is Some ==> at < self.tokens@.len() <= usize::MAX,
    {
        match self.peek(at) {
            None => None,
            Some(kind) => {
                if level == 3 {
                    match kind {
                        TokenType::Equal => Some(Operator::Equal),
                        TokenType::NotEqual => Some(Operator::NotEqual),
                        TokenType::GreaterThan => Some(Operator::GreaterThan),
                        TokenType::LessThan => Some(Operator::LessThan),
                        _ => None,
                    }
                } else if level == 2 {
                    match kind {
                        TokenType::Plus => Some(Operator::Add),
                        TokenType::Minus => Some(Operator::Subtract),
                        _ => None,
                    }
                } else if level == 1 {
                    match kind {
                        TokenType::Times => Some(Operator::Multiply),
                        TokenType::Divide => Some(Operator::Divide),
                        _ => None,
                    }
                } else {
                    None
                }
            },
        }
    }

    /// The tag of the mood blocks that this parser reads.
    fn mood_type(&self) -> (tag: MoodType)
        ensures
            tag == mood_tag(self.current_mood),
    {
        match self.current_mood {
            Mood::Happy => MoodType::Happy,
            Mood::Grumpy => MoodType::Grumpy,
            Mood::Philosophical => MoodType::Philosophical,
            Mood::Sarcastic => MoodType::Sarcastic,
            Mood::Confused => MoodType::Confused,
        }
    }

    /// `value`, closed by the semicolon that must stand where it stopped.
    fn close_with_semicolon(&self, value: Result<(Node, usize), PubuError>) -> (out: Result<
        (Node, usize),
        PubuError,
    >)
        requires
            moved_on(value, 0, self.tokens@.len()),
        ensures
            forall|draws: Seq<u32>, parsed: Parsed<NodeView>|
                gives_node(value, draws, parsed) ==> gives_node(
                    out,
                    draws,
                    closed_by_semicolon(self.view_tokens(), parsed),
                ),
            forall|pos: usize| moved_on(value, pos, self.tokens@.len()) ==> moved_on(
                out,
                pos,
                self.tokens@.len(),
            ),
    {
        match value {
            Err(error) => Err(error),
            Ok((node, next)) => {
                if self.semicolon_at(next) {
                    Ok((node, next + 1))
                } else {
                    Err(PubuError::SyntaxError)
                }
            },
        }
    }

    /// The names of the parameters from `pos` up to the closing bracket, and
    /// the place after it.
    fn parse_parameters(&self, pos: usize, first: bool) -> (out: Option<(Vec<String>, usize)>)
        requires
            pos <= self.tokens@.len(),
        ensures
            match out {
                Some((names, after)) => parsed_parameters(self.view_tokens(), pos as int, first)
                    == Some((crate::ast::names_view(names@), after as int)) && pos < after
                    <= self.tokens@.len(),
                None => parsed_parameters(self.view_tokens(), pos as int, first) is None,
            },
        decreases self.tokens@.len() - pos,
    {
        match self.peek(pos) {
            Some(TokenType::Identifier(name)) => match self.peek(pos + 1) {
                Some(TokenType::Comma) => match self.parse_parameters(pos + 2, false) {
                    Some((mut names, after)) => {
                        let ghost rest = crate::ast::names_view(names@);
                        names.insert(0, name.clone());
                        assert(crate::ast::names_view(names@) =~= seq![name@] + rest);
                        Some((names, after))
                    },
                    None => None,
                },
                Some(TokenType::RightParen) => {
                    let mut names: Vec<String> = Vec::new();
                    names.push(name.clone());
                    assert(crate::ast::names_view(names@) =~= seq![name@]);
                    Some((names, pos + 2))
                },
                _ => None,
            },
            Some(TokenType::RightParen) => {
                if first {
                    let names: Vec<String> = Vec::new();
                    assert(crate::ast::names_view(names@) =~= Seq::<Seq<char>>::empty());
                    Some((names, pos + 1))
                } else {
                    None
                }
            },
            _ => None,
        }
    }

    /// The statements from `pos` up to the token that closes the list.
    fn parse_statements(&self, pos: usize, dice: &mut Dice, closer: Closer) -> (out: Result<
        (Vec<Node>, usize),
        PubuError,
    >)
        requires
            pos <= self.tokens@.len(),
        ensures
            gives_nodes(
                out,
                final(dice)@,
                parsed_statements(
                    self.view_tokens(),
                    self.current_mood,
                    pos as int,
                    old(dice)@,
                    closer,
                ),
            ),
            match out {
                Ok((_, next)) => pos <= next <= self.tokens@.len(),
                Err(_) => true,
            },
        decreases self.tokens@.len() - pos, 30nat,
    {
        let ghost tokens = self.view_tokens();
        let ghost mood = self.current_mood;
        let ghost whole = parsed_statements(tokens, mood, pos as int, dice@, closer);
        let mut nodes: Vec<Node> = Vec::new();
        let mut at: usize = pos;
        assert(nodes_view(nodes@) + Seq::<NodeView>::empty() =~= Seq::<NodeView>::empty());
        assert(prepended(nodes_view(nodes@), whole) == whole) by {
            match whole.result {
                Ok(rest) => {
                    assert(nodes_view(nodes@) + rest =~= rest);
                },
                Err(_) => {},
            }
        }
        while !self.closes_at(at, closer)
            invariant
                pos <= at <= self.tokens@.len(),
                tokens == self.view_tokens(),
                mood == self.current_mood,
                prepended(
                    nodes_view(nodes@),
                    parsed_statements(tokens, mood, at as int, dice@, closer),
                ) == whole,
                whole == parsed_statements(tokens, mood, pos as int, old(dice)@, closer),
            decreases self.tokens@.len() - at,
        {
            let ghost front = nodes_view(nodes@);
            let ghost here = parsed_statements(tokens, mood, at as int, dice@, closer);
            match self.parse_statement(at, dice) {
                Err(error) => {
                    return Err(error);
                },
                Ok((node, next)) => {
                    nodes.push(node);
                    proof {
                        let rest = parsed_statements(tokens, mood, next as int, dice@, closer);
                        assert(nodes_view(nodes@) =~= front.push(node@));
                        match rest.result {
                            Ok(others) => {
                                assert(nodes_view(nodes@) + others =~= front + (seq![node@]
                                    + others));
                            },
                            Err(_) => {},
                        }
                        assert(prepended(nodes_view(nodes@), rest) == prepended(front, here));
                    }
                    at = next;
                },
            }
        }
        proof {
            assert(nodes_view(nodes@) + Seq::<NodeView>::empty() =~= nodes_view(nodes@));
        }
        Ok((nodes, at))
    }

    /// The block that begins at `pos`.
    fn parse_block(&self, pos: usize, dice: &mut Dice) -> (out: Result<
        (Vec<Node>, usize),
        PubuError,
    >)
        requires
            pos <= self.tokens@.len(),
        ensures
            gives_nodes(
                out,
                final(dice)@,
                parsed_block(self.view_tokens(), self.current_mood, pos as int, old(dice)@),
            ),
            moved_on(out, pos, self.tokens@.len()),
        decreases self.tokens@.len() - pos, 40nat,
    {
        match self.peek(pos) {
            Some(TokenType::LeftBrace) => {
                let (nodes, next) = self.parse_statements(pos + 1, dice, Closer::Brace)?;
                match self.peek(next) {
                    Some(TokenType::RightBrace) => Ok((nodes, next + 1)),
                    _ => Err(PubuError::SyntaxError),
                }
            },
            _ => {
                let (nodes, next) = self.parse_statements(pos, dice, Closer::Word)?;
                match self.peek(next) {
                    Some(TokenType::EndBlock) => Ok((nodes, next + 1)),
                    _ => Err(PubuError::SyntaxError),
                }
            },
        }
    }

    /// The declaration of a variable, whose keyword stands at `pos`.
    fn parse_variable_declaration(&self, pos: usize, dice: &mut Dice) -> (out: Result<
        (Node, usize),
        PubuError,
    >)
        requires
            pos < self.tokens@.len(),
        ensures
            gives_node(
                out,
                final(dice)@,
                parsed_variable_declaration(self.view_tokens(), self.current_mood, pos as int, old(dice)@),
            ),
            moved_on(out, pos, self.tokens@.len()),
        decreases self.tokens@.len() - pos, 19nat,
    {
        assert(self.tokens@.len() == self.tokens.len());
        let name = match self.peek(pos + 1) {
            Some(TokenType::Identifier(name)) => name.clone(),
            _ => {
                return Err(PubuError::SyntaxError);
            },
        };
        match self.peek(pos + 2) {
            Some(TokenType::Assignment) => {},
            _ => {
                return Err(PubuError::SyntaxError);
            },
        }
        let value = self.parse_expression(pos + 3, dice);
        let (node, next) = self.close_with_semicolon(value)?;
        Ok((Node::VariableDeclaration(name, Box::new(node)), next))
    }

    /// The declaration of a function, whose keyword stands at `pos`.
    fn parse_function_declaration(&self, pos: usize, dice: &mut Dice) -> (out: Result<
        (Node, usize),
        PubuError,
    >)
        requires
            pos < self.tokens@.len(),
        ensures
            gives_node(
                out,
                final(dice)@,
                parsed_function_declaration(self.view_tokens(), self.current_mood, pos as int, old(dice)@),
            ),
            moved_on(out, pos, self.tokens@.len()),
        decreases self.tokens@.len() - pos, 19nat,
    {
        assert(self.tokens@.len() == self.tokens.len());
        let name = match self.peek(pos + 1) {
            Some(TokenType::Identifier(name)) => name.clone(),
            _ => {
                return Err(PubuError::SyntaxError);
            },
        };
        match self.peek(pos + 2) {
            Some(TokenType::LeftParen) => {},
            _ => {
                return Err(PubuError::SyntaxError);
            },
        }
        match self.parse_parameters(pos + 3, true) {
            None => Err(PubuError::SyntaxError),
            Some((names, after)) => {
                let (nodes, next) = self.parse_block(after, dice)?;
                Ok((Node::FunctionDeclaration(name, names, nodes), next))
            },
        }
    }

    /// The conditional whose keyword stands at `pos`.
    fn parse_conditional(&self, pos: usize, dice: &mut Dice) -> (out: Result<
        (Node, usize),
        PubuError,
    >)
        requires
            pos < self.tokens@.len(),
        ensures
            gives_node(
                out,
                final(dice)@,
                parsed_conditional(self.view_tokens(), self.current_mood, pos as int, old(dice)@),
            ),
            moved_on(out, pos, self.tokens@.len()),
        decreases self.tokens@.len() - pos, 19nat,
    {
        assert(self.tokens@.len() == self.tokens.len());
        let (test, after) = self.parse_expression(pos + 1, dice)?;
        let (nodes, next) = self.parse_block(after, dice)?;
        match self.peek(next) {
            Some(TokenType::LeftBrace) => {
                let (others, end) = self.parse_block(next, dice)?;
                Ok((Node::IfStatement(Box::new(test), nodes, Some(others)), end))
            },
            _ => Ok((Node::IfStatement(Box::new(test), nodes, None), next)),
        }
    }

    /// The loop whose keyword stands at `pos`.
    fn parse_loop(&self, pos: usize, dice: &mut Dice) -> (out: Result<
        (Node, usize),
        PubuError,
    >)
        requires
            pos < self.tokens@.len(),
        ensures
            gives_node(
                out,
                final(dice)@,
                parsed_loop(self.view_tokens(), self.current_mood, pos as int, old(dice)@),
            ),
            moved_on(out, pos, self.tokens@.len()),
        decreases self.tokens@.len() - pos, 19nat,
    {
        assert(self.tokens@.len() == self.tokens.len());
        let (nodes, next) = self.parse_block(pos + 1, dice)?;
        Ok((Node::Loop(nodes), next))
    }

    /// The mood block whose opening word stands at `pos`.
    fn parse_mood_block(&self, pos: usize, dice: &mut Dice) -> (out: Result<
        (Node, usize),
        PubuError,
    >)
        requires
            pos < self.tokens@.len(),
        ensures
            gives_node(
                out,
                final(dice)@,
                parsed_mood_block(self.view_tokens(), self.current_mood, pos as int, old(dice)@),
            ),
            moved_on(out, pos, self.tokens@.len()),
        decreases self.tokens@.len() - pos, 19nat,
    {
        assert(self.tokens@.len() == self.tokens.len());
        let (nodes, next) = self.parse_block(pos + 1, dice)?;
        Ok((Node::MoodBlock(self.mood_type(), nodes), next))
    }

    /// The lunar block whose opening word stands at `pos`.
    fn parse_lunar_phase_block(&self, pos: usize, dice: &mut Dice) -> (out: Result<
        (Node, usize),
        PubuError,
    >)
        requires
            pos < self.tokens@.len(),
        ensures
            gives_node(
                out,
                final(dice)@,
                parsed_lunar_phase_block(self.view_tokens(), self.current_mood, pos as int, old(dice)@),
            ),
            moved_on(out, pos, self.tokens@.len()),
        decreases self.tokens@.len() - pos, 19nat,
    {
        assert(self.tokens@.len() == self.tokens.len());
        let (nodes, next) = self.parse_block(pos + 1, dice)?;
        Ok((Node::LunarPhaseBlock(nodes), next))
    }

    /// The return statement whose keyword stands at `pos`.
    fn parse_return(&self, pos: usize, dice: &mut Dice) -> (out: Result<
        (Node, usize),
        PubuError,
    >)
        requires
            pos < self.tokens@.len(),
        ensures
            gives_node(
                out,
                final(dice)@,
                parsed_return(self.view_tokens(), self.current_mood, pos as int, old(dice)@),
            ),
            moved_on(out, pos, self.tokens@.len()),
        decreases self.tokens@.len() - pos, 19nat,
    {
        assert(self.tokens@.len() == self.tokens.len());
        if self.semicolon_at(pos + 1) {
            Ok((Node::Return(None), pos + 2))
        } else {
            let value = self.parse_expression(pos + 1, dice);
            let (node, next) = self.close_with_semicolon(value)?;
            Ok((Node::Return(Some(Box::new(node))), next))
        }
    }

    /// The compliment that stands at `pos`.
    fn parse_compliment(&self, pos: usize) -> (out: (Node, usize))
        requires
            pos < self.tokens@.len(),
        ensures
            out.0@ == NodeView::Compliment(self.view_tokens()[pos as int].lexeme),
            out.1 == after_optional_semicolon(self.view_tokens(), pos as int),
            pos < out.1 <= self.tokens@.len(),
    {
        assert(self.tokens@.len() == self.tokens.len());
        let text = self.tokens[pos].lexeme.clone();
        if self.semicolon_at(pos + 1) {
            (Node::Compliment(text), pos + 2)
        } else {
            (Node::Compliment(text), pos + 1)
        }
    }

    /// The question that stands at `pos`.
    fn parse_philosophical_question(&self, pos: usize) -> (out: (Node, usize))
        requires
            pos < self.tokens@.len(),
        ensures
            out.0@ == NodeView::PhilosophicalQuestion(self.view_tokens()[pos as int].lexeme),
            out.1 == after_optional_semicolon(self.view_tokens(), pos as int),
            pos < out.1 <= self.tokens@.len(),
    {
        assert(self.tokens@.len() == self.tokens.len());
        let text = self.tokens[pos].lexeme.clone();
        if self.semicolon_at(pos + 1) {
            (Node::PhilosophicalQuestion(text), pos + 2)
        } else {
            (Node::PhilosophicalQuestion(text), pos + 1)
        }
    }

    /// The assignment to `name`, which stands at `pos` before the assignment
    /// word.
    fn parse_assignment(&self, name: String, pos: usize, dice: &mut Dice) -> (out: Result<
        (Node, usize),
        PubuError,
    >)
        requires
            pos + 1 < self.tokens@.len(),
        ensures
            gives_node(
                out,
                final(dice)@,
                parsed_assignment(
                    self.view_tokens(),
                    self.current_mood,
                    name@,
                    pos as int,
                    old(dice)@,
                ),
            ),
            moved_on(out, pos, self.tokens@.len()),
        decreases self.tokens@.len() - pos, 19nat,
    {
        assert(self.tokens@.len() == self.tokens.len());
        let value = self.parse_expression(pos + 2, dice);
        let (node, next) = self.close_with_semicolon(value)?;
        Ok((Node::Assignment(name, Box::new(node)), next))
    }

    /// The statement that begins at `pos`.
    fn parse_statement(&self, pos: usize, dice: &mut Dice) -> (out: Result<
        (Node, usize),
        PubuError,
    >)
        requires
            pos <= self.tokens@.len(),
        ensures
            gives_node(
                out,
                final(dice)@,
                parsed_statement(self.view_tokens(), self.current_mood, pos as int, old(dice)@),
            ),
            moved_on(out, pos, self.tokens@.len()),
        decreases self.tokens@.len() - pos, 20nat,
    {
        if dice.below(CRISIS_BELOW) {
            return Err(PubuError::PhilosophicalCrisis);
        }
        match self.peek(pos) {
            Some(TokenType::VariableDeclaration) => self.parse_variable_declaration(pos, dice),
            Some(TokenType::FunctionDeclaration) => self.parse_function_declaration(pos, dice),
            Some(TokenType::Conditional) => self.parse_conditional(pos, dice),
            Some(TokenType::Loop) => self.parse_loop(pos, dice),
            Some(TokenType::MoodDeclaration) => self.parse_mood_block(pos, dice),
            Some(TokenType::LunarPhase) => self.parse_lunar_phase_block(pos, dice),
            Some(TokenType::Return) => self.parse_return(pos, dice),
            Some(TokenType::Compliment) => Ok(self.parse_compliment(pos)),
            Some(TokenType::PhilosophicalQuestion) => Ok(self.parse_philosophical_question(pos)),
            Some(TokenType::Identifier(name)) => {
                match self.peek(pos + 1) {
                    Some(TokenType::Assignment) => self.parse_assignment(name.clone(), pos, dice),
                    _ => {
                        let value = self.parse_expression(pos, dice);
                        self.close_with_semicolon(value)
                    },
                }
            },
            _ => {
                let value = self.parse_expression(pos, dice);
                self.close_with_semicolon(value)
            },
        }
    }

    /// The expressions from `pos` up to the closing bracket.
    fn parse_arguments(&self, pos: usize, dice: &mut Dice, first: bool) -> (out: Result<
        (Vec<Node>, usize),
        PubuError,
    >)
        requires
            pos <= self.tokens@.len(),
        ensures
            gives_nodes(
                out,
                final(dice)@,
                parsed_arguments(
                    self.view_tokens(),
                    self.current_mood,
                    pos as int,
                    old(dice)@,
                    first,
                ),
            ),
            moved_on(out, pos, self.tokens@.len()),
        decreases self.tokens@.len() - pos, 15nat,
    {
        if first {
            match self.peek(pos) {
                Some(TokenType::RightParen) => {
                    let nodes: Vec<Node> = Vec::new();
                    assert(nodes_view(nodes@) =~= Seq::<NodeView>::empty());
                    return Ok((nodes, pos + 1));
                },
                _ => {},
            }
        }
        let (node, next) = self.parse_expression(pos, dice)?;
        match self.peek(next) {
            Some(TokenType::RightParen) => {
                let ghost head = node@;
                let mut nodes: Vec<Node> = Vec::new();
                nodes.push(node);
                assert(nodes_view(nodes@) =~= seq![head]);
                Ok((nodes, next + 1))
            },
            Some(TokenType::Comma) => {
                let (mut nodes, after) = self.parse_arguments(next + 1, dice, false)?;
                let ghost head = node@;
                let ghost rest = nodes_view(nodes@);
                nodes.insert(0, node);
                assert(nodes_view(nodes@) =~= seq![head] + rest);
                Ok((nodes, after))
            },
            _ => Err(PubuError::SyntaxError),
        }
    }

    /// The expression that begins at `pos`.
    fn parse_expression(&self, pos: usize, dice: &mut Dice) -> (out: Result<
        (Node, usize),
        PubuError,
    >)
        requires
            pos <= self.tokens@.len(),
        ensures
            gives_node(
                out,
                final(dice)@,
                parsed_expression(self.view_tokens(), self.current_mood, pos as int, old(dice)@),
            ),
            moved_on(out, pos, self.tokens@.len()),
        decreases self.tokens@.len() - pos, 10nat,
    {
        let wrap = dice.below(WRAP_BELOW);
        let (node, next) = self.parse_binary(LOOSEST, pos, dice)?;
        if wrap {
            Ok((Node::RealityDistortion(Box::new(node)), next))
        } else {
            Ok((node, next))
        }
    }

    /// The operand chain of `level` that begins at `pos`.
    fn parse_binary(&self, level: u8, pos: usize, dice: &mut Dice) -> (out: Result<
        (Node, usize),
        PubuError,
    >)
        requires
            pos <= self.tokens@.len(),
            level <= LOOSEST,
        ensures
            gives_node(
                out,
                final(dice)@,
                parsed_binary(
                    self.view_tokens(),
                    self.current_mood,
                    level as nat,
                    pos as int,
                    old(dice)@,
                ),
            ),
            moved_on(out, pos, self.tokens@.len()),
        decreases self.tokens@.len() - pos, level + 2,
    {
        if level == 0 {
            return self.parse_unary(pos, dice);
        }
        let ghost tokens = self.view_tokens();
        let ghost mood = self.current_mood;
        let ghost whole = parsed_binary(tokens, mood, level as nat, pos as int, dice@);
        let (first, after) = self.parse_binary(level - 1, pos, dice)?;
        let mut left = first;
        let mut at: usize = after;
        loop
            invariant
                pos < at <= self.tokens@.len(),
                0 < level <= LOOSEST,
                tokens == self.view_tokens(),
                mood == self.current_mood,
                parsed_binary_rest(tokens, mood, level as nat, left@, at as int, dice@) == whole,
                whole == parsed_binary(tokens, mood, level as nat, pos as int, old(dice)@),
            decreases self.tokens@.len() - at,
        {
            let operator = match self.operator_here(level, at) {
                Some(operator) => operator,
                None => {
                    return Ok((left, at));
                },
            };
            let (right, next) = self.parse_binary(level - 1, at + 1, dice)?;
            left = Node::BinaryOp(Box::new(left), operator, Box::new(right));
            at = next;
        }
    }

    /// The unary expression that begins at `pos`.
    fn parse_unary(&self, pos: usize, dice: &mut Dice) -> (out: Result<(Node, usize), PubuError>)
        requires
            pos <= self.tokens@.len(),
        ensures
            gives_node(
                out,
                final(dice)@,
                parsed_unary(self.view_tokens(), self.current_mood, pos as int, old(dice)@),
            ),
            moved_on(out, pos, self.tokens@.len()),
        decreases self.tokens@.len() - pos, 1nat,
    {
        match self.peek(pos) {
            Some(TokenType::Minus) => {
                let (operand, next) = self.parse_unary(pos + 1, dice)?;
                Ok((Node::UnaryOp(Operator::Subtract, Box::new(operand)), next))
            },
            _ => self.parse_primary(pos, dice),
        }
    }

    /// The primary expression that begins at `pos`.
    fn parse_primary(&self, pos: usize, dice: &mut Dice) -> (out: Result<(Node, usize), PubuError>)
        requires
            pos <= self.tokens@.len(),
        ensures
            gives_node(
                out,
                final(dice)@,
                parsed_primary(self.view_tokens(), self.current_mood, pos as int, old(dice)@),
            ),
            moved_on(out, pos, self.tokens@.len()),
        decreases self.tokens@.len() - pos, 0nat,
    {
        match self.peek(pos) {
            Some(TokenType::Number(n)) => Ok((Node::Number(*n), pos + 1)),
            Some(TokenType::String(s)) => Ok((Node::String(s.clone()), pos + 1)),
            Some(TokenType::Identifier(name)) => {
                let word = chars_of(name.as_str());
                if is_word(&word, "true") {
                    Ok((Node::Boolean(true), pos + 1))
                } else if is_word(&word, "false") {
                    Ok((Node::Boolean(false), pos + 1))
                } else {
                    match self.peek(pos + 1) {
                        Some(TokenType::LeftParen) => {
                            let (nodes, next) = self.parse_arguments(pos + 2, dice, true)?;
                            Ok((Node::FunctionCall(name.clone(), nodes), next))
                        },
                        _ => Ok((Node::Identifier(name.clone()), pos + 1)),
                    }
                }
            },
            Some(TokenType::LeftParen) => {
                let (node, next) = self.parse_expression(pos + 1, dice)?;
                match self.peek(next) {
                    Some(TokenType::RightParen) => Ok((node, next + 1)),
                    _ => Err(PubuError::SyntaxError),
                }
            },
            _ => Err(PubuError::SyntaxError),
        }
    }
}

} // verus!
