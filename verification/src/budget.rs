//! How many draws a run can take: a bound for each stage, in terms of the
//! size of what the stage works on. A source of chance that holds more
//! draws than the bound is never used up, so that no draw of the run is
//! [`STEADY`](crate::chance::STEADY) for want of a real one.

use crate::ast::{draws_after_distortion, NodeView, ValueView};
use crate::chance::later_draws;
use crate::chance::first_draw;
use crate::interpreter::{block_run, evaluated, interpreted, program_run, Session};
use crate::lexer::{TokenTypeView, TokenView};
use crate::mood::Mood;
use crate::parser::{
    closes, kind_at, lemma_parameters_bounds, operator_at, parsed_arguments, parsed_assignment,
    parsed_binary, parsed_binary_rest, parsed_block, parsed_conditional, parsed_expression,
    parsed_function_declaration, parsed_loop, parsed_lunar_phase_block, parsed_mood_block,
    parsed_parameters, parsed_primary, parsed_program, parsed_return, parsed_statement,
    parsed_statements, parsed_unary, parsed_variable_declaration, Closer, Parsed, CRISIS_BELOW,
};
use vstd::prelude::*;

verus! {

/// How many draws were taken between a moment with `before` to come and a
/// later one with `after` to come.
pub open spec fn taken(before: Seq<u32>, after: Seq<u32>) -> int {
    before.len() - after.len()
}

/// A draw takes one draw, unless none is left.
pub proof fn lemma_one_draw(draws: Seq<u32>)
    ensures
        0 <= taken(draws, later_draws(draws)) <= 1,
{
}

/// A distortion takes one draw at most.
pub proof fn lemma_distortion_takes_one(value: ValueView, draws: Seq<u32>)
    ensures
        0 <= taken(draws, draws_after_distortion(value, draws)) <= 1,
{
}

/// How many draws evaluating `node` can take at most: two for each statement
/// of a program, one for a mood block, a reality distortion and each node
/// without a rule of its own, and what the statements of programs and blocks
/// and the inside of a reality distortion can take.
pub open spec fn toll(node: NodeView) -> nat
    decreases node, 0nat,
{
    match node {
        NodeView::Program(statements) => toll_of_first(statements, statements.len()) + 2
            * statements.len(),
        NodeView::MoodBlock(_, statements) => 1 + toll_of_first(statements, statements.len()),
        NodeView::LunarPhaseBlock(statements) => toll_of_first(statements, statements.len()),
        NodeView::RealityDistortion(inner) => 1 + toll(*inner),
        NodeView::Compliment(_) => 0,
        NodeView::PhilosophicalQuestion(_) => 0,
        NodeView::Number(_) => 0,
        NodeView::String(_) => 0,
        NodeView::Boolean(_) => 0,
        NodeView::RandomFailure => 0,
        _ => 1,
    }
}

/// The tolls of the first `count` statements, added up.
pub open spec fn toll_of_first(statements: Seq<NodeView>, count: nat) -> nat
    decreases statements, count,
{
    if count == 0 || count > statements.len() {
        0
    } else {
        toll_of_first(statements, (count - 1) as nat) + toll(statements[count - 1])
    }
}

/// The toll of the first statements of a list depends on these statements
/// alone.
proof fn lemma_toll_of_prefix(all: Seq<NodeView>, front: Seq<NodeView>, count: nat)
    requires
        count <= front.len() <= all.len(),
        forall|i: int| 0 <= i < front.len() ==> all[i] == front[i],
    ensures
        toll_of_first(all, count) == toll_of_first(front, count),
    decreases count,
{
    if count > 0 {
        lemma_toll_of_prefix(all, front, (count - 1) as nat);
    }
}

/// The toll of two lists in a row is the sum of their tolls.
pub proof fn lemma_toll_of_lists(front: Seq<NodeView>, back: Seq<NodeView>, count: nat)
    requires
        count <= back.len(),
    ensures
        toll_of_first(front + back, front.len() + count) == toll_of_first(front, front.len())
            + toll_of_first(back, count),
    decreases count,
{
    let all = front + back;
    if count == 0 {
        lemma_toll_of_prefix(all, front, front.len());
    } else {
        lemma_toll_of_lists(front, back, (count - 1) as nat);
        assert(all[front.len() + count - 1] == back[count - 1]);
    }
}

/// Evaluating a node takes no more draws than its toll.
pub proof fn lemma_evaluation_within_toll(node: NodeView, session: Session, day: u64)
    ensures
        0 <= taken(session.draws, evaluated(node, session, day).session.draws) <= toll(node),
    decreases node, 0nat,
{
    match node {
        NodeView::Program(statements) => {
            lemma_program_within_toll(statements, statements.len(), session, day);
        },
        NodeView::LunarPhaseBlock(statements) => {
            lemma_block_within_toll(statements, statements.len(), session, day);
        },
        NodeView::MoodBlock(tag, statements) => {
            lemma_block_within_toll(statements, statements.len(), session, day);
            lemma_block_within_toll(statements, statements.len(), session.after_draw(), day);
        },
        NodeView::RealityDistortion(inner) => {
            lemma_evaluation_within_toll(*inner, session, day);
        },
        _ => {},
    }
}

/// Running the statements of a block takes no more draws than their toll.
proof fn lemma_block_within_toll(
    statements: Seq<NodeView>,
    count: nat,
    session: Session,
    day: u64,
)
    requires
        count <= statements.len(),
    ensures
        0 <= taken(session.draws, block_run(statements, count, session, day).session.draws)
            <= toll_of_first(statements, count),
    decreases statements, count,
{
    if count > 0 {
        let before = block_run(statements, (count - 1) as nat, session, day);
        lemma_block_within_toll(statements, (count - 1) as nat, session, day);
        lemma_evaluation_within_toll(statements[count - 1], before.session, day);
    }
}

/// Running the statements of a program takes no more draws than their toll
/// and two for each.
proof fn lemma_program_within_toll(
    statements: Seq<NodeView>,
    count: nat,
    session: Session,
    day: u64,
)
    requires
        count <= statements.len(),
    ensures
        0 <= taken(session.draws, program_run(statements, count, session, day).session.draws)
            <= toll_of_first(statements, count) + 2 * count,
    decreases statements, count,
{
    if count > 0 {
        let before = program_run(statements, (count - 1) as nat, session, day);
        lemma_program_within_toll(statements, (count - 1) as nat, session, day);
        lemma_evaluation_within_toll(statements[count - 1], before.session, day);
    }
}

/// Interpreting a program takes no more draws than its toll and one.
pub proof fn lemma_interpretation_within_toll(program: NodeView, session: Session, day: u64)
    ensures
        0 <= taken(session.draws, interpreted(program, session, day).session.draws) <= toll(
            program,
        ) + 1,
{
    lemma_evaluation_within_toll(program, session.after_draw(), day);
}

/// The bill of an expression: where its parse succeeded, it moved on, took
/// no more draws than it read tokens, and gave a node whose toll is no more
/// than that and one; where it failed, it took no more draws than there were
/// tokens left, and one.
pub open spec fn expression_bill(
    len: nat,
    parsed: Parsed<NodeView>,
    draws: Seq<u32>,
    pos: int,
) -> bool {
    let cost = taken(draws, parsed.draws);
    match parsed.result {
        Ok(node) => {
            &&& pos < parsed.pos <= len
            &&& 0 <= cost <= parsed.pos - pos
            &&& toll(node) <= parsed.pos - pos + 1
        },
        Err(_) => 0 <= cost <= len - pos + 1,
    }
}

/// The bill of an operand: as for an expression, with one draw less.
pub open spec fn operand_bill(len: nat, parsed: Parsed<NodeView>, draws: Seq<u32>, pos: int)
    -> bool {
    let cost = taken(draws, parsed.draws);
    match parsed.result {
        Ok(node) => {
            &&& pos < parsed.pos <= len
            &&& 0 <= cost <= parsed.pos - pos - 1
            &&& toll(node) <= parsed.pos - pos
        },
        Err(_) => 0 <= cost <= len - pos,
    }
}

/// The bill of a statement: where its parse succeeded, it moved on, took no
/// more than two draws for each token it read, and gave a node whose toll
/// and two are no more than three for each token; where it failed, it took
/// no more than two draws for each token left, and `spare` more.
pub open spec fn statement_bill(
    len: nat,
    parsed: Parsed<NodeView>,
    draws: Seq<u32>,
    pos: int,
    spare: int,
) -> bool {
    let cost = taken(draws, parsed.draws);
    match parsed.result {
        Ok(node) => {
            &&& pos < parsed.pos <= len
            &&& 0 <= cost <= 2 * (parsed.pos - pos) - 2 + spare
            &&& toll(node) + 2 <= 3 * (parsed.pos - pos)
        },
        Err(_) => 0 <= cost <= 2 * (len - pos) + spare,
    }
}

/// The bill of a list of statements: as for a statement, for all of them
/// together.
pub open spec fn statements_bill(
    len: nat,
    parsed: Parsed<Seq<NodeView>>,
    draws: Seq<u32>,
    pos: int,
) -> bool {
    let cost = taken(draws, parsed.draws);
    match parsed.result {
        Ok(nodes) => {
            &&& pos <= parsed.pos <= len
            &&& 0 <= cost <= 2 * (parsed.pos - pos)
            &&& toll_of_first(nodes, nodes.len()) + 2 * nodes.len() <= 3 * (parsed.pos - pos)
        },
        Err(_) => 0 <= cost <= 2 * (len - pos) + 2,
    }
}

/// Every expression pays its bill.
proof fn lemma_expression_bill(tokens: Seq<TokenView>, mood: Mood, pos: int, draws: Seq<u32>)
    requires
        0 <= pos <= tokens.len(),
    ensures
        expression_bill(tokens.len(), parsed_expression(tokens, mood, pos, draws), draws, pos),
    decreases tokens.len() - pos, 10nat,
{
    lemma_binary_bill(tokens, mood, 3, pos, later_draws(draws));
}

/// Every operand chain pays its bill.
proof fn lemma_binary_bill(
    tokens: Seq<TokenView>,
    mood: Mood,
    level: nat,
    pos: int,
    draws: Seq<u32>,
)
    requires
        0 <= pos <= tokens.len(),
    ensures
        operand_bill(tokens.len(), parsed_binary(tokens, mood, level, pos, draws), draws, pos),
    decreases tokens.len() - pos, level + 2,
{
    if level == 0 {
        lemma_unary_bill(tokens, mood, pos, draws);
    } else {
        let left = parsed_binary(tokens, mood, (level - 1) as nat, pos, draws);
        lemma_binary_bill(tokens, mood, (level - 1) as nat, pos, draws);
        match left.result {
            Ok(node) => {
                if pos < left.pos <= tokens.len() {
                    lemma_binary_rest_bill(tokens, mood, level, node, left.pos, left.draws);
                }
            },
            Err(_) => {},
        }
    }
}

/// What follows an operand takes no more draws than it reads tokens, and
/// gives the operand or a node with a toll of one.
proof fn lemma_binary_rest_bill(
    tokens: Seq<TokenView>,
    mood: Mood,
    level: nat,
    left: NodeView,
    pos: int,
    draws: Seq<u32>,
)
    requires
        0 <= pos <= tokens.len(),
    ensures
        ({
            let parsed = parsed_binary_rest(tokens, mood, level, left, pos, draws);
            let cost = taken(draws, parsed.draws);
            match parsed.result {
                Ok(node) => {
                    &&& pos <= parsed.pos <= tokens.len()
                    &&& 0 <= cost <= parsed.pos - pos
                    &&& node == left || toll(node) == 1
                },
                Err(_) => 0 <= cost <= tokens.len() - pos,
            }
        }),
    decreases tokens.len() - pos, 0nat,
{
    match operator_at(level, kind_at(tokens, pos)) {
        None => {},
        Some(operator) => {
            if !(level == 0 || pos < 0 || pos >= tokens.len()) {
                let right = parsed_binary(tokens, mood, (level - 1) as nat, pos + 1, draws);
                lemma_binary_bill(tokens, mood, (level - 1) as nat, pos + 1, draws);
                match right.result {
                    Ok(node) => {
                        if pos < right.pos <= tokens.len() {
                            lemma_binary_rest_bill(
                                tokens,
                                mood,
                                level,
                                NodeView::BinaryOp(Box::new(left), operator, Box::new(node)),
                                right.pos,
                                right.draws,
                            );
                        }
                    },
                    Err(_) => {},
                }
            }
        },
    }
}

/// Every unary expression pays its bill.
proof fn lemma_unary_bill(tokens: Seq<TokenView>, mood: Mood, pos: int, draws: Seq<u32>)
    requires
        0 <= pos <= tokens.len(),
    ensures
        operand_bill(tokens.len(), parsed_unary(tokens, mood, pos, draws), draws, pos),
    decreases tokens.len() - pos, 1nat,
{
    if kind_at(tokens, pos) is Minus {
        lemma_unary_bill(tokens, mood, pos + 1, draws);
    } else {
        lemma_primary_bill(tokens, mood, pos, draws);
    }
}

/// Every primary expression pays its bill.
proof fn lemma_primary_bill(tokens: Seq<TokenView>, mood: Mood, pos: int, draws: Seq<u32>)
    requires
        0 <= pos <= tokens.len(),
    ensures
        operand_bill(tokens.len(), parsed_primary(tokens, mood, pos, draws), draws, pos),
    decreases tokens.len() - pos, 0nat,
{
    match kind_at(tokens, pos) {
        TokenTypeView::Identifier(name) => {
            if name != "true"@ && name != "false"@ && kind_at(tokens, pos + 1) is LeftParen {
                lemma_arguments_bill(tokens, mood, pos + 2, draws, true);
            }
        },
        TokenTypeView::LeftParen => {
            lemma_expression_bill(tokens, mood, pos + 1, draws);
        },
        _ => {},
    }
}

/// A list of arguments takes no more draws than it reads tokens.
proof fn lemma_arguments_bill(
    tokens: Seq<TokenView>,
    mood: Mood,
    pos: int,
    draws: Seq<u32>,
    first: bool,
)
    requires
        0 <= pos <= tokens.len(),
    ensures
        ({
            let parsed = parsed_arguments(tokens, mood, pos, draws, first);
            let cost = taken(draws, parsed.draws);
            match parsed.result {
                Ok(_) => pos < parsed.pos <= tokens.len() && 0 <= cost <= parsed.pos - pos - 1,
                Err(_) => 0 <= cost <= tokens.len() - pos + 1,
            }
        }),
    decreases tokens.len() - pos, 15nat,
{
    if !(first && kind_at(tokens, pos) is RightParen) {
        let head = parsed_expression(tokens, mood, pos, draws);
        lemma_expression_bill(tokens, mood, pos, draws);
        match head.result {
            Ok(node) => {
                if pos < head.pos <= tokens.len() && kind_at(tokens, head.pos) is Comma {
                    lemma_arguments_bill(tokens, mood, head.pos + 1, head.draws, false);
                }
            },
            Err(_) => {},
        }
    }
}

/// Every declaration of a variable pays its bill.
proof fn lemma_variable_declaration_bill(
    tokens: Seq<TokenView>,
    mood: Mood,
    pos: int,
    draws: Seq<u32>,
)
    requires
        0 <= pos <= tokens.len(),
    ensures
        statement_bill(
            tokens.len(),
            parsed_variable_declaration(tokens, mood, pos, draws),
            draws,
            pos,
            1,
        ),
    decreases tokens.len() - pos, 19nat,
{
    if kind_at(tokens, pos + 2) is Assignment {
        lemma_expression_bill(tokens, mood, pos + 3, draws);
    }
}

/// Every declaration of a function pays its bill.
proof fn lemma_function_declaration_bill(
    tokens: Seq<TokenView>,
    mood: Mood,
    pos: int,
    draws: Seq<u32>,
)
    requires
        0 <= pos <= tokens.len(),
    ensures
        statement_bill(
            tokens.len(),
            parsed_function_declaration(tokens, mood, pos, draws),
            draws,
            pos,
            1,
        ),
    decreases tokens.len() - pos, 19nat,
{
    if kind_at(tokens, pos + 2) is LeftParen {
        match parsed_parameters(tokens, pos + 3, true) {
            Some((names, after)) => {
                lemma_parameters_bounds(tokens, pos + 3, true);
                lemma_block_bill(tokens, mood, after, draws);
            },
            None => {},
        }
    }
}

/// Every conditional pays its bill.
proof fn lemma_conditional_bill(tokens: Seq<TokenView>, mood: Mood, pos: int, draws: Seq<u32>)
    requires
        0 <= pos <= tokens.len(),
    ensures
        statement_bill(tokens.len(), parsed_conditional(tokens, mood, pos, draws), draws, pos, 1),
    decreases tokens.len() - pos, 19nat,
{
    if pos < tokens.len() {
        let condition = parsed_expression(tokens, mood, pos + 1, draws);
        lemma_expression_bill(tokens, mood, pos + 1, draws);
        if condition.result is Ok && pos < condition.pos <= tokens.len() {
            let then = parsed_block(tokens, mood, condition.pos, condition.draws);
            lemma_block_bill(tokens, mood, condition.pos, condition.draws);
            if then.result is Ok && pos < then.pos <= tokens.len() {
                lemma_block_bill(tokens, mood, then.pos, then.draws);
            }
        }
    }
}

/// Every loop pays its bill.
proof fn lemma_loop_bill(tokens: Seq<TokenView>, mood: Mood, pos: int, draws: Seq<u32>)
    requires
        0 <= pos <= tokens.len(),
    ensures
        statement_bill(tokens.len(), parsed_loop(tokens, mood, pos, draws), draws, pos, 1),
    decreases tokens.len() - pos, 19nat,
{
    if pos < tokens.len() {
        lemma_block_bill(tokens, mood, pos + 1, draws);
    }
}

/// Every mood block pays its bill.
proof fn lemma_mood_block_bill(tokens: Seq<TokenView>, mood: Mood, pos: int, draws: Seq<u32>)
    requires
        0 <= pos <= tokens.len(),
    ensures
        statement_bill(tokens.len(), parsed_mood_block(tokens, mood, pos, draws), draws, pos, 1),
    decreases tokens.len() - pos, 19nat,
{
    if pos < tokens.len() {
        lemma_block_bill(tokens, mood, pos + 1, draws);
    }
}

/// Every lunar block pays its bill.
proof fn lemma_lunar_phase_block_bill(
    tokens: Seq<TokenView>,
    mood: Mood,
    pos: int,
    draws: Seq<u32>,
)
    requires
        0 <= pos <= tokens.len(),
    ensures
        statement_bill(
            tokens.len(),
            parsed_lunar_phase_block(tokens, mood, pos, draws),
            draws,
            pos,
            1,
        ),
    decreases tokens.len() - pos, 19nat,
{
    if pos < tokens.len() {
        lemma_block_bill(tokens, mood, pos + 1, draws);
    }
}

/// Every return statement pays its bill.
proof fn lemma_return_bill(tokens: Seq<TokenView>, mood: Mood, pos: int, draws: Seq<u32>)
    requires
        0 <= pos <= tokens.len(),
    ensures
        statement_bill(tokens.len(), parsed_return(tokens, mood, pos, draws), draws, pos, 1),
    decreases tokens.len() - pos, 19nat,
{
    if pos < tokens.len() && !(kind_at(tokens, pos + 1) is Semicolon) {
        lemma_expression_bill(tokens, mood, pos + 1, draws);
    }
}

/// Every assignment pays its bill.
proof fn lemma_assignment_bill(
    tokens: Seq<TokenView>,
    mood: Mood,
    name: Seq<char>,
    pos: int,
    draws: Seq<u32>,
)
    requires
        0 <= pos <= tokens.len(),
    ensures
        statement_bill(
            tokens.len(),
            parsed_assignment(tokens, mood, name, pos, draws),
            draws,
            pos,
            1,
        ),
    decreases tokens.len() - pos, 19nat,
{
    if pos + 1 < tokens.len() {
        lemma_expression_bill(tokens, mood, pos + 2, draws);
    }
}

/// Every statement pays its bill.
proof fn lemma_statement_bill(tokens: Seq<TokenView>, mood: Mood, pos: int, draws: Seq<u32>)
    requires
        0 <= pos <= tokens.len(),
    ensures
        statement_bill(tokens.len(), parsed_statement(tokens, mood, pos, draws), draws, pos, 2),
    decreases tokens.len() - pos, 20nat,
{
    let left = later_draws(draws);
    if first_draw(draws) >= CRISIS_BELOW {
        match kind_at(tokens, pos) {
            TokenTypeView::VariableDeclaration => {
                lemma_variable_declaration_bill(tokens, mood, pos, left);
            },
            TokenTypeView::FunctionDeclaration => {
                lemma_function_declaration_bill(tokens, mood, pos, left);
            },
            TokenTypeView::Conditional => {
                lemma_conditional_bill(tokens, mood, pos, left);
            },
            TokenTypeView::Loop => {
                lemma_loop_bill(tokens, mood, pos, left);
            },
            TokenTypeView::MoodDeclaration => {
                lemma_mood_block_bill(tokens, mood, pos, left);
            },
            TokenTypeView::LunarPhase => {
                lemma_lunar_phase_block_bill(tokens, mood, pos, left);
            },
            TokenTypeView::Return => {
                lemma_return_bill(tokens, mood, pos, left);
            },
            TokenTypeView::Compliment => {},
            TokenTypeView::PhilosophicalQuestion => {},
            kind => {
                if kind is Identifier && kind_at(tokens, pos + 1) is Assignment {
                    lemma_assignment_bill(tokens, mood, kind->Identifier_0, pos, left);
                } else {
                    lemma_expression_bill(tokens, mood, pos, left);
                }
            },
        }
    }
}

/// Every block pays its bill; its parse moves on, and the token that closes
/// it counts for the toll of the node that the block is made the body of.
proof fn lemma_block_bill(tokens: Seq<TokenView>, mood: Mood, pos: int, draws: Seq<u32>)
    requires
        0 <= pos <= tokens.len(),
    ensures
        statements_bill(tokens.len(), parsed_block(tokens, mood, pos, draws), draws, pos),
        parsed_block(tokens, mood, pos, draws).result is Ok ==> pos + 1 <= parsed_block(
            tokens,
            mood,
            pos,
            draws,
        ).pos,
        match parsed_block(tokens, mood, pos, draws).result {
            Ok(nodes) => toll_of_first(nodes, nodes.len()) + 3 <= 3 * (parsed_block(
                tokens,
                mood,
                pos,
                draws,
            ).pos - pos),
            Err(_) => true,
        },
    decreases tokens.len() - pos, 40nat,
{
    if kind_at(tokens, pos) is LeftBrace {
        lemma_statements_bill(tokens, mood, pos + 1, draws, Closer::Brace);
    } else {
        lemma_statements_bill(tokens, mood, pos, draws, Closer::Word);
    }
}

/// Every list of statements pays its bill.
proof fn lemma_statements_bill(
    tokens: Seq<TokenView>,
    mood: Mood,
    pos: int,
    draws: Seq<u32>,
    closer: Closer,
)
    requires
        0 <= pos <= tokens.len(),
    ensures
        statements_bill(
            tokens.len(),
            parsed_statements(tokens, mood, pos, draws, closer),
            draws,
            pos,
        ),
    decreases tokens.len() - pos, 30nat,
{
    if !(pos >= tokens.len() || closes(kind_at(tokens, pos), closer)) {
        let first = parsed_statement(tokens, mood, pos, draws);
        lemma_statement_bill(tokens, mood, pos, draws);
        match first.result {
            Ok(node) => {
                if pos < first.pos <= tokens.len() {
                    let rest = parsed_statements(tokens, mood, first.pos, first.draws, closer);
                    lemma_statements_bill(tokens, mood, first.pos, first.draws, closer);
                    match rest.result {
                        Ok(nodes) => {
                            let head = seq![node];
                            lemma_toll_of_lists(head, nodes, nodes.len());
                            assert(toll_of_first(head, 1) == toll(node)) by {
                                assert(toll_of_first(head, 0) == 0);
                                assert(head[0] == node);
                            }
                        },
                        Err(_) => {},
                    }
                }
            },
            Err(_) => {},
        }
    }
}

/// Parsing takes no more than two draws for each token and three more, and
/// a program that parses has a toll of no more than three draws for each
/// token.
pub proof fn lemma_parse_within_budget(tokens: Seq<TokenView>, mood: Mood, draws: Seq<u32>)
    ensures
        0 <= taken(draws, parsed_program(tokens, mood, draws).draws) <= 2 * tokens.len() + 3,
        match parsed_program(tokens, mood, draws).result {
            Ok(program) => toll(program) <= 3 * tokens.len(),
            Err(_) => true,
        },
{
    lemma_statements_bill(tokens, mood, 0, draws, Closer::End);
}

} // verus!
