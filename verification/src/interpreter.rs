//! The evaluator: it walks the syntax tree and gives each node its value.
//!
//! What evaluation does is stated by [`evaluated`], a function of the node,
//! the session in which it runs and the lunar day. The interpreter keeps the
//! counters of the session in its environment and its notices in a list of
//! its own; the draws come from the [`Dice`] that the caller hands in.

use crate::ast::{
    distorted, draws_after_distortion, nodes_view, Environment, MoodType, Node,
    NodeView, Value, ValueView,
};
use crate::chance::{first_draw, later_draws, Dice};
use crate::clock::days_since_epoch;
use crate::error::PubuError;
use vstd::prelude::*;

verus! {

/// The least draw on which the interpreter takes up a program: five draws in
/// a hundred make it fail before it starts.
pub const ENTRY_FAILS_BELOW: u32 = 50;

/// The least draw that leaves the result of a statement as it is: one draw
/// in ten distorts it.
pub const DISTORT_BELOW: u32 = 100;

/// The least draw on which a grumpy block runs: three draws in ten make it
/// refuse.
pub const GRUMPY_REFUSES_BELOW: u32 = 300;

/// The least draw on which a node without a rule of its own stays without
/// critique: two draws in ten call for one.
pub const CRITIQUE_BELOW: u32 = 200;

/// The length of the lunar cycle, in days.
pub const LUNAR_CYCLE: u64 = 30;

/// Whether lunar blocks may run on `day`, counted from the start of 1970: on
/// the days thirteen to seventeen of each cycle of thirty.
pub open spec fn lunar_compatible(day: u64) -> bool {
    13 <= day % LUNAR_CYCLE <= 17
}

/// Whether lunar blocks may run on `day`.
pub fn lunar_compatible_on(day: u64) -> (compatible: bool)
    ensures
        compatible == lunar_compatible(day),
{
    let phase = day % LUNAR_CYCLE;
    phase >= 13 && phase <= 17
}

/// What the interpreter has to tell while it runs. Nothing in a run depends
/// on the notices; they are for whoever shows the run.
#[derive(Debug, Clone, PartialEq)]
pub enum Notice {
    /// A compliment was taken in; the text is the compliment.
    Appreciated(String),
    /// A question was pondered; the text is the question.
    Pondered(String),
    /// A node without a rule of its own was passed over.
    Pretended,
    /// A critique of the code is called for.
    CritiqueDue,
}

/// What a [`Notice`] is.
pub enum NoticeView {
    Appreciated(Seq<char>),
    Pondered(Seq<char>),
    Pretended,
    CritiqueDue,
}

impl View for Notice {
    type V = NoticeView;

    open spec fn view(&self) -> NoticeView {
        match self {
            Notice::Appreciated(text) => NoticeView::Appreciated(text@),
            Notice::Pondered(text) => NoticeView::Pondered(text@),
            Notice::Pretended => NoticeView::Pretended,
            Notice::CritiqueDue => NoticeView::CritiqueDue,
        }
    }
}

/// What each notice of the list is.
pub open spec fn notices_view(notices: Seq<Notice>) -> Seq<NoticeView> {
    Seq::new(notices.len(), |i: int| notices[i]@)
}

/// All that a run can change: the two counters, the draws to come and the
/// notices given so far.
pub struct Session {
    pub compliments: nat,
    pub questions: nat,
    pub draws: Seq<u32>,
    pub notices: Seq<NoticeView>,
}

/// How an evaluation ended: its value or its error, and the session as it
/// left it.
pub struct Outcome {
    pub result: Result<ValueView, PubuError>,
    pub session: Session,
}

impl Session {
    /// This session after one draw was taken.
    pub open spec fn after_draw(self) -> Session {
        Session { draws: later_draws(self.draws), ..self }
    }

    /// This session with `notice` added.
    pub open spec fn with_notice(self, notice: NoticeView) -> Session {
        Session { notices: self.notices.push(notice), ..self }
    }
}

/// One of the statements is a compliment.
pub open spec fn holds_compliment(statements: Seq<NodeView>) -> bool {
    exists|i: int| 0 <= i < statements.len() && (#[trigger] statements[i]) is Compliment
}

/// One of the statements is a philosophical question.
pub open spec fn holds_question(statements: Seq<NodeView>) -> bool {
    exists|i: int| 0 <= i < statements.len() && (#[trigger] statements[i]) is PhilosophicalQuestion
}

/// One of the statements declares a function.
pub open spec fn holds_function(statements: Seq<NodeView>) -> bool {
    exists|i: int| 0 <= i < statements.len() && (#[trigger] statements[i]) is FunctionDeclaration
}

/// The result of a statement of a program after the draw that follows it:
/// distorted if that draw is below [`DISTORT_BELOW`], else as it is.
pub open spec fn after_statement(value: ValueView, session: Session) -> Outcome {
    let next = session.after_draw();
    if first_draw(session.draws) < DISTORT_BELOW {
        Outcome {
            result: Ok(distorted(value, next.draws)),
            session: Session { draws: draws_after_distortion(value, next.draws), ..next },
        }
    } else {
        Outcome { result: Ok(value), session: next }
    }
}

/// What evaluating `node` does in `session` on lunar day `day`.
///
/// - A program needs a compliment among its statements, and a question
///   among them if one of them declares a function; then its statements run
///   as [`program_run`] says.
/// - A compliment counts itself, gives notice and is its own text; a
///   question counts itself, gives notice and is a whimsical value.
/// - A number, a text and a truth value are themselves.
/// - A lunar block runs its statements on a compatible day and fails on
///   every other day before it has done anything.
/// - A grumpy block takes a draw and refuses if it is below
///   [`GRUMPY_REFUSES_BELOW`]; a philosophical block needs a question among
///   its statements; then, as in every other block, the statements run as
///   [`block_run`] says.
/// - A reality distortion evaluates what it holds and distorts the value.
/// - A random failure fails.
/// - Every other node gives notice, takes a draw that calls for a critique if
///   it is below [`CRITIQUE_BELOW`], and is null.
pub open spec fn evaluated(node: NodeView, session: Session, day: u64) -> Outcome
    decreases node, 0nat,
{
    match node {
        NodeView::Program(statements) => {
            if !holds_compliment(statements) {
                Outcome { result: Err(PubuError::NotEnoughCompliments), session }
            } else if holds_function(statements) && !holds_question(statements) {
                Outcome { result: Err(PubuError::PhilosophicalCrisis), session }
            } else {
                program_run(statements, statements.len(), session, day)
            }
        },
        NodeView::Compliment(text) => Outcome {
            result: Ok(ValueView::String(text)),
            session: Session { compliments: session.compliments + 1, ..session }.with_notice(
                NoticeView::Appreciated(text),
            ),
        },
        NodeView::PhilosophicalQuestion(text) => Outcome {
            result: Ok(ValueView::Whimsical(text)),
            session: Session { questions: session.questions + 1, ..session }.with_notice(
                NoticeView::Pondered(text),
            ),
        },
        NodeView::Number(n) => Outcome { result: Ok(ValueView::Number(n)), session },
        NodeView::String(s) => Outcome { result: Ok(ValueView::String(s)), session },
        NodeView::Boolean(b) => Outcome { result: Ok(ValueView::Boolean(b)), session },
        NodeView::LunarPhaseBlock(statements) => {
            if !lunar_compatible(day) {
                Outcome { result: Err(PubuError::MoonPhaseIncompatible), session }
            } else {
                block_run(statements, statements.len(), session, day)
            }
        },
        NodeView::MoodBlock(tag, statements) => {
            match tag {
                MoodType::Grumpy => {
                    if first_draw(session.draws) < GRUMPY_REFUSES_BELOW {
                        Outcome { result: Err(PubuError::BadMood), session: session.after_draw() }
                    } else {
                        block_run(statements, statements.len(), session.after_draw(), day)
                    }
                },
                MoodType::Philosophical => {
                    if !holds_question(statements) {
                        Outcome { result: Err(PubuError::PhilosophicalCrisis), session }
                    } else {
                        block_run(statements, statements.len(), session, day)
                    }
                },
                _ => block_run(statements, statements.len(), session, day),
            }
        },
        NodeView::RealityDistortion(inner) => {
            let held = evaluated(*inner, session, day);
            match held.result {
                Ok(value) => Outcome {
                    result: Ok(distorted(value, held.session.draws)),
                    session: Session {
                        draws: draws_after_distortion(value, held.session.draws),
                        ..held.session
                    },
                },
                Err(_) => held,
            }
        },
        NodeView::RandomFailure => Outcome { result: Err(PubuError::RandomFailure), session },
        _ => {
            let noted = session.with_notice(NoticeView::Pretended);
            let heard = if first_draw(session.draws) < CRITIQUE_BELOW {
                noted.with_notice(NoticeView::CritiqueDue)
            } else {
                noted
            };
            Outcome { result: Ok(ValueView::Null), session: heard.after_draw() }
        },
    }
}

/// What running the first `count` statements of a block does: each is
/// evaluated in the session that the one before it left, the first error
/// ends the run, and the value is that of the last statement (null where
/// there is none).
pub open spec fn block_run(statements: Seq<NodeView>, count: nat, session: Session, day: u64)
    -> Outcome
    decreases statements, count,
{
    if count == 0 || count > statements.len() {
        Outcome { result: Ok(ValueView::Null), session }
    } else {
        let before = block_run(statements, (count - 1) as nat, session, day);
        match before.result {
            Ok(_) => evaluated(statements[count - 1], before.session, day),
            Err(_) => before,
        }
    }
}

/// What running the first `count` statements of a program does: as in a
/// block, but each statement is followed by a draw that may distort its
/// value, as [`after_statement`] says.
pub open spec fn program_run(statements: Seq<NodeView>, count: nat, session: Session, day: u64)
    -> Outcome
    decreases statements, count,
{
    if count == 0 || count > statements.len() {
        Outcome { result: Ok(ValueView::Null), session }
    } else {
        let before = program_run(statements, (count - 1) as nat, session, day);
        match before.result {
            Ok(_) => {
                let step = evaluated(statements[count - 1], before.session, day);
                match step.result {
                    Ok(value) => after_statement(value, step.session),
                    Err(_) => step,
                }
            },
            Err(_) => before,
        }
    }
}

/// What interpreting `program` does: a draw below [`ENTRY_FAILS_BELOW`] makes
/// it fail at once; else the program is evaluated.
pub open spec fn interpreted(program: NodeView, session: Session, day: u64) -> Outcome {
    if first_draw(session.draws) < ENTRY_FAILS_BELOW {
        Outcome { result: Err(PubuError::RandomFailure), session: session.after_draw() }
    } else {
        evaluated(program, session.after_draw(), day)
    }
}

/// How many compliments and questions evaluating `node` can count at most.
pub open spec fn weight(node: NodeView) -> nat
    decreases node, 0nat,
{
    match node {
        NodeView::Compliment(_) => 1,
        NodeView::PhilosophicalQuestion(_) => 1,
        NodeView::Program(statements) => weight_of_first(statements, statements.len()),
        NodeView::LunarPhaseBlock(statements) => weight_of_first(statements, statements.len()),
        NodeView::MoodBlock(_, statements) => weight_of_first(statements, statements.len()),
        NodeView::RealityDistortion(inner) => weight(*inner),
        _ => 0,
    }
}

/// The weights of the first `count` statements, added up.
pub open spec fn weight_of_first(statements: Seq<NodeView>, count: nat) -> nat
    decreases statements, count,
{
    if count == 0 || count > statements.len() {
        0
    } else {
        weight_of_first(statements, (count - 1) as nat) + weight(statements[count - 1])
    }
}

/// The value or the error, with the value as what it is.
pub open spec fn result_view(result: Result<Value, PubuError>) -> Result<ValueView, PubuError> {
    match result {
        Ok(value) => Ok(value@),
        Err(error) => Err(error),
    }
}

/// The weights of more statements add up to more.
proof fn lemma_weight_grows(statements: Seq<NodeView>, fewer: nat, more: nat)
    requires
        fewer <= more <= statements.len(),
    ensures
        weight_of_first(statements, fewer) <= weight_of_first(statements, more),
    decreases more,
{
    if fewer < more {
        lemma_weight_grows(statements, fewer, (more - 1) as nat);
    }
}

/// The weight of two lists in a row is the sum of their weights.
pub proof fn lemma_weight_of_lists(front: Seq<NodeView>, back: Seq<NodeView>, count: nat)
    requires
        count <= back.len(),
    ensures
        weight_of_first(front + back, front.len() + count) == weight_of_first(front, front.len())
            + weight_of_first(back, count),
    decreases count,
{
    let all = front + back;
    if count == 0 {
        lemma_weight_of_prefix(all, front, front.len());
    } else {
        lemma_weight_of_lists(front, back, (count - 1) as nat);
        assert(all[front.len() + count - 1] == back[count - 1]);
    }
}

/// The weight of the first statements of a list depends on these statements
/// alone.
proof fn lemma_weight_of_prefix(all: Seq<NodeView>, front: Seq<NodeView>, count: nat)
    requires
        count <= front.len() <= all.len(),
        forall|i: int| 0 <= i < front.len() ==> all[i] == front[i],
    ensures
        weight_of_first(all, count) == weight_of_first(front, count),
    decreases count,
{
    if count > 0 {
        lemma_weight_of_prefix(all, front, (count - 1) as nat);
    }
}

/// Once a block has failed, the statements after the failure change nothing.
proof fn lemma_block_failure_stays(
    statements: Seq<NodeView>,
    fewer: nat,
    more: nat,
    session: Session,
    day: u64,
)
    requires
        fewer <= more <= statements.len(),
        block_run(statements, fewer, session, day).result is Err,
    ensures
        block_run(statements, more, session, day) == block_run(statements, fewer, session, day),
    decreases more,
{
    if fewer < more {
        lemma_block_failure_stays(statements, fewer, (more - 1) as nat, session, day);
    }
}

/// Once a program has failed, the statements after the failure change
/// nothing.
proof fn lemma_program_failure_stays(
    statements: Seq<NodeView>,
    fewer: nat,
    more: nat,
    session: Session,
    day: u64,
)
    requires
        fewer <= more <= statements.len(),
        program_run(statements, fewer, session, day).result is Err,
    ensures
        program_run(statements, more, session, day) == program_run(
            statements,
            fewer,
            session,
            day,
        ),
    decreases more,
{
    if fewer < more {
        lemma_program_failure_stays(statements, fewer, (more - 1) as nat, session, day);
    }
}

/// A random failure node fails in every session and on every day, and
/// leaves the session as it was.
pub proof fn lemma_random_failure_always_fails(session: Session, day: u64)
    ensures
        evaluated(NodeView::RandomFailure, session, day) == (Outcome {
            result: Err(PubuError::RandomFailure),
            session,
        }),
{
}

/// A program without a compliment among its statements is refused before
/// anything has run.
pub proof fn lemma_program_needs_compliment(
    statements: Seq<NodeView>,
    session: Session,
    day: u64,
)
    requires
        !holds_compliment(statements),
    ensures
        evaluated(NodeView::Program(statements), session, day) == (Outcome {
            result: Err(PubuError::NotEnoughCompliments),
            session,
        }),
{
}

/// A program that declares a function and asks no question is refused before
/// anything has run. The program holds a compliment: without one it is
/// refused for that.
pub proof fn lemma_function_needs_question(
    statements: Seq<NodeView>,
    session: Session,
    day: u64,
)
    requires
        holds_compliment(statements),
        holds_function(statements),
        !holds_question(statements),
    ensures
        evaluated(NodeView::Program(statements), session, day) == (Outcome {
            result: Err(PubuError::PhilosophicalCrisis),
            session,
        }),
{
}

/// A lunar block runs its statements on a compatible day. On every other day
/// it fails and leaves the session, its counters among the rest, as it was.
pub proof fn lemma_lunar_block_obeys_the_moon(
    statements: Seq<NodeView>,
    session: Session,
    day: u64,
)
    ensures
        lunar_compatible(day) ==> evaluated(NodeView::LunarPhaseBlock(statements), session, day)
            == block_run(statements, statements.len(), session, day),
        !lunar_compatible(day) ==> evaluated(NodeView::LunarPhaseBlock(statements), session, day)
            == (Outcome { result: Err(PubuError::MoonPhaseIncompatible), session }),
{
}

/// A program of one compliment, with no distortion after it, is the text of
/// the compliment; it counts one compliment, gives one notice and takes one
/// draw.
pub proof fn lemma_lone_compliment(text: Seq<char>, session: Session, day: u64)
    requires
        first_draw(session.draws) >= DISTORT_BELOW,
    ensures
        evaluated(NodeView::Program(seq![NodeView::Compliment(text)]), session, day) == (Outcome {
            result: Ok(ValueView::String(text)),
            session: Session {
                compliments: session.compliments + 1,
                questions: session.questions,
                draws: later_draws(session.draws),
                notices: session.notices.push(NoticeView::Appreciated(text)),
            },
        }),
{
    let statements = seq![NodeView::Compliment(text)];
    assert(statements[0] is Compliment);
    assert(holds_compliment(statements));
    assert(!holds_function(statements));
    reveal_with_fuel(program_run, 3);
    reveal_with_fuel(evaluated, 3);
}

/// An evaluation counts what it meets: the counters of the session never go
/// down, and go up by the weight of the node at most.
pub proof fn lemma_counters_grow_within_weight(node: NodeView, session: Session, day: u64)
    ensures
        session.compliments <= evaluated(node, session, day).session.compliments
            <= session.compliments + weight(node),
        session.questions <= evaluated(node, session, day).session.questions <= session.questions
            + weight(node),
    decreases node, 0nat,
{
    match node {
        NodeView::Program(statements) => {
            lemma_program_counters(statements, statements.len(), session, day);
        },
        NodeView::LunarPhaseBlock(statements) => {
            lemma_block_counters(statements, statements.len(), session, day);
        },
        NodeView::MoodBlock(tag, statements) => {
            lemma_block_counters(statements, statements.len(), session, day);
            lemma_block_counters(statements, statements.len(), session.after_draw(), day);
        },
        NodeView::RealityDistortion(inner) => {
            lemma_counters_grow_within_weight(*inner, session, day);
        },
        _ => {},
    }
}

/// The counters of a block grow within the weight of the statements run.
proof fn lemma_block_counters(statements: Seq<NodeView>, count: nat, session: Session, day: u64)
    requires
        count <= statements.len(),
    ensures
        session.compliments <= block_run(statements, count, session, day).session.compliments
            <= session.compliments + weight_of_first(statements, count),
        session.questions <= block_run(statements, count, session, day).session.questions
            <= session.questions + weight_of_first(statements, count),
    decreases statements, count,
{
    if count > 0 {
        let before = block_run(statements, (count - 1) as nat, session, day);
        lemma_block_counters(statements, (count - 1) as nat, session, day);
        lemma_counters_grow_within_weight(statements[count - 1], before.session, day);
    }
}

/// The counters of a program grow within the weight of the statements run.
proof fn lemma_program_counters(statements: Seq<NodeView>, count: nat, session: Session, day: u64)
    requires
        count <= statements.len(),
    ensures
        session.compliments <= program_run(statements, count, session, day).session.compliments
            <= session.compliments + weight_of_first(statements, count),
        session.questions <= program_run(statements, count, session, day).session.questions
            <= session.questions + weight_of_first(statements, count),
    decreases statements, count,
{
    if count > 0 {
        let before = program_run(statements, (count - 1) as nat, session, day);
        lemma_program_counters(statements, (count - 1) as nat, session, day);
        lemma_counters_grow_within_weight(statements[count - 1], before.session, day);
    }
}

/// The kinds of statement that the rules of evaluation look for.
#[derive(Clone, Copy)]
enum Sought {
    Compliment,
    Question,
    Function,
}

/// Whether `node` is of the kind `sought`.
spec fn is_sought(node: NodeView, sought: Sought) -> bool {
    match sought {
        Sought::Compliment => node is Compliment,
        Sought::Question => node is PhilosophicalQuestion,
        Sought::Function => node is FunctionDeclaration,
    }
}

/// Whether one of the statements is of the kind `sought`.
fn holds(statements: &Vec<Node>, sought: Sought) -> (found: bool)
    ensures
        found == match sought {
            Sought::Compliment => holds_compliment(nodes_view(statements@)),
            Sought::Question => holds_question(nodes_view(statements@)),
            Sought::Function => holds_function(nodes_view(statements@)),
        },
{
    let ghost views = nodes_view(statements@);
    let mut at: usize = 0;
    while at < statements.len()
        invariant
            at <= statements@.len(),
            views == nodes_view(statements@),
            forall|i: int| 0 <= i < at ==> !is_sought(#[trigger] views[i], sought),
        decreases statements@.len() - at,
    {
        let hit = match (&statements[at], sought) {
            (Node::Compliment(_), Sought::Compliment) => true,
            (Node::PhilosophicalQuestion(_), Sought::Question) => true,
            (Node::FunctionDeclaration(_, _, _), Sought::Function) => true,
            _ => false,
        };
        assert(hit == is_sought(views[at as int], sought));
        if hit {
            return true;
        }
        at = at + 1;
    }
    false
}

/// Whether one of the statements is a compliment.
pub fn has_compliment(statements: &Vec<Node>) -> (found: bool)
    ensures
        found == holds_compliment(nodes_view(statements@)),
{
    holds(statements, Sought::Compliment)
}

/// What is left of `budget` after the weight of `node` is taken from it;
/// nothing where the weight is more than the budget.
fn spend(node: &Node, budget: usize) -> (left: Option<usize>)
    ensures
        match left {
            Some(rest) => rest + weight(node@) == budget,
            None => weight(node@) > budget,
        },
    decreases node, 1nat,
{
    match node {
        Node::Compliment(_) => if budget >= 1 {
            Some(budget - 1)
        } else {
            None
        },
        Node::PhilosophicalQuestion(_) => if budget >= 1 {
            Some(budget - 1)
        } else {
            None
        },
        Node::Program(statements) => spend_all(statements, budget),
        Node::LunarPhaseBlock(statements) => spend_all(statements, budget),
        Node::MoodBlock(_, statements) => spend_all(statements, budget),
        Node::RealityDistortion(inner) => spend(inner, budget),
        _ => Some(budget),
    }
}

/// What is left of `budget` after the weights of the statements are taken
/// from it; nothing where they weigh more than the budget.
fn spend_all(statements: &Vec<Node>, budget: usize) -> (left: Option<usize>)
    ensures
        match left {
            Some(rest) => rest + weight_of_first(nodes_view(statements@), statements@.len())
                == budget,
            None => weight_of_first(nodes_view(statements@), statements@.len()) > budget,
        },
    decreases statements, 0nat,
{
    let ghost views = nodes_view(statements@);
    let mut rest: usize = budget;
    let mut at: usize = 0;
    while at < statements.len()
        invariant
            at <= statements@.len(),
            views == nodes_view(statements@),
            rest + weight_of_first(views, at as nat) == budget,
        decreases statements@.len() - at,
    {
        assert(views[at as int] == statements@[at as int]@);
        match spend(&statements[at], rest) {
            Some(less) => {
                rest = less;
            },
            None => {
                proof {
                    lemma_weight_grows(views, (at + 1) as nat, statements@.len());
                }
                return None;
            },
        }
        at = at + 1;
    }
    Some(rest)
}

/// The interpreter: an environment, the lunar day on which it runs, and the
/// notices it has given.
pub struct Interpreter {
    pub env: Environment,
    pub lunar_day: u64,
    pub notices: Vec<Notice>,
}

impl Interpreter {
    /// The session that this interpreter is in when `draws` are to come.
    pub open spec fn session(&self, draws: Seq<u32>) -> Session {
        Session {
            compliments: self.env.compliment_count as nat,
            questions: self.env.philosophical_question_count as nat,
            draws,
            notices: notices_view(self.notices@),
        }
    }

    /// The counters can take all that evaluating `node` may count.
    pub open spec fn has_room(&self, node: NodeView) -> bool {
        &&& self.env.compliment_count + weight(node) <= usize::MAX
        &&& self.env.philosophical_question_count + weight(node) <= usize::MAX
    }

    /// `after` is this interpreter after a run that ended as `outcome` says
    /// and gave `result`, with `draws` left to come: the run changed the
    /// counters and the notices, and nothing else.
    pub open spec fn ran(
        &self,
        after: &Interpreter,
        draws: Seq<u32>,
        result: Result<Value, PubuError>,
        outcome: Outcome,
    ) -> bool {
        &&& result_view(result) == outcome.result
        &&& after.session(draws) == outcome.session
        &&& after.lunar_day == self.lunar_day
        &&& after.env.variables == self.env.variables
        &&& after.env.functions == self.env.functions
        &&& after.env.parent == self.env.parent
    }

    /// `after` has counted at most `most` more compliments and `most` more
    /// questions than this interpreter, and not fewer.
    pub open spec fn counted_within(&self, after: &Interpreter, most: nat) -> bool {
        &&& self.env.compliment_count <= after.env.compliment_count <= self.env.compliment_count
            + most
        &&& self.env.philosophical_question_count <= after.env.philosophical_question_count
            <= self.env.philosophical_question_count + most
    }

    /// Whether the counters can take all that evaluating `program` may
    /// count.
    pub fn fits(&self, program: &Node) -> (room: bool)
        ensures
            room == self.has_room(program@),
    {
        let counted = if self.env.compliment_count > self.env.philosophical_question_count {
            self.env.compliment_count
        } else {
            self.env.philosophical_question_count
        };
        spend(program, usize::MAX - counted).is_some()
    }

    /// An interpreter with an empty environment that runs on the day that
    /// the system clock shows, counted in whole days from the start of 1970.
    pub fn new() -> (interpreter: Self)
        ensures
            exists|seconds: u64|
                interpreter.lunar_day == #[trigger] crate::clock::days_in(seconds),
            interpreter.env.well_formed(),
            interpreter.env.bound() == Map::<Seq<char>, ValueView>::empty(),
            interpreter.env.defined() == Map::<Seq<char>, crate::ast::FunctionView>::empty(),
            interpreter.env.compliment_count == 0,
            interpreter.env.philosophical_question_count == 0,
            interpreter.env.parent is None,
            interpreter.notices@.len() == 0,
    {
        Self::on_day(days_since_epoch())
    }

    /// An interpreter with an empty environment that runs on `lunar_day`,
    /// counted in days from the start of 1970.
    pub fn on_day(lunar_day: u64) -> (interpreter: Self)
        ensures
            interpreter.lunar_day == lunar_day,
            interpreter.env.well_formed(),
            interpreter.env.bound() == Map::<Seq<char>, ValueView>::empty(),
            interpreter.env.defined() == Map::<Seq<char>, crate::ast::FunctionView>::empty(),
            interpreter.env.compliment_count == 0,
            interpreter.env.philosophical_question_count == 0,
            interpreter.env.parent is None,
            interpreter.notices@.len() == 0,
    {
        Self { env: Environment::new(), lunar_day, notices: Vec::new() }
    }

    /// Interprets `program`, with the draws of `dice`.
    pub fn interpret(&mut self, program: Node, dice: &mut Dice) -> (result: Result<
        Value,
        PubuError,
    >)
        requires
            old(self).has_room(program@),
        ensures
            old(self).ran(
                final(self),
                final(dice)@,
                result,
                interpreted(program@, old(self).session(old(dice)@), old(self).lunar_day),
            ),
    {
        if dice.below(ENTRY_FAILS_BELOW) {
            return Err(PubuError::RandomFailure);
        }
        self.evaluate(&program, dice)
    }

    /// Evaluates `node`, with the draws of `dice`.
    pub fn evaluate(&mut self, node: &Node, dice: &mut Dice) -> (result: Result<Value, PubuError>)
        requires
            old(self).has_room(node@),
        ensures
            old(self).ran(
                final(self),
                final(dice)@,
                result,
                evaluated(node@, old(self).session(old(dice)@), old(self).lunar_day),
            ),
            old(self).counted_within(final(self), weight(node@)),
        decreases node, 1nat,
    {
        match node {
            Node::Program(statements) => {
                if !holds(statements, Sought::Compliment) {
                    return Err(PubuError::NotEnoughCompliments);
                }
                if holds(statements, Sought::Function) && !holds(statements, Sought::Question) {
                    return Err(PubuError::PhilosophicalCrisis);
                }
                self.run_program(statements, dice)
            },
            Node::Compliment(text) => {
                self.env.add_compliment();
                self.notices.push(Notice::Appreciated(text.clone()));
                assert(notices_view(self.notices@) =~= notices_view(old(self).notices@).push(
                    NoticeView::Appreciated(text@),
                ));
                Ok(Value::String(text.clone()))
            },
            Node::PhilosophicalQuestion(text) => {
                self.env.add_philosophical_question();
                self.notices.push(Notice::Pondered(text.clone()));
                assert(notices_view(self.notices@) =~= notices_view(old(self).notices@).push(
                    NoticeView::Pondered(text@),
                ));
                Ok(Value::Whimsical(text.clone()))
            },
            Node::Number(n) => Ok(Value::Number(*n)),
            Node::String(s) => Ok(Value::String(s.clone())),
            Node::Boolean(b) => Ok(Value::Boolean(*b)),
            Node::LunarPhaseBlock(statements) => {
                if !lunar_compatible_on(self.lunar_day) {
                    return Err(PubuError::MoonPhaseIncompatible);
                }
                self.run_block(statements, dice)
            },
            Node::MoodBlock(tag, statements) => {
                match tag {
                    MoodType::Grumpy => {
                        if dice.below(GRUMPY_REFUSES_BELOW) {
                            return Err(PubuError::BadMood);
                        }
                    },
                    MoodType::Philosophical => {
                        if !holds(statements, Sought::Question) {
                            return Err(PubuError::PhilosophicalCrisis);
                        }
                    },
                    _ => {},
                }
                self.run_block(statements, dice)
            },
            Node::RealityDistortion(inner) => {
                let value = self.evaluate(inner, dice)?;
                Ok(value.distort(dice))
            },
            Node::RandomFailure => Err(PubuError::RandomFailure),
            _ => {
                self.notices.push(Notice::Pretended);
                if dice.below(CRITIQUE_BELOW) {
                    self.notices.push(Notice::CritiqueDue);
                    assert(notices_view(self.notices@) =~= notices_view(old(self).notices@).push(
                        NoticeView::Pretended,
                    ).push(NoticeView::CritiqueDue));
                } else {
                    assert(notices_view(self.notices@) =~= notices_view(old(self).notices@).push(
                        NoticeView::Pretended,
                    ));
                }
                Ok(Value::Null)
            },
        }
    }

    /// Runs the statements of a block, first to last.
    fn run_block(&mut self, statements: &Vec<Node>, dice: &mut Dice) -> (result: Result<
        Value,
        PubuError,
    >)
        requires
            old(self).env.compliment_count + weight_of_first(
                nodes_view(statements@),
                statements@.len(),
            ) <= usize::MAX,
            old(self).env.philosophical_question_count + weight_of_first(
                nodes_view(statements@),
                statements@.len(),
            ) <= usize::MAX,
        ensures
            old(self).ran(
                final(self),
                final(dice)@,
                result,
                block_run(
                    nodes_view(statements@),
                    statements@.len(),
                    old(self).session(old(dice)@),
                    old(self).lunar_day,
                ),
            ),
            old(self).counted_within(
                final(self),
                weight_of_first(nodes_view(statements@), statements@.len()),
            ),
        decreases statements, 0nat,
    {
        let ghost views = nodes_view(statements@);
        let ghost start = self.session(dice@);
        let ghost day = self.lunar_day;
        let ghost total = weight_of_first(views, statements@.len());
        let mut value = Value::Null;
        let mut at: usize = 0;
        while at < statements.len()
            invariant
                at <= statements@.len(),
                views == nodes_view(statements@),
                total == weight_of_first(views, statements@.len()),
                day == old(self).lunar_day,
                start == old(self).session(old(dice)@),
                old(self).ran(
                    self,
                    dice@,
                    Ok::<Value, PubuError>(value),
                    block_run(views, at as nat, start, day),
                ),
                old(self).counted_within(self, weight_of_first(views, at as nat)),
                old(self).env.compliment_count + total <= usize::MAX,
                old(self).env.philosophical_question_count + total <= usize::MAX,
            decreases statements@.len() - at,
        {
            proof {
                lemma_weight_grows(views, (at + 1) as nat, statements@.len());
                assert(views[at as int] == statements@[at as int]@);
            }
            match self.evaluate(&statements[at], dice) {
                Ok(next) => {
                    value = next;
                },
                Err(error) => {
                    proof {
                        lemma_block_failure_stays(
                            views,
                            (at + 1) as nat,
                            statements@.len(),
                            start,
                            day,
                        );
                    }
                    return Err(error);
                },
            }
            at = at + 1;
        }
        Ok(value)
    }

    /// Runs the statements of a program, first to last, with the draw that
    /// follows each.
    fn run_program(&mut self, statements: &Vec<Node>, dice: &mut Dice) -> (result: Result<
        Value,
        PubuError,
    >)
        requires
            old(self).env.compliment_count + weight_of_first(
                nodes_view(statements@),
                statements@.len(),
            ) <= usize::MAX,
            old(self).env.philosophical_question_count + weight_of_first(
                nodes_view(statements@),
                statements@.len(),
            ) <= usize::MAX,
        ensures
            old(self).ran(
                final(self),
                final(dice)@,
                result,
                program_run(
                    nodes_view(statements@),
                    statements@.len(),
                    old(self).session(old(dice)@),
                    old(self).lunar_day,
                ),
            ),
            old(self).counted_within(
                final(self),
                weight_of_first(nodes_view(statements@), statements@.len()),
            ),
        decreases statements, 0nat,
    {
        let ghost views = nodes_view(statements@);
        let ghost start = self.session(dice@);
        let ghost day = self.lunar_day;
        let ghost total = weight_of_first(views, statements@.len());
        let mut value = Value::Null;
        let mut at: usize = 0;
        while at < statements.len()
            invariant
                at <= statements@.len(),
                views == nodes_view(statements@),
                total == weight_of_first(views, statements@.len()),
                day == old(self).lunar_day,
                start == old(self).session(old(dice)@),
                old(self).ran(
                    self,
                    dice@,
                    Ok::<Value, PubuError>(value),
                    program_run(views, at as nat, start, day),
                ),
                old(self).counted_within(self, weight_of_first(views, at as nat)),
                old(self).env.compliment_count + total <= usize::MAX,
                old(self).env.philosophical_question_count + total <= usize::MAX,
            decreases statements@.len() - at,
        {
            proof {
                lemma_weight_grows(views, (at + 1) as nat, statements@.len());
                assert(views[at as int] == statements@[at as int]@);
            }
            match self.evaluate(&statements[at], dice) {
                Ok(next) => {
                    if dice.below(DISTORT_BELOW) {
                        value = next.distort(dice);
                    } else {
                        value = next;
                    }
                },
                Err(error) => {
                    proof {
                        lemma_program_failure_stays(
                            views,
                            (at + 1) as nat,
                            statements@.len(),
                            start,
                            day,
                        );
                    }
                    return Err(error);
                },
            }
            at = at + 1;
        }
        Ok(value)
    }
}

} // verus!
