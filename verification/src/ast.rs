//! The syntax tree, the values of the language and the environment in which
//! programs run.

use crate::chance::{first_draw, later_draws, Dice, STEADY};
use crate::number::{
    clamp_unit_micros, lemma_scale_by_one, rendered_micros, scale_micros, Number, SCALE,
};
use vstd::string::StringExecFns;
use crate::text::reversed;
use vstd::prelude::*;

verus! {

/// The operators of expressions.
#[derive(Debug, Clone, Copy, PartialEq, Eq, Structural)]
pub enum Operator {
    Add,
    Subtract,
    Multiply,
    Divide,
    Equal,
    NotEqual,
    GreaterThan,
    LessThan,
    And,
    Or,
    Not,
}

/// The tag of a mood block. It decides which rule the block obeys when it is
/// evaluated.
#[derive(Debug, Clone, Copy, PartialEq, Eq, Structural)]
pub enum MoodType {
    Happy,
    Grumpy,
    Philosophical,
    Sarcastic,
    Confused,
}

/// A node of the syntax tree. The root of a tree is a `Program`.
#[derive(Debug, PartialEq)]
pub enum Node {
    Program(Vec<Node>),
    Number(Number),
    String(String),
    Boolean(bool),
    Identifier(String),
    VariableDeclaration(String, Box<Node>),
    IfStatement(Box<Node>, Vec<Node>, Option<Vec<Node>>),
    Loop(Vec<Node>),
    MoodBlock(MoodType, Vec<Node>),
    LunarPhaseBlock(Vec<Node>),
    FunctionDeclaration(String, Vec<String>, Vec<Node>),
    FunctionCall(String, Vec<Node>),
    Return(Option<Box<Node>>),
    Compliment(String),
    PhilosophicalQuestion(String),
    /// A node that fails whenever it is evaluated.
    RandomFailure,
    RealityDistortion(Box<Node>),
    BinaryOp(Box<Node>, Operator, Box<Node>),
    UnaryOp(Operator, Box<Node>),
    Assignment(String, Box<Node>),
}

/// What a [`Node`] is, with texts as sequences of characters and lists as
/// sequences.
pub enum NodeView {
    Program(Seq<NodeView>),
    Number(Number),
    String(Seq<char>),
    Boolean(bool),
    Identifier(Seq<char>),
    VariableDeclaration(Seq<char>, Box<NodeView>),
    IfStatement(Box<NodeView>, Seq<NodeView>, Option<Seq<NodeView>>),
    Loop(Seq<NodeView>),
    MoodBlock(MoodType, Seq<NodeView>),
    LunarPhaseBlock(Seq<NodeView>),
    FunctionDeclaration(Seq<char>, Seq<Seq<char>>, Seq<NodeView>),
    FunctionCall(Seq<char>, Seq<NodeView>),
    Return(Option<Box<NodeView>>),
    Compliment(Seq<char>),
    PhilosophicalQuestion(Seq<char>),
    RandomFailure,
    RealityDistortion(Box<NodeView>),
    BinaryOp(Box<NodeView>, Operator, Box<NodeView>),
    UnaryOp(Operator, Box<NodeView>),
    Assignment(Seq<char>, Box<NodeView>),
}

/// The texts of `names` as sequences of characters.
pub open spec fn names_view(names: Seq<String>) -> Seq<Seq<char>> {
    Seq::new(names.len(), |i: int| names[i]@)
}

/// What the node is.
pub open spec fn node_view(node: Node) -> NodeView
    decreases node,
{
    match node {
        Node::Program(statements) => NodeView::Program(nodes_view(statements@)),
        Node::Number(n) => NodeView::Number(n),
        Node::String(s) => NodeView::String(s@),
        Node::Boolean(b) => NodeView::Boolean(b),
        Node::Identifier(name) => NodeView::Identifier(name@),
        Node::VariableDeclaration(name, value) => NodeView::VariableDeclaration(
            name@,
            Box::new(node_view(*value)),
        ),
        Node::IfStatement(condition, then_branch, else_branch) => NodeView::IfStatement(
            Box::new(node_view(*condition)),
            nodes_view(then_branch@),
            match else_branch {
                Some(statements) => Some(nodes_view(statements@)),
                None => None,
            },
        ),
        Node::Loop(body) => NodeView::Loop(nodes_view(body@)),
        Node::MoodBlock(tag, body) => NodeView::MoodBlock(tag, nodes_view(body@)),
        Node::LunarPhaseBlock(body) => NodeView::LunarPhaseBlock(nodes_view(body@)),
        Node::FunctionDeclaration(name, params, body) => NodeView::FunctionDeclaration(
            name@,
            names_view(params@),
            nodes_view(body@),
        ),
        Node::FunctionCall(name, arguments) => NodeView::FunctionCall(
            name@,
            nodes_view(arguments@),
        ),
        Node::Return(value) => NodeView::Return(
            match value {
                Some(inner) => Some(Box::new(node_view(*inner))),
                None => None,
            },
        ),
        Node::Compliment(text) => NodeView::Compliment(text@),
        Node::PhilosophicalQuestion(text) => NodeView::PhilosophicalQuestion(text@),
        Node::RandomFailure => NodeView::RandomFailure,
        Node::RealityDistortion(inner) => NodeView::RealityDistortion(
            Box::new(node_view(*inner)),
        ),
        Node::BinaryOp(left, operator, right) => NodeView::BinaryOp(
            Box::new(node_view(*left)),
            operator,
            Box::new(node_view(*right)),
        ),
        Node::UnaryOp(operator, operand) => NodeView::UnaryOp(
            operator,
            Box::new(node_view(*operand)),
        ),
        Node::Assignment(name, value) => NodeView::Assignment(name@, Box::new(node_view(*value))),
    }
}

/// What each node of the list is.
pub open spec fn nodes_view(nodes: Seq<Node>) -> Seq<NodeView>
    decreases nodes,
{
    Seq::new(
        nodes.len(),
        |i: int|
            if 0 <= i < nodes.len() {
                node_view(nodes[i])
            } else {
                NodeView::RandomFailure
            },
    )
}

impl View for Node {
    type V = NodeView;

    open spec fn view(&self) -> NodeView {
        node_view(*self)
    }
}

/// A copy of each name.
fn clone_names(names: &Vec<String>) -> (copy: Vec<String>)
    ensures
        copy@ == names@,
{
    let mut copy: Vec<String> = Vec::new();
    let mut at: usize = 0;
    while at < names.len()
        invariant
            at <= names@.len(),
            copy@ == names@.take(at as int),
        decreases names@.len() - at,
    {
        copy.push(names[at].clone());
        assert(names@.take(at + 1) =~= names@.take(at as int).push(names@[at as int]));
        at = at + 1;
    }
    assert(names@.take(names@.len() as int) =~= names@);
    copy
}

/// A copy of the node and of all that hangs below it.
fn clone_node(node: &Node) -> (copy: Node)
    ensures
        copy@ == node@,
    decreases node,
{
    match node {
        Node::Program(statements) => Node::Program(clone_nodes(statements)),
        Node::Number(n) => Node::Number(*n),
        Node::String(s) => Node::String(s.clone()),
        Node::Boolean(b) => Node::Boolean(*b),
        Node::Identifier(name) => Node::Identifier(name.clone()),
        Node::VariableDeclaration(name, value) => Node::VariableDeclaration(
            name.clone(),
            Box::new(clone_node(value)),
        ),
        Node::IfStatement(condition, then_branch, else_branch) => {
            let otherwise = match else_branch {
                Some(statements) => Some(clone_nodes(statements)),
                None => None,
            };
            Node::IfStatement(
                Box::new(clone_node(condition)),
                clone_nodes(then_branch),
                otherwise,
            )
        },
        Node::Loop(body) => Node::Loop(clone_nodes(body)),
        Node::MoodBlock(tag, body) => Node::MoodBlock(*tag, clone_nodes(body)),
        Node::LunarPhaseBlock(body) => Node::LunarPhaseBlock(clone_nodes(body)),
        Node::FunctionDeclaration(name, params, body) => Node::FunctionDeclaration(
            name.clone(),
            clone_names(params),
            clone_nodes(body),
        ),
        Node::FunctionCall(name, arguments) => Node::FunctionCall(
            name.clone(),
            clone_nodes(arguments),
        ),
        Node::Return(value) => {
            let inner = match value {
                Some(inner) => Some(Box::new(clone_node(inner))),
                None => None,
            };
            Node::Return(inner)
        },
        Node::Compliment(text) => Node::Compliment(text.clone()),
        Node::PhilosophicalQuestion(text) => Node::PhilosophicalQuestion(text.clone()),
        Node::RandomFailure => Node::RandomFailure,
        Node::RealityDistortion(inner) => Node::RealityDistortion(Box::new(clone_node(inner))),
        Node::BinaryOp(left, operator, right) => Node::BinaryOp(
            Box::new(clone_node(left)),
            *operator,
            Box::new(clone_node(right)),
        ),
        Node::UnaryOp(operator, operand) => Node::UnaryOp(
            *operator,
            Box::new(clone_node(operand)),
        ),
        Node::Assignment(name, value) => Node::Assignment(
            name.clone(),
            Box::new(clone_node(value)),
        ),
    }
}

/// A copy of each node of the list.
fn clone_nodes(nodes: &Vec<Node>) -> (copy: Vec<Node>)
    ensures
        nodes_view(copy@) == nodes_view(nodes@),
    decreases nodes,
{
    let mut copy: Vec<Node> = Vec::new();
    let mut at: usize = 0;
    while at < nodes.len()
        invariant
            at <= nodes@.len(),
            copy@.len() == at,
            forall|i: int| 0 <= i < at ==> (#[trigger] copy@[i])@ == nodes@[i]@,
        decreases nodes@.len() - at,
    {
        copy.push(clone_node(&nodes[at]));
        at = at + 1;
    }
    assert(nodes_view(copy@) =~= nodes_view(nodes@));
    copy
}

impl Clone for Node {
    fn clone(&self) -> (copy: Self)
        ensures
            copy@ == self@,
    {
        clone_node(self)
    }
}

/// A function of the language: the names of its parameters and its body.
#[derive(Debug, PartialEq)]
pub struct Function {
    pub params: Vec<String>,
    pub body: Vec<Node>,
}

/// What a [`Function`] is.
pub struct FunctionView {
    pub params: Seq<Seq<char>>,
    pub body: Seq<NodeView>,
}

impl View for Function {
    type V = FunctionView;

    open spec fn view(&self) -> FunctionView {
        FunctionView { params: names_view(self.params@), body: nodes_view(self.body@) }
    }
}

impl Clone for Function {
    fn clone(&self) -> (copy: Self)
        ensures
            copy@ == self@,
    {
        Function { params: clone_names(&self.params), body: clone_nodes(&self.body) }
    }
}

/// A value of the language.
#[derive(Debug, PartialEq)]
pub enum Value {
    Number(Number),
    String(String),
    Boolean(bool),
    Function(Function),
    Null,
    /// A value with a confidence between zero and one.
    Uncertain(Box<Value>, Number),
    /// A value in two states at once.
    Schrodinger(Box<Value>, Box<Value>),
    /// A value that defies definition but pretends to have meaning.
    Whimsical(String),
}

/// What a [`Value`] is.
pub enum ValueView {
    Number(Number),
    String(Seq<char>),
    Boolean(bool),
    Function(FunctionView),
    Null,
    Uncertain(Box<ValueView>, Number),
    Schrodinger(Box<ValueView>, Box<ValueView>),
    Whimsical(Seq<char>),
}

/// What the value is.
pub open spec fn value_view(value: Value) -> ValueView
    decreases value,
{
    match value {
        Value::Number(n) => ValueView::Number(n),
        Value::String(s) => ValueView::String(s@),
        Value::Boolean(b) => ValueView::Boolean(b),
        Value::Function(f) => ValueView::Function(f@),
        Value::Null => ValueView::Null,
        Value::Uncertain(inner, confidence) => ValueView::Uncertain(
            Box::new(value_view(*inner)),
            confidence,
        ),
        Value::Schrodinger(first, second) => ValueView::Schrodinger(
            Box::new(value_view(*first)),
            Box::new(value_view(*second)),
        ),
        Value::Whimsical(text) => ValueView::Whimsical(text@),
    }
}

impl View for Value {
    type V = ValueView;

    open spec fn view(&self) -> ValueView {
        value_view(*self)
    }
}

/// A copy of the value and of all that it holds.
fn clone_value(value: &Value) -> (copy: Value)
    ensures
        copy@ == value@,
    decreases value,
{
    match value {
        Value::Number(n) => Value::Number(*n),
        Value::String(s) => Value::String(s.clone()),
        Value::Boolean(b) => Value::Boolean(*b),
        Value::Function(f) => Value::Function(f.clone()),
        Value::Null => Value::Null,
        Value::Uncertain(inner, confidence) => Value::Uncertain(
            Box::new(clone_value(inner)),
            *confidence,
        ),
        Value::Schrodinger(first, second) => Value::Schrodinger(
            Box::new(clone_value(first)),
            Box::new(clone_value(second)),
        ),
        Value::Whimsical(text) => Value::Whimsical(text.clone()),
    }
}

impl Clone for Value {
    fn clone(&self) -> (copy: Self)
        ensures
            copy@ == self@,
    {
        clone_value(self)
    }
}

/// The least draw that leaves a text as it is: three draws in ten turn it
/// round.
pub const REVERSE_BELOW: u32 = 300;

/// The least draw that leaves a truth value as it is: two draws in ten negate
/// it.
pub const NEGATE_BELOW: u32 = 200;

/// The least draw that leaves the two states in their places: one draw in
/// two swaps them.
pub const SWAP_BELOW: u32 = 500;

/// The factor, in thousandths, by which `draw` scales a number: from one half
/// (the least draw) to just under one and a half.
pub open spec fn distortion_factor(draw: u32) -> int {
    500 + draw
}

/// What `value` becomes under reality distortion when `draws` are to come.
///
/// A number is multiplied by the factor of the next draw, and so is the
/// confidence of an uncertain value, which is then held between zero and
/// one. A text is turned round, a truth value negated, the two states of a
/// Schrodinger value swapped, each if the next draw is below its threshold.
/// All other values stay as they are.
pub open spec fn distorted(value: ValueView, draws: Seq<u32>) -> ValueView {
    let draw = first_draw(draws);
    match value {
        ValueView::Number(n) => ValueView::Number(
            Number { micros: scale_micros(n.micros as int, distortion_factor(draw)) as i64 },
        ),
        ValueView::String(s) => if draw < REVERSE_BELOW {
            ValueView::String(s.reverse())
        } else {
            value
        },
        ValueView::Boolean(b) => if draw < NEGATE_BELOW {
            ValueView::Boolean(!b)
        } else {
            value
        },
        ValueView::Uncertain(inner, confidence) => ValueView::Uncertain(
            inner,
            Number {
                micros: clamp_unit_micros(
                    scale_micros(confidence.micros as int, distortion_factor(draw)),
                ) as i64,
            },
        ),
        ValueView::Schrodinger(first, second) => if draw < SWAP_BELOW {
            ValueView::Schrodinger(second, first)
        } else {
            value
        },
        _ => value,
    }
}

/// Whether distorting `value` takes a draw.
pub open spec fn distortion_draws(value: ValueView) -> bool {
    match value {
        ValueView::Function(_) | ValueView::Null | ValueView::Whimsical(_) => false,
        _ => true,
    }
}

/// The draws to come after `value` was distorted with `draws` to come.
pub open spec fn draws_after_distortion(value: ValueView, draws: Seq<u32>) -> Seq<u32> {
    if distortion_draws(value) {
        later_draws(draws)
    } else {
        draws
    }
}

/// A value whose numbers distortion can hold exactly: a number has a
/// negation, a confidence lies between zero and one.
pub open spec fn regular(value: ValueView) -> bool {
    match value {
        ValueView::Number(n) => n.micros > i64::MIN,
        ValueView::Uncertain(_, confidence) => 0 <= confidence.micros <= SCALE,
        _ => true,
    }
}

/// A draw in the middle of the range, which is also the draw of a source
/// that has run out, distorts nothing.
pub proof fn lemma_steady_draw_distorts_nothing(value: ValueView, draws: Seq<u32>)
    requires
        first_draw(draws) == STEADY,
        regular(value),
    ensures
        distorted(value, draws) == value,
{
    match value {
        ValueView::Number(n) => {
            lemma_scale_by_one(n.micros as int);
        },
        ValueView::Uncertain(_, confidence) => {
            lemma_scale_by_one(confidence.micros as int);
        },
        _ => {},
    }
}

/// The least draw halves a number.
pub proof fn lemma_least_draw_halves(n: Number, draws: Seq<u32>)
    requires
        first_draw(draws) == 0,
        n.micros >= 0,
    ensures
        distorted(ValueView::Number(n), draws) == ValueView::Number(
            Number { micros: (n.micros / 2) as i64 },
        ),
{
    let m = n.micros as int;
    assert(m * 500 / 1000 == m / 2) by (nonlinear_arith)
        requires
            m >= 0,
    ;
}

/// After distortion a confidence lies between zero and one, whatever it was
/// and whatever the draw.
pub proof fn lemma_confidence_stays_in_unit(
    inner: ValueView,
    confidence: Number,
    draws: Seq<u32>,
)
    ensures
        match distorted(ValueView::Uncertain(Box::new(inner), confidence), draws) {
            ValueView::Uncertain(held, after) => *held == inner && 0 <= after.micros <= SCALE,
            _ => false,
        },
{
}

/// Distortion keeps both states of a Schrodinger value: it swaps them on a
/// draw below [`SWAP_BELOW`] and leaves them in place on every other draw.
pub proof fn lemma_schrodinger_never_collapses(
    first: ValueView,
    second: ValueView,
    draws: Seq<u32>,
)
    ensures
        distorted(ValueView::Schrodinger(Box::new(first), Box::new(second)), draws) == (
        if first_draw(draws) < SWAP_BELOW {
            ValueView::Schrodinger(Box::new(second), Box::new(first))
        } else {
            ValueView::Schrodinger(Box::new(first), Box::new(second))
        }),
{
}

/// Two swaps in a row give back the value, and a distortion that does not
/// swap can be repeated without effect.
pub proof fn lemma_schrodinger_round_trip(
    first: ValueView,
    second: ValueView,
    draws: Seq<u32>,
    again: Seq<u32>,
)
    requires
        (first_draw(draws) < SWAP_BELOW) == (first_draw(again) < SWAP_BELOW),
    ensures
        ({
            let value = ValueView::Schrodinger(Box::new(first), Box::new(second));
            if first_draw(draws) < SWAP_BELOW {
                distorted(distorted(value, draws), again) == value
            } else {
                distorted(distorted(value, draws), again) == distorted(value, draws)
            }
        }),
{
}

impl Value {
    /// Apply reality distortion to the value. The value itself stays as it
    /// is; the result is a new value.
    pub fn distort(&self, dice: &mut Dice) -> (result: Value)
        ensures
            result@ == distorted(self@, old(dice)@),
            final(dice)@ == draws_after_distortion(self@, old(dice)@),
    {
        match self {
            Value::Number(n) => {
                let draw = dice.roll();
                Value::Number(n.scaled(500 + draw))
            },
            Value::String(s) => {
                if dice.below(REVERSE_BELOW) {
                    Value::String(reversed(s.as_str()))
                } else {
                    Value::String(s.clone())
                }
            },
            Value::Boolean(b) => {
                if dice.below(NEGATE_BELOW) {
                    Value::Boolean(!*b)
                } else {
                    Value::Boolean(*b)
                }
            },
            Value::Uncertain(inner, confidence) => {
                let draw = dice.roll();
                Value::Uncertain(
                    Box::new(clone_value(inner)),
                    confidence.scaled(500 + draw).clamp_unit(),
                )
            },
            Value::Schrodinger(first, second) => {
                if dice.below(SWAP_BELOW) {
                    Value::Schrodinger(Box::new(clone_value(second)), Box::new(clone_value(first)))
                } else {
                    Value::Schrodinger(Box::new(clone_value(first)), Box::new(clone_value(second)))
                }
            },
            _ => clone_value(self),
        }
    }
}

/// No name is bound twice in `entries`.
pub open spec fn names_distinct<V>(entries: Seq<(String, V)>) -> bool {
    forall|i: int, j: int|
        0 <= i < j < entries.len() ==> (#[trigger] entries[i]).0@ != (#[trigger] entries[j]).0@
}

/// `name` is bound in `entries`.
pub open spec fn has_name<V>(entries: Seq<(String, V)>, name: Seq<char>) -> bool {
    exists|i: int| 0 <= i < entries.len() && (#[trigger] entries[i]).0@ == name
}

/// Where `name` is bound in `entries`, if it is bound there.
pub open spec fn slot_of<V>(entries: Seq<(String, V)>, name: Seq<char>) -> int {
    choose|i: int| 0 <= i < entries.len() && (#[trigger] entries[i]).0@ == name
}

/// Where names are distinct, a name is bound at one place only.
proof fn lemma_slot_unique<V>(entries: Seq<(String, V)>, at: int)
    requires
        names_distinct(entries),
        0 <= at < entries.len(),
    ensures
        has_name(entries, entries[at].0@),
        slot_of(entries, entries[at].0@) == at,
{
    let name = entries[at].0@;
    let found = slot_of(entries, name);
    assert(0 <= found < entries.len() && entries[found].0@ == name);
    if found < at {
        assert(entries[found].0@ != entries[at].0@);
    } else if at < found {
        assert(entries[at].0@ != entries[found].0@);
    }
}

/// The place at which `name` is bound in `entries`.
fn find<V>(entries: &Vec<(String, V)>, name: &str) -> (at: Option<usize>)
    ensures
        match at {
            Some(i) => i < entries@.len() && entries@[i as int].0@ == name@,
            None => !has_name(entries@, name@),
        },
{
    let wanted = name.to_owned();
    let mut i: usize = 0;
    while i < entries.len()
        invariant
            i <= entries@.len(),
            wanted@ == name@,
            forall|k: int| 0 <= k < i ==> (#[trigger] entries@[k]).0@ != name@,
        decreases entries@.len() - i,
    {
        if entries[i].0 == wanted {
            return Some(i);
        }
        i = i + 1;
    }
    None
}

/// Binds `name` to `value` in `entries`: in place of an earlier binding of
/// `name`, or else at the end.
fn bind<V>(entries: &mut Vec<(String, V)>, name: &str, value: V)
    requires
        names_distinct(old(entries)@),
    ensures
        names_distinct(final(entries)@),
        forall|n: Seq<char>|
            has_name(final(entries)@, n) <==> (n == name@ || has_name(old(entries)@, n)),
        forall|n: Seq<char>|
            has_name(final(entries)@, n) ==> final(entries)@[slot_of(final(entries)@, n)].1 == (
            if n == name@ {
                value
            } else {
                old(entries)@[slot_of(old(entries)@, n)].1
            }),
{
    let ghost before = entries@;
    match find(entries, name) {
        Some(at) => {
            entries.set(at, (name.to_owned(), value));
            proof {
                let after = entries@;
                assert forall|i: int, j: int| 0 <= i < j < after.len() implies (
                #[trigger] after[i]).0@ != (#[trigger] after[j]).0@ by {
                    assert(before[i].0@ != before[j].0@);
                }
                assert forall|n: Seq<char>|
                    has_name(after, n) <==> (n == name@ || has_name(before, n)) by {
                    if has_name(after, n) {
                        let i = slot_of(after, n);
                        assert(before[i].0@ == n);
                    }
                    if has_name(before, n) {
                        let i = slot_of(before, n);
                        assert(after[i].0@ == n);
                    }
                    if n == name@ {
                        assert(after[at as int].0@ == n);
                    }
                }
                assert forall|n: Seq<char>| has_name(after, n) implies after[slot_of(after, n)].1
                    == (if n == name@ {
                    value
                } else {
                    before[slot_of(before, n)].1
                }) by {
                    let i = slot_of(after, n);
                    lemma_slot_unique(after, i);
                    assert(before[i].0@ == n);
                    lemma_slot_unique(before, i);
                    if n == name@ {
                        lemma_slot_unique(after, at as int);
                    }
                }
            }
        },
        None => {
            entries.push((name.to_owned(), value));
            proof {
                let after = entries@;
                let last = before.len() as int;
                assert forall|i: int, j: int| 0 <= i < j < after.len() implies (
                #[trigger] after[i]).0@ != (#[trigger] after[j]).0@ by {
                    if j < last {
                        assert(before[i].0@ != before[j].0@);
                    } else {
                        assert(before[i].0@ != name@);
                    }
                }
                assert forall|n: Seq<char>|
                    has_name(after, n) <==> (n == name@ || has_name(before, n)) by {
                    if has_name(after, n) {
                        let i = slot_of(after, n);
                        if i < last {
                            assert(before[i].0@ == n);
                        }
                    }
                    if has_name(before, n) {
                        let i = slot_of(before, n);
                        assert(after[i].0@ == n);
                    }
                    if n == name@ {
                        assert(after[last].0@ == n);
                    }
                }
                assert forall|n: Seq<char>| has_name(after, n) implies after[slot_of(after, n)].1
                    == (if n == name@ {
                    value
                } else {
                    before[slot_of(before, n)].1
                }) by {
                    let i = slot_of(after, n);
                    lemma_slot_unique(after, i);
                    if n == name@ {
                        lemma_slot_unique(after, last);
                    } else {
                        assert(before[i].0@ == n);
                        lemma_slot_unique(before, i);
                    }
                }
            }
        },
    }
}

/// The frames in which programs run: the variables and the functions of the
/// current frame, the frame around it, and two counters.
///
/// Each name is bound at most once in a frame. A frame is looked up before
/// the frames around it, and only the current frame is ever written.
pub struct Environment {
    pub variables: Vec<(String, Value)>,
    pub functions: Vec<(String, Function)>,
    pub parent: Option<Box<Environment>>,
    pub compliment_count: usize,
    pub philosophical_question_count: usize,
}

impl Environment {
    /// In every frame, each name is bound at most once.
    pub open spec fn well_formed(&self) -> bool
        decreases self,
    {
        &&& names_distinct(self.variables@)
        &&& names_distinct(self.functions@)
        &&& match self.parent {
            Some(parent) => parent.well_formed(),
            None => true,
        }
    }

    /// The variables of the current frame.
    pub open spec fn bound(&self) -> Map<Seq<char>, ValueView> {
        Map::new(
            |name: Seq<char>| has_name(self.variables@, name),
            |name: Seq<char>| self.variables@[slot_of(self.variables@, name)].1@,
        )
    }

    /// The functions of the current frame.
    pub open spec fn defined(&self) -> Map<Seq<char>, FunctionView> {
        Map::new(
            |name: Seq<char>| has_name(self.functions@, name),
            |name: Seq<char>| self.functions@[slot_of(self.functions@, name)].1@,
        )
    }

    /// The value of `name` in the nearest frame that binds it.
    pub open spec fn lookup(&self, name: Seq<char>) -> Option<ValueView>
        decreases self,
    {
        if self.bound().dom().contains(name) {
            Some(self.bound()[name])
        } else {
            match self.parent {
                Some(parent) => parent.lookup(name),
                None => None,
            }
        }
    }

    /// The function `name` in the nearest frame that defines it.
    pub open spec fn lookup_function(&self, name: Seq<char>) -> Option<FunctionView>
        decreases self,
    {
        if self.defined().dom().contains(name) {
            Some(self.defined()[name])
        } else {
            match self.parent {
                Some(parent) => parent.lookup_function(name),
                None => None,
            }
        }
    }

    /// An empty frame with no frame around it.
    pub fn new() -> (env: Self)
        ensures
            env.well_formed(),
            env.bound() == Map::<Seq<char>, ValueView>::empty(),
            env.defined() == Map::<Seq<char>, FunctionView>::empty(),
            env.parent is None,
            env.compliment_count == 0,
            env.philosophical_question_count == 0,
    {
        let env = Self {
            variables: Vec::new(),
            functions: Vec::new(),
            parent: None,
            compliment_count: 0,
            philosophical_question_count: 0,
        };
        assert(env.bound() =~= Map::<Seq<char>, ValueView>::empty());
        assert(env.defined() =~= Map::<Seq<char>, FunctionView>::empty());
        env
    }

    /// An empty frame inside `parent`. Its counters start at zero.
    pub fn with_parent(parent: Environment) -> (env: Self)
        ensures
            parent.well_formed() ==> env.well_formed(),
            env.bound() == Map::<Seq<char>, ValueView>::empty(),
            env.defined() == Map::<Seq<char>, FunctionView>::empty(),
            env.parent == Some(Box::new(parent)),
            env.compliment_count == 0,
            env.philosophical_question_count == 0,
    {
        let env = Self {
            variables: Vec::new(),
            functions: Vec::new(),
            parent: Some(Box::new(parent)),
            compliment_count: 0,
            philosophical_question_count: 0,
        };
        assert(env.bound() =~= Map::<Seq<char>, ValueView>::empty());
        assert(env.defined() =~= Map::<Seq<char>, FunctionView>::empty());
        env
    }

    /// The value of `name` in the nearest frame that binds it.
    pub fn get(&self, name: &str) -> (value: Option<Value>)
        requires
            self.well_formed(),
        ensures
            match value {
                Some(v) => self.lookup(name@) == Some(v@),
                None => self.lookup(name@) is None,
            },
        decreases self,
    {
        match find(&self.variables, name) {
            Some(at) => {
                proof {
                    lemma_slot_unique(self.variables@, at as int);
                }
                Some(self.variables[at].1.clone())
            },
            None => match &self.parent {
                Some(parent) => parent.get(name),
                None => None,
            },
        }
    }

    /// Binds `name` to `value` in the current frame. An earlier binding of
    /// `name` in this frame is replaced; the frames around stay as they are.
    pub fn set(&mut self, name: &str, value: Value)
        requires
            old(self).well_formed(),
        ensures
            final(self).well_formed(),
            final(self).bound() == old(self).bound().insert(name@, value@),
            final(self).functions == old(self).functions,
            final(self).parent == old(self).parent,
            final(self).compliment_count == old(self).compliment_count,
            final(self).philosophical_question_count == old(self).philosophical_question_count,
    {
        bind(&mut self.variables, name, value);
        assert(self.bound() =~= old(self).bound().insert(name@, value@));
    }

    /// Defines the function `name` in the current frame. An earlier
    /// definition of `name` in this frame is replaced.
    pub fn define_function(&mut self, name: &str, params: Vec<String>, body: Vec<Node>)
        requires
            old(self).well_formed(),
        ensures
            final(self).well_formed(),
            final(self).defined() == old(self).defined().insert(
                name@,
                FunctionView { params: names_view(params@), body: nodes_view(body@) },
            ),
            final(self).variables == old(self).variables,
            final(self).parent == old(self).parent,
            final(self).compliment_count == old(self).compliment_count,
            final(self).philosophical_question_count == old(self).philosophical_question_count,
    {
        bind(&mut self.functions, name, Function { params, body });
        assert(self.defined() =~= old(self).defined().insert(
            name@,
            FunctionView { params: names_view(params@), body: nodes_view(body@) },
        ));
    }

    /// The function `name` in the nearest frame that defines it.
    pub fn get_function(&self, name: &str) -> (function: Option<Function>)
        requires
            self.well_formed(),
        ensures
            match function {
                Some(f) => self.lookup_function(name@) == Some(f@),
                None => self.lookup_function(name@) is None,
            },
        decreases self,
    {
        match find(&self.functions, name) {
            Some(at) => {
                proof {
                    lemma_slot_unique(self.functions@, at as int);
                }
                Some(self.functions[at].1.clone())
            },
            None => match &self.parent {
                Some(parent) => parent.get_function(name),
                None => None,
            },
        }
    }

    /// Counts one more compliment.
    pub fn add_compliment(&mut self)
        requires
            old(self).compliment_count < usize::MAX,
        ensures
            *final(self) == (Environment {
                compliment_count: (old(self).compliment_count + 1) as usize,
                ..*old(self)
            }),
    {
        self.compliment_count += 1;
    }

    /// Counts one more philosophical question.
    pub fn add_philosophical_question(&mut self)
        requires
            old(self).philosophical_question_count < usize::MAX,
        ensures
            *final(self) == (Environment {
                philosophical_question_count: (old(self).philosophical_question_count
                    + 1) as usize,
                ..*old(self)
            }),
    {
        self.philosophical_question_count += 1;
    }
}

/// How a value is written.
///
/// A number is written as [`rendered_micros`] says, a text and a whimsical
/// value as they are, a truth value as `true` or `false`, a function as
/// `<function>`, null as `null`, an uncertain value with its confidence
/// after it, and a Schrodinger value as its two states with a bar between.
pub open spec fn rendered(value: ValueView) -> Seq<char>
    decreases value,
{
    match value {
        ValueView::Number(n) => rendered_micros(n.micros as int),
        ValueView::String(s) => s,
        ValueView::Boolean(b) => if b {
            "true"@
        } else {
            "false"@
        },
        ValueView::Function(_) => "<function>"@,
        ValueView::Null => "null"@,
        ValueView::Uncertain(inner, confidence) => rendered(*inner) + " (confidence "@
            + rendered_micros(confidence.micros as int) + ")"@,
        ValueView::Schrodinger(first, second) => rendered(*first) + " | "@ + rendered(*second),
        ValueView::Whimsical(text) => text,
    }
}

impl Value {
    /// Writes this value at the end of `text`.
    pub fn render_into(&self, text: &mut String)
        ensures
            final(text)@ == old(text)@ + rendered(self@),
        decreases self,
    {
        match self {
            Value::Number(n) => {
                n.render_into(text);
            },
            Value::String(s) => {
                text.append(s.as_str());
            },
            Value::Boolean(b) => {
                if *b {
                    text.append("true");
                } else {
                    text.append("false");
                }
            },
            Value::Function(_) => {
                text.append("<function>");
            },
            Value::Null => {
                text.append("null");
            },
            Value::Uncertain(inner, confidence) => {
                inner.render_into(text);
                text.append(" (confidence ");
                confidence.render_into(text);
                text.append(")");
                assert(text@ =~= old(text)@ + rendered(self@));
            },
            Value::Schrodinger(first, second) => {
                first.render_into(text);
                text.append(" | ");
                second.render_into(text);
                assert(text@ =~= old(text)@ + rendered(self@));
            },
            Value::Whimsical(words) => {
                text.append(words.as_str());
            },
        }
    }

    /// This value in writing.
    pub fn render(&self) -> (text: String)
        ensures
            text@ == rendered(self@),
    {
        let mut text = String::new();
        self.render_into(&mut text);
        assert(Seq::<char>::empty() + rendered(self@) =~= rendered(self@));
        text
    }
}

} // verus!
