use pubu::ast::{MoodType, Node, Operator, Value};
use pubu::chance::Dice;
use pubu::error::PubuError;
use pubu::interpreter::{has_compliment, lunar_compatible_on, Interpreter, Notice};
use pubu::number::Number;
use pubu::utils::is_lunar_phase_compatible;
use pubu::is_lunar_compatible;

fn compliment(text: &str) -> Node {
    Node::Compliment(text.to_string())
}

fn question(text: &str) -> Node {
    Node::PhilosophicalQuestion(text.to_string())
}

fn ten() -> Node {
    Node::Number(Number::from_integer(10))
}

fn function() -> Node {
    Node::FunctionDeclaration("f".to_string(), vec![], vec![])
}

#[test]
fn a_lone_compliment_is_its_text_and_is_counted() {
    let mut interpreter = Interpreter::on_day(0);
    let mut dice = Dice::steady();
    let program = Node::Program(vec![compliment("dear_pubu")]);
    let result = interpreter.evaluate(&program, &mut dice);
    assert_eq!(result, Ok(Value::String("dear_pubu".to_string())));
    assert_eq!(interpreter.env.compliment_count, 1);
    assert_eq!(interpreter.env.philosophical_question_count, 0);
    assert_eq!(interpreter.notices, vec![Notice::Appreciated("dear_pubu".to_string())]);
}

#[test]
fn a_lone_compliment_through_interpret() {
    let mut interpreter = Interpreter::on_day(0);
    let mut dice = Dice::scripted(vec![50, 100]);
    let result = interpreter.interpret(Node::Program(vec![compliment("dear_pubu")]), &mut dice);
    assert_eq!(result, Ok(Value::String("dear_pubu".to_string())));
    assert_eq!(interpreter.env.compliment_count, 1);
    assert_eq!(dice.remaining(), 0);
}

#[test]
fn interpret_fails_at_the_door_five_times_in_a_hundred() {
    let mut interpreter = Interpreter::on_day(0);
    let mut dice = Dice::scripted(vec![49, 500]);
    let result = interpreter.interpret(Node::Program(vec![compliment("dear_pubu")]), &mut dice);
    assert_eq!(result, Err(PubuError::RandomFailure));
    assert_eq!(interpreter.env.compliment_count, 0);
    assert_eq!(dice.remaining(), 1);
    assert!(interpreter.notices.is_empty());
}

#[test]
fn a_program_without_compliment_is_refused() {
    let mut interpreter = Interpreter::on_day(0);
    let mut dice = Dice::scripted(vec![1, 2, 3]);
    let program = Node::Program(vec![ten(), question("why?")]);
    assert_eq!(
        interpreter.evaluate(&program, &mut dice),
        Err(PubuError::NotEnoughCompliments)
    );
    assert_eq!(interpreter.env.philosophical_question_count, 0);
    assert_eq!(dice.remaining(), 3);
    let empty = Node::Program(vec![]);
    assert_eq!(interpreter.evaluate(&empty, &mut dice), Err(PubuError::NotEnoughCompliments));
}

#[test]
fn a_compliment_below_the_top_level_does_not_count_for_the_program() {
    let mut interpreter = Interpreter::on_day(0);
    let mut dice = Dice::steady();
    let program = Node::Program(vec![Node::MoodBlock(MoodType::Happy, vec![compliment("x")])]);
    assert_eq!(
        interpreter.evaluate(&program, &mut dice),
        Err(PubuError::NotEnoughCompliments)
    );
    assert_eq!(interpreter.env.compliment_count, 0);
}

#[test]
fn a_function_without_question_is_a_crisis() {
    let mut interpreter = Interpreter::on_day(0);
    let mut dice = Dice::steady();
    let program = Node::Program(vec![compliment("dear_pubu"), function()]);
    assert_eq!(
        interpreter.evaluate(&program, &mut dice),
        Err(PubuError::PhilosophicalCrisis)
    );
    assert_eq!(interpreter.env.compliment_count, 0);
    assert!(interpreter.notices.is_empty());
}

#[test]
fn a_function_with_question_runs() {
    let mut interpreter = Interpreter::on_day(0);
    let mut dice = Dice::steady();
    let program = Node::Program(vec![compliment("dear_pubu"), function(), question("why?")]);
    assert_eq!(
        interpreter.evaluate(&program, &mut dice),
        Ok(Value::Whimsical("why?".to_string()))
    );
    assert_eq!(interpreter.env.compliment_count, 1);
    assert_eq!(interpreter.env.philosophical_question_count, 1);
    assert_eq!(
        interpreter.notices,
        vec![
            Notice::Appreciated("dear_pubu".to_string()),
            Notice::Pretended,
            Notice::Pondered("why?".to_string()),
        ]
    );
}

#[test]
fn a_question_inside_a_block_does_not_excuse_a_function() {
    let mut interpreter = Interpreter::on_day(0);
    let mut dice = Dice::steady();
    let program = Node::Program(vec![
        compliment("dear_pubu"),
        function(),
        Node::MoodBlock(MoodType::Happy, vec![question("why?")]),
    ]);
    assert_eq!(
        interpreter.evaluate(&program, &mut dice),
        Err(PubuError::PhilosophicalCrisis)
    );
}

#[test]
fn the_missing_compliment_is_reported_before_the_missing_question() {
    let mut interpreter = Interpreter::on_day(0);
    let mut dice = Dice::steady();
    let program = Node::Program(vec![function()]);
    assert_eq!(
        interpreter.evaluate(&program, &mut dice),
        Err(PubuError::NotEnoughCompliments)
    );
}

#[test]
fn the_value_of_a_program_is_that_of_its_last_statement() {
    let mut interpreter = Interpreter::on_day(0);
    let mut dice = Dice::steady();
    let program = Node::Program(vec![compliment("dear_pubu"), Node::Boolean(true), ten()]);
    assert_eq!(
        interpreter.evaluate(&program, &mut dice),
        Ok(Value::Number(Number::from_integer(10)))
    );
}

#[test]
fn a_statement_is_distorted_one_time_in_ten() {
    let mut interpreter = Interpreter::on_day(0);
    let mut dice = Dice::scripted(vec![100, 99, 0]);
    let program = Node::Program(vec![compliment("dear_pubu"), ten()]);
    assert_eq!(
        interpreter.evaluate(&program, &mut dice),
        Ok(Value::Number(Number::from_integer(5)))
    );
    assert_eq!(dice.remaining(), 0);
}

#[test]
fn a_distorted_compliment_is_still_counted_as_written() {
    let mut interpreter = Interpreter::on_day(0);
    let mut dice = Dice::scripted(vec![0, 0]);
    let program = Node::Program(vec![compliment("abc")]);
    assert_eq!(interpreter.evaluate(&program, &mut dice), Ok(Value::String("cba".to_string())));
    assert_eq!(interpreter.notices, vec![Notice::Appreciated("abc".to_string())]);
    assert_eq!(interpreter.env.compliment_count, 1);
}

#[test]
fn an_error_ends_the_program_at_once() {
    let mut interpreter = Interpreter::on_day(0);
    let mut dice = Dice::steady();
    let program = Node::Program(vec![
        compliment("one"),
        Node::RandomFailure,
        compliment("two"),
    ]);
    assert_eq!(interpreter.evaluate(&program, &mut dice), Err(PubuError::RandomFailure));
    assert_eq!(interpreter.env.compliment_count, 1);
    assert_eq!(interpreter.notices, vec![Notice::Appreciated("one".to_string())]);
}

#[test]
fn random_failure_fails_whatever_the_draws() {
    for draw in [0u32, 49, 50, 199, 500, 999] {
        let mut interpreter = Interpreter::on_day(draw as u64);
        let mut dice = Dice::scripted(vec![draw, draw]);
        assert_eq!(
            interpreter.evaluate(&Node::RandomFailure, &mut dice),
            Err(PubuError::RandomFailure)
        );
        assert_eq!(dice.remaining(), 2);
    }
    let mut interpreter = Interpreter::on_day(0);
    let mut dice = Dice::steady();
    assert_eq!(
        interpreter.evaluate(&Node::RandomFailure, &mut dice),
        Err(PubuError::RandomFailure)
    );
}

#[test]
fn a_lunar_block_runs_at_full_moon() {
    let mut interpreter = Interpreter::on_day(15);
    let mut dice = Dice::steady();
    let block = Node::LunarPhaseBlock(vec![compliment("moon"), question("why?")]);
    assert_eq!(
        interpreter.evaluate(&block, &mut dice),
        Ok(Value::Whimsical("why?".to_string()))
    );
    assert_eq!(interpreter.env.compliment_count, 1);
    assert_eq!(interpreter.env.philosophical_question_count, 1);
}

#[test]
fn a_lunar_block_is_shut_on_other_days() {
    let mut interpreter = Interpreter::on_day(20);
    let mut dice = Dice::scripted(vec![7]);
    let block = Node::LunarPhaseBlock(vec![compliment("moon"), question("why?")]);
    assert_eq!(
        interpreter.evaluate(&block, &mut dice),
        Err(PubuError::MoonPhaseIncompatible)
    );
    assert_eq!(interpreter.env.compliment_count, 0);
    assert_eq!(interpreter.env.philosophical_question_count, 0);
    assert!(interpreter.notices.is_empty());
    assert_eq!(dice.remaining(), 1);
}

#[test]
fn an_empty_block_is_null() {
    let mut interpreter = Interpreter::on_day(13);
    let mut dice = Dice::steady();
    assert_eq!(interpreter.evaluate(&Node::LunarPhaseBlock(vec![]), &mut dice), Ok(Value::Null));
    assert_eq!(
        interpreter.evaluate(&Node::MoodBlock(MoodType::Sarcastic, vec![]), &mut dice),
        Ok(Value::Null)
    );
}

#[test]
fn the_moon_is_full_from_day_thirteen_to_seventeen() {
    assert!(!lunar_compatible_on(12));
    assert!(lunar_compatible_on(13));
    assert!(lunar_compatible_on(15));
    assert!(lunar_compatible_on(17));
    assert!(!lunar_compatible_on(18));
    assert!(!lunar_compatible_on(0));
    assert!(!lunar_compatible_on(29));
    assert!(!lunar_compatible_on(30));
    assert!(lunar_compatible_on(45));
    assert!(lunar_compatible_on(30 * 700 + 16));
    assert_eq!(is_lunar_compatible(), is_lunar_phase_compatible());
}

#[test]
fn a_grumpy_block_refuses_three_times_in_ten() {
    let block = Node::MoodBlock(MoodType::Grumpy, vec![compliment("fine")]);
    let mut interpreter = Interpreter::on_day(0);
    let mut dice = Dice::scripted(vec![299]);
    assert_eq!(interpreter.evaluate(&block, &mut dice), Err(PubuError::BadMood));
    assert_eq!(interpreter.env.compliment_count, 0);
    assert_eq!(dice.remaining(), 0);
    let mut dice = Dice::scripted(vec![300]);
    assert_eq!(interpreter.evaluate(&block, &mut dice), Ok(Value::String("fine".to_string())));
    assert_eq!(interpreter.env.compliment_count, 1);
}

#[test]
fn a_philosophical_block_needs_a_question_of_its_own() {
    let mut interpreter = Interpreter::on_day(0);
    let mut dice = Dice::steady();
    let without = Node::MoodBlock(MoodType::Philosophical, vec![compliment("deep")]);
    assert_eq!(interpreter.evaluate(&without, &mut dice), Err(PubuError::PhilosophicalCrisis));
    assert_eq!(interpreter.env.compliment_count, 0);
    let nested = Node::MoodBlock(
        MoodType::Philosophical,
        vec![Node::MoodBlock(MoodType::Happy, vec![question("why?")])],
    );
    assert_eq!(interpreter.evaluate(&nested, &mut dice), Err(PubuError::PhilosophicalCrisis));
    let with = Node::MoodBlock(MoodType::Philosophical, vec![question("why?"), compliment("deep")]);
    assert_eq!(interpreter.evaluate(&with, &mut dice), Ok(Value::String("deep".to_string())));
    assert_eq!(interpreter.env.philosophical_question_count, 1);
}

#[test]
fn the_other_moods_ask_for_nothing() {
    for tag in [MoodType::Happy, MoodType::Sarcastic, MoodType::Confused] {
        let mut interpreter = Interpreter::on_day(0);
        let mut dice = Dice::scripted(vec![0]);
        let block = Node::MoodBlock(tag, vec![Node::Boolean(false)]);
        assert_eq!(interpreter.evaluate(&block, &mut dice), Ok(Value::Boolean(false)));
        assert_eq!(dice.remaining(), 1);
    }
}

#[test]
fn a_reality_distortion_distorts_what_it_holds() {
    let mut interpreter = Interpreter::on_day(0);
    let mut dice = Dice::scripted(vec![0]);
    let node = Node::RealityDistortion(Box::new(ten()));
    assert_eq!(
        interpreter.evaluate(&node, &mut dice),
        Ok(Value::Number(Number::from_integer(5)))
    );
    let failing = Node::RealityDistortion(Box::new(Node::RandomFailure));
    assert_eq!(interpreter.evaluate(&failing, &mut dice), Err(PubuError::RandomFailure));
}

#[test]
fn literals_are_themselves() {
    let mut interpreter = Interpreter::on_day(0);
    let mut dice = Dice::scripted(vec![0]);
    assert_eq!(
        interpreter.evaluate(&Node::String("text".to_string()), &mut dice),
        Ok(Value::String("text".to_string()))
    );
    assert_eq!(interpreter.evaluate(&Node::Boolean(true), &mut dice), Ok(Value::Boolean(true)));
    assert_eq!(
        interpreter.evaluate(&Node::Number(Number::from_micros(-1)), &mut dice),
        Ok(Value::Number(Number::from_micros(-1)))
    );
    assert_eq!(dice.remaining(), 1);
    assert!(interpreter.notices.is_empty());
}

#[test]
fn nodes_without_a_rule_are_null_and_may_call_for_a_critique() {
    let nodes = vec![
        Node::Identifier("x".to_string()),
        Node::VariableDeclaration("x".to_string(), Box::new(ten())),
        Node::IfStatement(Box::new(Node::Boolean(true)), vec![compliment("never")], None),
        Node::Loop(vec![compliment("never")]),
        Node::FunctionDeclaration("f".to_string(), vec![], vec![]),
        Node::FunctionCall("f".to_string(), vec![]),
        Node::Return(None),
        Node::BinaryOp(Box::new(ten()), Operator::Add, Box::new(ten())),
        Node::UnaryOp(Operator::Subtract, Box::new(ten())),
        Node::Assignment("x".to_string(), Box::new(ten())),
    ];
    for node in nodes {
        let mut interpreter = Interpreter::on_day(0);
        let mut dice = Dice::scripted(vec![200, 199]);
        assert_eq!(interpreter.evaluate(&node, &mut dice), Ok(Value::Null));
        assert_eq!(interpreter.notices, vec![Notice::Pretended]);
        assert_eq!(interpreter.evaluate(&node, &mut dice), Ok(Value::Null));
        assert_eq!(
            interpreter.notices,
            vec![Notice::Pretended, Notice::Pretended, Notice::CritiqueDue]
        );
        assert_eq!(dice.remaining(), 0);
        assert_eq!(interpreter.env.compliment_count, 0);
        assert!(interpreter.env.variables.is_empty());
    }
}

#[test]
fn a_new_interpreter_has_done_nothing() {
    let interpreter = Interpreter::new();
    assert_eq!(interpreter.env.compliment_count, 0);
    assert_eq!(interpreter.env.philosophical_question_count, 0);
    assert!(interpreter.notices.is_empty());
    assert!(interpreter.env.parent.is_none());
    let fixed = Interpreter::on_day(77);
    assert_eq!(fixed.lunar_day, 77);
}

#[test]
fn counters_go_on_from_run_to_run() {
    let mut interpreter = Interpreter::on_day(0);
    let mut dice = Dice::steady();
    let program = Node::Program(vec![compliment("a"), compliment("b")]);
    assert!(interpreter.evaluate(&program, &mut dice).is_ok());
    assert!(interpreter.evaluate(&program, &mut dice).is_ok());
    assert_eq!(interpreter.env.compliment_count, 4);
}

#[test]
fn the_counters_have_room_unless_they_are_at_their_end() {
    let program = Node::Program(vec![
        compliment("a"),
        Node::MoodBlock(MoodType::Happy, vec![question("why?"), compliment("b")]),
        Node::RealityDistortion(Box::new(compliment("c"))),
        Node::Loop(vec![compliment("never")]),
    ]);
    let mut interpreter = Interpreter::on_day(0);
    assert!(interpreter.fits(&program));
    interpreter.env.compliment_count = usize::MAX - 4;
    assert!(interpreter.fits(&program));
    interpreter.env.compliment_count = usize::MAX - 3;
    assert!(!interpreter.fits(&program));
    interpreter.env.compliment_count = 0;
    interpreter.env.philosophical_question_count = usize::MAX - 3;
    assert!(!interpreter.fits(&program));
    interpreter.env.philosophical_question_count = usize::MAX;
    assert!(interpreter.fits(&ten()));
    assert!(!interpreter.fits(&question("why?")));
}

#[test]
fn compliments_are_found_among_statements() {
    assert!(has_compliment(&vec![ten(), compliment("a")]));
    assert!(!has_compliment(&vec![ten(), question("why?")]));
    assert!(!has_compliment(&vec![Node::Loop(vec![compliment("a")])]));
    assert!(!has_compliment(&vec![]));
}

#[test]
fn the_days_are_the_whole_days_of_the_seconds() {
    let before = pubu::clock::seconds_since_epoch();
    let days = pubu::clock::days_since_epoch();
    let after = pubu::clock::seconds_since_epoch();
    assert!(before / 86400 <= days && days <= after / 86400);
    assert!(days <= u64::MAX / pubu::clock::SECONDS_PER_DAY);
}

#[test]
fn a_new_interpreter_has_an_empty_environment_and_runs_today() {
    let before = pubu::clock::days_since_epoch();
    let interpreter = Interpreter::new();
    let after = pubu::clock::days_since_epoch();
    assert!(before <= interpreter.lunar_day && interpreter.lunar_day <= after);
    assert!(interpreter.env.variables.is_empty());
    assert!(interpreter.env.functions.is_empty());
    assert_eq!(interpreter.env.get("x"), None);
    let fixed = Interpreter::on_day(3);
    assert!(fixed.env.variables.is_empty());
    assert!(fixed.env.functions.is_empty());
}
