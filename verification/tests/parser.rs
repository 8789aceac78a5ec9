use pubu::ast::{MoodType, Node, Operator};
use pubu::chance::Dice;
use pubu::error::PubuError;
use pubu::lexer::{Lexer, Token, TokenType};
use pubu::mood::Mood;
use pubu::number::Number;
use pubu::parser::Parser;

fn tokens(source: &str, mood: Mood) -> Vec<Token> {
    Lexer::new(source.to_string(), mood).scan_tokens(&mut Dice::steady()).unwrap()
}

fn parse_with(source: &str, mood: Mood, draws: Vec<u32>) -> Result<Node, PubuError> {
    Parser::new(tokens(source, mood), mood).parse(&mut Dice::scripted(draws))
}

fn parse(source: &str) -> Result<Node, PubuError> {
    parse_with(source, Mood::Happy, vec![])
}

/// The statements of `source` after the compliment that opens it.
fn statements(source: &str) -> Vec<Node> {
    let text = format!("dear_pubu; {}", source);
    match parse(&text) {
        Ok(Node::Program(mut nodes)) => {
            assert_eq!(nodes.remove(0), Node::Compliment("dear_pubu".to_string()));
            nodes
        }
        other => panic!("no program: {:?}", other),
    }
}

fn error(source: &str) -> PubuError {
    let text = format!("dear_pubu; {}", source);
    match parse(&text) {
        Err(error) => error,
        Ok(node) => panic!("parsed: {:?}", node),
    }
}

fn number(whole: i32) -> Node {
    Node::Number(Number::from_integer(whole))
}

fn name(text: &str) -> Node {
    Node::Identifier(text.to_string())
}

fn binary(left: Node, operator: Operator, right: Node) -> Node {
    Node::BinaryOp(Box::new(left), operator, Box::new(right))
}

#[test]
fn a_compliment_is_a_program() {
    assert_eq!(
        parse("dear_pubu_you_look_gorgeous_today;"),
        Ok(Node::Program(vec![Node::Compliment(
            "dear_pubu_you_look_gorgeous_today".to_string()
        )]))
    );
    assert_eq!(
        parse("gorgeous amazing"),
        Ok(Node::Program(vec![
            Node::Compliment("gorgeous".to_string()),
            Node::Compliment("amazing".to_string())
        ]))
    );
}

#[test]
fn a_text_without_compliment_keyword_is_refused() {
    for source in ["", "yay x is 5;", "why?", "1 plus 2;", "happy { x; }", "smart;", "not_bad"] {
        assert_eq!(parse(source), Err(PubuError::NotEnoughCompliments));
        assert_eq!(
            parse_with(source, Mood::Happy, vec![999; 40]),
            Err(PubuError::NotEnoughCompliments)
        );
        assert_eq!(
            parse_with(source, Mood::Happy, vec![20; 40]),
            Err(PubuError::NotEnoughCompliments)
        );
    }
    for mood in [Mood::Grumpy, Mood::Philosophical, Mood::Sarcastic, Mood::Confused] {
        assert_eq!(parse_with("x;", mood, vec![]), Err(PubuError::NotEnoughCompliments));
        assert_eq!(
            parse_with("dear_pubu_you_look_gorgeous_today;", mood, vec![]),
            Err(PubuError::NotEnoughCompliments)
        );
    }
}

#[test]
fn a_text_without_compliment_is_refused_for_that_whatever_else_is_wrong() {
    for source in ["x", "yay x;", "}", "(", "perhaps", "f(1,", "1 plus;", "yay", "x is", "done"] {
        assert_eq!(parse(source), Err(PubuError::NotEnoughCompliments));
        assert_eq!(
            parse_with(source, Mood::Happy, vec![20; 40]),
            Err(PubuError::NotEnoughCompliments)
        );
    }
    let identifier = Token::new(TokenType::Identifier("x".to_string()), "x".to_string(), 1);
    let end = Token::new(TokenType::EOF, String::new(), 1);
    let mut parser = Parser::new(vec![identifier, end], Mood::Happy);
    assert!(!parser.holds_compliment_token());
    assert_eq!(parser.parse(&mut Dice::steady()), Err(PubuError::NotEnoughCompliments));
}

#[test]
fn only_a_crisis_comes_before_the_missing_compliment() {
    assert_eq!(parse_with("x", Mood::Happy, vec![19]), Err(PubuError::PhilosophicalCrisis));
    assert_eq!(parse_with("x", Mood::Happy, vec![20]), Err(PubuError::NotEnoughCompliments));
    assert_eq!(
        parse_with("x; yay;", Mood::Happy, vec![20, 100, 19]),
        Err(PubuError::PhilosophicalCrisis)
    );
    assert_eq!(
        parse_with("x; yay;", Mood::Happy, vec![20, 100, 20]),
        Err(PubuError::NotEnoughCompliments)
    );
}

#[test]
fn a_text_with_a_compliment_token_reports_its_syntax_error() {
    assert_eq!(parse("gorgeous; yay x;"), Err(PubuError::SyntaxError));
    assert_eq!(parse("yay x; gorgeous;"), Err(PubuError::SyntaxError));
    assert_eq!(parse("happy { gorgeous; "), Err(PubuError::SyntaxError));
    assert_eq!(parse("} gorgeous"), Err(PubuError::SyntaxError));
    assert!(Parser::new(tokens("} gorgeous", Mood::Happy), Mood::Happy).holds_compliment_token());
}

#[test]
fn a_compliment_inside_a_block_is_not_enough() {
    assert_eq!(parse("happy { gorgeous; }"), Err(PubuError::NotEnoughCompliments));
}

#[test]
fn tokens_without_an_end_of_input_parse_as_well() {
    let mut list = tokens("gorgeous;", Mood::Happy);
    list.pop();
    let mut parser = Parser::new(list, Mood::Happy);
    assert_eq!(
        parser.parse(&mut Dice::steady()),
        Ok(Node::Program(vec![Node::Compliment("gorgeous".to_string())]))
    );
    assert_eq!(parser.current, 2);
    assert!(parser.is_at_end());
    let mut nothing = Parser::new(vec![], Mood::Happy);
    assert!(nothing.is_at_end());
    assert_eq!(nothing.parse(&mut Dice::steady()), Err(PubuError::NotEnoughCompliments));
}

#[test]
fn what_follows_the_end_of_input_is_not_read() {
    let mut list = tokens("gorgeous;", Mood::Happy);
    list.push(Token::new(TokenType::RightBrace, "}".to_string(), 1));
    let mut parser = Parser::new(list, Mood::Happy);
    assert!(!parser.is_at_end());
    assert_eq!(
        parser.parse(&mut Dice::steady()),
        Ok(Node::Program(vec![Node::Compliment("gorgeous".to_string())]))
    );
    assert_eq!(parser.current, 2);
    assert!(parser.is_at_end());
}

#[test]
fn the_parser_fails_after_all_five_times_in_a_hundred() {
    assert_eq!(
        parse_with("gorgeous;", Mood::Happy, vec![20, 49]),
        Err(PubuError::RandomFailure)
    );
    assert_eq!(
        parse_with("gorgeous;", Mood::Happy, vec![20, 50]),
        Ok(Node::Program(vec![Node::Compliment("gorgeous".to_string())]))
    );
    let mut dice = Dice::scripted(vec![500, 0, 7]);
    assert!(Parser::new(tokens("x;", Mood::Happy), Mood::Happy).parse(&mut dice).is_err());
    assert_eq!(dice.remaining(), 1);
}

#[test]
fn a_statement_may_end_in_a_crisis() {
    assert_eq!(
        parse_with("gorgeous;", Mood::Happy, vec![19]),
        Err(PubuError::PhilosophicalCrisis)
    );
    assert_eq!(
        parse_with("gorgeous; amazing;", Mood::Happy, vec![20, 19]),
        Err(PubuError::PhilosophicalCrisis)
    );
    assert_eq!(
        parse_with("gorgeous; happy { x; }", Mood::Happy, vec![20, 20, 0]),
        Err(PubuError::PhilosophicalCrisis)
    );
    assert_eq!(parse_with("x", Mood::Happy, vec![0]), Err(PubuError::PhilosophicalCrisis));
}

#[test]
fn an_expression_may_be_wrapped_in_a_reality_distortion() {
    assert_eq!(
        parse_with("gorgeous; 7;", Mood::Happy, vec![500, 500, 99, 500]),
        Ok(Node::Program(vec![
            Node::Compliment("gorgeous".to_string()),
            Node::RealityDistortion(Box::new(number(7)))
        ]))
    );
    assert_eq!(
        parse_with("gorgeous; 7;", Mood::Happy, vec![500, 500, 100, 500]),
        Ok(Node::Program(vec![Node::Compliment("gorgeous".to_string()), number(7)]))
    );
    assert_eq!(
        parse_with("gorgeous; (1) plus 2;", Mood::Happy, vec![500, 500, 0, 0]),
        Ok(Node::Program(vec![
            Node::Compliment("gorgeous".to_string()),
            Node::RealityDistortion(Box::new(binary(
                Node::RealityDistortion(Box::new(number(1))),
                Operator::Add,
                number(2)
            )))
        ]))
    );
}

#[test]
fn variable_declarations() {
    assert_eq!(
        statements("yay x is 5; yay y = x;"),
        vec![
            Node::VariableDeclaration("x".to_string(), Box::new(number(5))),
            Node::VariableDeclaration("y".to_string(), Box::new(name("x"))),
        ]
    );
    assert_eq!(error("yay x 5;"), PubuError::SyntaxError);
    assert_eq!(error("yay is 5;"), PubuError::SyntaxError);
    assert_eq!(error("yay 5 is 5;"), PubuError::SyntaxError);
    assert_eq!(error("yay x is 5"), PubuError::SyntaxError);
    assert_eq!(error("yay x is ;"), PubuError::SyntaxError);
    assert_eq!(error("yay"), PubuError::SyntaxError);
}

#[test]
fn assignments() {
    assert_eq!(
        statements("x is 1 plus 2; y = \"z\";"),
        vec![
            Node::Assignment(
                "x".to_string(),
                Box::new(binary(number(1), Operator::Add, number(2)))
            ),
            Node::Assignment("y".to_string(), Box::new(Node::String("z".to_string()))),
        ]
    );
    assert_eq!(error("x is 1"), PubuError::SyntaxError);
    assert_eq!(error("x is;"), PubuError::SyntaxError);
    assert_eq!(error("1 is 2;"), PubuError::SyntaxError);
}

#[test]
fn function_declarations() {
    assert_eq!(
        statements("celebration f() { } celebration g(a) here_you_go a; done celebration h(a, b) { a; b; }"),
        vec![
            Node::FunctionDeclaration("f".to_string(), vec![], vec![]),
            Node::FunctionDeclaration(
                "g".to_string(),
                vec!["a".to_string()],
                vec![Node::Return(Some(Box::new(name("a"))))]
            ),
            Node::FunctionDeclaration(
                "h".to_string(),
                vec!["a".to_string(), "b".to_string()],
                vec![name("a"), name("b")]
            ),
        ]
    );
    assert_eq!(error("celebration f { }"), PubuError::SyntaxError);
    assert_eq!(error("celebration (a) { }"), PubuError::SyntaxError);
    assert_eq!(error("celebration f(a,) { }"), PubuError::SyntaxError);
    assert_eq!(error("celebration f(,a) { }"), PubuError::SyntaxError);
    assert_eq!(error("celebration f(a b) { }"), PubuError::SyntaxError);
    assert_eq!(error("celebration f(1) { }"), PubuError::SyntaxError);
    assert_eq!(error("celebration f(a"), PubuError::SyntaxError);
    assert_eq!(error("celebration f(a) {"), PubuError::SyntaxError);
    assert_eq!(error("celebration f(a)"), PubuError::SyntaxError);
}

#[test]
fn conditionals() {
    assert_eq!(
        statements("perhaps x same_as 1 { y; } perhaps x { } { z; } perhaps true a; done"),
        vec![
            Node::IfStatement(
                Box::new(binary(name("x"), Operator::Equal, number(1))),
                vec![name("y")],
                None
            ),
            Node::IfStatement(Box::new(name("x")), vec![], Some(vec![name("z")])),
            Node::IfStatement(Box::new(Node::Boolean(true)), vec![name("a")], None),
        ]
    );
    assert_eq!(
        statements("perhaps x y; done { z; }"),
        vec![Node::IfStatement(Box::new(name("x")), vec![name("y")], Some(vec![name("z")]))]
    );
    assert_eq!(error("perhaps { }"), PubuError::SyntaxError);
    assert_eq!(error("perhaps x { y; "), PubuError::SyntaxError);
    assert_eq!(error("perhaps x y;"), PubuError::SyntaxError);
    assert_eq!(error("perhaps x { } { "), PubuError::SyntaxError);
}

#[test]
fn loops_and_blocks() {
    assert_eq!(
        statements("again_and_again { x; } again_and_again x; y; done"),
        vec![Node::Loop(vec![name("x")]), Node::Loop(vec![name("x"), name("y")])]
    );
    assert_eq!(
        statements("again_and_again again_and_again { x; } done"),
        vec![Node::Loop(vec![Node::Loop(vec![name("x")])])]
    );
    assert_eq!(error("again_and_again { x; done"), PubuError::SyntaxError);
    assert_eq!(error("again_and_again x; }"), PubuError::SyntaxError);
    assert_eq!(error("}"), PubuError::SyntaxError);
    assert_eq!(error("done"), PubuError::SyntaxError);
    assert_eq!(error("{ x; }"), PubuError::SyntaxError);
}

#[test]
fn mood_blocks_take_the_mood_of_the_parser() {
    assert_eq!(
        statements("happy { why? }"),
        vec![Node::MoodBlock(
            MoodType::Happy,
            vec![Node::PhilosophicalQuestion("why?".to_string())]
        )]
    );
    let cases = [
        (Mood::Grumpy, "decent", "grumpy", MoodType::Grumpy),
        (Mood::Philosophical, "clever", "philosophical", MoodType::Philosophical),
        (Mood::Sarcastic, "clever", "sarcastic", MoodType::Sarcastic),
        (Mood::Confused, "clever", "confused", MoodType::Confused),
    ];
    for (mood, praise, word, tag) in cases {
        let source = format!("{}; {} {{ }}", praise, word);
        assert_eq!(
            parse_with(&source, mood, vec![]),
            Ok(Node::Program(vec![
                Node::Compliment(praise.to_string()),
                Node::MoodBlock(tag, vec![])
            ]))
        );
    }
    assert_eq!(
        parse_with("ugh x make_it 1 equals 2; decent", Mood::Grumpy, vec![]),
        Ok(Node::Program(vec![
            Node::VariableDeclaration(
                "x".to_string(),
                Box::new(binary(number(1), Operator::Equal, number(2)))
            ),
            Node::Compliment("decent".to_string()),
        ]))
    );
    assert_eq!(
        parse_with("not_bad grumpy decent; finally", Mood::Grumpy, vec![]),
        Ok(Node::Program(vec![
            Node::Compliment("not_bad".to_string()),
            Node::MoodBlock(MoodType::Grumpy, vec![Node::Compliment("decent".to_string())])
        ]))
    );
}

#[test]
fn lunar_blocks() {
    assert_eq!(
        statements("lunar_phase { x; } lunar_phase done"),
        vec![Node::LunarPhaseBlock(vec![name("x")]), Node::LunarPhaseBlock(vec![])]
    );
    assert_eq!(error("lunar_phase"), PubuError::SyntaxError);
}

#[test]
fn return_statements() {
    assert_eq!(
        statements("here_you_go; here_you_go 1; here_you_go f(x);"),
        vec![
            Node::Return(None),
            Node::Return(Some(Box::new(number(1)))),
            Node::Return(Some(Box::new(Node::FunctionCall("f".to_string(), vec![name("x")])))),
        ]
    );
    assert_eq!(error("here_you_go"), PubuError::SyntaxError);
    assert_eq!(error("here_you_go 1"), PubuError::SyntaxError);
}

#[test]
fn questions_and_compliments_need_no_semicolon() {
    assert_eq!(
        statements("why? but_why?; amazing brilliant;"),
        vec![
            Node::PhilosophicalQuestion("why?".to_string()),
            Node::PhilosophicalQuestion("but_why?".to_string()),
            Node::Compliment("amazing".to_string()),
            Node::Compliment("brilliant".to_string()),
        ]
    );
    assert_eq!(error("amazing;;"), PubuError::SyntaxError);
}

#[test]
fn operators_bind_by_their_level() {
    assert_eq!(
        statements("1 plus 2 times 3;"),
        vec![binary(number(1), Operator::Add, binary(number(2), Operator::Multiply, number(3)))]
    );
    assert_eq!(
        statements("1 times 2 plus 3;"),
        vec![binary(binary(number(1), Operator::Multiply, number(2)), Operator::Add, number(3))]
    );
    assert_eq!(
        statements("1 plus 2 same_as 3 minus 4;"),
        vec![binary(
            binary(number(1), Operator::Add, number(2)),
            Operator::Equal,
            binary(number(3), Operator::Subtract, number(4))
        )]
    );
    assert_eq!(
        statements("a < b different_from c > d;"),
        vec![binary(
            binary(
                binary(name("a"), Operator::LessThan, name("b")),
                Operator::NotEqual,
                name("c")
            ),
            Operator::GreaterThan,
            name("d")
        )]
    );
    assert_eq!(
        statements("8 divided_by 4 divided_by 2;"),
        vec![binary(binary(number(8), Operator::Divide, number(4)), Operator::Divide, number(2))]
    );
    assert_eq!(
        statements("1 minus 2 minus 3;"),
        vec![binary(binary(number(1), Operator::Subtract, number(2)), Operator::Subtract, number(3))]
    );
}

#[test]
fn brackets_and_signs() {
    assert_eq!(
        statements("(1 plus 2) times 3;"),
        vec![binary(binary(number(1), Operator::Add, number(2)), Operator::Multiply, number(3))]
    );
    assert_eq!(
        statements("minus x; minus minus 1; 2 minus minus 3;"),
        vec![
            Node::UnaryOp(Operator::Subtract, Box::new(name("x"))),
            Node::UnaryOp(
                Operator::Subtract,
                Box::new(Node::UnaryOp(Operator::Subtract, Box::new(number(1))))
            ),
            binary(
                number(2),
                Operator::Subtract,
                Node::UnaryOp(Operator::Subtract, Box::new(number(3)))
            ),
        ]
    );
    assert_eq!(statements("((x));"), vec![name("x")]);
    assert_eq!(error("(1 plus 2;"), PubuError::SyntaxError);
    assert_eq!(error("1 plus;"), PubuError::SyntaxError);
    assert_eq!(error("plus 1;"), PubuError::SyntaxError);
    assert_eq!(error("1 2;"), PubuError::SyntaxError);
    assert_eq!(error("();"), PubuError::SyntaxError);
    assert_eq!(error(";"), PubuError::SyntaxError);
    assert_eq!(error("minus;"), PubuError::SyntaxError);
}

#[test]
fn primaries() {
    assert_eq!(
        statements("true; false; truth; \"text\"; 2.5; f(); f(1, g(x), \"y\");"),
        vec![
            Node::Boolean(true),
            Node::Boolean(false),
            name("truth"),
            Node::String("text".to_string()),
            Node::Number(Number::from_micros(2_500_000)),
            Node::FunctionCall("f".to_string(), vec![]),
            Node::FunctionCall(
                "f".to_string(),
                vec![
                    number(1),
                    Node::FunctionCall("g".to_string(), vec![name("x")]),
                    Node::String("y".to_string())
                ]
            ),
        ]
    );
    assert_eq!(error("f(1,);"), PubuError::SyntaxError);
    assert_eq!(error("f(,1);"), PubuError::SyntaxError);
    assert_eq!(error("f(1 2);"), PubuError::SyntaxError);
    assert_eq!(error("f(1;"), PubuError::SyntaxError);
    assert_eq!(error("f("), PubuError::SyntaxError);
    assert_eq!(error("true();"), PubuError::SyntaxError);
}

#[test]
fn the_draws_are_taken_in_the_order_of_the_text() {
    let source = "gorgeous; yay x is f(1, 2); happy { y; }";
    let quiet = vec![500, 500, 500, 500, 500, 500, 500, 500, 500];
    let tree = parse_with(source, Mood::Happy, quiet).unwrap();
    assert_eq!(
        tree,
        Node::Program(vec![
            Node::Compliment("gorgeous".to_string()),
            Node::VariableDeclaration(
                "x".to_string(),
                Box::new(Node::FunctionCall("f".to_string(), vec![number(1), number(2)]))
            ),
            Node::MoodBlock(MoodType::Happy, vec![name("y")]),
        ])
    );
    let wrapped = parse_with(source, Mood::Happy, vec![500, 500, 500, 500, 0, 500, 500, 0, 500]);
    assert_eq!(
        wrapped,
        Ok(Node::Program(vec![
            Node::Compliment("gorgeous".to_string()),
            Node::VariableDeclaration(
                "x".to_string(),
                Box::new(Node::FunctionCall(
                    "f".to_string(),
                    vec![number(1), Node::RealityDistortion(Box::new(number(2)))]
                ))
            ),
            Node::MoodBlock(
                MoodType::Happy,
                vec![Node::RealityDistortion(Box::new(name("y")))]
            ),
        ]))
    );
    let mut dice = Dice::scripted(vec![500; 12]);
    assert!(Parser::new(tokens(source, Mood::Happy), Mood::Happy).parse(&mut dice).is_ok());
    assert_eq!(dice.remaining(), 3);
}
