use pubu::chance::Dice;
use pubu::error::PubuError;
use pubu::lexer::{is_compliment, Lexer, Token, TokenType};
use pubu::mood::Mood;
use pubu::number::Number;

fn scan(source: &str, mood: Mood) -> Vec<Token> {
    let mut lexer = Lexer::new(source.to_string(), mood);
    lexer.scan_tokens(&mut Dice::steady()).unwrap()
}

fn kinds(source: &str, mood: Mood) -> Vec<TokenType> {
    scan(source, mood).into_iter().map(|token| token.token_type).collect()
}

fn lexemes(source: &str, mood: Mood) -> Vec<String> {
    scan(source, mood).into_iter().map(|token| token.lexeme).collect()
}

fn lines(source: &str, mood: Mood) -> Vec<usize> {
    scan(source, mood).into_iter().map(|token| token.line).collect()
}

fn chars(text: &str) -> Vec<char> {
    text.chars().collect()
}

fn identifier(name: &str) -> TokenType {
    TokenType::Identifier(name.to_string())
}

fn number(micros: i64) -> TokenType {
    TokenType::Number(Number::from_micros(micros))
}

#[test]
fn an_empty_text_is_one_end_of_input() {
    let tokens = scan("", Mood::Happy);
    assert_eq!(tokens, vec![Token::new(TokenType::EOF, String::new(), 1)]);
    assert_eq!(kinds("  \t \r ", Mood::Happy), vec![TokenType::EOF]);
}

#[test]
fn the_lexer_fails_five_times_in_a_hundred() {
    let mut lexer = Lexer::new("dear_pubu".to_string(), Mood::Happy);
    let mut dice = Dice::scripted(vec![49, 50]);
    assert_eq!(lexer.scan_tokens(&mut dice), Err(PubuError::RandomFailure));
    assert_eq!(dice.remaining(), 1);
    let tokens = lexer.scan_tokens(&mut dice).unwrap();
    assert_eq!(tokens.len(), 2);
    assert_eq!(dice.remaining(), 0);
    assert_eq!(lexer.source, "dear_pubu");
}

#[test]
fn a_happy_declaration() {
    assert_eq!(
        scan("yay x is 5;", Mood::Happy),
        vec![
            Token::new(TokenType::VariableDeclaration, "yay".to_string(), 1),
            Token::new(identifier("x"), "x".to_string(), 1),
            Token::new(TokenType::Assignment, "is".to_string(), 1),
            Token::new(number(5_000_000), "5".to_string(), 1),
            Token::new(TokenType::Semicolon, ";".to_string(), 1),
            Token::new(TokenType::EOF, String::new(), 1),
        ]
    );
}

#[test]
fn keywords_belong_to_their_mood() {
    assert_eq!(
        kinds("yay celebration perhaps again_and_again here_you_go done is", Mood::Happy),
        vec![
            TokenType::VariableDeclaration,
            TokenType::FunctionDeclaration,
            TokenType::Conditional,
            TokenType::Loop,
            TokenType::Return,
            TokenType::EndBlock,
            TokenType::Assignment,
            TokenType::EOF,
        ]
    );
    assert_eq!(
        kinds("yay ugh", Mood::Grumpy),
        vec![identifier("yay"), TokenType::VariableDeclaration, TokenType::EOF]
    );
    assert_eq!(
        kinds("ponder essence_of what_if eternal_return conclude fin becomes", Mood::Philosophical),
        vec![
            TokenType::VariableDeclaration,
            TokenType::FunctionDeclaration,
            TokenType::Conditional,
            TokenType::Loop,
            TokenType::Return,
            TokenType::EndBlock,
            TokenType::Assignment,
            TokenType::EOF,
        ]
    );
    assert_eq!(
        kinds("supposedly whoopee totally_equals", Mood::Sarcastic),
        vec![
            TokenType::VariableDeclaration,
            TokenType::EndBlock,
            TokenType::Assignment,
            TokenType::EOF
        ]
    );
    assert_eq!(
        kinds("umm i_think_im_done could_be", Mood::Confused),
        vec![
            TokenType::VariableDeclaration,
            TokenType::EndBlock,
            TokenType::Assignment,
            TokenType::EOF
        ]
    );
}

#[test]
fn operators_belong_to_their_mood() {
    assert_eq!(
        kinds("plus minus times divided_by same_as different_from", Mood::Happy),
        vec![
            TokenType::Plus,
            TokenType::Minus,
            TokenType::Times,
            TokenType::Divide,
            TokenType::Equal,
            TokenType::NotEqual,
            TokenType::EOF,
        ]
    );
    assert_eq!(
        kinds("add subtract multiply divide equals not_equals plus", Mood::Grumpy),
        vec![
            TokenType::Plus,
            TokenType::Minus,
            TokenType::Times,
            TokenType::Divide,
            TokenType::Equal,
            TokenType::NotEqual,
            identifier("plus"),
            TokenType::EOF,
        ]
    );
    assert_eq!(
        kinds("more less lots split is_it_same is_it_different", Mood::Confused),
        vec![
            TokenType::Plus,
            TokenType::Minus,
            TokenType::Times,
            TokenType::Divide,
            TokenType::Equal,
            TokenType::NotEqual,
            TokenType::EOF,
        ]
    );
}

#[test]
fn the_grumpy_assignment_and_equality_are_two_words() {
    assert_eq!(kinds("make_it", Mood::Grumpy), vec![TokenType::Assignment, TokenType::EOF]);
    assert_eq!(kinds("equals", Mood::Grumpy), vec![TokenType::Equal, TokenType::EOF]);
    assert_eq!(kinds("equals", Mood::Happy), vec![identifier("equals"), TokenType::EOF]);
    assert_eq!(
        kinds("ugh x make_it 1 equals 2;", Mood::Grumpy),
        vec![
            TokenType::VariableDeclaration,
            identifier("x"),
            TokenType::Assignment,
            number(1_000_000),
            TokenType::Equal,
            number(2_000_000),
            TokenType::Semicolon,
            TokenType::EOF,
        ]
    );
}

#[test]
fn punctuation_marks_are_tokens_by_themselves() {
    assert_eq!(
        kinds("{}(),;=<>", Mood::Happy),
        vec![
            TokenType::LeftBrace,
            TokenType::RightBrace,
            TokenType::LeftParen,
            TokenType::RightParen,
            TokenType::Comma,
            TokenType::Semicolon,
            TokenType::Assignment,
            TokenType::LessThan,
            TokenType::GreaterThan,
            TokenType::EOF,
        ]
    );
    assert_eq!(
        lexemes("f(a,b);", Mood::Happy),
        vec!["f", "(", "a", ",", "b", ")", ";", ""]
    );
}

fn shared_moods() -> Vec<Mood> {
    vec![Mood::Philosophical, Mood::Sarcastic, Mood::Confused]
}

#[test]
fn compliments_are_words_that_hold_a_compliment_keyword_of_the_mood() {
    assert_eq!(
        scan("dear_pubu_you_look_gorgeous_today;", Mood::Happy),
        vec![
            Token::new(TokenType::Compliment, "dear_pubu_you_look_gorgeous_today".to_string(), 1),
            Token::new(TokenType::Semicolon, ";".to_string(), 1),
            Token::new(TokenType::EOF, String::new(), 1),
        ]
    );
    for word in ["dear_pubu", "gorgeous", "brilliant", "amazing", "so_amazing!", "xgorgeousx"] {
        assert_eq!(kinds(word, Mood::Happy), vec![TokenType::Compliment, TokenType::EOF]);
        assert!(is_compliment(&chars(word), Mood::Happy));
        assert_eq!(kinds(word, Mood::Grumpy), vec![identifier(word), TokenType::EOF]);
        assert!(!is_compliment(&chars(word), Mood::Grumpy));
        for mood in shared_moods() {
            assert_eq!(kinds(word, mood), vec![identifier(word), TokenType::EOF]);
            assert!(!is_compliment(&chars(word), mood));
        }
    }
    for word in ["Gorgeous", "gorgeou", "dear_pub", "", "pubu"] {
        assert!(!is_compliment(&chars(word), Mood::Happy));
    }
    assert_eq!(kinds("Gorgeous", Mood::Happy), vec![identifier("Gorgeous"), TokenType::EOF]);
}

#[test]
fn grumpy_compliments_are_for_the_grumpy() {
    for word in ["fine_pubu", "not_bad", "decent", "a_decent_try"] {
        assert_eq!(kinds(word, Mood::Grumpy), vec![TokenType::Compliment, TokenType::EOF]);
        assert!(is_compliment(&chars(word), Mood::Grumpy));
        assert_eq!(kinds(word, Mood::Happy), vec![identifier(word), TokenType::EOF]);
        for mood in shared_moods() {
            assert_eq!(kinds(word, mood), vec![identifier(word), TokenType::EOF]);
        }
    }
}

#[test]
fn the_other_moods_share_their_compliments() {
    for word in ["magnificent", "wonderful", "clever", "smart", "so_smart!"] {
        for mood in shared_moods() {
            assert_eq!(kinds(word, mood), vec![TokenType::Compliment, TokenType::EOF]);
            assert!(is_compliment(&chars(word), mood));
        }
        assert_eq!(kinds(word, Mood::Happy), vec![identifier(word), TokenType::EOF]);
        assert!(!is_compliment(&chars(word), Mood::Happy));
        assert_eq!(kinds(word, Mood::Grumpy), vec![identifier(word), TokenType::EOF]);
        assert!(!is_compliment(&chars(word), Mood::Grumpy));
    }
}

#[test]
fn a_text_without_compliment_keyword_of_the_mood_gives_no_compliment_token() {
    let sources = [
        "",
        "yay x is 5; why? \"text\" 1.5 { } btw nothing",
        "smart clever fine_pubu not_bad",
        "x",
    ];
    for source in sources {
        let tokens = scan(source, Mood::Happy);
        assert!(tokens.iter().all(|token| token.token_type != TokenType::Compliment));
    }
    for source in ["dear_pubu gorgeous smart", "x"] {
        let tokens = scan(source, Mood::Grumpy);
        assert!(tokens.iter().all(|token| token.token_type != TokenType::Compliment));
    }
    for mood in shared_moods() {
        let tokens = scan("dear_pubu_you_look_gorgeous_today; decent", mood);
        assert!(tokens.iter().all(|token| token.token_type != TokenType::Compliment));
    }
}

#[test]
fn questions_end_with_a_mark_and_hold_a_deep_word() {
    let lexer = Lexer::new(String::new(), Mood::Happy);
    for word in ["why?", "what_is_the_meaning?", "purpose?", "existence_is_pain?", "whywhy?"] {
        assert_eq!(kinds(word, Mood::Grumpy), vec![TokenType::PhilosophicalQuestion, TokenType::EOF]);
        assert!(lexer.is_philosophical_question(&chars(word)));
    }
    for word in ["why", "Why?", "WHY?", "how?", "?", "why?!", "mean_ing?"] {
        assert_eq!(kinds(word, Mood::Happy), vec![identifier(word), TokenType::EOF]);
        assert!(!lexer.is_philosophical_question(&chars(word)));
    }
    assert!(!lexer.is_philosophical_question(&chars("")));
}

#[test]
fn a_compliment_comes_before_a_question() {
    assert_eq!(
        kinds("why_so_gorgeous?", Mood::Happy),
        vec![TokenType::Compliment, TokenType::EOF]
    );
}

#[test]
fn a_compliment_comes_before_a_keyword() {
    assert_eq!(kinds("what", Mood::Confused), vec![TokenType::EOF]);
    assert_eq!(
        kinds("is_this_right is_this_smart", Mood::Confused),
        vec![TokenType::Return, TokenType::Compliment, TokenType::EOF]
    );
}

#[test]
fn mood_and_moon_words() {
    assert_eq!(kinds("happy", Mood::Happy), vec![TokenType::MoodDeclaration, TokenType::EOF]);
    assert_eq!(kinds("grumpy", Mood::Grumpy), vec![TokenType::MoodDeclaration, TokenType::EOF]);
    assert_eq!(
        kinds("philosophical", Mood::Philosophical),
        vec![TokenType::MoodDeclaration, TokenType::EOF]
    );
    assert_eq!(
        kinds("sarcastic", Mood::Sarcastic),
        vec![TokenType::MoodDeclaration, TokenType::EOF]
    );
    assert_eq!(
        kinds("confused", Mood::Confused),
        vec![TokenType::MoodDeclaration, TokenType::EOF]
    );
    assert_eq!(kinds("grumpy", Mood::Happy), vec![identifier("grumpy"), TokenType::EOF]);
    for mood in [Mood::Happy, Mood::Sarcastic] {
        assert_eq!(kinds("lunar_phase", mood), vec![TokenType::LunarPhase, TokenType::EOF]);
    }
}

#[test]
fn identifier_and_operator_types() {
    let lexer = Lexer::new(String::new(), Mood::Happy);
    assert_eq!(lexer.identifier_type(&chars("yay")), TokenType::VariableDeclaration);
    assert_eq!(lexer.identifier_type(&chars("plus")), TokenType::Plus);
    assert_eq!(lexer.identifier_type(&chars("amazing")), TokenType::Compliment);
    assert_eq!(lexer.identifier_type(&chars("why?")), TokenType::PhilosophicalQuestion);
    assert_eq!(lexer.identifier_type(&chars("x")), identifier("x"));
    assert_eq!(lexer.identifier_type(&chars("btw")), identifier("btw"));
    assert_eq!(lexer.operator_type(&chars("times")), Some(TokenType::Times));
    assert_eq!(lexer.operator_type(&chars("yay")), None);
    assert_eq!(lexer.keyword_type(&chars("done")), Some(TokenType::EndBlock));
    assert_eq!(lexer.keyword_type(&chars("times")), None);
}

#[test]
fn numbers() {
    assert_eq!(kinds("0", Mood::Happy), vec![number(0), TokenType::EOF]);
    assert_eq!(kinds("007", Mood::Happy), vec![number(7_000_000), TokenType::EOF]);
    assert_eq!(kinds("3.14", Mood::Happy), vec![number(3_140_000), TokenType::EOF]);
    assert_eq!(kinds("0.000001", Mood::Happy), vec![number(1), TokenType::EOF]);
    assert_eq!(kinds("2.7182818284", Mood::Happy), vec![number(2_718_281), TokenType::EOF]);
    assert_eq!(lexemes("2.7182818284", Mood::Happy), vec!["2.7182818284", ""]);
    assert_eq!(kinds("1.5.2", Mood::Happy), vec![number(1_500_000), identifier(".2"), TokenType::EOF]);
    assert_eq!(kinds("1.", Mood::Happy), vec![number(1_000_000), identifier("."), TokenType::EOF]);
    assert_eq!(kinds("1.x", Mood::Happy), vec![number(1_000_000), identifier(".x"), TokenType::EOF]);
    assert_eq!(
        kinds("12abc", Mood::Happy),
        vec![number(12_000_000), identifier("abc"), TokenType::EOF]
    );
    assert_eq!(kinds("x1", Mood::Happy), vec![identifier("x1"), TokenType::EOF]);
    assert_eq!(kinds("-5", Mood::Happy), vec![identifier("-5"), TokenType::EOF]);
}

#[test]
fn a_number_literal_as_a_float_would_have_it() {
    let tokens = scan("12.625", Mood::Happy);
    let expected: f64 = 12.625;
    match &tokens[0].token_type {
        TokenType::Number(n) => assert_eq!(n.micros as f64 / 1_000_000.0, expected),
        other => panic!("not a number: {:?}", other),
    }
}

#[test]
fn numbers_too_large_are_the_largest_number() {
    assert_eq!(
        kinds("9223372036854.775807", Mood::Happy),
        vec![number(i64::MAX), TokenType::EOF]
    );
    assert_eq!(
        kinds("9223372036854.775806", Mood::Happy),
        vec![number(i64::MAX - 1), TokenType::EOF]
    );
    assert_eq!(kinds("9223372036855", Mood::Happy), vec![number(i64::MAX), TokenType::EOF]);
    assert_eq!(
        kinds("10000000000000", Mood::Happy),
        vec![number(i64::MAX), TokenType::EOF]
    );
    assert_eq!(
        kinds("99999999999999999999999999999999999999999.5", Mood::Happy),
        vec![number(i64::MAX), TokenType::EOF]
    );
    assert_eq!(
        lexemes("99999999999999999999999999999999999999999.5", Mood::Happy),
        vec!["99999999999999999999999999999999999999999.5", ""]
    );
}

#[test]
fn text_literals() {
    assert_eq!(
        scan("\"hello world\"", Mood::Happy),
        vec![
            Token::new(
                TokenType::String("hello world".to_string()),
                "\"hello world\"".to_string(),
                1
            ),
            Token::new(TokenType::EOF, String::new(), 1),
        ]
    );
    assert_eq!(kinds("\"\"", Mood::Happy), vec![TokenType::String(String::new()), TokenType::EOF]);
    assert_eq!(
        kinds("\"gorgeous yay ; {\"", Mood::Happy),
        vec![TokenType::String("gorgeous yay ; {".to_string()), TokenType::EOF]
    );
    assert_eq!(
        kinds("a\"b\"c", Mood::Happy),
        vec![identifier("a"), TokenType::String("b".to_string()), identifier("c"), TokenType::EOF]
    );
}

#[test]
fn text_literals_with_escapes() {
    assert_eq!(
        kinds("\"a\\nb\\tc\\rd\\0e\\\\f\\\"g\\qh\"", Mood::Happy),
        vec![TokenType::String("a\nb\tc\rd\0e\\f\"gqh".to_string()), TokenType::EOF]
    );
    assert_eq!(
        lexemes("\"a\\\"b\" x", Mood::Happy),
        vec!["\"a\\\"b\"", "x", ""]
    );
}

#[test]
fn text_literals_without_an_end() {
    assert_eq!(
        scan("x \"abc", Mood::Happy),
        vec![
            Token::new(identifier("x"), "x".to_string(), 1),
            Token::new(TokenType::String("abc".to_string()), "\"abc".to_string(), 1),
            Token::new(TokenType::EOF, String::new(), 1),
        ]
    );
    assert_eq!(kinds("\"", Mood::Happy), vec![TokenType::String(String::new()), TokenType::EOF]);
    assert_eq!(
        kinds("\"abc\\", Mood::Happy),
        vec![TokenType::String("abc\\".to_string()), TokenType::EOF]
    );
    assert_eq!(
        kinds("\"abc\\\"", Mood::Happy),
        vec![TokenType::String("abc\"".to_string()), TokenType::EOF]
    );
}

#[test]
fn lines_are_counted() {
    assert_eq!(lines("a\nb\n\nc", Mood::Happy), vec![1, 2, 4, 4]);
    assert_eq!(lines("\n\n", Mood::Happy), vec![3]);
    assert_eq!(lines("a\r\nb", Mood::Happy), vec![1, 2, 2]);
    assert_eq!(lines("\"one\ntwo\nthree\" x\ny", Mood::Happy), vec![1, 3, 4, 4]);
}

#[test]
fn comments_run_to_the_end_of_the_line() {
    assert_eq!(
        scan("x btw dear_pubu ; \"\nyay", Mood::Happy),
        vec![
            Token::new(identifier("x"), "x".to_string(), 1),
            Token::new(TokenType::VariableDeclaration, "yay".to_string(), 2),
            Token::new(TokenType::EOF, String::new(), 2),
        ]
    );
    assert_eq!(kinds("btw", Mood::Happy), vec![TokenType::EOF]);
    assert_eq!(kinds("btw", Mood::Grumpy), vec![identifier("btw"), TokenType::EOF]);
    assert_eq!(kinds("ignore_this gorgeous", Mood::Grumpy), vec![TokenType::EOF]);
    assert_eq!(kinds("contemplate x\ny", Mood::Philosophical), vec![identifier("y"), TokenType::EOF]);
    assert_eq!(kinds("yeah_right x", Mood::Sarcastic), vec![TokenType::EOF]);
    assert_eq!(kinds("btw_not x", Mood::Happy), vec![identifier("btw_not"), identifier("x"), TokenType::EOF]);
    assert_eq!(kinds("x;btw y", Mood::Happy), vec![identifier("x"), TokenType::Semicolon, TokenType::EOF]);
}

#[test]
fn every_scan_ends_with_one_end_of_input_on_ascending_lines() {
    let sources = [
        "",
        "dear_pubu;\nyay x is \"a\nb\";\nbtw nothing\nwhy?",
        "{{{\n\n}}}",
        "\"unclosed\n\n",
        "1.2.3 4 five",
    ];
    for source in sources {
        for mood in [Mood::Happy, Mood::Grumpy, Mood::Confused] {
            let tokens = scan(source, mood);
            let ends = tokens.iter().filter(|token| token.token_type == TokenType::EOF).count();
            assert_eq!(ends, 1);
            assert_eq!(tokens.last().unwrap().token_type, TokenType::EOF);
            assert_eq!(tokens.last().unwrap().lexeme, "");
            for pair in tokens.windows(2) {
                assert!(pair[0].line <= pair[1].line);
            }
            assert!(tokens[0].line >= 1);
        }
    }
}

#[test]
fn words_may_hold_any_other_character() {
    assert_eq!(
        kinds("héllo wörld! a+b a.b", Mood::Happy),
        vec![
            identifier("héllo"),
            identifier("wörld!"),
            identifier("a+b"),
            identifier("a.b"),
            TokenType::EOF
        ]
    );
}
