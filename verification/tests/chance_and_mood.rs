use pubu::chance::{Dice, RESOLUTION, STEADY};
use pubu::error::PubuError;
use pubu::mood::{ErrorStyle, Mood};
use pubu::{function_succeeds, function_succeeds_with, get_current_mood, mood_at};

fn moods() -> Vec<Mood> {
    vec![Mood::Happy, Mood::Grumpy, Mood::Philosophical, Mood::Sarcastic, Mood::Confused]
}

fn keywords(mood: Mood) -> Vec<&'static str> {
    let table = mood.get_keywords();
    vec![
        table.variable_declaration,
        table.function_declaration,
        table.conditional,
        table.loop_construct,
        table.return_statement,
        table.end_block,
        table.assignment,
        table.comment_marker,
    ]
}

fn operators(mood: Mood) -> Vec<&'static str> {
    let table = mood.get_operators();
    vec![
        table.addition,
        table.subtraction,
        table.multiplication,
        table.division,
        table.equality,
        table.inequality,
    ]
}

fn all_distinct(words: &[&str]) -> bool {
    for i in 0..words.len() {
        for j in (i + 1)..words.len() {
            if words[i] == words[j] {
                return false;
            }
        }
    }
    true
}

#[test]
fn scripted_dice_hand_out_their_draws_in_order() {
    let mut dice = Dice::scripted(vec![1, 999, 0]);
    assert_eq!(dice.remaining(), 3);
    assert_eq!(dice.roll(), 1);
    assert_eq!(dice.roll(), 999);
    assert_eq!(dice.remaining(), 1);
    assert_eq!(dice.roll(), 0);
    assert_eq!(dice.remaining(), 0);
}

#[test]
fn used_up_dice_are_steady() {
    let mut dice = Dice::scripted(vec![7]);
    assert_eq!(dice.roll(), 7);
    assert_eq!(dice.roll(), STEADY);
    assert_eq!(dice.roll(), 500);
    assert_eq!(dice.remaining(), 0);
    let mut none = Dice::steady();
    assert_eq!(none.remaining(), 0);
    assert_eq!(none.roll(), 500);
}

#[test]
fn below_compares_the_next_draw() {
    let mut dice = Dice::scripted(vec![49, 50, 51]);
    assert!(dice.below(50));
    assert!(!dice.below(50));
    assert!(!dice.below(50));
    assert!(!dice.below(500));
    assert!(dice.below(501));
}

#[test]
fn live_dice_stay_in_range() {
    let mut dice = Dice::live(2000);
    assert_eq!(dice.remaining(), 2000);
    let mut seen_other_than_bound = false;
    for _ in 0..2000 {
        let draw = dice.roll();
        assert!(draw < RESOLUTION);
        if draw != RESOLUTION {
            seen_other_than_bound = true;
        }
    }
    assert!(seen_other_than_bound);
    assert_eq!(dice.remaining(), 0);
}

#[test]
fn live_dice_of_no_draws() {
    let mut dice = Dice::live(0);
    assert_eq!(dice.remaining(), 0);
    assert_eq!(dice.roll(), STEADY);
}

#[test]
fn function_succeeds_eight_times_in_ten() {
    let mut dice = Dice::scripted(vec![0, 799, 800, 999]);
    assert!(function_succeeds_with(&mut dice));
    assert!(function_succeeds_with(&mut dice));
    assert!(!function_succeeds_with(&mut dice));
    assert!(!function_succeeds_with(&mut dice));
    assert!(function_succeeds_with(&mut dice));
    let chance = function_succeeds();
    assert!(chance || !chance);
}

#[test]
fn happy_keywords() {
    let table = Mood::Happy.get_keywords();
    assert_eq!(table.variable_declaration, "yay");
    assert_eq!(table.function_declaration, "celebration");
    assert_eq!(table.conditional, "perhaps");
    assert_eq!(table.loop_construct, "again_and_again");
    assert_eq!(table.return_statement, "here_you_go");
    assert_eq!(table.end_block, "done");
    assert_eq!(table.assignment, "is");
    assert_eq!(table.comment_marker, "btw");
}

#[test]
fn keywords_of_every_mood() {
    assert_eq!(
        keywords(Mood::Grumpy),
        vec![
            "ugh",
            "do_this_for_me",
            "whatever",
            "repeat_i_guess",
            "take_it",
            "finally",
            "make_it",
            "ignore_this"
        ]
    );
    assert_eq!(
        keywords(Mood::Philosophical),
        vec![
            "ponder",
            "essence_of",
            "what_if",
            "eternal_return",
            "conclude",
            "fin",
            "becomes",
            "contemplate"
        ]
    );
    assert_eq!(
        keywords(Mood::Sarcastic),
        vec![
            "supposedly",
            "try_doing",
            "as_if",
            "round_and_round",
            "there_ya_go",
            "whoopee",
            "totally_equals",
            "yeah_right"
        ]
    );
    assert_eq!(
        keywords(Mood::Confused),
        vec![
            "umm",
            "somehow",
            "maybe",
            "do_more",
            "is_this_right",
            "i_think_im_done",
            "could_be",
            "what"
        ]
    );
}

#[test]
fn operators_of_every_mood() {
    assert_eq!(
        operators(Mood::Happy),
        vec!["plus", "minus", "times", "divided_by", "same_as", "different_from"]
    );
    assert_eq!(
        operators(Mood::Grumpy),
        vec!["add", "subtract", "multiply", "divide", "equals", "not_equals"]
    );
    assert_eq!(
        operators(Mood::Philosophical),
        vec!["combine", "reduce", "amplify", "diminish", "identical", "distinct"]
    );
    assert_eq!(
        operators(Mood::Sarcastic),
        vec!["throw_in", "take_away", "duplicate", "share", "sure_same", "obviously_different"]
    );
    assert_eq!(
        operators(Mood::Confused),
        vec!["more", "less", "lots", "split", "is_it_same", "is_it_different"]
    );
}

#[test]
fn keywords_are_distinct_within_each_mood() {
    for mood in moods() {
        assert!(all_distinct(&keywords(mood)));
    }
}

#[test]
fn operators_are_distinct_within_each_mood() {
    for mood in moods() {
        assert!(all_distinct(&operators(mood)));
    }
}

#[test]
fn no_word_of_a_mood_stands_for_two_things() {
    for mood in moods() {
        let mut words = keywords(mood);
        words.extend(operators(mood));
        assert_eq!(words.len(), 14);
        assert!(all_distinct(&words));
    }
    assert_eq!(Mood::Grumpy.get_keywords().assignment, "make_it");
    assert_eq!(Mood::Grumpy.get_operators().equality, "equals");
}

#[test]
fn error_styles() {
    assert_eq!(Mood::Happy.get_error_style(), ErrorStyle::Encouraging);
    assert_eq!(Mood::Grumpy.get_error_style(), ErrorStyle::Harsh);
    assert_eq!(Mood::Philosophical.get_error_style(), ErrorStyle::Existential);
    assert_eq!(Mood::Sarcastic.get_error_style(), ErrorStyle::Mocking);
    assert_eq!(Mood::Confused.get_error_style(), ErrorStyle::Uncertain);
}

#[test]
fn declaration_words() {
    assert_eq!(Mood::Happy.get_declaration(), "happy");
    assert_eq!(Mood::Grumpy.get_declaration(), "grumpy");
    assert_eq!(Mood::Philosophical.get_declaration(), "philosophical");
    assert_eq!(Mood::Sarcastic.get_declaration(), "sarcastic");
    assert_eq!(Mood::Confused.get_declaration(), "confused");
}

#[test]
fn moods_take_turns() {
    assert_eq!(mood_at(0), Mood::Happy);
    assert_eq!(mood_at(1), Mood::Grumpy);
    assert_eq!(mood_at(2), Mood::Philosophical);
    assert_eq!(mood_at(3), Mood::Sarcastic);
    assert_eq!(mood_at(4), Mood::Confused);
    assert_eq!(mood_at(5), Mood::Happy);
    assert_eq!(mood_at(u64::MAX), Mood::Happy);
    assert!(moods().contains(&get_current_mood()));
}

#[test]
fn error_reports() {
    assert_eq!(
        PubuError::NotEnoughCompliments.headline(),
        "Your code lacks the required compliments. PUBU has feelings too!"
    );
    assert_eq!(
        PubuError::NotEnoughCompliments.advice(),
        "Try adding a line like 'dear_pubu_you_look_gorgeous_today;' to your code."
    );
    assert!(PubuError::NotEnoughCompliments.quotes_philosophy());
    assert_eq!(
        PubuError::BadMood.headline(),
        "The interpreter is in a bad mood and refuses to run your code."
    );
    assert!(!PubuError::BadMood.quotes_philosophy());
    assert_eq!(
        PubuError::MoonPhaseIncompatible.advice(),
        "Try again during the next full moon."
    );
    assert_eq!(
        PubuError::RandomFailure.headline(),
        "Your code failed for absolutely no reason at all."
    );
    assert!(!PubuError::RandomFailure.quotes_philosophy());
    assert!(PubuError::PhilosophicalCrisis.quotes_philosophy());
    assert_eq!(
        PubuError::SyntaxError.headline(),
        "Syntax error, or is it? Reality is subjective."
    );
    assert!(!PubuError::AiCriticismFailure.quotes_philosophy());
    assert!(PubuError::VariableRealityDistortion.quotes_philosophy());
    let io = PubuError::IoError("no such file".to_string());
    assert_eq!(io.headline(), "A boring, conventional IO error occurred.");
    assert_eq!(io.advice(), "");
    assert!(!io.quotes_philosophy());
}
