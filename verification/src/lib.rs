//! PUBU: a small scripting language whose keywords follow the interpreter's
//! mood, whose programs must flatter the interpreter before they may run, and
//! whose evaluation consults a source of chance at fixed points.
//!
//! The pipeline is `lexer` -> `parser` -> `interpreter`. Every stage takes the
//! chance it consults as a [`chance::Dice`], so a run is a function of the
//! source text, the mood, the lunar day and the draws: [`evaluation`] states
//! it, and [`evaluate_with`] computes it.

use crate::ast::{rendered, Value};
use crate::budget::{lemma_interpretation_within_toll, lemma_parse_within_budget, taken};
use crate::chance::{draws_in_range, first_draw, later_draws, Dice};
use crate::clock::{days_in, seconds_since_epoch, SECONDS_PER_DAY};
use crate::error::PubuError;
use crate::interpreter::{
    interpreted, lunar_compatible, lunar_compatible_on, Interpreter, NoticeView, Session,
};
use crate::lexer::{
    flatters_nobody, is_compliment, lemma_tokens_no_more_than_characters, mentions_one_of, scanned, Lexer,
    SCAN_FAILS_BELOW,
};
use crate::mood::Mood;
use crate::parser::{
    calm, lemma_program_weighs_no_more_than_its_tokens, lemma_unflattering_text_is_refused,
    parsed_program, Parser,
};
use crate::text::{chars_of, occurs, occurs_at, stands_at};
use vstd::prelude::*;

pub mod ast;
pub mod budget;
pub mod chance;
pub mod clock;
pub mod error;
pub mod interpreter;
pub mod lexer;
pub mod mood;
pub mod number;
pub mod parser;
pub mod text;
pub mod utils;

verus! {

/// The PUBU language version.
pub const VERSION: &'static str = "0.1.0";

/// The least draw on which a function fails: eight draws in ten let it
/// succeed.
pub const SUCCESS_BELOW: u32 = 800;

/// The largest draw on which a grumpy interpreter takes up a text: a larger
/// one makes it refuse.
pub const GRUMPY_RUNS_UP_TO: u32 = 300;

/// Determines whether a function succeeds, with the next draw of `dice`.
pub fn function_succeeds_with(dice: &mut Dice) -> (success: bool)
    ensures
        success == (first_draw(old(dice)@) < SUCCESS_BELOW),
        final(dice)@ == later_draws(old(dice)@),
{
    dice.below(SUCCESS_BELOW)
}

/// Determines if a function should succeed based on random chance: on one
/// draw from the random generator of the current thread.
pub fn function_succeeds() -> (success: bool)
    ensures
        exists|draws: Seq<u32>|
            draws.len() == 1 && draws_in_range(draws) && success == (#[trigger] first_draw(draws)
                < SUCCESS_BELOW),
{
    let mut dice = Dice::live(1);
    let ghost draws = dice@;
    let success = function_succeeds_with(&mut dice);
    assert(success == (first_draw(draws) < SUCCESS_BELOW));
    success
}

/// The mood of the second `seconds`: the moods take turns, second by
/// second.
pub open spec fn mood_of_second(seconds: u64) -> Mood {
    if seconds % 5 == 0 {
        Mood::Happy
    } else if seconds % 5 == 1 {
        Mood::Grumpy
    } else if seconds % 5 == 2 {
        Mood::Philosophical
    } else if seconds % 5 == 3 {
        Mood::Sarcastic
    } else {
        Mood::Confused
    }
}

/// The mood of the interpreter in the second `seconds` after the start of
/// 1970.
pub fn mood_at(seconds: u64) -> (mood: Mood)
    ensures
        mood == mood_of_second(seconds),
{
    let turn = seconds % 5;
    if turn == 0 {
        Mood::Happy
    } else if turn == 1 {
        Mood::Grumpy
    } else if turn == 2 {
        Mood::Philosophical
    } else if turn == 3 {
        Mood::Sarcastic
    } else {
        Mood::Confused
    }
}

/// Gets the current mood of the interpreter based on system time: the mood
/// of the second that the system clock shows.
pub fn get_current_mood() -> (mood: Mood)
    ensures
        exists|seconds: u64| mood == #[trigger] mood_of_second(seconds),
{
    let seconds = seconds_since_epoch();
    let mood = mood_at(seconds);
    assert(mood == mood_of_second(seconds));
    mood
}

/// How often `needle` stands in `hay` from `at` on, counted from left to
/// right, where an occurrence that overlaps the one counted before it does
/// not count. An empty needle is not counted.
pub open spec fn count_from(hay: Seq<char>, needle: Seq<char>, at: int) -> nat
    decreases hay.len() - at,
{
    if needle.len() == 0 || at < 0 || at + needle.len() > hay.len() {
        0
    } else if occurs_at(hay, needle, at) {
        1 + count_from(hay, needle, at + needle.len())
    } else {
        count_from(hay, needle, at + 1)
    }
}

/// The compliment keywords that are counted in a text, whatever the mood:
/// those of the happy mood and those that the moods without keywords of
/// their own share.
pub open spec fn counted_keywords() -> Seq<Seq<char>> {
    seq![
        "dear_pubu"@,
        "gorgeous"@,
        "brilliant"@,
        "amazing"@,
        "magnificent"@,
        "wonderful"@,
        "clever"@,
        "smart"@,
    ]
}

/// How many compliments stand in `src`: the occurrences of each of the
/// counted keywords, added up.
pub open spec fn compliments_in(src: Seq<char>) -> nat {
    count_from(src, "dear_pubu"@, 0) + count_from(src, "gorgeous"@, 0) + count_from(
        src,
        "brilliant"@,
        0,
    ) + count_from(src, "amazing"@, 0) + count_from(src, "magnificent"@, 0) + count_from(
        src,
        "wonderful"@,
        0,
    ) + count_from(src, "clever"@, 0) + count_from(src, "smart"@, 0)
}

/// None of the counted keywords is empty.
proof fn lemma_counted_keywords_hold_characters()
    ensures
        "dear_pubu"@.len() == 9,
        "gorgeous"@.len() == 8,
        "brilliant"@.len() == 9,
        "amazing"@.len() == 7,
        "magnificent"@.len() == 11,
        "wonderful"@.len() == 9,
        "clever"@.len() == 6,
        "smart"@.len() == 5,
{
    reveal_strlit("dear_pubu");
    reveal_strlit("gorgeous");
    reveal_strlit("brilliant");
    reveal_strlit("amazing");
    reveal_strlit("magnificent");
    reveal_strlit("wonderful");
    reveal_strlit("clever");
    reveal_strlit("smart");
}

/// Where the count is zero, the needle stands nowhere from `at` on.
proof fn lemma_zero_count_no_occurrence(hay: Seq<char>, needle: Seq<char>, at: int, place: int)
    requires
        needle.len() > 0,
        0 <= at <= place,
        count_from(hay, needle, at) == 0,
    ensures
        !occurs_at(hay, needle, place),
    decreases hay.len() - at,
{
    if at + needle.len() <= hay.len() && at < place {
        lemma_zero_count_no_occurrence(hay, needle, at + 1, place);
    }
}

/// Where no occurrence of `needle` is counted in `hay`, it does not stand
/// there.
proof fn lemma_uncounted_is_absent(hay: Seq<char>, needle: Seq<char>)
    requires
        needle.len() > 0,
        count_from(hay, needle, 0) == 0,
    ensures
        !occurs(hay, needle),
{
    assert forall|place: int| !occurs_at(hay, needle, place) by {
        if place >= 0 {
            lemma_zero_count_no_occurrence(hay, needle, 0, place);
        }
    }
}

/// A text in which no compliment is counted holds none of the counted
/// keywords, and so no compliment keyword of any mood but the grumpy one.
pub proof fn lemma_no_compliment_counted_none_mentioned(src: Seq<char>, mood: Mood)
    requires
        compliments_in(src) == 0,
    ensures
        !mentions_one_of(src, counted_keywords()),
        mood != Mood::Grumpy ==> flatters_nobody(src, mood),
{
    lemma_counted_keywords_hold_characters();
    lemma_uncounted_is_absent(src, "dear_pubu"@);
    lemma_uncounted_is_absent(src, "gorgeous"@);
    lemma_uncounted_is_absent(src, "brilliant"@);
    lemma_uncounted_is_absent(src, "amazing"@);
    lemma_uncounted_is_absent(src, "magnificent"@);
    lemma_uncounted_is_absent(src, "wonderful"@);
    lemma_uncounted_is_absent(src, "clever"@);
    lemma_uncounted_is_absent(src, "smart"@);
    let keywords = counted_keywords();
    assert(keywords[0] == "dear_pubu"@ && keywords[1] == "gorgeous"@ && keywords[2]
        == "brilliant"@ && keywords[3] == "amazing"@ && keywords[4] == "magnificent"@
        && keywords[5] == "wonderful"@ && keywords[6] == "clever"@ && keywords[7] == "smart"@);
    let own = mood.compliments();
    if mood == Mood::Happy {
        assert(own[0] == "dear_pubu"@ && own[1] == "gorgeous"@ && own[2] == "brilliant"@ && own[3]
            == "amazing"@);
    } else if mood != Mood::Grumpy {
        assert(own[0] == "magnificent"@ && own[1] == "wonderful"@ && own[2] == "clever"@ && own[3]
            == "smart"@);
    }
}

/// A text in which no compliment is counted never parses into a program in
/// a mood other than the grumpy one, nor in the grumpy mood if none of its
/// compliment keywords stands in the text: where no draw to come is below
/// the threshold of a crisis, the parse of its tokens fails for want of a
/// compliment.
pub proof fn lemma_uncounted_text_is_refused(src: Seq<char>, mood: Mood, draws: Seq<u32>)
    requires
        compliments_in(src) == 0,
        mood == Mood::Grumpy ==> flatters_nobody(src, mood),
        calm(draws),
    ensures
        parsed_program(scanned(src, mood), mood, draws).result == Err::<
            crate::ast::NodeView,
            PubuError,
        >(PubuError::NotEnoughCompliments),
{
    lemma_no_compliment_counted_none_mentioned(src, mood);
    lemma_unflattering_text_is_refused(src, mood, draws);
}

/// How often `needle` stands in `hay`.
fn count_occurrences(hay: &Vec<char>, needle: &str) -> (count: usize)
    requires
        needle@.len() > 0,
    ensures
        count == count_from(hay@, needle@, 0),
        count <= hay@.len(),
{
    let wanted = chars_of(needle);
    let mut count: usize = 0;
    let mut at: usize = 0;
    while at < hay.len()
        invariant
            wanted@ == needle@,
            wanted@.len() > 0,
            count <= at <= hay@.len(),
            count + count_from(hay@, wanted@, at as int) == count_from(hay@, wanted@, 0),
        decreases hay@.len() - at,
    {
        if stands_at(hay, &wanted, at) {
            count = count + 1;
            at = at + wanted.len();
        } else {
            at = at + 1;
        }
    }
    count
}

/// Counts compliments in the source code.
pub fn count_compliments(source: &str) -> (count: usize)
    requires
        source@.len() <= usize::MAX / 8,
    ensures
        count == compliments_in(source@),
{
    proof {
        lemma_counted_keywords_hold_characters();
    }
    let hay = chars_of(source);
    let mut count: usize = count_occurrences(&hay, "dear_pubu");
    count = count + count_occurrences(&hay, "gorgeous");
    count = count + count_occurrences(&hay, "brilliant");
    count = count + count_occurrences(&hay, "amazing");
    count = count + count_occurrences(&hay, "magnificent");
    count = count + count_occurrences(&hay, "wonderful");
    count = count + count_occurrences(&hay, "clever");
    count = count + count_occurrences(&hay, "smart");
    count
}

/// Checks if code can run based on the current phase of the moon: on the
/// day that the system clock shows.
pub fn is_lunar_compatible() -> (compatible: bool)
    ensures
        exists|seconds: u64| compatible == lunar_compatible(#[trigger] days_in(seconds)),
{
    let seconds = seconds_since_epoch();
    let compatible = lunar_compatible_on(seconds / SECONDS_PER_DAY);
    assert(compatible == lunar_compatible(days_in(seconds)));
    compatible
}

/// The session of an interpreter that has done nothing yet, with `draws` to
/// come.
pub open spec fn new_session(draws: Seq<u32>) -> Session {
    Session { compliments: 0, questions: 0, draws, notices: Seq::<NoticeView>::empty() }
}

/// How a whole run ended: the final value in writing, or the error, and the
/// draws left to come.
pub struct Evaluation {
    pub result: Result<Seq<char>, PubuError>,
    pub draws: Seq<u32>,
}

/// What running the text `src` does in `mood` on lunar day `day`, with
/// `draws` to come.
///
/// A text in which no compliment is counted, and in which no compliment
/// keyword of the mood stands, is refused before any draw. A grumpy
/// interpreter takes a draw and refuses in a bad mood if the draw is above
/// [`GRUMPY_RUNS_UP_TO`]. Then the text is cut into tokens, the tokens are
/// parsed and the program is interpreted by a new interpreter; the first
/// stage that fails ends the run with its error. The result of a run that
/// succeeds is the final value in writing.
pub open spec fn evaluation(src: Seq<char>, mood: Mood, day: u64, draws: Seq<u32>) -> Evaluation {
    if compliments_in(src) < 1 && flatters_nobody(src, mood) {
        Evaluation { result: Err(PubuError::NotEnoughCompliments), draws }
    } else if mood == Mood::Grumpy && first_draw(draws) > GRUMPY_RUNS_UP_TO {
        Evaluation { result: Err(PubuError::BadMood), draws: later_draws(draws) }
    } else {
        let rest = if mood == Mood::Grumpy {
            later_draws(draws)
        } else {
            draws
        };
        if first_draw(rest) < SCAN_FAILS_BELOW {
            Evaluation { result: Err(PubuError::RandomFailure), draws: later_draws(rest) }
        } else {
            let parsed = parsed_program(scanned(src, mood), mood, later_draws(rest));
            match parsed.result {
                Err(error) => Evaluation { result: Err(error), draws: parsed.draws },
                Ok(program) => {
                    let outcome = interpreted(program, new_session(parsed.draws), day);
                    match outcome.result {
                        Err(error) => Evaluation {
                            result: Err(error),
                            draws: outcome.session.draws,
                        },
                        Ok(value) => Evaluation {
                            result: Ok(rendered(value)),
                            draws: outcome.session.draws,
                        },
                    }
                },
            }
        }
    }
}

/// A run takes no more than five draws for each character of the text and
/// eleven more: a source of chance that holds more is not used up.
pub proof fn lemma_run_within_budget(src: Seq<char>, mood: Mood, day: u64, draws: Seq<u32>)
    ensures
        0 <= taken(draws, evaluation(src, mood, day, draws).draws) <= 5 * src.len() + 11,
{
    let rest = if mood == Mood::Grumpy {
        later_draws(draws)
    } else {
        draws
    };
    let tokens = scanned(src, mood);
    lemma_tokens_no_more_than_characters(src, mood);
    lemma_parse_within_budget(tokens, mood, later_draws(rest));
    let parsed = parsed_program(tokens, mood, later_draws(rest));
    match parsed.result {
        Ok(program) => {
            lemma_interpretation_within_toll(program, new_session(parsed.draws), day);
        },
        Err(_) => {},
    }
}

/// What `result` is, with the text as a sequence of characters.
pub open spec fn written(result: Result<String, PubuError>) -> Result<Seq<char>, PubuError> {
    match result {
        Ok(text) => Ok(text@),
        Err(error) => Err(error),
    }
}

/// Evaluates source code with PUBU's absurd rules, in `mood`, on lunar day
/// `lunar_day`, with the draws of `dice`.
pub fn evaluate_with(source: &str, mood: Mood, lunar_day: u64, dice: &mut Dice) -> (result: Result<
    String,
    PubuError,
>)
    requires
        source@.len() <= usize::MAX / 8,
    ensures
        written(result) == evaluation(source@, mood, lunar_day, old(dice)@).result,
        final(dice)@ == evaluation(source@, mood, lunar_day, old(dice)@).draws,
{
    if count_compliments(source) < 1 && !is_compliment(&chars_of(source), mood) {
        return Err(PubuError::NotEnoughCompliments);
    }
    match mood {
        Mood::Grumpy => {
            let draw = dice.roll();
            if draw > GRUMPY_RUNS_UP_TO {
                return Err(PubuError::BadMood);
            }
        },
        _ => {},
    }
    let mut lexer = Lexer::new(source.to_owned(), mood);
    let tokens = lexer.scan_tokens(dice)?;
    let ghost seen = crate::lexer::tokens_view(tokens@);
    let ghost before = dice@;
    let mut parser = Parser::new(tokens, mood);
    let program = parser.parse(dice)?;
    proof {
        lemma_program_weighs_no_more_than_its_tokens(seen, mood, before);
    }
    let mut interpreter = Interpreter::on_day(lunar_day);
    assert(parser.tokens@.len() == parser.tokens.len());
    assert(crate::interpreter::notices_view(interpreter.notices@) =~= Seq::<NoticeView>::empty());
    let value: Value = interpreter.interpret(program, dice)?;
    Ok(value.render())
}

/// Evaluates source code with PUBU's absurd rules: in the mood and on the
/// day that the system clock shows, with draws taken from the random
/// generator of the current thread, eight for each character of the text and
/// sixteen more. The run does not use them up.
pub fn evaluate(source: &str) -> (result: Result<String, PubuError>)
    requires
        source@.len() <= usize::MAX / 8 - 2,
    ensures
        exists|mood: Mood, day: u64, draws: Seq<u32>|
            {
                &&& draws_in_range(draws)
                &&& written(result) == (#[trigger] evaluation(source@, mood, day, draws)).result
                &&& evaluation(source@, mood, day, draws).draws.len() > 0
            },
{
    let seconds = seconds_since_epoch();
    let mood = mood_at(seconds);
    let day = seconds / SECONDS_PER_DAY;
    let length = source.unicode_len();
    let mut dice = Dice::live(8 * length + 16);
    let ghost draws = dice@;
    let result = evaluate_with(source, mood, day, &mut dice);
    proof {
        lemma_run_within_budget(source@, mood, day, draws);
        assert(written(result) == evaluation(source@, mood, day, draws).result);
    }
    result
}

} // verus!
