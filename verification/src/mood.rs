//! The five moods and the words each of them gives to the language.

use vstd::prelude::*;

verus! {

/// The mood of the interpreter. It decides which words are keywords and
/// operators.
#[derive(Debug, Clone, Copy, PartialEq, Eq, Structural)]
pub enum Mood {
    Happy,
    Grumpy,
    Philosophical,
    Sarcastic,
    Confused,
}

/// The words that stand for the language constructs in one mood.
pub struct MoodKeywords {
    pub variable_declaration: &'static str,
    pub function_declaration: &'static str,
    pub conditional: &'static str,
    pub loop_construct: &'static str,
    pub return_statement: &'static str,
    pub end_block: &'static str,
    pub assignment: &'static str,
    pub comment_marker: &'static str,
}

/// The words that stand for the operators in one mood.
pub struct MoodOperators {
    pub addition: &'static str,
    pub subtraction: &'static str,
    pub multiplication: &'static str,
    pub division: &'static str,
    pub equality: &'static str,
    pub inequality: &'static str,
}

/// The tone in which a mood reports errors.
#[derive(Debug, Clone, Copy, PartialEq, Eq, Structural)]
pub enum ErrorStyle {
    /// "Don't worry! You just forgot a semicolon. You're doing great!"
    Encouraging,
    /// "WRONG. You made an obvious mistake on line 42."
    Harsh,
    /// "Is a missing bracket truly an error, or merely a different path?"
    Existential,
    /// "Oh sure, like that code was EVER going to work..."
    Mocking,
    /// "Um, I think maybe there's something wrong with line 10? Or not?"
    Uncertain,
}

impl MoodKeywords {
    /// The eight words, in the order of the fields.
    pub open spec fn words(self) -> Seq<Seq<char>> {
        seq![
            self.variable_declaration@,
            self.function_declaration@,
            self.conditional@,
            self.loop_construct@,
            self.return_statement@,
            self.end_block@,
            self.assignment@,
            self.comment_marker@,
        ]
    }
}

impl MoodOperators {
    /// The six words, in the order of the fields.
    pub open spec fn words(self) -> Seq<Seq<char>> {
        seq![
            self.addition@,
            self.subtraction@,
            self.multiplication@,
            self.division@,
            self.equality@,
            self.inequality@,
        ]
    }
}

impl Mood {
    /// The keyword table.
    pub open spec fn keywords(self) -> MoodKeywords {
        match self {
            Mood::Happy => MoodKeywords {
                variable_declaration: "yay",
                function_declaration: "celebration",
                conditional: "perhaps",
                loop_construct: "again_and_again",
                return_statement: "here_you_go",
                end_block: "done",
                assignment: "is",
                comment_marker: "btw",
            },
            Mood::Grumpy => MoodKeywords {
                variable_declaration: "ugh",
                function_declaration: "do_this_for_me",
                conditional: "whatever",
                loop_construct: "repeat_i_guess",
                return_statement: "take_it",
                end_block: "finally",
                assignment: "make_it",
                comment_marker: "ignore_this",
            },
            Mood::Philosophical => MoodKeywords {
                variable_declaration: "ponder",
                function_declaration: "essence_of",
                conditional: "what_if",
                loop_construct: "eternal_return",
                return_statement: "conclude",
                end_block: "fin",
                assignment: "becomes",
                comment_marker: "contemplate",
            },
            Mood::Sarcastic => MoodKeywords {
                variable_declaration: "supposedly",
                function_declaration: "try_doing",
                conditional: "as_if",
                loop_construct: "round_and_round",
                return_statement: "there_ya_go",
                end_block: "whoopee",
                assignment: "totally_equals",
                comment_marker: "yeah_right",
            },
            Mood::Confused => MoodKeywords {
                variable_declaration: "umm",
                function_declaration: "somehow",
                conditional: "maybe",
                loop_construct: "do_more",
                return_statement: "is_this_right",
                end_block: "i_think_im_done",
                assignment: "could_be",
                comment_marker: "what",
            },
        }
    }

    /// The operator table.
    pub open spec fn operators(self) -> MoodOperators {
        match self {
            Mood::Happy => MoodOperators {
                addition: "plus",
                subtraction: "minus",
                multiplication: "times",
                division: "divided_by",
                equality: "same_as",
                inequality: "different_from",
            },
            Mood::Grumpy => MoodOperators {
                addition: "add",
                subtraction: "subtract",
                multiplication: "multiply",
                division: "divide",
                equality: "equals",
                inequality: "not_equals",
            },
            Mood::Philosophical => MoodOperators {
                addition: "combine",
                subtraction: "reduce",
                multiplication: "amplify",
                division: "diminish",
                equality: "identical",
                inequality: "distinct",
            },
            Mood::Sarcastic => MoodOperators {
                addition: "throw_in",
                subtraction: "take_away",
                multiplication: "duplicate",
                division: "share",
                equality: "sure_same",
                inequality: "obviously_different",
            },
            Mood::Confused => MoodOperators {
                addition: "more",
                subtraction: "less",
                multiplication: "lots",
                division: "split",
                equality: "is_it_same",
                inequality: "is_it_different",
            },
        }
    }

    /// The word that opens a mood block: the name of the mood.
    pub open spec fn declaration(self) -> &'static str {
        match self {
            Mood::Happy => "happy",
            Mood::Grumpy => "grumpy",
            Mood::Philosophical => "philosophical",
            Mood::Sarcastic => "sarcastic",
            Mood::Confused => "confused",
        }
    }

    /// The compliment keywords of the mood. The happy and the grumpy mood
    /// have keywords of their own; the other moods share four.
    pub open spec fn compliments(self) -> Seq<Seq<char>> {
        match self {
            Mood::Happy => seq!["dear_pubu"@, "gorgeous"@, "brilliant"@, "amazing"@],
            Mood::Grumpy => seq!["fine_pubu"@, "not_bad"@, "decent"@],
            _ => seq!["magnificent"@, "wonderful"@, "clever"@, "smart"@],
        }
    }

    /// The fourteen words of the mood: its keywords, then its operators.
    pub open spec fn words(self) -> Seq<Seq<char>> {
        self.keywords().words() + self.operators().words()
    }

    /// The tone of each mood.
    pub open spec fn error_style(self) -> ErrorStyle {
        match self {
            Mood::Happy => ErrorStyle::Encouraging,
            Mood::Grumpy => ErrorStyle::Harsh,
            Mood::Philosophical => ErrorStyle::Existential,
            Mood::Sarcastic => ErrorStyle::Mocking,
            Mood::Confused => ErrorStyle::Uncertain,
        }
    }

    /// Get the keywords that replace standard language constructs based on mood.
    pub fn get_keywords(&self) -> (table: MoodKeywords)
        ensures
            table == self.keywords(),
    {
        match self {
            Mood::Happy => MoodKeywords {
                variable_declaration: "yay",
                function_declaration: "celebration",
                conditional: "perhaps",
                loop_construct: "again_and_again",
                return_statement: "here_you_go",
                end_block: "done",
                assignment: "is",
                comment_marker: "btw",
            },
            Mood::Grumpy => MoodKeywords {
                variable_declaration: "ugh",
                function_declaration: "do_this_for_me",
                conditional: "whatever",
                loop_construct: "repeat_i_guess",
                return_statement: "take_it",
                end_block: "finally",
                assignment: "make_it",
                comment_marker: "ignore_this",
            },
            Mood::Philosophical => MoodKeywords {
                variable_declaration: "ponder",
                function_declaration: "essence_of",
                conditional: "what_if",
                loop_construct: "eternal_return",
                return_statement: "conclude",
                end_block: "fin",
                assignment: "becomes",
                comment_marker: "contemplate",
            },
            Mood::Sarcastic => MoodKeywords {
                variable_declaration: "supposedly",
                function_declaration: "try_doing",
                conditional: "as_if",
                loop_construct: "round_and_round",
                return_statement: "there_ya_go",
                end_block: "whoopee",
                assignment: "totally_equals",
                comment_marker: "yeah_right",
            },
            Mood::Confused => MoodKeywords {
                variable_declaration: "umm",
                function_declaration: "somehow",
                conditional: "maybe",
                loop_construct: "do_more",
                return_statement: "is_this_right",
                end_block: "i_think_im_done",
                assignment: "could_be",
                comment_marker: "what",
            },
        }
    }

    /// Get the word that opens a mood block.
    pub fn get_declaration(&self) -> (word: &'static str)
        ensures
            word == self.declaration(),
    {
        match self {
            Mood::Happy => "happy",
            Mood::Grumpy => "grumpy",
            Mood::Philosophical => "philosophical",
            Mood::Sarcastic => "sarcastic",
            Mood::Confused => "confused",
        }
    }

    /// Get the error message style for the current mood.
    pub fn get_error_style(&self) -> (style: ErrorStyle)
        ensures
            style == self.error_style(),
    {
        match self {
            Mood::Happy => ErrorStyle::Encouraging,
            Mood::Grumpy => ErrorStyle::Harsh,
            Mood::Philosophical => ErrorStyle::Existential,
            Mood::Sarcastic => ErrorStyle::Mocking,
            Mood::Confused => ErrorStyle::Uncertain,
        }
    }

    /// Get operators based on the current mood.
    pub fn get_operators(&self) -> (table: MoodOperators)
        ensures
            table == self.operators(),
    {
        match self {
            Mood::Happy => MoodOperators {
                addition: "plus",
                subtraction: "minus",
                multiplication: "times",
                division: "divided_by",
                equality: "same_as",
                inequality: "different_from",
            },
            Mood::Grumpy => MoodOperators {
                addition: "add",
                subtraction: "subtract",
                multiplication: "multiply",
                division: "divide",
                equality: "equals",
                inequality: "not_equals",
            },
            Mood::Philosophical => MoodOperators {
                addition: "combine",
                subtraction: "reduce",
                multiplication: "amplify",
                division: "diminish",
                equality: "identical",
                inequality: "distinct",
            },
            Mood::Sarcastic => MoodOperators {
                addition: "throw_in",
                subtraction: "take_away",
                multiplication: "duplicate",
                division: "share",
                equality: "sure_same",
                inequality: "obviously_different",
            },
            Mood::Confused => MoodOperators {
                addition: "more",
                subtraction: "less",
                multiplication: "lots",
                division: "split",
                equality: "is_it_same",
                inequality: "is_it_different",
            },
        }
    }
}

/// Fourteen words that differ two by two hold no duplicate.
proof fn lemma_fourteen_distinct(w: Seq<Seq<char>>)
    requires
        w.len() == 14,
        w[0] != w[1] && w[0] != w[2] && w[0] != w[3] && w[0] != w[4] && w[0] != w[5] && w[0] != w[6] && w[0] != w[7] && w[0] != w[8] && w[0] != w[9] && w[0] != w[10] && w[0] != w[11] && w[0] != w[12] && w[0] != w[13],
        w[1] != w[2] && w[1] != w[3] && w[1] != w[4] && w[1] != w[5] && w[1] != w[6] && w[1] != w[7] && w[1] != w[8] && w[1] != w[9] && w[1] != w[10] && w[1] != w[11] && w[1] != w[12] && w[1] != w[13],
        w[2] != w[3] && w[2] != w[4] && w[2] != w[5] && w[2] != w[6] && w[2] != w[7] && w[2] != w[8] && w[2] != w[9] && w[2] != w[10] && w[2] != w[11] && w[2] != w[12] && w[2] != w[13],
        w[3] != w[4] && w[3] != w[5] && w[3] != w[6] && w[3] != w[7] && w[3] != w[8] && w[3] != w[9] && w[3] != w[10] && w[3] != w[11] && w[3] != w[12] && w[3] != w[13],
        w[4] != w[5] && w[4] != w[6] && w[4] != w[7] && w[4] != w[8] && w[4] != w[9] && w[4] != w[10] && w[4] != w[11] && w[4] != w[12] && w[4] != w[13],
        w[5] != w[6] && w[5] != w[7] && w[5] != w[8] && w[5] != w[9] && w[5] != w[10] && w[5] != w[11] && w[5] != w[12] && w[5] != w[13],
        w[6] != w[7] && w[6] != w[8] && w[6] != w[9] && w[6] != w[10] && w[6] != w[11] && w[6] != w[12] && w[6] != w[13],
        w[7] != w[8] && w[7] != w[9] && w[7] != w[10] && w[7] != w[11] && w[7] != w[12] && w[7] != w[13],
        w[8] != w[9] && w[8] != w[10] && w[8] != w[11] && w[8] != w[12] && w[8] != w[13],
        w[9] != w[10] && w[9] != w[11] && w[9] != w[12] && w[9] != w[13],
        w[10] != w[11] && w[10] != w[12] && w[10] != w[13],
        w[11] != w[12] && w[11] != w[13],
        w[12] != w[13],
    ensures
        w.no_duplicates(),
{
}

/// In every mood the fourteen words, keywords and operators together,
/// differ from one another: no word stands for two things.
pub proof fn lemma_words_distinct(mood: Mood)
    ensures
        mood.words().no_duplicates(),
{
    let keywords = mood.keywords();
    let operators = mood.operators();
    let w = mood.words();
    assert(keywords.words().len() == 8);
    assert(operators.words().len() == 6);
    assert(w[0] == keywords.variable_declaration@);
    assert(w[1] == keywords.function_declaration@);
    assert(w[2] == keywords.conditional@);
    assert(w[3] == keywords.loop_construct@);
    assert(w[4] == keywords.return_statement@);
    assert(w[5] == keywords.end_block@);
    assert(w[6] == keywords.assignment@);
    assert(w[7] == keywords.comment_marker@);
    assert(w[8] == operators.addition@);
    assert(w[9] == operators.subtraction@);
    assert(w[10] == operators.multiplication@);
    assert(w[11] == operators.division@);
    assert(w[12] == operators.equality@);
    assert(w[13] == operators.inequality@);
    match mood {
        Mood::Happy => {
            reveal_strlit("yay");
            reveal_strlit("celebration");
            reveal_strlit("perhaps");
            reveal_strlit("again_and_again");
            reveal_strlit("here_you_go");
            reveal_strlit("done");
            reveal_strlit("is");
            reveal_strlit("btw");
            reveal_strlit("plus");
            reveal_strlit("minus");
            reveal_strlit("times");
            reveal_strlit("divided_by");
            reveal_strlit("same_as");
            reveal_strlit("different_from");
            assert("yay"@.len() == 3);
            assert("celebration"@.len() == 11);
            assert("perhaps"@.len() == 7);
            assert("again_and_again"@.len() == 15);
            assert("here_you_go"@.len() == 11);
            assert("done"@.len() == 4);
            assert("is"@.len() == 2);
            assert("btw"@.len() == 3);
            assert("plus"@.len() == 4);
            assert("minus"@.len() == 5);
            assert("times"@.len() == 5);
            assert("divided_by"@.len() == 10);
            assert("same_as"@.len() == 7);
            assert("different_from"@.len() == 14);
            assert("yay"@[0] != "btw"@[0]);
            assert("celebration"@[0] != "here_you_go"@[0]);
            assert("perhaps"@[0] != "same_as"@[0]);
            assert("done"@[0] != "plus"@[0]);
            assert("minus"@[0] != "times"@[0]);
            lemma_fourteen_distinct(w);
        },
        Mood::Grumpy => {
            reveal_strlit("ugh");
            reveal_strlit("do_this_for_me");
            reveal_strlit("whatever");
            reveal_strlit("repeat_i_guess");
            reveal_strlit("take_it");
            reveal_strlit("finally");
            reveal_strlit("make_it");
            reveal_strlit("ignore_this");
            reveal_strlit("add");
            reveal_strlit("subtract");
            reveal_strlit("multiply");
            reveal_strlit("divide");
            reveal_strlit("equals");
            reveal_strlit("not_equals");
            assert("ugh"@.len() == 3);
            assert("do_this_for_me"@.len() == 14);
            assert("whatever"@.len() == 8);
            assert("repeat_i_guess"@.len() == 14);
            assert("take_it"@.len() == 7);
            assert("finally"@.len() == 7);
            assert("make_it"@.len() == 7);
            assert("ignore_this"@.len() == 11);
            assert("add"@.len() == 3);
            assert("subtract"@.len() == 8);
            assert("multiply"@.len() == 8);
            assert("divide"@.len() == 6);
            assert("equals"@.len() == 6);
            assert("not_equals"@.len() == 10);
            assert("ugh"@[0] != "add"@[0]);
            assert("do_this_for_me"@[0] != "repeat_i_guess"@[0]);
            assert("whatever"@[0] != "subtract"@[0]);
            assert("whatever"@[0] != "multiply"@[0]);
            assert("take_it"@[0] != "finally"@[0]);
            assert("take_it"@[0] != "make_it"@[0]);
            assert("finally"@[0] != "make_it"@[0]);
            assert("subtract"@[0] != "multiply"@[0]);
            assert("divide"@[0] != "equals"@[0]);
            lemma_fourteen_distinct(w);
        },
        Mood::Philosophical => {
            reveal_strlit("ponder");
            reveal_strlit("essence_of");
            reveal_strlit("what_if");
            reveal_strlit("eternal_return");
            reveal_strlit("conclude");
            reveal_strlit("fin");
            reveal_strlit("becomes");
            reveal_strlit("contemplate");
            reveal_strlit("combine");
            reveal_strlit("reduce");
            reveal_strlit("amplify");
            reveal_strlit("diminish");
            reveal_strlit("identical");
            reveal_strlit("distinct");
            assert("ponder"@.len() == 6);
            assert("essence_of"@.len() == 10);
            assert("what_if"@.len() == 7);
            assert("eternal_return"@.len() == 14);
            assert("conclude"@.len() == 8);
            assert("fin"@.len() == 3);
            assert("becomes"@.len() == 7);
            assert("contemplate"@.len() == 11);
            assert("combine"@.len() == 7);
            assert("reduce"@.len() == 6);
            assert("amplify"@.len() == 7);
            assert("diminish"@.len() == 8);
            assert("identical"@.len() == 9);
            assert("distinct"@.len() == 8);
            assert("ponder"@[0] != "reduce"@[0]);
            assert("what_if"@[0] != "becomes"@[0]);
            assert("what_if"@[0] != "combine"@[0]);
            assert("what_if"@[0] != "amplify"@[0]);
            assert("conclude"@[0] != "diminish"@[0]);
            assert("conclude"@[0] != "distinct"@[0]);
            assert("becomes"@[0] != "combine"@[0]);
            assert("becomes"@[0] != "amplify"@[0]);
            assert("combine"@[0] != "amplify"@[0]);
            assert("diminish"@[2] != "distinct"@[2]);
            lemma_fourteen_distinct(w);
        },
        Mood::Sarcastic => {
            reveal_strlit("supposedly");
            reveal_strlit("try_doing");
            reveal_strlit("as_if");
            reveal_strlit("round_and_round");
            reveal_strlit("there_ya_go");
            reveal_strlit("whoopee");
            reveal_strlit("totally_equals");
            reveal_strlit("yeah_right");
            reveal_strlit("throw_in");
            reveal_strlit("take_away");
            reveal_strlit("duplicate");
            reveal_strlit("share");
            reveal_strlit("sure_same");
            reveal_strlit("obviously_different");
            assert("supposedly"@.len() == 10);
            assert("try_doing"@.len() == 9);
            assert("as_if"@.len() == 5);
            assert("round_and_round"@.len() == 15);
            assert("there_ya_go"@.len() == 11);
            assert("whoopee"@.len() == 7);
            assert("totally_equals"@.len() == 14);
            assert("yeah_right"@.len() == 10);
            assert("throw_in"@.len() == 8);
            assert("take_away"@.len() == 9);
            assert("duplicate"@.len() == 9);
            assert("share"@.len() == 5);
            assert("sure_same"@.len() == 9);
            assert("obviously_different"@.len() == 19);
            assert("supposedly"@[0] != "yeah_right"@[0]);
            assert("try_doing"@[1] != "take_away"@[1]);
            assert("try_doing"@[0] != "duplicate"@[0]);
            assert("try_doing"@[0] != "sure_same"@[0]);
            assert("as_if"@[0] != "share"@[0]);
            assert("take_away"@[0] != "duplicate"@[0]);
            assert("take_away"@[0] != "sure_same"@[0]);
            assert("duplicate"@[0] != "sure_same"@[0]);
            lemma_fourteen_distinct(w);
        },
        Mood::Confused => {
            reveal_strlit("umm");
            reveal_strlit("somehow");
            reveal_strlit("maybe");
            reveal_strlit("do_more");
            reveal_strlit("is_this_right");
            reveal_strlit("i_think_im_done");
            reveal_strlit("could_be");
            reveal_strlit("what");
            reveal_strlit("more");
            reveal_strlit("less");
            reveal_strlit("lots");
            reveal_strlit("split");
            reveal_strlit("is_it_same");
            reveal_strlit("is_it_different");
            assert("umm"@.len() == 3);
            assert("somehow"@.len() == 7);
            assert("maybe"@.len() == 5);
            assert("do_more"@.len() == 7);
            assert("is_this_right"@.len() == 13);
            assert("i_think_im_done"@.len() == 15);
            assert("could_be"@.len() == 8);
            assert("what"@.len() == 4);
            assert("more"@.len() == 4);
            assert("less"@.len() == 4);
            assert("lots"@.len() == 4);
            assert("split"@.len() == 5);
            assert("is_it_same"@.len() == 10);
            assert("is_it_different"@.len() == 15);
            assert("somehow"@[0] != "do_more"@[0]);
            assert("maybe"@[0] != "split"@[0]);
            assert("i_think_im_done"@[1] != "is_it_different"@[1]);
            assert("what"@[0] != "more"@[0]);
            assert("what"@[0] != "less"@[0]);
            assert("what"@[0] != "lots"@[0]);
            assert("more"@[0] != "less"@[0]);
            assert("more"@[0] != "lots"@[0]);
            assert("less"@[1] != "lots"@[1]);
            lemma_fourteen_distinct(w);
        },
    }
}

/// In every mood the eight keywords differ from one another.
pub proof fn lemma_keywords_distinct(mood: Mood)
    ensures
        mood.keywords().words().no_duplicates(),
{
    lemma_words_distinct(mood);
    let w = mood.words();
    let part = mood.keywords().words();
    assert forall|i: int, j: int| 0 <= i < part.len() && 0 <= j < part.len() && i != j implies part[i]
        != part[j] by {
        assert(w[i] == part[i]);
        assert(w[j] == part[j]);
    }
}

/// In every mood the six operator words differ from one another.
pub proof fn lemma_operators_distinct(mood: Mood)
    ensures
        mood.operators().words().no_duplicates(),
{
    lemma_words_distinct(mood);
    let w = mood.words();
    let part = mood.operators().words();
    assert(mood.keywords().words().len() == 8);
    assert forall|i: int, j: int| 0 <= i < part.len() && 0 <= j < part.len() && i != j implies part[i]
        != part[j] by {
        assert(w[8 + i] == part[i]);
        assert(w[8 + j] == part[j]);
    }
}

/// In every mood no keyword is an operator.
pub proof fn lemma_keywords_differ_from_operators(mood: Mood, k: int, o: int)
    requires
        0 <= k < 8,
        0 <= o < 6,
    ensures
        mood.keywords().words()[k] != mood.operators().words()[o],
{
    lemma_words_distinct(mood);
    let w = mood.words();
    assert(mood.keywords().words().len() == 8);
    assert(mood.operators().words().len() == 6);
    assert(w[k] == mood.keywords().words()[k]);
    assert(w[8 + o] == mood.operators().words()[o]);
}

} // verus!
