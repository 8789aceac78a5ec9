//! The ways in which a program can fail.

use vstd::prelude::*;

verus! {

/// Why a stage of the pipeline gave up.
#[derive(Debug, Clone, PartialEq, Eq)]
pub enum PubuError {
    /// The program holds no compliment.
    NotEnoughCompliments,
    /// A grumpy block refused to run.
    BadMood,
    /// A lunar block was met on a day outside the full moon.
    MoonPhaseIncompatible,
    /// A failure for no reason at all.
    RandomFailure,
    /// A question was missing, or the parser lost heart.
    PhilosophicalCrisis,
    /// The tokens do not form a program.
    SyntaxError,
    /// Kept for the critic.
    AiCriticismFailure,
    /// Kept for variables that change on their own.
    VariableRealityDistortion,
    /// The input could not be read; the text is the reader's message.
    IoError(String),
}

impl PubuError {
    /// The first line of the report on this error.
    pub open spec fn headline_text(self) -> Seq<char> {
        match self {
            PubuError::NotEnoughCompliments =>
                "Your code lacks the required compliments. PUBU has feelings too!"@,
            PubuError::BadMood =>
                "The interpreter is in a bad mood and refuses to run your code."@,
            PubuError::MoonPhaseIncompatible =>
                "This code can only run during the correct lunar phase."@,
            PubuError::RandomFailure => "Your code failed for absolutely no reason at all."@,
            PubuError::PhilosophicalCrisis =>
                "PUBU is having an existential crisis and cannot continue."@,
            PubuError::SyntaxError => "Syntax error, or is it? Reality is subjective."@,
            PubuError::AiCriticismFailure =>
                "The AI critic has deemed your code aesthetically displeasing."@,
            PubuError::VariableRealityDistortion =>
                "A variable has spontaneously changed its value due to cosmic radiation."@,
            PubuError::IoError(_) => "A boring, conventional IO error occurred."@,
        }
    }

    /// The second line of the report on this error: what to do about it.
    /// An input error has none.
    pub open spec fn advice_text(self) -> Seq<char> {
        match self {
            PubuError::NotEnoughCompliments =>
                "Try adding a line like 'dear_pubu_you_look_gorgeous_today;' to your code."@,
            PubuError::BadMood => "Try again later or compliment PUBU more profusely."@,
            PubuError::MoonPhaseIncompatible => "Try again during the next full moon."@,
            PubuError::RandomFailure =>
                "This is a feature, not a bug. Try running it again identically."@,
            PubuError::PhilosophicalCrisis =>
                "Your code raised fundamental questions about the nature of computation."@,
            PubuError::SyntaxError =>
                "Check your syntax, or don't. PUBU might interpret it differently next time."@,
            PubuError::AiCriticismFailure =>
                "Consider rewriting with more elegance and fewer goto statements."@,
            PubuError::VariableRealityDistortion =>
                "This simulation of cosmic bit-flipping is an authentic experience of real-world computing."@,
            PubuError::IoError(_) => ""@,
        }
    }

    /// Whether the report on this error closes with a philosophical quote
    /// (otherwise with a random fact). An input error closes with neither,
    /// and counts among the facts here.
    pub open spec fn closes_with_quote(self) -> bool {
        match self {
            PubuError::NotEnoughCompliments
            | PubuError::MoonPhaseIncompatible
            | PubuError::PhilosophicalCrisis
            | PubuError::SyntaxError
            | PubuError::VariableRealityDistortion => true,
            _ => false,
        }
    }

    /// The first line of the report on this error.
    pub fn headline(&self) -> (line: &'static str)
        ensures
            line@ == self.headline_text(),
    {
        match self {
            PubuError::NotEnoughCompliments =>
                "Your code lacks the required compliments. PUBU has feelings too!",
            PubuError::BadMood => "The interpreter is in a bad mood and refuses to run your code.",
            PubuError::MoonPhaseIncompatible =>
                "This code can only run during the correct lunar phase.",
            PubuError::RandomFailure => "Your code failed for absolutely no reason at all.",
            PubuError::PhilosophicalCrisis =>
                "PUBU is having an existential crisis and cannot continue.",
            PubuError::SyntaxError => "Syntax error, or is it? Reality is subjective.",
            PubuError::AiCriticismFailure =>
                "The AI critic has deemed your code aesthetically displeasing.",
            PubuError::VariableRealityDistortion =>
                "A variable has spontaneously changed its value due to cosmic radiation.",
            PubuError::IoError(_) => "A boring, conventional IO error occurred.",
        }
    }

    /// The second line of the report on this error.
    pub fn advice(&self) -> (line: &'static str)
        ensures
            line@ == self.advice_text(),
    {
        match self {
            PubuError::NotEnoughCompliments =>
                "Try adding a line like 'dear_pubu_you_look_gorgeous_today;' to your code.",
            PubuError::BadMood => "Try again later or compliment PUBU more profusely.",
            PubuError::MoonPhaseIncompatible => "Try again during the next full moon.",
            PubuError::RandomFailure =>
                "This is a feature, not a bug. Try running it again identically.",
            PubuError::PhilosophicalCrisis =>
                "Your code raised fundamental questions about the nature of computation.",
            PubuError::SyntaxError =>
                "Check your syntax, or don't. PUBU might interpret it differently next time.",
            PubuError::AiCriticismFailure =>
                "Consider rewriting with more elegance and fewer goto statements.",
            PubuError::VariableRealityDistortion =>
                "This simulation of cosmic bit-flipping is an authentic experience of real-world computing.",
            PubuError::IoError(_) => "",
        }
    }

    /// Whether the report on this error closes with a philosophical quote.
    pub fn quotes_philosophy(&self) -> (quote: bool)
        ensures
            quote == self.closes_with_quote(),
    {
        match self {
            PubuError::NotEnoughCompliments
            | PubuError::MoonPhaseIncompatible
            | PubuError::PhilosophicalCrisis
            | PubuError::SyntaxError
            | PubuError::VariableRealityDistortion => true,
            _ => false,
        }
    }
}

} // verus!
