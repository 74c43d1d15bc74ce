//! The yes/no question asked before a key that is too small is used.

use vstd::prelude::*;

verus! {

/// What follows one line read in answer to the question.
#[derive(PartialEq, Eq, Structural, Clone, Copy, Debug)]
pub enum PromptStep {
    /// The question is answered: `'y'` or `'n'`.
    Answered(char),
    /// Ask again.
    AskAgain,
}

/// The answer a read gives: the first character of the line, or `'n'` when
/// reading failed.
pub open spec fn read_answer(line: Option<Seq<char>>) -> char {
    match line {
        Some(l) => l[0],
        None => 'n',
    }
}

/// Decides what follows one read of the answer: `line` is the line read, or
/// `None` when reading failed. The question is answered once the answer is
/// `'y'` or `'n'`.
pub fn prompt_step(line: Option<&String>) -> (step: PromptStep)
    requires
        line matches Some(l) ==> l@.len() > 0,
    ensures
        ({
            let answer = read_answer(
                match line {
                    Some(l) => Some(l@),
                    None => None,
                },
            );
            step == if answer == 'y' || answer == 'n' {
                PromptStep::Answered(answer)
            } else {
                PromptStep::AskAgain
            }
        }),
{
    let answer: char = match line {
        Some(l) => l.as_str().get_char(0),
        None => 'n',
    };
    if answer == 'y' || answer == 'n' {
        PromptStep::Answered(answer)
    } else {
        PromptStep::AskAgain
    }
}

/// The answer is the first character of the line read, or `'n'` when reading
/// failed.
pub proof fn answer_is_first_character(line: Option<Seq<char>>)
    ensures
        line matches Some(l) ==> read_answer(line) == l[0],
        line is None ==> read_answer(line) == 'n',
{
}

} // verus!
