//! What the operator typed at a prompt.

use crate::text::{chars_of, lowered, same_text, to_lowered, trim, trimmed};
use vstd::prelude::*;

verus! {

/// The answer to a question that wants yes or no.
#[derive(Debug, Clone, Copy, PartialEq, Eq, Structural)]
pub enum Answer {
    Yes,
    No,
    Invalid,
}

/// One of two ways offered, or neither.
#[derive(Debug, Clone, Copy, PartialEq, Eq, Structural)]
pub enum Option2 {
    First,
    Second,
    Neither,
}

/// The answer that an input stands for: trimmed and in lower case it is
/// `y` or `yes`, or `n` or `no`.
pub open spec fn answer_of(input: Seq<char>) -> Answer {
    let t = lowered(trim(input));
    if t == "y"@ || t == "yes"@ {
        Answer::Yes
    } else if t == "n"@ || t == "no"@ {
        Answer::No
    } else {
        Answer::Invalid
    }
}

/// Whether an input, trimmed and in lower case, opens with `y`.
pub open spec fn opens_with_y(input: Seq<char>) -> bool {
    lowered(trim(input)).len() > 0 && lowered(trim(input))[0] == 'y'
}

/// The way that an input stands for: trimmed it is `1` or `2`.
pub open spec fn option_of(input: Seq<char>) -> Option2 {
    if trim(input) == "1"@ {
        Option2::First
    } else if trim(input) == "2"@ {
        Option2::Second
    } else {
        Option2::Neither
    }
}

/// Whether an input holds nothing but white space.
pub open spec fn is_blank_input(input: Seq<char>) -> bool {
    trim(input).len() == 0
}

/// The answer that `input` stands for.
pub fn parse_answer(input: &str) -> (answer: Answer)
    ensures
        answer == answer_of(input@),
{
    let t = to_lowered(&trimmed(&chars_of(input)));
    if same_text(&t, &chars_of("y")) || same_text(&t, &chars_of("yes")) {
        Answer::Yes
    } else if same_text(&t, &chars_of("n")) || same_text(&t, &chars_of("no")) {
        Answer::No
    } else {
        Answer::Invalid
    }
}

/// Whether `input`, trimmed and in lower case, opens with `y`.
pub fn begins_with_y(input: &str) -> (b: bool)
    ensures
        b == opens_with_y(input@),
{
    let t = to_lowered(&trimmed(&chars_of(input)));
    t.len() > 0 && t[0] == 'y'
}

/// The way that `input` stands for.
pub fn parse_option(input: &str) -> (option: Option2)
    ensures
        option == option_of(input@),
{
    let t = trimmed(&chars_of(input));
    if same_text(&t, &chars_of("1")) {
        Option2::First
    } else if same_text(&t, &chars_of("2")) {
        Option2::Second
    } else {
        Option2::Neither
    }
}

/// Whether `input` holds nothing but white space.
pub fn is_blank(input: &str) -> (b: bool)
    ensures
        b == is_blank_input(input@),
{
    trimmed(&chars_of(input)).len() == 0
}

} // verus!
