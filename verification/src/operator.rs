use vstd::prelude::*;

verus! {

/// One instruction of the grouped program.
///
/// The count of `IncrementBy` and `DecrementBy` is the length of the run of
/// `+` or `-` characters it stands for; it is not reduced to the cell width.
#[derive(Clone, Copy, Debug, PartialEq, Eq, Structural)]
pub enum Operator {
    IncrementBy(u64),
    DecrementBy(u64),
    MoveRight,
    MoveLeft,
    LoopStart,
    LoopEnd,
    Output,
    Input,
}

/// Whether `c` is one of the eight operator characters of the language.
pub open spec fn is_operator(c: char) -> bool {
    c == '+' || c == '-' || c == '<' || c == '>' || c == '[' || c == ']' || c == '.' || c == ','
}

/// The instruction that a single operator character stands for.
/// Only meaningful where `is_operator(c)`.
pub open spec fn single(c: char) -> Operator {
    if c == '+' {
        Operator::IncrementBy(1)
    } else if c == '-' {
        Operator::DecrementBy(1)
    } else if c == '>' {
        Operator::MoveRight
    } else if c == '<' {
        Operator::MoveLeft
    } else if c == '[' {
        Operator::LoopStart
    } else if c == ']' {
        Operator::LoopEnd
    } else if c == '.' {
        Operator::Output
    } else {
        Operator::Input
    }
}

/// The characters that an instruction stands for: a run of `+` or `-` of the
/// instruction's count, or the single character of any other operator.
pub open spec fn spelling(op: Operator) -> Seq<char> {
    match op {
        Operator::IncrementBy(n) => Seq::new(n as nat, |i: int| '+'),
        Operator::DecrementBy(n) => Seq::new(n as nat, |i: int| '-'),
        Operator::MoveRight => seq!['>'],
        Operator::MoveLeft => seq!['<'],
        Operator::LoopStart => seq!['['],
        Operator::LoopEnd => seq![']'],
        Operator::Output => seq!['.'],
        Operator::Input => seq![','],
    }
}

/// Decides whether a character is an operator; every other character is a comment.
pub fn is_operator_char(c: char) -> (r: bool)
    ensures
        r == is_operator(c),
{
    c == '+' || c == '-' || c == '<' || c == '>' || c == '[' || c == ']' || c == '.' || c == ','
}

/// The instruction for one operator character, `None` for a comment character.
pub fn operator_of(c: char) -> (r: Option<Operator>)
    ensures
        is_operator(c) ==> r == Some(single(c)),
        !is_operator(c) ==> r is None,
{
    if c == '+' {
        Some(Operator::IncrementBy(1))
    } else if c == '-' {
        Some(Operator::DecrementBy(1))
    } else if c == '>' {
        Some(Operator::MoveRight)
    } else if c == '<' {
        Some(Operator::MoveLeft)
    } else if c == '[' {
        Some(Operator::LoopStart)
    } else if c == ']' {
        Some(Operator::LoopEnd)
    } else if c == '.' {
        Some(Operator::Output)
    } else if c == ',' {
        Some(Operator::Input)
    } else {
        None
    }
}

} // verus!
