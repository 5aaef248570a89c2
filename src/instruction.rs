use vstd::prelude::*;

verus! {

/// One command of the tape language.
#[derive(Clone, Copy, Debug, PartialEq, Eq, Structural)]
pub enum Instruction {
    MovePtrRight,
    MovePtrLeft,
    IncrementCell,
    DecrementCell,
    EmitOutput,
    ReadInput,
    LoopStart,
    LoopEnd,
}

/// Whether `c` is one of the eight command characters.
pub open spec fn is_command(c: char) -> bool {
    c == '>' || c == '<' || c == '+' || c == '-' || c == '.' || c == ',' || c == '['
        || c == ']'
}

/// The instruction that a command character stands for.
pub open spec fn instruction_of(c: char) -> Instruction {
    if c == '>' {
        Instruction::MovePtrRight
    } else if c == '<' {
        Instruction::MovePtrLeft
    } else if c == '+' {
        Instruction::IncrementCell
    } else if c == '-' {
        Instruction::DecrementCell
    } else if c == '.' {
        Instruction::EmitOutput
    } else if c == ',' {
        Instruction::ReadInput
    } else if c == '[' {
        Instruction::LoopStart
    } else {
        Instruction::LoopEnd
    }
}

/// The command character of an instruction.
pub open spec fn char_of(i: Instruction) -> char {
    match i {
        Instruction::MovePtrRight => '>',
        Instruction::MovePtrLeft => '<',
        Instruction::IncrementCell => '+',
        Instruction::DecrementCell => '-',
        Instruction::EmitOutput => '.',
        Instruction::ReadInput => ',',
        Instruction::LoopStart => '[',
        Instruction::LoopEnd => ']',
    }
}

/// Whether every character of `s` is a command character.
pub open spec fn all_commands(s: Seq<char>) -> bool {
    forall|k: int| 0 <= k < s.len() ==> is_command(#[trigger] s[k])
}

/// The program that a sequence of command characters stands for.
pub open spec fn translation(s: Seq<char>) -> Seq<Instruction> {
    s.map_values(|c: char| instruction_of(c))
}

/// The command characters of a program.
pub open spec fn source_of(p: Seq<Instruction>) -> Seq<char> {
    p.map_values(|i: Instruction| char_of(i))
}

/// Translates one character; `None` for a character that is no command.
pub fn translate_char(c: char) -> (r: Option<Instruction>)
    ensures
        is_command(c) <==> r.is_some(),
        is_command(c) ==> r == Some(instruction_of(c)),
{
    match c {
        '>' => Some(Instruction::MovePtrRight),
        '<' => Some(Instruction::MovePtrLeft),
        '+' => Some(Instruction::IncrementCell),
        '-' => Some(Instruction::DecrementCell),
        '.' => Some(Instruction::EmitOutput),
        ',' => Some(Instruction::ReadInput),
        '[' => Some(Instruction::LoopStart),
        ']' => Some(Instruction::LoopEnd),
        _ => None,
    }
}

/// The command character of one instruction.
pub fn command_char(i: Instruction) -> (r: char)
    ensures
        r == char_of(i),
{
    match i {
        Instruction::MovePtrRight => '>',
        Instruction::MovePtrLeft => '<',
        Instruction::IncrementCell => '+',
        Instruction::DecrementCell => '-',
        Instruction::EmitOutput => '.',
        Instruction::ReadInput => ',',
        Instruction::LoopStart => '[',
        Instruction::LoopEnd => ']',
    }
}

} // verus!
