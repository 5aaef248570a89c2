use vstd::prelude::*;

use crate::error::EngineError;
use crate::instruction::{
    all_commands, command_char, instruction_of, is_command, source_of, translate_char,
    translation, Instruction,
};

verus! {

/// The command characters of a text, in order; every other character is
/// dropped.
pub fn lexer(text: &Vec<char>) -> (r: Vec<char>)
    ensures
        r@ == text@.filter(|c: char| is_command(c)),
{
    let mut out: Vec<char> = Vec::new();
    let mut i: usize = 0;
    while i < text.len()
        invariant
            i <= text@.len(),
            out@ == text@.take(i as int).filter(|c: char| is_command(c)),
        decreases text@.len() - i,
    {
        let c = text[i];
        if translate_char(c).is_some() {
            out.push(c);
        }
        proof {
            assert(text@.take(i + 1) =~= text@.take(i as int).push(c));
            text@.take(i as int).lemma_filter_push(c, |c: char| is_command(c));
        }
        i = i + 1;
    }
    proof {
        assert(text@.take(i as int) =~= text@);
    }
    out
}

/// What the lexer keeps is made of command characters alone, so it always
/// translates.
pub proof fn lemma_lexed_is_commands(text: Seq<char>)
    ensures
        all_commands(text.filter(|c: char| is_command(c))),
{
    broadcast use vstd::seq_lib::group_filter_ensures;

    let kept = text.filter(|c: char| is_command(c));
    assert forall|k: int| 0 <= k < kept.len() implies is_command(#[trigger] kept[k]) by {}
}

/// Translates command characters into a program, one instruction per
/// character and in the same order. The first character that is no command
/// is rejected with its position.
pub fn parse(brain_code: Vec<char>) -> (r: Result<Vec<Instruction>, EngineError>)
    ensures
        all_commands(brain_code@) <==> r.is_ok(),
        r matches Ok(p) ==> p@ == translation(brain_code@),
        r matches Err(e) ==> (e matches EngineError::TranslationError { position } && position
            < brain_code@.len() && !is_command(brain_code@[position as int]) && all_commands(
            brain_code@.take(position as int),
        )),
{
    let mut code: Vec<Instruction> = Vec::new();
    let mut i: usize = 0;
    while i < brain_code.len()
        invariant
            i <= brain_code@.len(),
            all_commands(brain_code@.take(i as int)),
            code@ == translation(brain_code@.take(i as int)),
        decreases brain_code@.len() - i,
    {
        match translate_char(brain_code[i]) {
            Some(op) => {
                code.push(op);
            },
            None => {
                return Err(EngineError::TranslationError { position: i });
            },
        }
        proof {
            assert(brain_code@.take(i + 1) =~= brain_code@.take(i as int).push(brain_code@[i as int]));
            assert(code@ =~= translation(brain_code@.take(i + 1)));
        }
        i = i + 1;
    }
    proof {
        assert(brain_code@.take(i as int) =~= brain_code@);
    }
    Ok(code)
}

/// The command characters of a program, one per instruction and in order.
pub fn to_source(program: &Vec<Instruction>) -> (r: Vec<char>)
    ensures
        r@ == source_of(program@),
{
    let mut out: Vec<char> = Vec::new();
    let mut i: usize = 0;
    while i < program.len()
        invariant
            i <= program@.len(),
            out@ == source_of(program@.take(i as int)),
        decreases program@.len() - i,
    {
        out.push(command_char(program[i]));
        proof {
            assert(program@.take(i + 1) =~= program@.take(i as int).push(program@[i as int]));
            assert(out@ =~= source_of(program@.take(i + 1)));
        }
        i = i + 1;
    }
    proof {
        assert(program@.take(i as int) =~= program@);
    }
    out
}

/// Translating command characters and writing the program back as
/// characters gives the characters that were translated.
pub proof fn lemma_round_trip(s: Seq<char>)
    requires
        all_commands(s),
    ensures
        source_of(translation(s)) == s,
{
    assert forall|k: int| 0 <= k < s.len() implies source_of(translation(s))[k] == s[k] by {
        assert(is_command(s[k]));
    }
    assert(source_of(translation(s)) =~= s);
}

/// Translating the same characters twice gives the same program, and two
/// sequences of commands that translate alike are the same sequence.
pub proof fn lemma_translation_deterministic(s: Seq<char>, t: Seq<char>)
    requires
        all_commands(s),
        all_commands(t),
    ensures
        s == t ==> translation(s) == translation(t),
        translation(s) == translation(t) ==> s == t,
{
    lemma_round_trip(s);
    lemma_round_trip(t);
}

} // verus!
