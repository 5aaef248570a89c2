use vstd::prelude::*;

use crate::error::EngineError;
use crate::instruction::Instruction;

verus! {

/// The positions of the `LoopStart` instructions among the first `k`
/// instructions of `p` that no later `LoopEnd` among them closes, oldest
/// first; `None` when one of those `LoopEnd` instructions has nothing to close.
pub open spec fn open_loops(p: Seq<Instruction>, k: int) -> Option<Seq<int>>
    decreases k,
{
    if k <= 0 {
        Some(Seq::empty())
    } else {
        match open_loops(p, k - 1) {
            None => None,
            Some(s) => match p[k - 1] {
                Instruction::LoopStart => Some(s.push(k - 1)),
                Instruction::LoopEnd => if s.len() == 0 {
                    None
                } else {
                    Some(s.drop_last())
                },
                _ => Some(s),
            },
        }
    }
}

/// Every `LoopEnd` of `p` closes a `LoopStart` before it, and every
/// `LoopStart` is closed.
pub open spec fn balanced(p: Seq<Instruction>) -> bool {
    open_loops(p, p.len() as int) == Some(Seq::<int>::empty())
}

/// The position of the `LoopStart` that the `LoopEnd` at `j` closes.
pub open spec fn loop_start_of(p: Seq<Instruction>, j: int) -> int {
    open_loops(p, j).unwrap().last()
}

/// Whether `position` is where the brackets of `p` first go wrong: the first
/// `LoopEnd` that has nothing to close or, where there is none, the oldest
/// `LoopStart` that is never closed.
pub open spec fn unbalanced_at(p: Seq<Instruction>, position: int) -> bool {
    ||| 0 <= position < p.len() && open_loops(p, position) is Some && open_loops(
        p,
        position + 1,
    ) is None
    ||| open_loops(p, p.len() as int) matches Some(s) && s.len() > 0 && position == s[0]
}

/// What a jump table of `p` holds: for each `LoopEnd` the position of the
/// `LoopStart` that it closes, for each `LoopStart` the position of the
/// `LoopEnd` that closes it, and for every other instruction its own position.
pub open spec fn is_jump_table(p: Seq<Instruction>, jumps: Seq<usize>) -> bool {
    &&& jumps.len() == p.len()
    &&& forall|j: int|
        0 <= j < p.len() && p[j] == Instruction::LoopEnd ==> #[trigger] jumps[j]
            == loop_start_of(p, j)
    &&& forall|i: int|
        0 <= i < p.len() && p[i] == Instruction::LoopStart ==> {
            let j = #[trigger] jumps[i] as int;
            &&& j < p.len()
            &&& p[j] == Instruction::LoopEnd
            &&& loop_start_of(p, j) == i
        }
    &&& forall|k: int|
        0 <= k < p.len() && p[k] != Instruction::LoopStart && p[k] != Instruction::LoopEnd
            ==> #[trigger] jumps[k] == k
}

/// Once the brackets of a prefix have gone wrong, every longer prefix has too.
pub proof fn lemma_unbalanced_stays(p: Seq<Instruction>, k: int, m: int)
    requires
        0 <= k <= m,
        open_loops(p, k) is None,
    ensures
        open_loops(p, m) is None,
    decreases m - k,
{
    if k < m {
        lemma_unbalanced_stays(p, k, m - 1);
    }
}

/// A position that a prefix leaves open is a `LoopStart` before the end of
/// that prefix.
pub proof fn lemma_open_loops_bounded(p: Seq<Instruction>, k: int)
    requires
        0 <= k <= p.len(),
        open_loops(p, k) is Some,
    ensures
        forall|m: int|
            0 <= m < open_loops(p, k).unwrap().len() ==> 0 <= #[trigger] open_loops(
                p,
                k,
            ).unwrap()[m] < k,
    decreases k,
{
    if k > 0 {
        lemma_open_loops_bounded(p, k - 1);
    }
}

/// In a balanced program every `LoopEnd` closes a `LoopStart` before it.
pub proof fn lemma_loop_end_closes(p: Seq<Instruction>, j: int)
    requires
        balanced(p),
        0 <= j < p.len(),
        p[j] == Instruction::LoopEnd,
    ensures
        open_loops(p, j) matches Some(s) && s.len() > 0,
        0 <= loop_start_of(p, j) < j,
{
    if open_loops(p, j + 1) is None {
        lemma_unbalanced_stays(p, j + 1, p.len() as int);
    }
    lemma_open_loops_bounded(p, j);
}

/// The positions in a stack of `usize`, as integers.
pub open spec fn as_ints(s: Seq<usize>) -> Seq<int> {
    s.map_values(|x: usize| x as int)
}

/// Pairs the brackets of a program in one pass. Fails on the first position
/// where they go wrong.
pub fn match_loops(program: &Vec<Instruction>) -> (r: Result<Vec<usize>, EngineError>)
    ensures
        balanced(program@) <==> r.is_ok(),
        r matches Ok(jumps) ==> is_jump_table(program@, jumps@),
        r matches Err(e) ==> (e matches EngineError::UnbalancedLoopError { position }
            && unbalanced_at(program@, position as int)),
{
    let ghost p = program@;
    let n = program.len();
    let mut jumps: Vec<usize> = Vec::new();
    let mut k: usize = 0;
    while k < n
        invariant
            n == p.len(),
            k <= n,
            jumps@.len() == k,
            forall|m: int| 0 <= m < k ==> #[trigger] jumps@[m] == m,
        decreases n - k,
    {
        jumps.push(k);
        k = k + 1;
    }
    let mut stack: Vec<usize> = Vec::new();
    k = 0;
    while k < n
        invariant
            p == program@,
            n == p.len(),
            k <= n,
            jumps@.len() == n,
            open_loops(p, k as int) == Some(as_ints(stack@)),
            forall|m: int| 0 <= m < stack@.len() ==> #[trigger] stack@[m] < k,
            forall|m: int|
                0 <= m < stack@.len() ==> p[#[trigger] stack@[m] as int]
                    == Instruction::LoopStart,
            forall|m1: int, m2: int|
                0 <= m1 < m2 < stack@.len() ==> #[trigger] stack@[m1] < #[trigger] stack@[m2],
            forall|j: int|
                0 <= j < k && p[j] == Instruction::LoopEnd ==> #[trigger] jumps@[j]
                    == loop_start_of(p, j),
            forall|i: int|
                0 <= i < k && p[i] == Instruction::LoopStart ==> (as_ints(stack@).contains(i)
                    || {
                    let j = #[trigger] jumps@[i] as int;
                    &&& j < k
                    &&& p[j] == Instruction::LoopEnd
                    &&& loop_start_of(p, j) == i
                }),
            forall|m: int|
                0 <= m < n && (m >= k || (p[m] != Instruction::LoopStart && p[m]
                    != Instruction::LoopEnd)) ==> #[trigger] jumps@[m] == m,
        decreases n - k,
    {
        let ghost before = stack@;
        match program[k] {
            Instruction::LoopStart => {
                stack.push(k);
                proof {
                    assert(as_ints(stack@) =~= as_ints(before).push(k as int));
                    assert forall|i: int|
                        0 <= i < k + 1 && p[i] == Instruction::LoopStart && !as_ints(
                            stack@,
                        ).contains(i) implies jumps@[i] < k && p[jumps@[i] as int]
                        == Instruction::LoopEnd && loop_start_of(p, jumps@[i] as int) == i by {
                        if i == k {
                            assert(as_ints(stack@)[stack@.len() - 1] == i);
                        } else if as_ints(before).contains(i) {
                            let m = choose|m: int|
                                0 <= m < before.len() && as_ints(before)[m] == i;
                            assert(as_ints(stack@)[m] == i);
                        }
                    }
                }
            },
            Instruction::LoopEnd => {
                if stack.len() == 0 {
                    proof {
                        assert(as_ints(stack@) =~= Seq::<int>::empty());
                        assert(open_loops(p, k + 1) is None);
                        lemma_unbalanced_stays(p, k + 1, n as int);
                    }
                    return Err(EngineError::UnbalancedLoopError { position: k });
                }
                let i = stack.pop().unwrap();
                proof {
                    assert(stack@ =~= before.drop_last());
                    assert(as_ints(stack@) =~= as_ints(before).drop_last());
                    assert(loop_start_of(p, k as int) == i);
                }
                jumps.set(k, i);
                jumps.set(i, k);
                proof {
                    assert forall|i2: int|
                        0 <= i2 < k + 1 && p[i2] == Instruction::LoopStart && !as_ints(
                            stack@,
                        ).contains(i2) implies jumps@[i2] < k + 1 && p[jumps@[i2] as int]
                        == Instruction::LoopEnd && loop_start_of(p, jumps@[i2] as int)
                        == i2 by {
                        if i2 != i && as_ints(before).contains(i2) {
                            let m = choose|m: int|
                                0 <= m < before.len() && as_ints(before)[m] == i2;
                            if m == before.len() - 1 {
                                assert(i2 == i);
                            }
                            assert(as_ints(stack@)[m] == i2);
                        }
                    }
                }
            },
            _ => {
                proof {
                    assert forall|i: int|
                        0 <= i < k + 1 && p[i] == Instruction::LoopStart && !as_ints(
                            stack@,
                        ).contains(i) implies jumps@[i] < k && p[jumps@[i] as int]
                        == Instruction::LoopEnd && loop_start_of(p, jumps@[i] as int) == i by {
                        if i == k {
                        }
                    }
                }
            },
        }
        k = k + 1;
    }
    if stack.len() > 0 {
        assert(as_ints(stack@).len() > 0);
        assert(as_ints(stack@)[0] == stack@[0]);
        return Err(EngineError::UnbalancedLoopError { position: stack[0] });
    }
    proof {
        assert(as_ints(stack@) =~= Seq::<int>::empty());
    }
    Ok(jumps)
}

} // verus!
