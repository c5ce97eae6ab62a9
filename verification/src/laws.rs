//! General laws of the language, stated over the model in `semantics`
//! and proved once and for all.

use vstd::prelude::*;
use crate::semantics::InterpError;
use crate::semantics::Mode;
use crate::semantics::Run;
use crate::semantics::StateV;
use crate::semantics::VarV;
use crate::semantics::add_result;
use crate::semantics::assign_result;
use crate::semantics::div_result;
use crate::semantics::drop_result;
use crate::semantics::dup_result;
use crate::semantics::idle_step;
use crate::semantics::last_end;
use crate::semantics::loop_iter;
use crate::semantics::mul_result;
use crate::semantics::over_result;
use crate::semantics::print_result;
use crate::semantics::rem_result;
use crate::semantics::run;
use crate::semantics::run_from;
use crate::semantics::sub_result;
use crate::semantics::swap_result;

verus! {

/// Underflow law: every stack-consuming operation, handed a stack
/// with fewer elements than it requires, fails with a stack
/// underflow and with nothing else — it never returns a value. The
/// assignment checks its region first, so its underflow surfaces
/// once the region itself is well-formed.
pub proof fn lemma_underflow(
    stack: Seq<i64>,
    out: Seq<i64>,
    vars: Seq<VarV>,
    region: Seq<Seq<char>>,
)
    ensures
        stack.len() < 1 ==> print_result(stack, out) == Err::<(Seq<i64>, Seq<i64>), InterpError>(
            InterpError::StackUnderflow,
        ),
        stack.len() < 1 ==> dup_result(stack) == Err::<Seq<i64>, InterpError>(
            InterpError::StackUnderflow,
        ),
        stack.len() < 1 ==> drop_result(stack) == Err::<Seq<i64>, InterpError>(
            InterpError::StackUnderflow,
        ),
        stack.len() < 2 ==> swap_result(stack) == Err::<Seq<i64>, InterpError>(
            InterpError::StackUnderflow,
        ),
        stack.len() < 2 ==> over_result(stack) == Err::<Seq<i64>, InterpError>(
            InterpError::StackUnderflow,
        ),
        stack.len() < 2 ==> add_result(stack) == Err::<Seq<i64>, InterpError>(
            InterpError::StackUnderflow,
        ),
        stack.len() < 2 ==> sub_result(stack) == Err::<Seq<i64>, InterpError>(
            InterpError::StackUnderflow,
        ),
        stack.len() < 2 ==> mul_result(stack) == Err::<Seq<i64>, InterpError>(
            InterpError::StackUnderflow,
        ),
        stack.len() < 2 ==> div_result(stack) == Err::<Seq<i64>, InterpError>(
            InterpError::StackUnderflow,
        ),
        stack.len() < 2 ==> rem_result(stack) == Err::<Seq<i64>, InterpError>(
            InterpError::StackUnderflow,
        ),
        region.len() == 2 && region[1] == "int"@ && stack.len() < 1 ==> assign_result(
            region,
            stack,
            vars,
        ) == Err::<(Seq<i64>, Seq<VarV>), InterpError>(InterpError::StackUnderflow),
{
}

/// Idempotence law: `dup drop` leaves the whole state unchanged on
/// any stack that holds at least one element, and even on an empty
/// stack the failing run changes nothing.
pub proof fn lemma_dup_drop(s: StateV)
    ensures
        s.stack.len() >= 1 ==> run(seq!["dup"@, "drop"@], s) == Run::Done(s),
        s.stack.len() == 0 ==> run(seq!["dup"@, "drop"@], s) == Run::Fail(
            InterpError::StackUnderflow,
            s,
        ),
{
    reveal_strlit("dup");
    reveal_strlit("drop");
    reveal_strlit("swap");
    reveal_strlit("over");
    reveal_strlit("print");
    reveal_strlit("loop");
    reveal_strlit("->");
    let toks = seq!["dup"@, "drop"@];
    assert("dup"@[0] == 'd' && "drop"@[0] == 'd');
    assert(!crate::semantics::is_number_token("dup"@));
    assert(!crate::semantics::is_number_token("drop"@));
    if s.stack.len() >= 1 {
        let s1 = (StateV { stack: s.stack.push(s.stack.last()), ..s });
        assert(idle_step("dup"@, s) == Ok::<StateV, InterpError>(s1));
        assert(run_from(toks, 0, Mode::Idle, 0, s) == run_from(toks, 1, Mode::Idle, 0, s1));
        let s2 = (StateV { stack: s1.stack.drop_last(), ..s1 });
        assert(idle_step("drop"@, s1) == Ok::<StateV, InterpError>(s2));
        assert(run_from(toks, 1, Mode::Idle, 0, s1) == run_from(toks, 2, Mode::Idle, 0, s2));
        assert(run_from(toks, 2, Mode::Idle, 0, s2) == Run::Done(s2));
        assert(s2.stack =~= s.stack);
        assert(s2 =~= s);
    } else {
        assert(idle_step("dup"@, s) == Err::<StateV, InterpError>(InterpError::StackUnderflow));
        assert(run_from(toks, 0, Mode::Idle, 0, s) == Run::Fail(InterpError::StackUnderflow, s));
    }
}

/// The region matcher picks the outermost close: after the index it
/// returns, no further `end` occurs below `j`.
pub proof fn lemma_last_end_is_outermost(tokens: Seq<Seq<char>>, j: int)
    requires
        0 <= j <= tokens.len(),
    ensures
        last_end(tokens, j) == -1 ==> forall|k: int| 0 <= k < j ==> (#[trigger] tokens[k])
            != "end"@,
        last_end(tokens, j) >= 0 ==> 0 <= last_end(tokens, j) < j && tokens[last_end(tokens, j)]
            == "end"@ && forall|k: int|
            last_end(tokens, j) < k < j ==> (#[trigger] tokens[k]) != "end"@,
    decreases j,
{
    if j > 0 && tokens[j - 1] != "end"@ {
        lemma_last_end_is_outermost(tokens, j - 1);
    }
}

/// Nesting law: a scan that is collecting a loop body and reaches a
/// first `end` closes the region at the *last* `end` of the whole
/// token sequence — for properly nested regions the true outermost
/// close — and never at the `end` that triggered it. The body handed
/// to the loop therefore runs from the region start to that final
/// `end`.
pub proof fn lemma_loop_region_outermost(tokens: Seq<Seq<char>>, i: int, start: int, s: StateV)
    requires
        0 <= start <= i < tokens.len(),
        tokens[i] == "end"@,
        tokens[tokens.len() - 1] == "end"@,
    ensures
        last_end(tokens, tokens.len() as int) == tokens.len() - 1,
        run_from(tokens, i, Mode::CollectingLoop, start, s) == ({
            let body = tokens.subrange(start, tokens.len() - 1);
            if s.stack.len() < 1 {
                Run::Fail(InterpError::StackUnderflow, s)
            } else {
                match loop_iter(body, s.stack.last() as int, (StateV {
                    stack: s.stack.drop_last(),
                    ..s
                })) {
                    Run::Done(s2) => run_from(tokens, i + 1, Mode::Idle, start, s2),
                    Run::Fail(e, s2) => Run::Fail(e, s2),
                }
            }
        }),
{
    lemma_last_end_is_outermost(tokens, tokens.len() as int);
}

} // verus!
