//! Mathematical model of program execution.
//!
//! A program is a sequence of tokens. Execution threads one state —
//! evaluation stack, variable table and emitted output — through the
//! tokens, left to right. The scanner is a three-state machine: in the
//! idle state every token is interpreted; after `loop` or `->` the
//! scanner only collects tokens until an `end` closes the region. A
//! `loop` region is closed at the *last* `end` of the whole remaining
//! token sequence (which, for properly nested regions, is the
//! outermost close), an assignment region at the first `end`
//! encountered; scanning then resumes right after that first `end`.
//! Every error is final: it carries the state reached so far and stops
//! the run.

use vstd::prelude::*;

verus! {

/// The reason a run stopped early. Every error ends the whole run.
#[derive(Clone, Copy, Debug, PartialEq, Eq, Structural)]
pub enum InterpError {
    /// A primitive, a loop or an assignment found fewer stack
    /// elements than it requires.
    StackUnderflow,
    /// `+` left the 64-bit signed range.
    AddOverflow,
    /// `-` left the 64-bit signed range.
    SubOverflow,
    /// `*` left the 64-bit signed range.
    MulOverflow,
    /// `/` with a zero divisor, or a quotient out of range.
    DivOverflow,
    /// `%` with a zero divisor or an out-of-range result; the
    /// remainder is otherwise exempt from the checks `/` performs.
    RemainderFault,
    /// An all-digit literal that does not fit in an `i64`.
    LiteralOverflow,
    /// A token that is no literal, keyword, operator or known
    /// variable.
    UnknownToken,
    /// An assignment region with fewer than two tokens.
    AssignTooFew,
    /// An assignment region with more than two tokens.
    AssignTooMany,
    /// An assignment whose second region token is not a known type.
    AssignInvalidType,
    /// An assignment whose identifier has a non-alphanumeric
    /// character.
    AssignInvalidIdentifier,
}

/// One variable binding: an identifier and its value.
#[verifier::ext_equal]
pub struct VarV {
    pub name: Seq<char>,
    pub value: i64,
}

/// The whole interpreter state: evaluation stack, variable table in
/// insertion order, and the values emitted by `print` so far.
#[verifier::ext_equal]
pub struct StateV {
    pub stack: Seq<i64>,
    pub vars: Seq<VarV>,
    pub out: Seq<i64>,
}

/// The outcome of a run: normal completion, or an error together with
/// the state reached when it struck.
#[verifier::ext_equal]
pub enum Run {
    Done(StateV),
    Fail(InterpError, StateV),
}

/// What the scanner is currently collecting.
#[derive(Clone, Copy)]
pub enum Mode {
    Idle,
    CollectingLoop,
    CollectingAssignment,
}

/// Whether `c` is a decimal digit.
pub open spec fn is_digit_char(c: char) -> bool {
    '0' <= c && c <= '9'
}

/// The value of a decimal digit.
pub open spec fn digit_val(c: char) -> int {
    c as int - '0' as int
}

/// Whether `t` is an integer literal: non-empty and all decimal
/// digits.
pub open spec fn is_number_token(t: Seq<char>) -> bool {
    t.len() > 0 && forall|i: int| 0 <= i < t.len() ==> is_digit_char(#[trigger] t[i])
}

/// The numeric value of a digit string.
pub open spec fn number_val(t: Seq<char>) -> int
    decreases t.len(),
{
    if t.len() == 0 {
        0
    } else {
        number_val(t.drop_last()) * 10 + digit_val(t.last())
    }
}

/// Whether `c` counts as alphanumeric for identifiers; the meaning of
/// `char::is_alphanumeric`, a function of the character alone.
pub uninterp spec fn is_alnum_char(c: char) -> bool;

/// Whether `t` may name a variable: every character alphanumeric.
pub open spec fn is_valid_identifier(t: Seq<char>) -> bool {
    forall|i: int| 0 <= i < t.len() ==> is_alnum_char(#[trigger] t[i])
}

/// Index of the first binding named `name`, or `vars.len()` if there
/// is none.
pub open spec fn var_idx(vars: Seq<VarV>, name: Seq<char>) -> int
    decreases vars.len(),
{
    if vars.len() == 0 {
        0
    } else if vars[0].name == name {
        0
    } else {
        1 + var_idx(vars.drop_first(), name)
    }
}

/// Whether some binding is named `name`.
pub open spec fn has_var(vars: Seq<VarV>, name: Seq<char>) -> bool {
    var_idx(vars, name) < vars.len()
}

/// The value of the first binding named `name`, if any.
pub open spec fn lookup_var(vars: Seq<VarV>, name: Seq<char>) -> Option<i64> {
    if has_var(vars, name) {
        Some(vars[var_idx(vars, name)].value)
    } else {
        None
    }
}

/// Overwrites the first binding named `name`, or appends a new one.
pub open spec fn assign_var(vars: Seq<VarV>, name: Seq<char>, value: i64) -> Seq<VarV> {
    if has_var(vars, name) {
        vars.update(var_idx(vars, name), VarV { name, value })
    } else {
        vars.push(VarV { name, value })
    }
}

/// `var_idx` points at the first match: everything before it differs.
pub proof fn lemma_var_idx(vars: Seq<VarV>, name: Seq<char>)
    ensures
        0 <= var_idx(vars, name) <= vars.len(),
        var_idx(vars, name) < vars.len() ==> vars[var_idx(vars, name)].name == name,
        forall|j: int| 0 <= j < var_idx(vars, name) ==> (#[trigger] vars[j]).name != name,
    decreases vars.len(),
{
    if vars.len() > 0 && vars[0].name != name {
        lemma_var_idx(vars.drop_first(), name);
        assert forall|j: int| 0 <= j < var_idx(vars, name) implies (#[trigger] vars[j]).name
            != name by {
            if j > 0 {
                assert(vars.drop_first()[j - 1] == vars[j]);
            }
        }
    }
}

/// `print`: pops the top value and emits it.
pub open spec fn print_result(stack: Seq<i64>, out: Seq<i64>) -> Result<
    (Seq<i64>, Seq<i64>),
    InterpError,
> {
    if stack.len() < 1 {
        Err(InterpError::StackUnderflow)
    } else {
        Ok((stack.drop_last(), out.push(stack.last())))
    }
}

/// `dup`: pushes a copy of the top value.
pub open spec fn dup_result(stack: Seq<i64>) -> Result<Seq<i64>, InterpError> {
    if stack.len() < 1 {
        Err(InterpError::StackUnderflow)
    } else {
        Ok(stack.push(stack.last()))
    }
}

/// `swap`: exchanges the top two values.
pub open spec fn swap_result(stack: Seq<i64>) -> Result<Seq<i64>, InterpError> {
    if stack.len() < 2 {
        Err(InterpError::StackUnderflow)
    } else {
        Ok(stack.drop_last().drop_last().push(stack.last()).push(stack[stack.len() - 2]))
    }
}

/// `over`: pushes a copy of the second-from-top value.
pub open spec fn over_result(stack: Seq<i64>) -> Result<Seq<i64>, InterpError> {
    if stack.len() < 2 {
        Err(InterpError::StackUnderflow)
    } else {
        Ok(stack.push(stack[stack.len() - 2]))
    }
}

/// `drop`: pops and discards the top value.
pub open spec fn drop_result(stack: Seq<i64>) -> Result<Seq<i64>, InterpError> {
    if stack.len() < 1 {
        Err(InterpError::StackUnderflow)
    } else {
        Ok(stack.drop_last())
    }
}

/// Truncating division, the native `/` of signed machine integers.
pub open spec fn trunc_div(a: int, b: int) -> int {
    if a == 0 {
        0
    } else if a > 0 && b > 0 {
        a / b
    } else if a < 0 && b < 0 {
        (a * -1) / (b * -1)
    } else if a < 0 {
        ((a * -1) / b) * -1
    } else {
        (a / (b * -1)) * -1
    }
}

/// Truncating remainder, the native `%` of signed machine integers;
/// its sign follows the dividend.
pub open spec fn trunc_rem(a: int, b: int) -> int {
    if a == 0 {
        0
    } else if a > 0 && b > 0 {
        a % b
    } else if a < 0 && b < 0 {
        ((a * -1) % (b * -1)) * -1
    } else if a < 0 {
        ((a * -1) % b) * -1
    } else {
        a % (b * -1)
    }
}

/// `+`: pops two, pushes their sum; overflow is fatal.
pub open spec fn add_result(stack: Seq<i64>) -> Result<Seq<i64>, InterpError> {
    if stack.len() < 2 {
        Err(InterpError::StackUnderflow)
    } else {
        let a = stack[stack.len() - 2];
        let b = stack.last();
        if a + b > i64::MAX || a + b < i64::MIN {
            Err(InterpError::AddOverflow)
        } else {
            Ok(stack.drop_last().drop_last().push((a + b) as i64))
        }
    }
}

/// `-`: pops two, pushes `a - b`; overflow is fatal.
pub open spec fn sub_result(stack: Seq<i64>) -> Result<Seq<i64>, InterpError> {
    if stack.len() < 2 {
        Err(InterpError::StackUnderflow)
    } else {
        let a = stack[stack.len() - 2];
        let b = stack.last();
        if a - b > i64::MAX || a - b < i64::MIN {
            Err(InterpError::SubOverflow)
        } else {
            Ok(stack.drop_last().drop_last().push((a - b) as i64))
        }
    }
}

/// `*`: pops two, pushes their product; overflow is fatal.
pub open spec fn mul_result(stack: Seq<i64>) -> Result<Seq<i64>, InterpError> {
    if stack.len() < 2 {
        Err(InterpError::StackUnderflow)
    } else {
        let a = stack[stack.len() - 2];
        let b = stack.last();
        if a * b > i64::MAX || a * b < i64::MIN {
            Err(InterpError::MulOverflow)
        } else {
            Ok(stack.drop_last().drop_last().push((a * b) as i64))
        }
    }
}

/// `/`: pops two, pushes `a / b` truncating; a zero divisor or an
/// out-of-range quotient is fatal.
pub open spec fn div_result(stack: Seq<i64>) -> Result<Seq<i64>, InterpError> {
    if stack.len() < 2 {
        Err(InterpError::StackUnderflow)
    } else {
        let a = stack[stack.len() - 2];
        let b = stack.last();
        if b == 0 || (a == i64::MIN && b == -1) {
            Err(InterpError::DivOverflow)
        } else {
            Ok(stack.drop_last().drop_last().push(trunc_div(a as int, b as int) as i64))
        }
    }
}

/// `%`: pops two, pushes `a % b` truncating; a zero divisor or an
/// out-of-range result is fatal, as a fault of its own rather than
/// the division error.
pub open spec fn rem_result(stack: Seq<i64>) -> Result<Seq<i64>, InterpError> {
    if stack.len() < 2 {
        Err(InterpError::StackUnderflow)
    } else {
        let a = stack[stack.len() - 2];
        let b = stack.last();
        if b == 0 || (a == i64::MIN && b == -1) {
            Err(InterpError::RemainderFault)
        } else {
            Ok(stack.drop_last().drop_last().push(trunc_rem(a as int, b as int) as i64))
        }
    }
}

/// Validates and performs one assignment. The region between `->` and
/// `end` must hold exactly an identifier and the type name `int`; the
/// assigned value is popped from the stack.
pub open spec fn assign_result(region: Seq<Seq<char>>, stack: Seq<i64>, vars: Seq<VarV>) -> Result<
    (Seq<i64>, Seq<VarV>),
    InterpError,
> {
    if region.len() < 2 {
        Err(InterpError::AssignTooFew)
    } else if region.len() > 2 {
        Err(InterpError::AssignTooMany)
    } else if region[1] != "int"@ {
        Err(InterpError::AssignInvalidType)
    } else if stack.len() < 1 {
        Err(InterpError::StackUnderflow)
    } else if !is_valid_identifier(region[0]) {
        Err(InterpError::AssignInvalidIdentifier)
    } else {
        Ok((stack.drop_last(), assign_var(vars, region[0], stack.last())))
    }
}

/// The greatest index below `j` holding an `end` token, or `-1`.
pub open spec fn last_end(tokens: Seq<Seq<char>>, j: int) -> int
    decreases j,
{
    if j <= 0 {
        -1
    } else if tokens[j - 1] == "end"@ {
        j - 1
    } else {
        last_end(tokens, j - 1)
    }
}

/// The effect of one token interpreted in the idle state, for every
/// token except the region openers `loop` and `->`. Classification
/// order: integer literal, keyword, operator, declared variable;
/// anything else — an undeclared identifier included — is a fatal
/// unknown token. An `end` with no open region does nothing.
pub open spec fn idle_step(t: Seq<char>, s: StateV) -> Result<StateV, InterpError> {
    if is_number_token(t) {
        if number_val(t) > i64::MAX {
            Err(InterpError::LiteralOverflow)
        } else {
            Ok(StateV { stack: s.stack.push(number_val(t) as i64), ..s })
        }
    } else if t == "print"@ {
        match print_result(s.stack, s.out) {
            Ok(p) => Ok(StateV { stack: p.0, out: p.1, ..s }),
            Err(e) => Err(e),
        }
    } else if t == "dup"@ {
        lift_stack(dup_result(s.stack), s)
    } else if t == "swap"@ {
        lift_stack(swap_result(s.stack), s)
    } else if t == "over"@ {
        lift_stack(over_result(s.stack), s)
    } else if t == "drop"@ {
        lift_stack(drop_result(s.stack), s)
    } else if t == "end"@ {
        Ok(s)
    } else if t == "+"@ {
        lift_stack(add_result(s.stack), s)
    } else if t == "-"@ {
        lift_stack(sub_result(s.stack), s)
    } else if t == "*"@ {
        lift_stack(mul_result(s.stack), s)
    } else if t == "/"@ {
        lift_stack(div_result(s.stack), s)
    } else if t == "%"@ {
        lift_stack(rem_result(s.stack), s)
    } else if has_var(s.vars, t) {
        Ok(StateV { stack: s.stack.push(lookup_var(s.vars, t)->Some_0), ..s })
    } else {
        Err(InterpError::UnknownToken)
    }
}

/// Applies a stack-only primitive's result to the whole state.
pub open spec fn lift_stack(r: Result<Seq<i64>, InterpError>, s: StateV) -> Result<
    StateV,
    InterpError,
> {
    match r {
        Ok(stack2) => Ok(StateV { stack: stack2, ..s }),
        Err(e) => Err(e),
    }
}

/// Runs the tokens from index `i` onward in collection mode `mode`
/// with an open region starting at `start`, threading the state `s`.
/// This is the model the execution engine is verified against.
pub open spec fn run_from(tokens: Seq<Seq<char>>, i: int, mode: Mode, start: int, s: StateV) -> Run
    decreases tokens.len(), 1int, tokens.len() - i,
{
    if i < 0 || i >= tokens.len() {
        // Falling off the end completes the run; an unterminated
        // region has silently executed nothing.
        Run::Done(s)
    } else {
        let t = tokens[i];
        match mode {
            Mode::Idle => {
                if t == "loop"@ {
                    run_from(tokens, i + 1, Mode::CollectingLoop, i + 1, s)
                } else if t == "->"@ {
                    run_from(tokens, i + 1, Mode::CollectingAssignment, i + 1, s)
                } else {
                    match idle_step(t, s) {
                        Ok(s2) => run_from(tokens, i + 1, Mode::Idle, start, s2),
                        Err(e) => Run::Fail(e, s),
                    }
                }
            },
            Mode::CollectingLoop => {
                if t == "end"@ {
                    let close = last_end(tokens, tokens.len() as int);
                    if 0 <= start && start <= close && close < tokens.len() {
                        let body = tokens.subrange(start, close);
                        if s.stack.len() < 1 {
                            Run::Fail(InterpError::StackUnderflow, s)
                        } else {
                            let popped = StateV { stack: s.stack.drop_last(), ..s };
                            match loop_iter(body, s.stack.last() as int, popped) {
                                Run::Done(s2) => run_from(tokens, i + 1, Mode::Idle, start, s2),
                                Run::Fail(e, s2) => Run::Fail(e, s2),
                            }
                        }
                    } else {
                        // Unreachable from a real scan: `start` always
                        // lies at or before the first `end`.
                        Run::Done(s)
                    }
                } else {
                    run_from(tokens, i + 1, Mode::CollectingLoop, start, s)
                }
            },
            Mode::CollectingAssignment => {
                if t == "end"@ {
                    match assign_result(tokens.subrange(start, i), s.stack, s.vars) {
                        Ok(p) => run_from(
                            tokens,
                            i + 1,
                            Mode::Idle,
                            start,
                            StateV { stack: p.0, vars: p.1, ..s },
                        ),
                        Err(e) => Run::Fail(e, s),
                    }
                } else {
                    run_from(tokens, i + 1, Mode::CollectingAssignment, start, s)
                }
            },
        }
    }
}

/// Runs a loop body `n` times from state `s`, stopping at the first
/// error. Zero or negative counts skip the body entirely.
pub open spec fn loop_iter(body: Seq<Seq<char>>, n: int, s: StateV) -> Run
    decreases body.len() + 1, 0int, (if n > 0 {
        n
    } else {
        0
    }),
{
    if n <= 0 {
        Run::Done(s)
    } else {
        match run_from(body, 0, Mode::Idle, 0, s) {
            Run::Done(s2) => loop_iter(body, n - 1, s2),
            Run::Fail(e, s2) => Run::Fail(e, s2),
        }
    }
}

/// A whole program run: all tokens from the beginning, idle.
pub open spec fn run(tokens: Seq<Seq<char>>, s: StateV) -> Run {
    run_from(tokens, 0, Mode::Idle, 0, s)
}

} // verus!
