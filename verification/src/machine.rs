//! The execution engine: verified executable counterparts of the
//! model in `semantics`.
//!
//! Every function returns a `Result` instead of terminating the
//! process: an `Err` carries the error kind, the out parameters then
//! hold the state reached when the error struck. `print` emits into
//! an output vector; the caller decides what to do with it.

use vstd::prelude::*;
use vstd::string::StrSliceExecFns;
use vstd::string::StringExecFns;
use crate::semantics::InterpError;
use crate::semantics::Mode;
use crate::semantics::Run;
use crate::semantics::StateV;
use crate::semantics::VarV;
use crate::semantics::add_result;
use crate::semantics::assign_result;
use crate::semantics::assign_var;
use crate::semantics::digit_val;
use crate::semantics::div_result;
use crate::semantics::drop_result;
use crate::semantics::dup_result;
use crate::semantics::has_var;
use crate::semantics::idle_step;
use crate::semantics::is_alnum_char;
use crate::semantics::is_digit_char;
use crate::semantics::is_number_token;
use crate::semantics::is_valid_identifier;
use crate::semantics::last_end;
use crate::semantics::lemma_var_idx;
use crate::semantics::lookup_var;
use crate::semantics::loop_iter;
use crate::semantics::mul_result;
use crate::semantics::number_val;
use crate::semantics::print_result;
use crate::semantics::rem_result;
use crate::semantics::run;
use crate::semantics::run_from;
use crate::semantics::sub_result;
use crate::semantics::swap_result;
use crate::semantics::over_result;
use crate::semantics::var_idx;
use crate::lexer::toks_view;

verus! {

/// One stored variable binding.
pub struct Declaration {
    pub identifier: String,
    pub value: i64,
}

impl View for Declaration {
    type V = VarV;

    open spec fn view(&self) -> VarV {
        VarV { name: self.identifier@, value: self.value }
    }
}

/// The view of a whole variable table.
pub open spec fn vars_view(ds: Seq<Declaration>) -> Seq<VarV> {
    Seq::new(ds.len(), |i: int| ds[i]@)
}

/// The model state held by the three executable pieces of state.
pub open spec fn state_view(stack: Seq<i64>, ds: Seq<Declaration>, out: Seq<i64>) -> StateV {
    StateV { stack, vars: vars_view(ds), out }
}

/// Relies on `char::is_alphanumeric`: whether the character is
/// alphanumeric, a function of the character alone.
#[verifier::external_body]
fn char_is_alphanumeric(c: char) -> (r: bool)
    ensures
        r == is_alnum_char(c),
{
    c.is_alphanumeric()
}

/// Compares a token against a fixed word.
fn token_is(t: &String, w: &str) -> (r: bool)
    ensures
        r == (t@ == w@),
{
    let s = String::from_str(w);
    *t == s
}

/// Checks whether a token is an integer literal: non-empty, all
/// decimal digits.
pub fn is_number(t: &String) -> (r: bool)
    ensures
        r == is_number_token(t@),
{
    let text: &str = t.as_str();
    let n = text.unicode_len();
    if n == 0 {
        return false;
    }
    let mut i: usize = 0;
    while i < n
        invariant
            n == t@.len(),
            text@ == t@,
            i <= n,
            forall|j: int| 0 <= j < i ==> is_digit_char(#[trigger] t@[j]),
        decreases n - i,
    {
        let c = text.get_char(i);
        if !('0' <= c && c <= '9') {
            return false;
        }
        i = i + 1;
    }
    true
}

/// The value of a digit-string prefix never shrinks as it grows.
proof fn lemma_number_val_grows(t: Seq<char>, p: int)
    requires
        is_number_token(t),
        0 <= p <= t.len(),
    ensures
        0 <= number_val(t.subrange(0, p)) <= number_val(t),
    decreases t.len() - p,
{
    lemma_number_val_nonneg(t.subrange(0, p));
    if p == t.len() {
        assert(t.subrange(0, p) == t);
    } else {
        lemma_number_val_grows(t, p + 1);
        let q = t.subrange(0, p + 1);
        assert(q.drop_last() == t.subrange(0, p));
        assert(number_val(q) == number_val(t.subrange(0, p)) * 10 + digit_val(t[p]));
        assert(number_val(t.subrange(0, p)) * 10 >= number_val(t.subrange(0, p)));
        assert(digit_val(t[p]) >= 0);
    }
}

/// A digit string never has a negative value.
proof fn lemma_number_val_nonneg(t: Seq<char>)
    requires
        forall|i: int| 0 <= i < t.len() ==> is_digit_char(#[trigger] t[i]),
    ensures
        number_val(t) >= 0,
    decreases t.len(),
{
    if t.len() > 0 {
        lemma_number_val_nonneg(t.drop_last());
    }
}

/// Parses an integer literal; `None` reports that its value exceeds
/// `i64::MAX`.
pub fn parse_number(t: &String) -> (r: Option<i64>)
    requires
        is_number_token(t@),
    ensures
        (match r {
            Some(v) => number_val(t@) <= i64::MAX && v == number_val(t@),
            None => number_val(t@) > i64::MAX,
        }),
{
    let text: &str = t.as_str();
    let n = text.unicode_len();
    let mut val: i64 = 0;
    let mut i: usize = 0;
    proof {
        assert(t@.subrange(0, 0) =~= Seq::<char>::empty());
    }
    while i < n
        invariant
            is_number_token(t@),
            n == t@.len(),
            text@ == t@,
            i <= n,
            0 <= val,
            val == number_val(t@.subrange(0, i as int)),
        decreases n - i,
    {
        let c = text.get_char(i);
        proof {
            assert(is_digit_char(t@[i as int]));
        }
        let d: i64 = (c as u32 as i64) - ('0' as u32 as i64);
        if val > (i64::MAX - d) / 10 {
            proof {
                let pre = t@.subrange(0, i as int);
                let cur = t@.subrange(0, i + 1);
                assert(cur.drop_last() == pre);
                assert(cur.last() == t@[i as int]);
                vstd::arithmetic::div_mod::lemma_fundamental_div_mod(i64::MAX - d, 10);
                assert(number_val(cur) == number_val(pre) * 10 + d);
                assert(number_val(cur) > i64::MAX);
                lemma_number_val_grows(t@, i + 1);
            }
            return None;
        }
        proof {
            vstd::arithmetic::div_mod::lemma_fundamental_div_mod(i64::MAX - d, 10);
            let pre = t@.subrange(0, i as int);
            let cur = t@.subrange(0, i + 1);
            assert(cur.drop_last() == pre);
            assert(cur.last() == t@[i as int]);
            assert(val * 10 + d <= i64::MAX);
        }
        val = val * 10 + d;
        i = i + 1;
    }
    proof {
        assert(t@.subrange(0, n as int) == t@);
    }
    Some(val)
}

/// `print`: emits the top of the stack into `output`, then pops it.
pub fn print_stack(stack: &mut Vec<i64>, output: &mut Vec<i64>) -> (r: Result<(), InterpError>)
    ensures
        (match print_result(old(stack)@, old(output)@) {
            Ok(p) => r == Ok::<(), InterpError>(()) && final(stack)@ == p.0 && final(output)@
                == p.1,
            Err(e) => r == Err::<(), InterpError>(e) && final(stack)@ == old(stack)@
                && final(output)@ == old(output)@,
        }),
{
    let len = stack.len();
    if len < 1 {
        return Err(InterpError::StackUnderflow);
    }
    let top = stack[len - 1];
    output.push(top);
    let _ = stack.pop();
    Ok(())
}

/// `dup`: pushes a copy of the top of the stack.
pub fn duplicate(stack: &mut Vec<i64>) -> (r: Result<(), InterpError>)
    ensures
        (match dup_result(old(stack)@) {
            Ok(s2) => r == Ok::<(), InterpError>(()) && final(stack)@ == s2,
            Err(e) => r == Err::<(), InterpError>(e) && final(stack)@ == old(stack)@,
        }),
{
    let len = stack.len();
    if len < 1 {
        return Err(InterpError::StackUnderflow);
    }
    let top = stack[len - 1];
    stack.push(top);
    Ok(())
}

/// `swap`: exchanges the top two stack elements.
pub fn swap(stack: &mut Vec<i64>) -> (r: Result<(), InterpError>)
    ensures
        (match swap_result(old(stack)@) {
            Ok(s2) => r == Ok::<(), InterpError>(()) && final(stack)@ == s2,
            Err(e) => r == Err::<(), InterpError>(e) && final(stack)@ == old(stack)@,
        }),
{
    let len = stack.len();
    if len < 2 {
        return Err(InterpError::StackUnderflow);
    }
    let b = stack[len - 1];
    let a = stack[len - 2];
    let _ = stack.pop();
    let _ = stack.pop();
    stack.push(b);
    stack.push(a);
    Ok(())
}

/// `over`: pushes a copy of the second-from-top stack element.
pub fn over(stack: &mut Vec<i64>) -> (r: Result<(), InterpError>)
    ensures
        (match over_result(old(stack)@) {
            Ok(s2) => r == Ok::<(), InterpError>(()) && final(stack)@ == s2,
            Err(e) => r == Err::<(), InterpError>(e) && final(stack)@ == old(stack)@,
        }),
{
    let len = stack.len();
    if len < 2 {
        return Err(InterpError::StackUnderflow);
    }
    let a = stack[len - 2];
    stack.push(a);
    Ok(())
}

/// `drop`: pops and discards the top of the stack.
pub fn drop_top(stack: &mut Vec<i64>) -> (r: Result<(), InterpError>)
    ensures
        (match drop_result(old(stack)@) {
            Ok(s2) => r == Ok::<(), InterpError>(()) && final(stack)@ == s2,
            Err(e) => r == Err::<(), InterpError>(e) && final(stack)@ == old(stack)@,
        }),
{
    let len = stack.len();
    if len < 1 {
        return Err(InterpError::StackUnderflow);
    }
    let _ = stack.pop();
    Ok(())
}

/// `+`: pops two operands, pushes their sum; overflow is fatal.
pub fn sum(stack: &mut Vec<i64>) -> (r: Result<(), InterpError>)
    ensures
        (match add_result(old(stack)@) {
            Ok(s2) => r == Ok::<(), InterpError>(()) && final(stack)@ == s2,
            Err(e) => r == Err::<(), InterpError>(e) && final(stack)@ == old(stack)@,
        }),
{
    let len = stack.len();
    if len < 2 {
        return Err(InterpError::StackUnderflow);
    }
    let a = stack[len - 2];
    let b = stack[len - 1];
    match a.checked_add(b) {
        Some(v) => {
            let _ = stack.pop();
            let _ = stack.pop();
            stack.push(v);
            Ok(())
        },
        None => Err(InterpError::AddOverflow),
    }
}

/// `-`: pops two operands, pushes their difference; overflow is
/// fatal.
pub fn sub(stack: &mut Vec<i64>) -> (r: Result<(), InterpError>)
    ensures
        (match sub_result(old(stack)@) {
            Ok(s2) => r == Ok::<(), InterpError>(()) && final(stack)@ == s2,
            Err(e) => r == Err::<(), InterpError>(e) && final(stack)@ == old(stack)@,
        }),
{
    let len = stack.len();
    if len < 2 {
        return Err(InterpError::StackUnderflow);
    }
    let a = stack[len - 2];
    let b = stack[len - 1];
    match a.checked_sub(b) {
        Some(v) => {
            let _ = stack.pop();
            let _ = stack.pop();
            stack.push(v);
            Ok(())
        },
        None => Err(InterpError::SubOverflow),
    }
}

/// `*`: pops two operands, pushes their product; overflow is fatal.
pub fn multy(stack: &mut Vec<i64>) -> (r: Result<(), InterpError>)
    ensures
        (match mul_result(old(stack)@) {
            Ok(s2) => r == Ok::<(), InterpError>(()) && final(stack)@ == s2,
            Err(e) => r == Err::<(), InterpError>(e) && final(stack)@ == old(stack)@,
        }),
{
    let len = stack.len();
    if len < 2 {
        return Err(InterpError::StackUnderflow);
    }
    let a = stack[len - 2];
    let b = stack[len - 1];
    match a.checked_mul(b) {
        Some(v) => {
            let _ = stack.pop();
            let _ = stack.pop();
            stack.push(v);
            Ok(())
        },
        None => Err(InterpError::MulOverflow),
    }
}

/// The truncating quotient stays in range except for
/// `i64::MIN / -1`, where it is one past `i64::MAX`.
proof fn lemma_trunc_div_range(a: i64, b: i64)
    requires
        b != 0,
    ensures
        !(a == i64::MIN && b == -1) ==> i64::MIN <= crate::semantics::trunc_div(a as int, b as int)
            <= i64::MAX,
        (a == i64::MIN && b == -1) ==> crate::semantics::trunc_div(a as int, b as int) == i64::MAX
            + 1,
{
    let x = a as int;
    let d = b as int;
    let half_range: int = 0x8000000000000000;
    if x > 0 && d > 0 {
        vstd::arithmetic::div_mod::lemma_div_pos_is_pos(x, d);
        vstd::arithmetic::div_mod::lemma_div_nonincreasing(x, d);
    } else if x < 0 && d < 0 {
        let m = x * -1;
        let e = d * -1;
        vstd::arithmetic::div_mod::lemma_div_pos_is_pos(m, e);
        if e == 1 {
            vstd::arithmetic::div_mod::lemma_div_basics(m);
        } else {
            vstd::arithmetic::div_mod::lemma_div_is_ordered_by_denominator(m, 2, e);
            vstd::arithmetic::div_mod::lemma_div_is_ordered(m, half_range, 2);
            vstd::arithmetic::div_mod::lemma_fundamental_div_mod_converse(
                half_range,
                2,
                0x4000000000000000,
                0,
            );
        }
    } else if x < 0 {
        vstd::arithmetic::div_mod::lemma_div_pos_is_pos(x * -1, d);
        vstd::arithmetic::div_mod::lemma_div_nonincreasing(x * -1, d);
    } else if x > 0 {
        vstd::arithmetic::div_mod::lemma_div_pos_is_pos(x, d * -1);
        vstd::arithmetic::div_mod::lemma_div_nonincreasing(x, d * -1);
    }
}

/// The truncating remainder always stays in range.
proof fn lemma_trunc_rem_range(a: i64, b: i64)
    requires
        b != 0,
    ensures
        i64::MIN <= crate::semantics::trunc_rem(a as int, b as int) <= i64::MAX,
{
    let x = a as int;
    let d = b as int;
    if x > 0 && d > 0 {
        vstd::arithmetic::div_mod::lemma_mod_bound(x, d);
    } else if x < 0 && d < 0 {
        vstd::arithmetic::div_mod::lemma_mod_bound(x * -1, d * -1);
    } else if x < 0 {
        vstd::arithmetic::div_mod::lemma_mod_bound(x * -1, d);
    } else if x > 0 {
        vstd::arithmetic::div_mod::lemma_mod_bound(x, d * -1);
    }
}

/// `/`: pops two operands, pushes the truncating quotient; a zero
/// divisor or overflow is fatal.
pub fn div(stack: &mut Vec<i64>) -> (r: Result<(), InterpError>)
    ensures
        (match div_result(old(stack)@) {
            Ok(s2) => r == Ok::<(), InterpError>(()) && final(stack)@ == s2,
            Err(e) => r == Err::<(), InterpError>(e) && final(stack)@ == old(stack)@,
        }),
{
    let len = stack.len();
    if len < 2 {
        return Err(InterpError::StackUnderflow);
    }
    let a = stack[len - 2];
    let b = stack[len - 1];
    proof {
        if b != 0 {
            lemma_trunc_div_range(a, b);
        }
    }
    match a.checked_div(b) {
        Some(v) => {
            let _ = stack.pop();
            let _ = stack.pop();
            stack.push(v);
            Ok(())
        },
        None => Err(InterpError::DivOverflow),
    }
}

/// `%`: pops two operands, pushes the truncating remainder. The
/// remainder deliberately stands outside the checks `/` performs, so
/// a zero divisor or `i64::MIN % -1` fails as a remainder fault of
/// its own rather than as a division error.
pub fn rdiv(stack: &mut Vec<i64>) -> (r: Result<(), InterpError>)
    ensures
        (match rem_result(old(stack)@) {
            Ok(s2) => r == Ok::<(), InterpError>(()) && final(stack)@ == s2,
            Err(e) => r == Err::<(), InterpError>(e) && final(stack)@ == old(stack)@,
        }),
{
    let len = stack.len();
    if len < 2 {
        return Err(InterpError::StackUnderflow);
    }
    let a = stack[len - 2];
    let b = stack[len - 1];
    proof {
        if b != 0 {
            lemma_trunc_rem_range(a, b);
        }
    }
    match a.checked_rem(b) {
        Some(v) => {
            let _ = stack.pop();
            let _ = stack.pop();
            stack.push(v);
            Ok(())
        },
        None => Err(InterpError::RemainderFault),
    }
}

/// Updating one binding updates one entry of the table's view.
proof fn lemma_vars_view_update(ds: Seq<Declaration>, k: int, d: Declaration)
    requires
        0 <= k < ds.len(),
    ensures
        vars_view(ds.update(k, d)) =~= vars_view(ds).update(k, d@),
{
}

/// Appending a binding appends to the table's view.
proof fn lemma_vars_view_push(ds: Seq<Declaration>, d: Declaration)
    ensures
        vars_view(ds.push(d)) =~= vars_view(ds).push(d@),
{
}

/// Viewing tokens commutes with slicing them.
proof fn lemma_toks_view_subrange(ts: Seq<String>, a: int, b: int)
    requires
        0 <= a <= b <= ts.len(),
    ensures
        toks_view(ts.subrange(a, b)) =~= toks_view(ts).subrange(a, b),
{
}

/// Finds the position of the first binding named `name`, if any.
#[verifier::loop_isolation(false)]
fn find_index(declarations: &Vec<Declaration>, name: &String) -> (r: Option<usize>)
    ensures
        (match r {
            Some(k) => k < declarations@.len() && var_idx(vars_view(declarations@), name@)
                == k as int,
            None => !has_var(vars_view(declarations@), name@),
        }),
{
    let mut k: usize = 0;
    while k < declarations.len()
        invariant
            k <= declarations@.len(),
            forall|j: int|
                0 <= j < k ==> (#[trigger] vars_view(declarations@)[j]).name != name@,
        decreases declarations@.len() - k,
    {
        let d = &declarations[k];
        if d.identifier == *name {
            proof {
                assert(vars_view(declarations@)[k as int].name == name@);
                lemma_var_idx(vars_view(declarations@), name@);
                assert(var_idx(vars_view(declarations@), name@) == k as int);
            }
            return Some(k);
        }
        k = k + 1;
    }
    proof {
        lemma_var_idx(vars_view(declarations@), name@);
    }
    None
}

/// Looks up the value of the first binding named `name`, if any.
pub fn find_declaration(declarations: &Vec<Declaration>, name: &String) -> (r: Option<i64>)
    ensures
        r == lookup_var(vars_view(declarations@), name@),
{
    match find_index(declarations, name) {
        Some(k) => Some(declarations[k].value),
        None => None,
    }
}

/// Performs one assignment. `token_slice` is the region between `->`
/// and its closing `end`: it must hold exactly an identifier and the
/// type name `int`; the value assigned is popped from the stack.
#[verifier::loop_isolation(false)]
pub fn assignment(
    stack: &mut Vec<i64>,
    declarations: &mut Vec<Declaration>,
    token_slice: &[String],
) -> (r: Result<(), InterpError>)
    ensures
        (match assign_result(
            toks_view(token_slice@),
            old(stack)@,
            vars_view(old(declarations)@),
        ) {
            Ok(p) => r == Ok::<(), InterpError>(()) && final(stack)@ == p.0 && vars_view(
                final(declarations)@,
            ) == p.1 && final(stack)@ == old(stack)@.drop_last(),
            Err(e) => r == Err::<(), InterpError>(e) && final(stack)@ == old(stack)@ && vars_view(
                final(declarations)@,
            ) == vars_view(old(declarations)@),
        }),
{
    let ghost region = toks_view(token_slice@);
    if token_slice.len() < 2 {
        return Err(InterpError::AssignTooFew);
    }
    if token_slice.len() > 2 {
        return Err(InterpError::AssignTooMany);
    }
    let type_token = vstd::slice::slice_index_get(token_slice, 1);
    if !token_is(type_token, "int") {
        return Err(InterpError::AssignInvalidType);
    }
    if stack.len() < 1 {
        return Err(InterpError::StackUnderflow);
    }
    let ident = vstd::slice::slice_index_get(token_slice, 0);
    let itext: &str = ident.as_str();
    let n = itext.unicode_len();
    let mut i: usize = 0;
    while i < n
        invariant
            n == ident@.len(),
            itext@ == ident@,
            i <= n,
            forall|j: int| 0 <= j < i ==> is_alnum_char(#[trigger] ident@[j]),
        decreases n - i,
    {
        let c = itext.get_char(i);
        if !char_is_alphanumeric(c) {
            proof {
                assert(region[0] == ident@);
                assert(!is_valid_identifier(region[0]));
            }
            return Err(InterpError::AssignInvalidIdentifier);
        }
        i = i + 1;
    }
    proof {
        assert(region[0] == ident@);
        assert(is_valid_identifier(region[0]));
    }
    let len = stack.len();
    let top = stack[len - 1];
    match find_index(declarations, ident) {
        Some(k) => {
            let ghost vars0 = vars_view(declarations@);
            let ghost ds0 = declarations@;
            declarations[k].value = top;
            proof {
                lemma_var_idx(vars0, ident@);
                lemma_vars_view_update(ds0, k as int, declarations@[k as int]);
                assert(vars_view(declarations@) =~= assign_var(vars0, region[0], top));
            }
        },
        None => {
            let ghost vars0 = vars_view(declarations@);
            let ghost ds0 = declarations@;
            let entry = Declaration { identifier: ident.clone(), value: top };
            declarations.push(entry);
            proof {
                lemma_vars_view_push(ds0, declarations@.last());
                assert(vars_view(declarations@) =~= assign_var(vars0, region[0], top));
            }
        },
    }
    let _ = stack.pop();
    Ok(())
}

/// Finds the index of the last `end` token in the whole sequence,
/// scanning from a first `end` at `from`.
#[verifier::loop_isolation(false)]
fn find_last_end(tokens: &[String], from: usize) -> (r: usize)
    requires
        from < tokens@.len(),
        toks_view(tokens@)[from as int] == "end"@,
    ensures
        from <= r < tokens@.len(),
        r as int == last_end(toks_view(tokens@), tokens@.len() as int),
{
    let ghost t = toks_view(tokens@);
    let n = tokens.len();
    let mut close: usize = from;
    let mut j: usize = from + 1;
    while j < n
        invariant
            t == toks_view(tokens@),
            n == tokens@.len(),
            from <= close < j <= tokens@.len(),
            t[close as int] == "end"@,
            close as int == last_end(t, j as int),
        decreases tokens@.len() - j,
    {
        if token_is(vstd::slice::slice_index_get(tokens, j), "end") {
            close = j;
        }
        j = j + 1;
    }
    close
}

/// Interprets one token in the idle state, for every token except
/// the region openers `loop` and `->`: exactly the model's
/// `idle_step`.
fn idle_token(
    token: &String,
    stack: &mut Vec<i64>,
    declarations: &Vec<Declaration>,
    output: &mut Vec<i64>,
) -> (r: Result<(), InterpError>)
    ensures
        ({
            let cur = (StateV {
                stack: old(stack)@,
                vars: vars_view(declarations@),
                out: old(output)@,
            });
            let post = (StateV {
                stack: final(stack)@,
                vars: vars_view(declarations@),
                out: final(output)@,
            });
            match r {
                Ok(_) => idle_step(token@, cur) == Ok::<StateV, InterpError>(post),
                Err(e) => idle_step(token@, cur) == Err::<StateV, InterpError>(e) && post == cur,
            }
        }),
{
    if is_number(token) {
        match parse_number(token) {
            Some(v) => {
                stack.push(v);
                Ok(())
            },
            None => Err(InterpError::LiteralOverflow),
        }
    } else if token_is(token, "print") {
        print_stack(stack, output)
    } else if token_is(token, "dup") {
        duplicate(stack)
    } else if token_is(token, "swap") {
        swap(stack)
    } else if token_is(token, "over") {
        over(stack)
    } else if token_is(token, "drop") {
        drop_top(stack)
    } else if token_is(token, "end") {
        // An `end` with no open region does nothing.
        Ok(())
    } else if token_is(token, "+") {
        sum(stack)
    } else if token_is(token, "-") {
        crate::machine::sub(stack)
    } else if token_is(token, "*") {
        multy(stack)
    } else if token_is(token, "/") {
        div(stack)
    } else if token_is(token, "%") {
        rdiv(stack)
    } else {
        match find_declaration(declarations, token) {
            Some(v) => {
                stack.push(v);
                Ok(())
            },
            None => Err(InterpError::UnknownToken),
        }
    }
}

/// Runs the loop body as many times as the count popped from the top
/// of the stack says; a zero or negative count skips it entirely.
#[verifier::loop_isolation(false)]
pub fn loop_instructions(
    stack: &mut Vec<i64>,
    instructions: &[String],
    declarations: &mut Vec<Declaration>,
    output: &mut Vec<i64>,
) -> (r: Result<(), InterpError>)
    ensures
        old(stack)@.len() < 1 ==> r == Err::<(), InterpError>(InterpError::StackUnderflow)
            && final(stack)@ == old(stack)@ && vars_view(final(declarations)@) == vars_view(
            old(declarations)@,
        ) && final(output)@ == old(output)@,
        old(stack)@.len() >= 1 ==> ({
            let body = toks_view(instructions@);
            let count = old(stack)@.last() as int;
            let entry = (StateV {
                stack: old(stack)@.drop_last(),
                vars: vars_view(old(declarations)@),
                out: old(output)@,
            });
            let post = (StateV {
                stack: final(stack)@,
                vars: vars_view(final(declarations)@),
                out: final(output)@,
            });
            match r {
                Ok(_) => loop_iter(body, count, entry) == Run::Done(post),
                Err(e) => loop_iter(body, count, entry) == Run::Fail(e, post),
            }
        }),
    decreases instructions@.len() + 1, 0int,
{
    let len = stack.len();
    if len < 1 {
        return Err(InterpError::StackUnderflow);
    }
    let times = stack[len - 1];
    let _ = stack.pop();
    let ghost body = toks_view(instructions@);
    let ghost count = times as int;
    let ghost entry = (StateV {
        stack: stack@,
        vars: vars_view(declarations@),
        out: output@,
    });
    let mut counter: i64 = 0;
    while counter < times
        invariant
            0 <= counter,
            counter <= times || counter == 0,
            body == toks_view(instructions@),
            count == times as int,
            loop_iter(body, count, entry) == loop_iter(
                body,
                count - counter,
                (StateV { stack: stack@, vars: vars_view(declarations@), out: output@ }),
            ),
        decreases times - counter,
    {
        let ghost cur = (StateV { stack: stack@, vars: vars_view(declarations@), out: output@ });
        match interpreter(stack, instructions, declarations, output) {
            Ok(_) => {
                proof {
                    let cur2 = (StateV {
                        stack: stack@,
                        vars: vars_view(declarations@),
                        out: output@,
                    });
                    assert(run_from(body, 0, Mode::Idle, 0, cur) == Run::Done(cur2));
                    assert(loop_iter(body, count - counter, cur) == loop_iter(
                        body,
                        count - counter - 1,
                        cur2,
                    ));
                }
            },
            Err(e) => {
                proof {
                    let cur2 = (StateV {
                        stack: stack@,
                        vars: vars_view(declarations@),
                        out: output@,
                    });
                    assert(run_from(body, 0, Mode::Idle, 0, cur) == Run::Fail(e, cur2));
                    assert(loop_iter(body, count - counter, cur) == Run::Fail(e, cur2));
                }
                return Err(e);
            },
        }
        counter = counter + 1;
    }
    Ok(())
}

/// Runs every token in order, classifying each one and dispatching
/// it, exactly as the model `run` describes: the result and the final
/// stack, variable table and output are the ones the model computes.
#[verifier::loop_isolation(false)]
pub fn interpreter(
    stack: &mut Vec<i64>,
    tokens: &[String],
    declarations: &mut Vec<Declaration>,
    output: &mut Vec<i64>,
) -> (r: Result<(), InterpError>)
    ensures
        ({
            let pre = (StateV {
                stack: old(stack)@,
                vars: vars_view(old(declarations)@),
                out: old(output)@,
            });
            let post = (StateV {
                stack: final(stack)@,
                vars: vars_view(final(declarations)@),
                out: final(output)@,
            });
            match r {
                Ok(_) => run(toks_view(tokens@), pre) == Run::Done(post),
                Err(e) => run(toks_view(tokens@), pre) == Run::Fail(e, post),
            }
        }),
    decreases tokens@.len(), 1int,
{
    let ghost t = toks_view(tokens@);
    let ghost pre = (StateV {
        stack: stack@,
        vars: vars_view(declarations@),
        out: output@,
    });
    let mut i: usize = 0;
    let mut mode: Mode = Mode::Idle;
    let mut start: usize = 0;
    while i < tokens.len()
        invariant
            t == toks_view(tokens@),
            i <= tokens@.len(),
            start <= i,
            run_from(t, i as int, mode, start as int, (StateV {
                stack: stack@,
                vars: vars_view(declarations@),
                out: output@,
            })) == run(t, pre),
        decreases tokens@.len() - i,
    {
        let ghost mode0 = mode;
        let ghost start0 = start;
        let ghost cur = (StateV { stack: stack@, vars: vars_view(declarations@), out: output@ });
        let token = vstd::slice::slice_index_get(tokens, i);
        proof {
            assert(t[i as int] == token@);
        }
        match mode {
            Mode::Idle => {
                if token_is(token, "loop") {
                    start = i + 1;
                    mode = Mode::CollectingLoop;
                } else if (token_is(token, "->")) {
                    start = i + 1;
                    mode = Mode::CollectingAssignment;
                } else {
                    match idle_token(token, stack, declarations, output) {
                        Ok(_) => {},
                        Err(e) => {
                            proof {
                                assert(run(t, pre) == Run::Fail(e, cur));
                            }
                            return Err(e);
                        },
                    }
                }
            },
            Mode::CollectingLoop => {
                if token_is(token, "end") {
                    let close = find_last_end(tokens, i);
                    let body = vstd::slice::slice_subrange(tokens, start, close);
                    proof {
                        lemma_toks_view_subrange(tokens@, start as int, close as int);
                    }
                    match loop_instructions(stack, body, declarations, output) {
                        Ok(_) => {
                            mode = Mode::Idle;
                        },
                        Err(e) => {
                            proof {
                                let post = (StateV {
                                    stack: stack@,
                                    vars: vars_view(declarations@),
                                    out: output@,
                                });
                                assert(run(t, pre) == Run::Fail(e, post));
                            }
                            return Err(e);
                        },
                    }
                }
            },
            Mode::CollectingAssignment => {
                if token_is(token, "end") {
                    let region = vstd::slice::slice_subrange(tokens, start, i);
                    proof {
                        lemma_toks_view_subrange(tokens@, start as int, i as int);
                    }
                    match assignment(stack, declarations, region) {
                        Ok(_) => {
                            mode = Mode::Idle;
                        },
                        Err(e) => {
                            proof {
                                assert(run(t, pre) == Run::Fail(e, cur));
                            }
                            return Err(e);
                        },
                    }
                }
            },
        }
        proof {
            let cur2 = (StateV { stack: stack@, vars: vars_view(declarations@), out: output@ });
            assert(run_from(t, i as int, mode0, start0 as int, cur) == run_from(
                t,
                i + 1,
                mode,
                start as int,
                cur2,
            ));
        }
        i = i + 1;
    }
    Ok(())
}

} // verus!
