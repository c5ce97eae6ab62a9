use dumb_lang::lexer::tokenizer;
use dumb_lang::machine::{interpreter, Declaration};
use dumb_lang::semantics::InterpError;

/// Tokenizes and runs a whole program; returns the result, the final
/// stack and the emitted output.
fn run_program(src: &str) -> (Result<(), InterpError>, Vec<i64>, Vec<i64>) {
    let mut tokens: Vec<String> = Vec::new();
    tokenizer(&src.to_string(), &mut tokens);
    let mut stack: Vec<i64> = Vec::new();
    let mut decls: Vec<Declaration> = Vec::new();
    let mut out: Vec<i64> = Vec::new();
    let r = interpreter(&mut stack, &tokens, &mut decls, &mut out);
    (r, stack, out)
}

#[test]
fn round_trip_add_print() {
    let (r, stack, out) = run_program("3 4 + print\n");
    assert_eq!(r, Ok(()));
    assert_eq!(out, vec![7]);
    assert!(stack.is_empty());
}

#[test]
fn dup_square_print() {
    let (r, _, out) = run_program("5 dup * print\n");
    assert_eq!(r, Ok(()));
    assert_eq!(out, vec![25]);
}

#[test]
fn swap_prints_bottom_first() {
    let (r, _, out) = run_program("1 2 swap print print\n");
    assert_eq!(r, Ok(()));
    assert_eq!(out, vec![1, 2]);
}

#[test]
fn over_copies_second() {
    let (r, stack, out) = run_program("1 2 over print\n");
    assert_eq!(r, Ok(()));
    assert_eq!(out, vec![1]);
    assert_eq!(stack, vec![1, 2]);
}

#[test]
fn loop_runs_body_count_times() {
    let (r, stack, out) = run_program("3 loop 10 print end\n");
    assert_eq!(r, Ok(()));
    assert_eq!(out, vec![10, 10, 10]);
    assert!(stack.is_empty());
}

#[test]
fn loop_zero_count_skips_body() {
    let (r, stack, out) = run_program("0 loop 10 print end\n");
    assert_eq!(r, Ok(()));
    assert_eq!(out, Vec::<i64>::new());
    assert!(stack.is_empty());
}

#[test]
fn loop_negative_count_skips_body() {
    let (r, _, out) = run_program("0 5 - loop 10 print end\n");
    assert_eq!(r, Ok(()));
    assert_eq!(out, Vec::<i64>::new());
}

#[test]
fn loop_shares_one_stack_across_iterations() {
    // The loop body pops from the one shared stack until it
    // underflows on the third round.
    let (r, stack, out) = run_program("1 2 3 loop print end\n");
    assert_eq!(r, Err(InterpError::StackUnderflow));
    assert_eq!(out, vec![2, 1]);
    assert!(stack.is_empty());
}

#[test]
fn assignment_and_lookup() {
    let (r, stack, out) = run_program("5 -> x int end 2 x + print\n");
    assert_eq!(r, Ok(()));
    assert_eq!(out, vec![7]);
    assert!(stack.is_empty());
}

#[test]
fn assignment_without_end_consumes_rest_silently() {
    // An unterminated region never executes: the engine runs off the
    // end of the tokens collecting, and nothing is emitted.
    let (r, stack, out) = run_program("5 -> x int 2 x + print\n");
    assert_eq!(r, Ok(()));
    assert_eq!(out, Vec::<i64>::new());
    assert_eq!(stack, vec![5]);
}

#[test]
fn loop_without_end_consumes_rest_silently() {
    let (r, stack, out) = run_program("3 loop 10 print\n");
    assert_eq!(r, Ok(()));
    assert_eq!(out, Vec::<i64>::new());
    assert_eq!(stack, vec![3]);
}

#[test]
fn assignment_overwrites_first_match() {
    let (r, _, out) = run_program("1 -> x int end 2 -> x int end x print\n");
    assert_eq!(r, Ok(()));
    assert_eq!(out, vec![2]);
}

#[test]
fn two_variables() {
    let (r, _, out) = run_program("1 -> a int end 2 -> b int end a b + print\n");
    assert_eq!(r, Ok(()));
    assert_eq!(out, vec![3]);
}

#[test]
fn dup_drop_leaves_stack_unchanged() {
    let (r, stack, out) = run_program("5 7 dup drop\n");
    assert_eq!(r, Ok(()));
    assert_eq!(stack, vec![5, 7]);
    assert_eq!(out, Vec::<i64>::new());
}

#[test]
fn nested_loops_match_outermost_end() {
    let (r, stack, out) = run_program("3 loop 2 loop 10 print end end\n");
    assert_eq!(r, Ok(()));
    assert_eq!(out, vec![10, 10, 10, 10, 10, 10]);
    assert!(stack.is_empty());
}

#[test]
fn triply_nested_loops() {
    let (r, _, out) = run_program("1 loop 1 loop 1 loop 7 print end end end\n");
    assert_eq!(r, Ok(()));
    assert_eq!(out, vec![7]);
}

#[test]
fn nested_region_inside_assignment_is_an_arity_error() {
    // An assignment region is sliced at the first `end`, so the three
    // tokens before it fail the exactly-two rule.
    let (r, _, _) = run_program("5 -> x int loop end end\n");
    assert_eq!(r, Err(InterpError::AssignTooMany));
}

#[test]
fn idle_end_is_a_no_op() {
    let (r, _, out) = run_program("end 5 print\n");
    assert_eq!(r, Ok(()));
    assert_eq!(out, vec![5]);
}

#[test]
fn empty_program_does_nothing() {
    let (r, stack, out) = run_program("");
    assert_eq!(r, Ok(()));
    assert!(stack.is_empty());
    assert!(out.is_empty());
}

#[test]
fn unknown_token_is_fatal() {
    let (r, stack, out) = run_program("3 foo\n");
    assert_eq!(r, Err(InterpError::UnknownToken));
    assert_eq!(stack, vec![3]);
    assert!(out.is_empty());
}

#[test]
fn unknown_identifier_while_idle_is_fatal() {
    // An identifier that was never declared is treated as an unknown
    // token, not silently ignored.
    let (r, _, _) = run_program("x\n");
    assert_eq!(r, Err(InterpError::UnknownToken));
}

#[test]
fn add_overflow_is_fatal() {
    let (r, stack, out) = run_program("9223372036854775807 1 +\n");
    assert_eq!(r, Err(InterpError::AddOverflow));
    assert_eq!(stack, vec![i64::MAX, 1]);
    assert!(out.is_empty());
}

#[test]
fn sub_overflow_is_fatal() {
    // 0 MAX - 1 - computes i64::MIN; one more subtraction overflows.
    let (r, _, _) = run_program("0 9223372036854775807 - 1 - 1 -\n");
    assert_eq!(r, Err(InterpError::SubOverflow));
}

#[test]
fn mul_overflow_is_fatal() {
    let (r, _, _) = run_program("9223372036854775807 2 *\n");
    assert_eq!(r, Err(InterpError::MulOverflow));
}

#[test]
fn literal_too_large_is_fatal() {
    let (r, _, _) = run_program("9223372036854775808\n");
    assert_eq!(r, Err(InterpError::LiteralOverflow));
}

#[test]
fn division_truncates() {
    let (r, _, out) = run_program("7 2 / print\n");
    assert_eq!(r, Ok(()));
    assert_eq!(out, vec![3]);
}

#[test]
fn division_truncates_toward_zero_for_negatives() {
    let (r, _, out) = run_program("0 7 - 2 / print\n");
    assert_eq!(r, Ok(()));
    assert_eq!(out, vec![-3]);
}

#[test]
fn division_by_zero_is_fatal() {
    let (r, _, _) = run_program("7 0 /\n");
    assert_eq!(r, Err(InterpError::DivOverflow));
}

#[test]
fn division_overflow_is_fatal() {
    let (r, _, _) = run_program("0 9223372036854775807 - 1 - 0 1 - /\n");
    assert_eq!(r, Err(InterpError::DivOverflow));
}

#[test]
fn remainder_follows_dividend_sign() {
    let (r, _, out) = run_program("0 7 - 4 % print\n");
    assert_eq!(r, Ok(()));
    assert_eq!(out, vec![-3]);
}

#[test]
fn remainder_basic() {
    let (r, _, out) = run_program("7 4 % print\n");
    assert_eq!(r, Ok(()));
    assert_eq!(out, vec![3]);
}

#[test]
fn remainder_by_zero_is_a_remainder_fault() {
    let (r, _, _) = run_program("7 0 %\n");
    assert_eq!(r, Err(InterpError::RemainderFault));
}

#[test]
fn remainder_overflow_is_a_remainder_fault() {
    let (r, _, _) = run_program("0 9223372036854775807 - 1 - 0 1 - %\n");
    assert_eq!(r, Err(InterpError::RemainderFault));
}

#[test]
fn assignment_region_empty_is_too_few() {
    let (r, _, _) = run_program("5 -> end\n");
    assert_eq!(r, Err(InterpError::AssignTooFew));
}

#[test]
fn assignment_region_one_token_is_too_few() {
    let (r, _, _) = run_program("5 -> x end\n");
    assert_eq!(r, Err(InterpError::AssignTooFew));
}

#[test]
fn assignment_region_three_tokens_is_too_many() {
    let (r, _, _) = run_program("5 -> x int int end\n");
    assert_eq!(r, Err(InterpError::AssignTooMany));
}

#[test]
fn assignment_unknown_type_is_invalid() {
    let (r, _, _) = run_program("5 -> x float end\n");
    assert_eq!(r, Err(InterpError::AssignInvalidType));
}

#[test]
fn assignment_non_alphanumeric_identifier_is_invalid() {
    let (r, _, _) = run_program("5 -> a.b int end\n");
    assert_eq!(r, Err(InterpError::AssignInvalidIdentifier));
}

#[test]
fn assignment_empty_stack_is_underflow() {
    let (r, _, _) = run_program("-> x int end\n");
    assert_eq!(r, Err(InterpError::StackUnderflow));
}

#[test]
fn assignment_checks_stack_before_identifier() {
    // With an empty stack and a bad identifier, the stack check
    // comes first.
    let (r, _, _) = run_program("-> a.b int end\n");
    assert_eq!(r, Err(InterpError::StackUnderflow));
}

#[test]
fn underflow_for_each_stack_consumer() {
    for src in [
        "print\n",
        "dup\n",
        "drop\n",
        "swap\n",
        "1 swap\n",
        "over\n",
        "1 over\n",
        "+\n",
        "1 +\n",
        "-\n",
        "*\n",
        "/\n",
        "%\n",
        "loop end\n",
    ] {
        let (r, _, _) = run_program(src);
        assert_eq!(r, Err(InterpError::StackUnderflow), "program: {:?}", src);
    }
}

#[test]
fn keyword_named_variable_is_shadowed_by_keyword() {
    // `print` is a valid identifier for assignment, but the keyword
    // always wins when the token is interpreted.
    let (r, stack, out) = run_program("5 -> print int end 1 print\n");
    assert_eq!(r, Ok(()));
    assert_eq!(out, vec![1]);
    assert!(stack.is_empty());
}

#[test]
fn sequential_loops_reanchor_on_last_end() {
    // Two regions in sequence: the first close re-anchors on the last
    // `end` of the whole program, so the first loop's body swallows
    // the second loop too; scanning then resumes after the first
    // `end` and runs the second loop again.
    let (r, _, out) = run_program("2 loop 2 loop 5 print end 6 print end\n");
    assert_eq!(r, Ok(()));
    assert_eq!(out, vec![5, 5, 6, 5, 5, 6, 6]);
}
