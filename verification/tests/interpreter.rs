use forth_vm::{Data, Vm, VmError};

fn run_line(vm: &mut Vm, line: &str) -> Result<String, VmError> {
    vm.interpret_line(line.to_string())
}

#[test]
fn integer_literals_push_in_order() {
    let mut vm = Vm::new(false);
    let r = run_line(&mut vm, "1 2 3");
    assert!(r.is_ok());
    assert_eq!(vm.data, vec![Data::Int(1), Data::Int(2), Data::Int(3)]);
}

#[test]
fn rendering_of_final_stack() {
    let mut vm = Vm::new(false);
    let r = run_line(&mut vm, "1 -5 \" a b \"").unwrap();
    assert_eq!(r, "[Int(1), Int(-5), Str(\" a b\")]");
}

#[test]
fn dup_duplicates_top() {
    let mut vm = Vm::new(false);
    run_line(&mut vm, "5").unwrap();
    run_line(&mut vm, "dup").unwrap();
    assert_eq!(vm.data, vec![Data::Int(5), Data::Int(5)]);
}

#[test]
fn dup_on_empty_stack_underflows() {
    let mut vm = Vm::new(false);
    let r = run_line(&mut vm, "dup");
    assert_eq!(r, Err(VmError::StackUnderflow));
    assert!(vm.data.is_empty());
}

#[test]
fn swap_exchanges_top_two() {
    let mut vm = Vm::new(false);
    run_line(&mut vm, "1 2").unwrap();
    run_line(&mut vm, "swap").unwrap();
    assert_eq!(vm.data, vec![Data::Int(2), Data::Int(1)]);
}

#[test]
fn swap_on_single_value_underflows() {
    let mut vm = Vm::new(false);
    run_line(&mut vm, "1").unwrap();
    let r = run_line(&mut vm, "swap");
    assert_eq!(r, Err(VmError::StackUnderflow));
}

#[test]
fn drop_removes_top() {
    let mut vm = Vm::new(false);
    run_line(&mut vm, "1 2 drop").unwrap();
    assert_eq!(vm.data, vec![Data::Int(1)]);
}

#[test]
fn drop_on_empty_stack_underflows() {
    let mut vm = Vm::new(false);
    assert_eq!(run_line(&mut vm, "drop"), Err(VmError::StackUnderflow));
}

#[test]
fn add_sums_two_integers() {
    let mut vm = Vm::new(false);
    run_line(&mut vm, "2 3").unwrap();
    run_line(&mut vm, "+").unwrap();
    assert_eq!(vm.data, vec![Data::Int(5)]);
}

#[test]
fn add_on_text_is_a_type_mismatch() {
    let mut vm = Vm::new(false);
    vm.data.push(Data::Str("a".to_string()));
    vm.data.push(Data::Int(1));
    let r = run_line(&mut vm, "+");
    assert_eq!(r, Err(VmError::TypeMismatch));
}

#[test]
fn add_on_text_from_a_literal_is_a_type_mismatch() {
    let mut vm = Vm::new(false);
    run_line(&mut vm, "\" a \" 1").unwrap();
    assert_eq!(vm.data, vec![Data::Str(" a".to_string()), Data::Int(1)]);
    let r = run_line(&mut vm, "+");
    assert_eq!(r, Err(VmError::TypeMismatch));
}

#[test]
fn add_with_one_value_underflows() {
    let mut vm = Vm::new(false);
    run_line(&mut vm, "7").unwrap();
    assert_eq!(run_line(&mut vm, "+"), Err(VmError::StackUnderflow));
}

#[test]
fn add_wraps_on_overflow() {
    let mut vm = Vm::new(false);
    run_line(&mut vm, "2147483647 1 +").unwrap();
    assert_eq!(vm.data, vec![Data::Int(-2147483648)]);
}

#[test]
fn defined_procedure_runs_when_named() {
    let mut vm = Vm::new(false);
    run_line(&mut vm, ": inc 1 + ;").unwrap();
    run_line(&mut vm, "5 inc").unwrap();
    assert_eq!(vm.data, vec![Data::Int(6)]);
}

#[test]
fn procedure_reusing_builtins_doubles() {
    let mut vm = Vm::new(false);
    run_line(&mut vm, ": sq dup + ;").unwrap();
    run_line(&mut vm, "3 sq").unwrap();
    assert_eq!(vm.data, vec![Data::Int(6)]);
}

#[test]
fn redefinition_replaces_body_for_later_calls() {
    let mut vm = Vm::new(false);
    run_line(&mut vm, ": f 1 ;").unwrap();
    run_line(&mut vm, "f").unwrap();
    assert_eq!(vm.data, vec![Data::Int(1)]);
    run_line(&mut vm, ": f 2 ;").unwrap();
    run_line(&mut vm, "f").unwrap();
    assert_eq!(vm.data, vec![Data::Int(1), Data::Int(2)]);
}

#[test]
fn redefinition_within_one_line() {
    let mut vm = Vm::new(false);
    run_line(&mut vm, ": f 1 ; f : f 2 ; f").unwrap();
    assert_eq!(vm.data, vec![Data::Int(1), Data::Int(2)]);
}

#[test]
fn string_literal_joins_with_spaces() {
    let mut vm = Vm::new(false);
    run_line(&mut vm, "\" hello world \"").unwrap();
    assert_eq!(vm.data, vec![Data::Str(" hello world".to_string())]);
}

#[test]
fn string_literal_with_no_interior_tokens_is_empty() {
    let mut vm = Vm::new(false);
    run_line(&mut vm, "\" \"").unwrap();
    assert_eq!(vm.data, vec![Data::Str(String::new())]);
}

#[test]
fn unclosed_string_literal_is_accepted() {
    let mut vm = Vm::new(false);
    run_line(&mut vm, "\" a b").unwrap();
    assert_eq!(vm.data, vec![Data::Str(" a b".to_string())]);
}

#[test]
fn unknown_word_fails_and_keeps_state() {
    let mut vm = Vm::new(false);
    run_line(&mut vm, ": p 7 ;").unwrap();
    run_line(&mut vm, "5").unwrap();
    let r = run_line(&mut vm, "foo");
    assert_eq!(r, Err(VmError::UnknownWord));
    assert_eq!(vm.data, vec![Data::Int(5)]);
    run_line(&mut vm, "p").unwrap();
    assert_eq!(vm.data, vec![Data::Int(5), Data::Int(7)]);
}

#[test]
fn mutations_before_the_failing_token_remain() {
    let mut vm = Vm::new(false);
    let r = run_line(&mut vm, "1 2 foo");
    assert_eq!(r, Err(VmError::UnknownWord));
    assert_eq!(vm.data, vec![Data::Int(1), Data::Int(2)]);
}

#[test]
fn definition_without_name_is_fatal() {
    let mut vm = Vm::new(false);
    assert_eq!(run_line(&mut vm, ":"), Err(VmError::RanOutOfProgram));
}

#[test]
fn unterminated_definition_is_accepted() {
    let mut vm = Vm::new(false);
    run_line(&mut vm, ": f 1").unwrap();
    run_line(&mut vm, "f").unwrap();
    assert_eq!(vm.data, vec![Data::Int(1)]);
}

#[test]
fn print_emits_without_popping() {
    let mut vm = Vm::new(false);
    run_line(&mut vm, "5 print").unwrap();
    assert_eq!(vm.out, vec!["5".to_string()]);
    assert_eq!(vm.data, vec![Data::Int(5)]);
}

#[test]
fn print_renders_text_and_negative_numbers() {
    let mut vm = Vm::new(false);
    run_line(&mut vm, "\" hi there \" print drop -42 print").unwrap();
    assert_eq!(vm.out, vec![" hi there".to_string(), "-42".to_string()]);
}

#[test]
fn print_on_empty_stack_underflows() {
    let mut vm = Vm::new(false);
    assert_eq!(run_line(&mut vm, "print"), Err(VmError::StackUnderflow));
}

#[test]
fn literal_out_of_range_is_no_number() {
    let mut vm = Vm::new(false);
    assert_eq!(run_line(&mut vm, "2147483648"), Err(VmError::UnknownWord));
    run_line(&mut vm, "-2147483648").unwrap();
    assert_eq!(vm.data, vec![Data::Int(-2147483648)]);
}

#[test]
fn literal_forms_follow_integer_parsing() {
    let mut vm = Vm::new(false);
    run_line(&mut vm, "+7 007 -0").unwrap();
    assert_eq!(vm.data, vec![Data::Int(7), Data::Int(7), Data::Int(0)]);
    assert_eq!(run_line(&mut vm, "1_0"), Err(VmError::UnknownWord));
    assert_eq!(run_line(&mut vm, "--1"), Err(VmError::UnknownWord));
}

#[test]
fn procedure_name_shadows_builtin() {
    let mut vm = Vm::new(false);
    run_line(&mut vm, ": dup 9 ;").unwrap();
    run_line(&mut vm, "1 dup").unwrap();
    assert_eq!(vm.data, vec![Data::Int(1), Data::Int(9)]);
}

#[test]
fn endless_recursion_is_cut_off() {
    let mut vm = Vm::new(false);
    run_line(&mut vm, ": r r ;").unwrap();
    assert_eq!(run_line(&mut vm, "r"), Err(VmError::StepLimitExceeded));
}

#[test]
fn tokens_split_on_any_whitespace() {
    let mut vm = Vm::new(false);
    run_line(&mut vm, "  1\t2\r3  ").unwrap();
    assert_eq!(vm.data, vec![Data::Int(1), Data::Int(2), Data::Int(3)]);
}

#[test]
fn empty_line_renders_empty_stack() {
    let mut vm = Vm::new(false);
    let r = run_line(&mut vm, "").unwrap();
    assert_eq!(r, "[]");
}

#[test]
fn error_messages_match_their_kinds() {
    assert_eq!(VmError::StackUnderflow.message(), "Stack underflow");
    assert_eq!(VmError::TypeMismatch.message(), "Type mismatch");
    assert_eq!(VmError::UnknownWord.message(), "Unknown function");
    assert_eq!(VmError::RanOutOfProgram.message(), "Ran out of program");
}
