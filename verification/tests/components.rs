use forth_vm::numeric::{parse_i32, render_int};
use forth_vm::text::tokenize;
use forth_vm::{Data, Program, ProcTable, Vm};

#[test]
fn program_pop_walks_the_stream_once() {
    let mut p = Program::from_stream(vec!["a".to_string(), "b".to_string()]);
    assert_eq!(p.pop(), Some(&"a".to_string()));
    assert_eq!(p.pop(), Some(&"b".to_string()));
    assert_eq!(p.pop(), None);
    assert_eq!(p.pop(), None);
}

#[test]
fn program_from_empty_stream_is_exhausted() {
    let mut p = Program::from_stream(Vec::new());
    assert_eq!(p.pop(), None);
}

#[test]
fn vm_new_starts_empty() {
    let vm = Vm::new(true);
    assert!(vm.verbose);
    assert!(vm.data.is_empty());
    assert!(vm.out.is_empty());
}

#[test]
fn data_as_int_reads_integers_only() {
    assert_eq!(Data::Int(4).as_int(), Some(4));
    assert_eq!(Data::Str("4".to_string()).as_int(), None);
}

#[test]
fn proc_table_last_definition_wins() {
    let mut t = ProcTable::new();
    assert!(t.lookup("f").is_none());
    t.insert("f".to_string(), vec!["1".to_string()]);
    assert_eq!(t.lookup("f"), Some(&vec!["1".to_string()]));
    t.insert("f".to_string(), vec!["2".to_string()]);
    assert_eq!(t.lookup("f"), Some(&vec!["2".to_string()]));
    assert!(t.contains("f"));
    assert!(!t.contains("g"));
}

#[test]
fn parse_accepts_signed_decimal_only() {
    assert_eq!(parse_i32("0"), Some(0));
    assert_eq!(parse_i32("-17"), Some(-17));
    assert_eq!(parse_i32("+17"), Some(17));
    assert_eq!(parse_i32("2147483647"), Some(2147483647));
    assert_eq!(parse_i32("-2147483648"), Some(-2147483648));
    assert_eq!(parse_i32("2147483648"), None);
    assert_eq!(parse_i32("-2147483649"), None);
    assert_eq!(parse_i32(""), None);
    assert_eq!(parse_i32("-"), None);
    assert_eq!(parse_i32("+"), None);
    assert_eq!(parse_i32("12a"), None);
    assert_eq!(parse_i32(" 1"), None);
}

#[test]
fn render_int_writes_decimal() {
    assert_eq!(render_int(0), "0");
    assert_eq!(render_int(907), "907");
    assert_eq!(render_int(-1), "-1");
    assert_eq!(render_int(-2147483648), "-2147483648");
}

#[test]
fn tokenize_splits_on_ascii_whitespace() {
    assert_eq!(tokenize("a b"), vec!["a".to_string(), "b".to_string()]);
    assert_eq!(tokenize("  a \t b \n"), vec!["a".to_string(), "b".to_string()]);
    assert_eq!(tokenize(""), Vec::<String>::new());
    assert_eq!(tokenize("   "), Vec::<String>::new());
    assert_eq!(tokenize("one"), vec!["one".to_string()]);
}
