use cliutils::comm::{
    check_inputs, comm, compare_lines, parse_cli_input, Args, CLIInput,
};
use cliutils::text::{compare, Order};

fn args(show: (bool, bool, bool), insensitive: bool, delimiter: &str) -> Args {
    Args {
        file1: CLIInput::File("file1.txt".to_string()),
        file2: CLIInput::File("file2.txt".to_string()),
        show_col1: show.0,
        show_col2: show.1,
        show_col3: show.2,
        insensitive,
        delimiter: delimiter.to_string(),
    }
}

fn lines(text: &[&str]) -> Vec<String> {
    text.iter().map(|s| s.to_string()).collect()
}

fn run(show: (bool, bool, bool), insensitive: bool, delimiter: &str) -> Vec<String> {
    let file1 = lines(&["a", "b", "c", "d"]);
    let file2 = lines(&["B", "c"]);
    comm(&file1, &file2, &args(show, insensitive, delimiter))
}

#[test]
fn all_columns() {
    assert_eq!(run((true, true, true), false, "\t"), ["\tB", "a", "b", "\t\tc", "d"]);
    assert_eq!(run((true, true, true), true, "\t"), ["a", "\t\tb", "\t\tc", "d"]);
}

#[test]
fn suppressed_columns() {
    assert_eq!(run((false, true, true), false, "\t"), ["B", "\tc"]);
    assert_eq!(run((true, false, true), false, "\t"), ["a", "b", "\tc", "d"]);
    assert_eq!(run((true, true, false), false, "\t"), ["\tB", "a", "b", "d"]);
    assert_eq!(run((false, false, true), false, "\t"), ["c"]);
    assert_eq!(run((false, true, false), false, "\t"), ["B"]);
    assert_eq!(run((true, false, false), false, "\t"), ["a", "b", "d"]);
    assert_eq!(run((false, false, false), false, "\t"), Vec::<String>::new());
    assert_eq!(run((false, false, true), true, "\t"), ["b", "c"]);
}

#[test]
fn other_delimiter() {
    assert_eq!(run((true, true, true), false, ":"), [":B", "a", "b", "::c", "d"]);
    assert_eq!(run((false, true, true), false, "--"), ["B", "--c"]);
}

#[test]
fn empty_inputs() {
    let none = lines(&[]);
    let some = lines(&["a", "b"]);
    let all = args((true, true, true), false, "\t");
    assert_eq!(comm(&none, &none, &all), Vec::<String>::new());
    assert_eq!(comm(&some, &none, &all), ["a", "b"]);
    assert_eq!(comm(&none, &some, &all), ["\ta", "\tb"]);
    assert_eq!(comm(&some, &some, &all), ["\t\ta", "\t\tb"]);
    let blank = lines(&[""]);
    assert_eq!(comm(&blank, &some, &all), ["", "\ta", "\tb"]);
}

#[test]
fn lines_are_compared_as_texts() {
    assert_eq!(compare("a", "b", false), Order::Before);
    assert_eq!(compare("B", "a", false), Order::Before);
    assert_eq!(compare("a", "a", false), Order::Same);
    assert_eq!(compare("ab", "a", false), Order::After);
    // among texts the separator of paths has its own place
    assert_eq!(compare("dir/a", "dir-b", false), Order::After);
    for (a, b) in [("x", "y"), ("é", "z"), ("", "a"), ("abc", "abd"), ("a/b", "a.b"), ("k", "k")] {
        let expected = if a < b {
            Order::Before
        } else if a == b {
            Order::Same
        } else {
            Order::After
        };
        assert_eq!(compare(a, b, false), expected, "{a} and {b}");
    }
    assert_eq!(compare_lines("B", "a", false), Order::Before);
    assert_eq!(compare_lines("B", "a", true), Order::After);
    assert_eq!(compare_lines("B", "b", true), Order::Same);
    assert_eq!(compare_lines("ÉCOLE", "école", true), Order::Same);
}

#[test]
fn inputs() {
    assert_eq!(parse_cli_input("-"), CLIInput::StdIn);
    assert_eq!(parse_cli_input("a"), CLIInput::File("a".to_string()));
    assert_eq!(parse_cli_input("-a"), CLIInput::File("-a".to_string()));
    let mut both = args((true, true, true), false, "\t");
    assert_eq!(check_inputs(&both), Ok(()));
    both.file1 = CLIInput::StdIn;
    assert_eq!(check_inputs(&both), Ok(()));
    both.file2 = CLIInput::StdIn;
    assert_eq!(
        check_inputs(&both),
        Err(r#"Both input files cannot be STDIN ("-")"#.to_string())
    );
}
