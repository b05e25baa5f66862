use gable::command_line::{run_cli, split_words};

fn args(v: &[&str]) -> Vec<String> {
    v.iter().map(|s| s.to_string()).collect()
}

#[test]
fn words_of_text() {
    assert_eq!(split_words("  export --data\t--script \n"), args(&["export", "--data", "--script"]));
    assert_eq!(split_words(""), Vec::<String>::new());
    assert_eq!(split_words("a\u{3000}b"), args(&["a", "b"]));
    assert_eq!(split_words("one"), args(&["one"]));
}

#[test]
fn cli_arguments_are_split() {
    assert!(run_cli(args(&["gable"])).is_empty());
    assert_eq!(
        run_cli(args(&["gable", "export", "--data --script", "-f", "Sheet1"])),
        args(&["export", "--data", "--script", "-f", "Sheet1"])
    );
    // With an '=' or without a leading "--", the argument stays whole.
    assert_eq!(run_cli(args(&["gable", "--dir=a b", "-d x"])), args(&["--dir=a b", "-d x"]));
    assert_eq!(run_cli(args(&["gable", "--data"])), args(&["--data"]));
}
