use minilang::commands::{dispatch, len2, len3, select_one, select_two, Command};

fn args(words: &[&str]) -> Vec<String> {
    words.iter().map(|w| w.to_string()).collect()
}

fn run(path: &str) -> Command {
    Command::RunFile { path: path.to_string() }
}

#[test]
fn one_argument() {
    assert_eq!(len2(args(&["lang", "ast"])), Command::AstRepl);
    assert_eq!(len2(args(&["lang", "a"])), Command::AstRepl);
    assert_eq!(len2(args(&["lang", "help"])), Command::Help);
    assert_eq!(len2(args(&["lang", "h"])), Command::Help);
    assert_eq!(len2(args(&["lang", "main.txt"])), run("main.txt"));
    assert_eq!(len2(args(&["lang", "asts"])), run("asts"));
    assert_eq!(len2(args(&["lang", ""])), run(""));
    // What stands behind the argument is not looked at.
    assert_eq!(len2(args(&["lang", "ast", "more"])), Command::AstRepl);
}

#[test]
fn the_word_is_read_in_lower_case_and_the_path_is_kept() {
    assert_eq!(len2(args(&["lang", "AST"])), Command::AstRepl);
    assert_eq!(len2(args(&["lang", "Help"])), Command::Help);
    assert_eq!(len2(args(&["lang", "H"])), Command::Help);
    assert_eq!(len2(args(&["lang", "Dir/File.TXT"])), run("Dir/File.TXT"));
    assert_eq!(len2(args(&["lang", "ÀST"])), run("ÀST"));
}

#[test]
fn two_arguments() {
    let tree = |path: &str| Some(Command::AstFile { path: path.to_string() });
    assert_eq!(len3(args(&["lang", "ast", "main.txt"])), tree("main.txt"));
    assert_eq!(len3(args(&["lang", "A", "Main.TXT"])), tree("Main.TXT"));
    assert_eq!(len3(args(&["lang", "help", "main.txt"])), None);
    assert_eq!(len3(args(&["lang", "run", "main.txt"])), None);
}

#[test]
fn selection_by_a_word_that_is_in_lower_case_already() {
    assert_eq!(select_one("ast", "AST".to_string()), Command::AstRepl);
    // The word is compared as it is given.
    assert_eq!(select_one("AST", "AST".to_string()), run("AST"));
    assert_eq!(select_one("h", "H".to_string()), Command::Help);
    assert_eq!(select_two("a", "x".to_string()), Some(Command::AstFile { path: "x".to_string() }));
    assert_eq!(select_two("A", "x".to_string()), None);
}

#[test]
fn whole_command_lines() {
    assert_eq!(dispatch(args(&[])), Some(Command::Repl));
    assert_eq!(dispatch(args(&["lang"])), Some(Command::Repl));
    assert_eq!(dispatch(args(&["lang", "a"])), Some(Command::AstRepl));
    assert_eq!(dispatch(args(&["lang", "prog"])), Some(run("prog")));
    assert_eq!(
        dispatch(args(&["lang", "ast", "prog"])),
        Some(Command::AstFile { path: "prog".to_string() })
    );
    assert_eq!(dispatch(args(&["lang", "x", "prog"])), None);
    assert_eq!(dispatch(args(&["lang", "ast", "prog", "more"])), None);
}
