use scanner::cli::{parse_args, parse_usize, usage, Command, Config, DEFAULT_TOP};

fn args(list: &[&str]) -> Vec<String> {
    list.iter().map(|s| s.to_string()).collect()
}

fn cwd() -> Result<String, String> {
    Ok("/home/user".to_string())
}

#[test]
fn main_parses_path_and_top_count() {
    let command = parse_args(args(&["C:\\", "--top", "25"]), cwd()).expect("args should parse");

    assert_eq!(command, Command::Run(Config { root: "C:\\".to_string(), top: 25 }));
}

#[test]
fn main_rejects_zero_top_count() {
    let error = parse_args(args(&["--top", "0"]), cwd()).expect_err("zero should be rejected");

    assert!(error.contains("greater than zero"));
}

#[test]
fn parse_args_defaults_to_current_dir_and_default_top() {
    assert_eq!(
        parse_args(args(&[]), cwd()),
        Ok(Command::Run(Config { root: "/home/user".to_string(), top: DEFAULT_TOP }))
    );
    assert_eq!(DEFAULT_TOP, 15);
}

#[test]
fn parse_args_help_wins_when_it_comes_first() {
    assert_eq!(parse_args(args(&["-h"]), cwd()), Ok(Command::Help));
    assert_eq!(parse_args(args(&["x", "--help", "--bogus"]), cwd()), Ok(Command::Help));
    assert_eq!(
        parse_args(args(&["--bogus", "--help"]), cwd()),
        Err("unknown option: --bogus".to_string())
    );
}

#[test]
fn parse_args_error_messages() {
    assert_eq!(parse_args(args(&["--top"]), cwd()), Err("--top requires a number".to_string()));
    assert_eq!(parse_args(args(&["-n"]), cwd()), Err("-n requires a number".to_string()));
    assert_eq!(
        parse_args(args(&["-n", "abc"]), cwd()),
        Err("-n requires a positive number".to_string())
    );
    assert_eq!(
        parse_args(args(&["-n", "-3"]), cwd()),
        Err("-n requires a positive number".to_string())
    );
    assert_eq!(
        parse_args(args(&["-n", "0"]), cwd()),
        Err("-n requires a number greater than zero".to_string())
    );
    assert_eq!(parse_args(args(&["-"]), cwd()), Err("unknown option: -".to_string()));
    assert_eq!(
        parse_args(args(&["a", "b"]), cwd()),
        Err("only one scan path is supported".to_string())
    );
}

#[test]
fn parse_args_current_dir_error_comes_last() {
    let failed: Result<String, String> = Err("no current directory".to_string());
    assert_eq!(parse_args(args(&["a"]), failed.clone()), Err("no current directory".to_string()));
    assert_eq!(parse_args(args(&["-h"]), failed.clone()), Ok(Command::Help));
    assert_eq!(
        parse_args(args(&["-n", "0"]), failed),
        Err("-n requires a number greater than zero".to_string())
    );
}

#[test]
fn parse_args_last_top_wins() {
    assert_eq!(
        parse_args(args(&["-n", "3", "dir", "--top", "+7"]), cwd()),
        Ok(Command::Run(Config { root: "dir".to_string(), top: 7 }))
    );
}

#[test]
fn parse_usize_follows_from_str() {
    for text in ["0", "7", "+7", "007", "", "+", "-1", "1 ", " 1", "1a", "18446744073709551615", "18446744073709551616", "99999999999999999999999"] {
        assert_eq!(parse_usize(text), text.parse::<usize>().ok(), "input {text:?}");
    }
}

#[test]
fn usage_names_the_program() {
    let text = usage("storage-cleanup-helper");
    assert!(text.starts_with("Usage: storage-cleanup-helper [PATH] [--top N]\n\nRecursively scans PATH"));
    assert!(text.contains("\nstorage-cleanup-helper C:\\ --top 25\n"));
    assert!(text.contains("storage-cleanup-helper \"%LOCALAPPDATA%\\Temp\"\n\n"));
    assert!(text.ends_with("never deletes files."));
}
