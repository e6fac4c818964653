use ysos::logger::{format_record, max_level, push_decimal, LogLevel};
use ysos::shell::{is_whitespace, parse_line, split_spaces, trim, ShellAction};

#[test]
fn log_lines_by_level() {
    assert_eq!(
        format_record(LogLevel::Error, "src/main.rs", 42, "boom"),
        "\x1b[31;1;4m[X] Error\x1b[0m  - \x1b[31mfrom src/main.rs, at line 42, boom\x1b[0m"
    );
    assert_eq!(
        format_record(LogLevel::Warn, "a.rs", 0, "w"),
        "\x1b[33;1;4m[!] Warning\x1b[0m- \x1b[33mfrom a.rs, at line 0, w\x1b[0m"
    );
    assert_eq!(
        format_record(LogLevel::Info, "b.rs", 7, ""),
        "\x1b[34;1;4m[+] Info\x1b[0m   - \x1b[34mfrom b.rs, at line 7, \x1b[0m"
    );
    assert_eq!(
        format_record(LogLevel::Debug, "c.rs", 1000, "d"),
        "\x1b[36;1;4m[#] Debug\x1b[0m  - \x1b[36mfrom c.rs, at line 1000, d\x1b[0m"
    );
    assert_eq!(
        format_record(LogLevel::Trace, "d.rs", 9, "t"),
        "\x1b[32;1;4m[%] Trace\x1b[0m  - \x1b[32mfrom d.rs, at line 9, t\x1b[0m"
    );
    assert_eq!(max_level(), LogLevel::Trace);
}

#[test]
fn decimal_numbers() {
    let mut s = String::from("n=");
    push_decimal(&mut s, 0);
    push_decimal(&mut s, 90210);
    push_decimal(&mut s, u64::MAX);
    assert_eq!(s, "n=09021018446744073709551615");
}

#[test]
fn trimming_and_splitting() {
    assert_eq!(trim("  run  hello \t\n"), "run  hello");
    assert_eq!(trim("\u{3000}x\u{A0}"), "x");
    assert_eq!(trim("   "), "");
    assert!(is_whitespace('\u{2009}'));
    assert!(!is_whitespace('x'));
    assert_eq!(split_spaces("run  hello"), vec!["run", "", "hello"]);
    assert_eq!(split_spaces(""), vec![""]);
    assert_eq!(split_spaces(" a"), vec!["", "a"]);
}

#[test]
fn shell_commands() {
    assert_eq!(parse_line(" exit ", "/"), ShellAction::Exit);
    assert_eq!(parse_line("app", "/"), ShellAction::ListApps);
    assert_eq!(parse_line("ps", "/"), ShellAction::Stat);
    assert_eq!(parse_line("clear", "/"), ShellAction::Clear);
    assert_eq!(parse_line("help\n", "/"), ShellAction::Help);
    assert_eq!(parse_line("run  hello", "/"), ShellAction::Spawn("hello".to_string()));
    assert_eq!(parse_line("run", "/"), ShellAction::RunHelp);
    assert_eq!(parse_line("ls", "/APP"), ShellAction::List("/APP".to_string()));
    assert_eq!(parse_line("ls /x y", "/APP"), ShellAction::List("/x".to_string()));
    assert_eq!(parse_line("cat a.txt", "/"), ShellAction::Cat("a.txt".to_string()));
    assert_eq!(parse_line("cat", "/"), ShellAction::CatHelpThenRun("cat".to_string()));
    assert_eq!(parse_line("cd", "/APP"), ShellAction::ChangeDir("/".to_string()));
    assert_eq!(parse_line("cd ..", "/APP"), ShellAction::ChangeDir("..".to_string()));
    assert_eq!(parse_line("  ", "/"), ShellAction::Empty);
    assert_eq!(parse_line("APP/hello", "/"), ShellAction::RunFile("APP/hello".to_string()));
    assert_eq!(parse_line("exit now", "/"), ShellAction::RunFile("exit now".to_string()));
}
