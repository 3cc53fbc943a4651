use nexus::repl_input::{classify_line, parse_command, LineKind, MultiLineInput, ReplCommand};

#[test]
fn classifies_blank_command_and_code_lines() {
    assert_eq!(classify_line("   \t "), LineKind::Blank);
    assert_eq!(classify_line(""), LineKind::Blank);
    assert_eq!(classify_line("  :help "), LineKind::Command);
    assert_eq!(classify_line("let x = 1"), LineKind::Code);
    assert_eq!(classify_line("x :"), LineKind::Code);
}

#[test]
fn parses_each_command_word() {
    assert_eq!(parse_command(":exit"), ReplCommand::Exit);
    assert_eq!(parse_command("  :quit  "), ReplCommand::Exit);
    assert_eq!(parse_command(":q"), ReplCommand::Exit);
    assert_eq!(parse_command(":help"), ReplCommand::Help);
    assert_eq!(parse_command(":h extra"), ReplCommand::Help);
    assert_eq!(parse_command(":clear"), ReplCommand::Clear);
    assert_eq!(parse_command(":cls"), ReplCommand::Clear);
    assert_eq!(parse_command(":history"), ReplCommand::History);
    assert_eq!(parse_command(":env"), ReplCommand::Env);
    assert_eq!(parse_command(":reset"), ReplCommand::Reset);
    assert_eq!(parse_command("   "), ReplCommand::Nothing);
}

#[test]
fn load_takes_the_second_word() {
    assert_eq!(
        parse_command(":load   prog.vx  more"),
        ReplCommand::Load(Some("prog.vx".to_string()))
    );
    assert_eq!(parse_command(":load"), ReplCommand::Load(None));
    assert_eq!(parse_command(":load   "), ReplCommand::Load(None));
}

#[test]
fn unknown_commands_keep_their_word() {
    assert_eq!(parse_command(":HELP"), ReplCommand::Unknown(":HELP".to_string()));
    assert_eq!(parse_command(" :frob it"), ReplCommand::Unknown(":frob".to_string()));
}

#[test]
fn block_openers_need_a_keyword_and_a_colon() {
    let input = MultiLineInput::new();
    assert!(input.should_start_multi_line("if x > 1:"));
    assert!(input.should_start_multi_line("  fn add(a, b):  "));
    assert!(input.should_start_multi_line("@gpu fn kernel(a):"));
    assert!(input.should_start_multi_line("else:"));
    assert!(input.should_start_multi_line("fallback:"));
    assert!(!input.should_start_multi_line("if x > 1"));
    assert!(!input.should_start_multi_line("x:"));
    assert!(!input.should_start_multi_line("iffy:"));
}

#[test]
fn single_lines_run_at_once_trimmed() {
    let mut input = MultiLineInput::new();
    assert_eq!(input.handle_input("  let x = 5  "), Some("let x = 5".to_string()));
    assert!(!input.in_multi_line);
    assert_eq!(input.buffer, "");
    assert_eq!(input.handle_input("   "), Some(String::new()));
}

#[test]
fn function_block_completes_at_return() {
    let mut input = MultiLineInput::new();
    assert_eq!(input.handle_input("fn add(a, b):"), None);
    assert!(input.in_multi_line);
    assert_eq!(input.buffer, "fn add(a, b):");
    assert_eq!(
        input.handle_input("    return a + b"),
        Some("fn add(a, b):\nreturn a + b".to_string())
    );
    assert!(!input.in_multi_line);
    assert_eq!(input.buffer, "");
    assert_eq!(input.bracket_depth, 0);
}

#[test]
fn if_block_completes_with_a_body_line() {
    let mut input = MultiLineInput::new();
    assert_eq!(input.handle_input("if x > 1:"), None);
    assert_eq!(input.handle_input("print(x)"), Some("if x > 1:\nprint(x)".to_string()));
}

#[test]
fn block_waits_while_it_ends_with_a_colon() {
    let mut input = MultiLineInput::new();
    assert_eq!(input.handle_input("for i in range(0, 3):"), None);
    assert_eq!(input.handle_input(""), None);
    assert_eq!(input.buffer, "for i in range(0, 3):\n");
    assert!(input.in_multi_line);
    assert!(!input.is_complete_block());
}

#[test]
fn branch_block_completes_on_a_last_line_without_colon() {
    let mut input = MultiLineInput::new();
    assert_eq!(input.handle_input("branch x:"), None);
    assert_eq!(input.handle_input("fallback:"), None);
    assert_eq!(input.handle_input("y = 2"), Some("branch x:\nfallback:\ny = 2".to_string()));
}

#[test]
fn interrupt_drops_a_block_and_ends_otherwise() {
    let mut input = MultiLineInput::new();
    assert!(!input.interrupt());
    assert_eq!(input.handle_input("fn f(a):"), None);
    assert!(input.interrupt());
    assert!(!input.in_multi_line);
    assert_eq!(input.buffer, "");
    input.reset_multi_line();
    assert!(!input.in_multi_line);
}
