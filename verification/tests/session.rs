use raggust::session::{read_command, Command};

#[test]
fn blank_lines_are_skipped() {
    assert!(matches!(read_command(""), Command::Skip));
    assert!(matches!(read_command("  \n"), Command::Skip));
}

#[test]
fn clear_exit_and_quit() {
    assert!(matches!(read_command("clear\n"), Command::Clear));
    assert!(matches!(read_command("  exit "), Command::Exit));
    assert!(matches!(read_command("quit\r\n"), Command::Exit));
    assert!(matches!(read_command("Exit"), Command::Ask(_)));
}

#[test]
fn other_lines_are_questions() {
    match read_command("  Who is Theo? \n") {
        Command::Ask(q) => assert_eq!(q, "Who is Theo?"),
        other => panic!("unexpected {:?}", other),
    }
}
