use heavy::socket::{handle_line, removes, Leftover, SocketStep};

/// What a client that sends the input and then closes gets back.
fn converse(input: &str) -> String {
    let mut output = String::new();
    for line in input.split_inclusive('\n') {
        match handle_line(line.len(), line) {
            SocketStep::Close => panic!("closed at {line:?}"),
            SocketStep::Ignore => {}
            SocketStep::Reply(reply) => output.push_str(&reply),
        }
    }
    assert!(matches!(handle_line(0, ""), SocketStep::Close));
    output
}

#[test]
fn handles_line_commands() {
    assert_eq!(
        converse("hello\n foo bar \n"),
        "Hello, world!\nerror: unknown command: foo bar\n"
    );
}

#[test]
fn white_space_around_commands() {
    assert_eq!(converse("\n \t\r\n\u{3000}hi\u{85}\r\n"), "Hello, world!\n");
    assert_eq!(converse("Hello"), "error: unknown command: Hello\n");
    assert_eq!(converse("caf\u{e9}\n"), "error: unknown command: caf\u{e9}\n");
}

#[test]
fn only_a_stale_socket_is_removed() {
    assert!(removes(Leftover::Socket));
    assert!(!removes(Leftover::Other));
    assert!(!removes(Leftover::Nothing));
}
