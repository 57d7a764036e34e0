use heavy::access_log::{
    logged_headers, logged_latency, writer_step, LogAction, LogCmd, LogEvent, WriterState,
};

/// Runs the writer on commands, failing the actions whose numbers are given, and returns what it
/// did, in words, with what it wrote.
fn run(commands: Vec<LogCmd>, failing: &[usize]) -> (Vec<&'static str>, Vec<u8>) {
    let mut commands = commands.into_iter();
    let mut state = WriterState::Idle;
    let mut action = LogAction::Receive;
    let mut done = Vec::new();
    let mut written = Vec::new();
    let mut count = 0;
    loop {
        let fails = failing.contains(&count);
        let event = match &action {
            LogAction::Receive
            | LogAction::Replace
            | LogAction::ReportWriteFailure
            | LogAction::ReportReopenFailure => match commands.next() {
                Some(cmd) => LogEvent::Received(cmd),
                None => LogEvent::Closed,
            },
            LogAction::Stop => return (done, written),
            _ => {
                count += 1;
                if fails {
                    LogEvent::Failed
                } else {
                    if let LogAction::Write(bytes) = &action {
                        written.extend_from_slice(bytes);
                    }
                    LogEvent::Succeeded
                }
            }
        };
        (state, action) = writer_step(state, event);
        done.push(match action {
            LogAction::Receive => "receive",
            LogAction::Write(_) => "write",
            LogAction::Flush => "flush",
            LogAction::Open => "open",
            LogAction::Replace => "replace",
            LogAction::ReportWriteFailure => "write failed",
            LogAction::ReportReopenFailure => "reopen failed",
            LogAction::Stop => "stop",
        });
    }
}

fn append(line: &str) -> LogCmd {
    LogCmd::Append(line.to_string())
}

#[test]
fn lines_are_written_in_order() {
    let (done, written) = run(vec![append("one"), append("caf\u{e9}")], &[]);
    assert_eq!(
        done,
        vec!["write", "write", "flush", "receive", "write", "write", "flush", "receive", "stop"]
    );
    assert_eq!(written, "one\ncaf\u{e9}\n".as_bytes());
}

#[test]
fn write_failures_are_survived() {
    // Of the line, of its end, and of the flush
    for (failing, before) in [(0, 0), (1, 1), (2, 2)] {
        let (done, written) = run(vec![append("one"), append("two")], &[failing]);
        assert_eq!(done.iter().position(|d| *d == "write failed"), Some(before + 1));
        assert!(written.ends_with(b"two\n"));
        assert_eq!(done.last(), Some(&"stop"));
    }
}

#[test]
fn file_is_reopened_on_demand() {
    let (done, written) = run(vec![append("a"), LogCmd::Reopen, append("b")], &[]);
    assert_eq!(done[4..7], ["flush", "open", "replace"]);
    assert_eq!(written, b"a\nb\n");

    // The file is opened again even where the old one cannot be flushed
    let (done, _) = run(vec![LogCmd::Reopen], &[0]);
    assert_eq!(done, vec!["flush", "open", "replace", "stop"]);

    // Without a new file the old one stays
    let (done, written) = run(vec![LogCmd::Reopen, append("b")], &[1]);
    assert_eq!(done[..3], ["flush", "open", "reopen failed"]);
    assert_eq!(written, b"b\n");

    // A line that cannot be written harms neither the reopening nor the other lines
    let commands = vec![append("a"), append("lost"), LogCmd::Reopen, append("b"), LogCmd::Reopen];
    let (done, written) = run(commands, &[3]);
    assert_eq!(written, b"a\nb\n");
    assert_eq!(done.iter().filter(|d| **d == "replace").count(), 2);
    assert_eq!(done.iter().filter(|d| **d == "write failed").count(), 1);
}

#[test]
fn logged_headers_are_text_and_unique() {
    let header = |name: &str, value: &[u8]| (name.to_string(), value.to_vec());
    let pairs = logged_headers(&vec![
        header("accept", b"first"),
        header("host", b"localhost"),
        header("accept", b"tab\tand space"),
        header("x-bytes", b"\xff"),
        header("host", b"caf\xc3\xa9"),
    ]);
    let mut pairs: Vec<(&str, &str)> = pairs.iter().map(|(k, v)| (&k[..], &v[..])).collect();
    pairs.sort();
    assert_eq!(pairs, vec![("accept", "tab\tand space"), ("host", "localhost")]);
}

#[test]
fn logged_latency_saturates() {
    assert_eq!(logged_latency(0), 0);
    assert_eq!(logged_latency(1234), 1234);
    assert_eq!(logged_latency(u32::MAX as u128), u32::MAX);
    assert_eq!(logged_latency(u32::MAX as u128 + 1), u32::MAX);
    assert_eq!(logged_latency(u128::MAX), u32::MAX);
}
