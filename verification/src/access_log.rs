//! The access log: what an entry holds, and the steps by which the writer task works.

use crate::headers::{entries_view, visible, visible_text};
use crate::text::{same_text, text_of};
use vstd::prelude::*;
use vstd::utf8::encode_utf8;

verus! {

// ------------------------------------------------------------------------------------------
// The writer
// ------------------------------------------------------------------------------------------

/// What can be asked of the writer.
#[derive(Debug)]
pub enum LogCmd {
    /// Record a line.
    Append(String),
    /// Close the log file and open it again, after a rotation.
    Reopen,
}

/// What the writer waits for.
#[derive(Clone, Copy, Debug, PartialEq, Eq, Structural)]
pub enum WriterState {
    /// A command.
    Idle,
    /// The line to be written.
    WritingLine,
    /// The end of the line to be written.
    WritingEnd,
    /// The line to be flushed.
    Flushing,
    /// The old file to be flushed.
    FlushingOld,
    /// The new file to be opened.
    Opening,
    /// Nothing any more.
    Stopped,
}

/// What happened.
#[derive(Debug)]
pub enum LogEvent {
    /// A command came in.
    Received(LogCmd),
    /// No command will come in any more.
    Closed,
    /// The last action succeeded.
    Succeeded,
    /// The last action failed.
    Failed,
}

/// What is to be done.
#[derive(Debug)]
pub enum LogAction {
    /// Wait for a command.
    Receive,
    /// Write all of the bytes.
    Write(Vec<u8>),
    /// Flush what was written.
    Flush,
    /// Open the log file for appending.
    Open,
    /// Go on with the file that was opened, in place of the old one, and say so.
    Replace,
    /// Say that a line could not be written.
    ReportWriteFailure,
    /// Say that the log file could not be opened again; the old one stays in use.
    ReportReopenFailure,
    /// End the task.
    Stop,
}

/// Whether an event can happen in a state: commands come in where they are waited for, and other
/// states wait for an action to end.
pub open spec fn can_happen(state: WriterState, event: LogEvent) -> bool {
    match state {
        WriterState::Idle => true,
        WriterState::Stopped => true,
        _ => event is Succeeded || event is Failed,
    }
}

/// The state that follows an event.
pub open spec fn state_after(state: WriterState, event: LogEvent) -> WriterState {
    match state {
        WriterState::Idle => match event {
            LogEvent::Received(LogCmd::Append(_)) => WriterState::WritingLine,
            LogEvent::Received(LogCmd::Reopen) => WriterState::FlushingOld,
            LogEvent::Closed => WriterState::Stopped,
            _ => WriterState::Idle,
        },
        WriterState::WritingLine => if event is Succeeded {
            WriterState::WritingEnd
        } else {
            WriterState::Idle
        },
        WriterState::WritingEnd => if event is Succeeded {
            WriterState::Flushing
        } else {
            WriterState::Idle
        },
        WriterState::Flushing => WriterState::Idle,
        WriterState::FlushingOld => WriterState::Opening,
        WriterState::Opening => WriterState::Idle,
        WriterState::Stopped => WriterState::Stopped,
    }
}

/// Whether `action` is what is to be done after an event.
pub open spec fn acts(state: WriterState, event: LogEvent, action: LogAction) -> bool {
    match state {
        WriterState::Idle => match event {
            LogEvent::Received(LogCmd::Append(line)) => action matches LogAction::Write(bytes)
                && bytes@ == encode_utf8(line@),
            LogEvent::Received(LogCmd::Reopen) => action is Flush,
            LogEvent::Closed => action is Stop,
            _ => action is Receive,
        },
        WriterState::WritingLine => if event is Succeeded {
            action matches LogAction::Write(bytes) && bytes@ == seq![10u8]
        } else {
            action is ReportWriteFailure
        },
        WriterState::WritingEnd => if event is Succeeded {
            action is Flush
        } else {
            action is ReportWriteFailure
        },
        WriterState::Flushing => if event is Succeeded {
            action is Receive
        } else {
            action is ReportWriteFailure
        },
        // Whether the old file could be flushed makes no difference.
        WriterState::FlushingOld => action is Open,
        WriterState::Opening => if event is Succeeded {
            action is Replace
        } else {
            action is ReportReopenFailure
        },
        WriterState::Stopped => action is Stop,
    }
}

/// The next state of the writer, and what is to be done now.
pub fn writer_step(state: WriterState, event: LogEvent) -> (r: (WriterState, LogAction))
    requires
        can_happen(state, event),
    ensures
        r.0 == state_after(state, event),
        acts(state, event, r.1),
{
    let succeeded = matches!(event, LogEvent::Succeeded);
    match state {
        WriterState::Idle => match event {
            LogEvent::Received(LogCmd::Append(line)) => {
                let bytes = vstd::slice::slice_to_vec(line.as_str().as_bytes());
                (WriterState::WritingLine, LogAction::Write(bytes))
            },
            LogEvent::Received(LogCmd::Reopen) => (WriterState::FlushingOld, LogAction::Flush),
            LogEvent::Closed => (WriterState::Stopped, LogAction::Stop),
            _ => (WriterState::Idle, LogAction::Receive),
        },
        WriterState::WritingLine => if succeeded {
            let mut end: Vec<u8> = Vec::new();
            end.push(10);
            assert(end@ =~= seq![10u8]);
            (WriterState::WritingEnd, LogAction::Write(end))
        } else {
            (WriterState::Idle, LogAction::ReportWriteFailure)
        },
        WriterState::WritingEnd => if succeeded {
            (WriterState::Flushing, LogAction::Flush)
        } else {
            (WriterState::Idle, LogAction::ReportWriteFailure)
        },
        WriterState::Flushing => if succeeded {
            (WriterState::Idle, LogAction::Receive)
        } else {
            (WriterState::Idle, LogAction::ReportWriteFailure)
        },
        WriterState::FlushingOld => (WriterState::Opening, LogAction::Open),
        WriterState::Opening => if succeeded {
            (WriterState::Idle, LogAction::Replace)
        } else {
            (WriterState::Idle, LogAction::ReportReopenFailure)
        },
        WriterState::Stopped => (WriterState::Stopped, LogAction::Stop),
    }
}

/// The state that the writer reaches by events, one after the other.
pub open spec fn state_through(state: WriterState, events: Seq<LogEvent>) -> WriterState
    decreases events.len(),
{
    if events.len() == 0 {
        state
    } else {
        state_after(state_through(state, events.drop_last()), events.last())
    }
}

/// Whether actions are those that an idle writer takes after events, one for each.
pub open spec fn are_actions_for(events: Seq<LogEvent>, actions: Seq<LogAction>) -> bool {
    &&& actions.len() == events.len()
    &&& forall|i: int|
        0 <= i < events.len() ==> acts(
            state_through(WriterState::Idle, events.take(i)),
            events[i],
            #[trigger] actions[i],
        )
}

/// What has been appended to the log files once an action is done, of each file that was put to use
/// what was appended since then; the last one is in use. A write that succeeds appends its bytes to
/// that file, and a file that replaces it is in use from then on. What a write that fails leaves
/// behind is not counted.
pub open spec fn files_after(files: Seq<Seq<u8>>, action: LogAction, succeeded: bool) -> Seq<
    Seq<u8>,
> {
    match action {
        LogAction::Write(bytes) => if succeeded {
            files.drop_last().push(files.last() + bytes@)
        } else {
            files
        },
        LogAction::Replace => files.push(Seq::empty()),
        _ => files,
    }
}

/// What has been appended to the log files after the first `n` actions. Whether an action succeeds,
/// the event behind it tells.
pub open spec fn files_through(events: Seq<LogEvent>, actions: Seq<LogAction>, n: nat) -> Seq<
    Seq<u8>,
>
    decreases n,
{
    if n == 0 {
        seq![Seq::empty()]
    } else {
        files_after(
            files_through(events, actions, (n - 1) as nat),
            actions[n - 1],
            n < events.len() && events[n as int] is Succeeded,
        )
    }
}

/// How the writing of a line goes.
#[derive(Clone, Copy, Debug, PartialEq, Eq, Structural)]
pub enum LineFate {
    /// All of it succeeds.
    Written,
    /// Writing the line fails.
    LineFailed,
    /// Writing its end fails.
    EndFailed,
    /// The line is written, and flushing it fails.
    FlushFailed,
}

/// A command, and how the actions that it leads to go.
#[derive(Debug)]
pub enum Handling {
    Append { line: String, fate: LineFate },
    Reopen { flushed: bool, opened: bool },
}

/// The event that an action ends with.
pub open spec fn ending(succeeded: bool) -> LogEvent {
    if succeeded {
        LogEvent::Succeeded
    } else {
        LogEvent::Failed
    }
}

/// The events of a command.
pub open spec fn events_of(handling: Handling) -> Seq<LogEvent> {
    match handling {
        Handling::Append { line, fate } => {
            let received = LogEvent::Received(LogCmd::Append(line));
            match fate {
                LineFate::Written => seq![received, ending(true), ending(true), ending(true)],
                LineFate::LineFailed => seq![received, ending(false)],
                LineFate::EndFailed => seq![received, ending(true), ending(false)],
                LineFate::FlushFailed => seq![received, ending(true), ending(true), ending(false)],
            }
        },
        Handling::Reopen { flushed, opened } => seq![
            LogEvent::Received(LogCmd::Reopen),
            ending(flushed),
            ending(opened),
        ],
    }
}

/// The events of commands, one after the other.
pub open spec fn events_of_all(handlings: Seq<Handling>) -> Seq<LogEvent>
    decreases handlings.len(),
{
    if handlings.len() == 0 {
        Seq::empty()
    } else {
        events_of_all(handlings.drop_last()) + events_of(handlings.last())
    }
}

/// The bytes of a line, with a line feed behind it, as far as they are written.
pub open spec fn line_bytes(line: Seq<char>, fate: LineFate) -> Seq<u8> {
    match fate {
        LineFate::Written => encode_utf8(line) + seq![10u8],
        LineFate::FlushFailed => encode_utf8(line) + seq![10u8],
        LineFate::EndFailed => encode_utf8(line),
        LineFate::LineFailed => Seq::empty(),
    }
}

/// What commands are to append to the log files, of each file that is put to use: every line goes
/// to the one in use when it comes, and one that could be opened is in use from then on.
pub open spec fn log_files(handlings: Seq<Handling>) -> Seq<Seq<u8>>
    decreases handlings.len(),
{
    if handlings.len() == 0 {
        seq![Seq::empty()]
    } else {
        let before = log_files(handlings.drop_last());
        match handlings.last() {
            Handling::Append { line, fate } => before.drop_last().push(
                before.last() + line_bytes(line@, fate),
            ),
            Handling::Reopen { opened, .. } => if opened {
                before.push(Seq::empty())
            } else {
                before
            },
        }
    }
}

/// The lines among commands, in order.
pub open spec fn lines_of(handlings: Seq<Handling>) -> Seq<Seq<char>>
    decreases handlings.len(),
{
    if handlings.len() == 0 {
        Seq::empty()
    } else {
        let before = lines_of(handlings.drop_last());
        match handlings.last() {
            Handling::Append { line, .. } => before.push(line@),
            Handling::Reopen { .. } => before,
        }
    }
}

/// Lines, each with a line feed behind it.
pub open spec fn as_lines(lines: Seq<Seq<char>>) -> Seq<u8>
    decreases lines.len(),
{
    if lines.len() == 0 {
        Seq::empty()
    } else {
        as_lines(lines.drop_last()) + encode_utf8(lines.last()) + seq![10u8]
    }
}

/// Later events and actions make no difference to what has been appended before.
proof fn lemma_files_of_prefix(
    events: Seq<LogEvent>,
    actions: Seq<LogAction>,
    cut: nat,
    n: nat,
)
    requires
        n <= cut <= events.len(),
        events.len() == actions.len(),
        cut < events.len() ==> events[cut as int] !is Succeeded,
    ensures
        files_through(events.take(cut as int), actions.take(cut as int), n) == files_through(
            events,
            actions,
            n,
        ),
    decreases n,
{
    if n > 0 {
        lemma_files_of_prefix(events, actions, cut, (n - 1) as nat);
    }
}

/// What one event does to the state, and the action for it.
proof fn lemma_one_event(events: Seq<LogEvent>, actions: Seq<LogAction>, n: int)
    requires
        are_actions_for(events, actions),
        0 <= n < events.len(),
    ensures
        state_through(WriterState::Idle, events.take(n + 1)) == state_after(
            state_through(WriterState::Idle, events.take(n)),
            events[n],
        ),
        acts(state_through(WriterState::Idle, events.take(n)), events[n], actions[n]),
{
    let taken = events.take(n + 1);
    assert(taken.drop_last() =~= events.take(n));
    assert(taken.last() == events[n]);
}

/// What a line at the end of the commands adds.
proof fn lemma_append_at_end(
    events: Seq<LogEvent>,
    actions: Seq<LogAction>,
    cut: int,
    line: String,
    fate: LineFate,
    files: Seq<Seq<u8>>,
)
    requires
        are_actions_for(events, actions),
        0 <= cut <= events.len(),
        events.skip(cut) == events_of(Handling::Append { line, fate }),
        state_through(WriterState::Idle, events.take(cut)) is Idle,
        files_through(events, actions, cut as nat) == files,
        files.len() > 0,
    ensures
        files_through(events, actions, events.len()) == files.drop_last().push(
            files.last() + line_bytes(line@, fate),
        ),
        state_through(WriterState::Idle, events) is Idle,
{
    let own = events.skip(cut);
    let bytes = encode_utf8(line@);
    let end = seq![10u8];
    assert(events.take(events.len() as int) =~= events);
    assert(own.len() >= 2);
    assert(own[0] == events[cut]);
    assert(own[1] == events[cut + 1]);
    lemma_one_event(events, actions, cut);
    lemma_one_event(events, actions, cut + 1);
    let f1 = files_through(events, actions, (cut + 1) as nat);
    let f2 = files_through(events, actions, (cut + 2) as nat);
    match fate {
        LineFate::LineFailed => {
            assert(f1 == files);
            assert(f2 == files);
            assert(files.last() + Seq::<u8>::empty() =~= files.last());
            assert(files.drop_last().push(files.last()) =~= files);
        },
        LineFate::EndFailed => {
            assert(own[2] == events[cut + 2]);
            lemma_one_event(events, actions, cut + 2);
            assert(f1 == files.drop_last().push(files.last() + bytes));
            assert(f2 == f1);
            assert(files_through(events, actions, (cut + 3) as nat) == f2);
        },
        _ => {
            assert(own[2] == events[cut + 2]);
            assert(own[3] == events[cut + 3]);
            lemma_one_event(events, actions, cut + 2);
            lemma_one_event(events, actions, cut + 3);
            assert(f1 == files.drop_last().push(files.last() + bytes));
            assert(f2 == f1.drop_last().push(f1.last() + end));
            assert(f1.drop_last() =~= files.drop_last());
            assert(files.last() + bytes + end =~= files.last() + (bytes + end));
            assert(files_through(events, actions, (cut + 3) as nat) == f2);
            assert(files_through(events, actions, (cut + 4) as nat) == f2);
        },
    }
}

/// What opening the file again at the end of the commands changes.
proof fn lemma_reopen_at_end(
    events: Seq<LogEvent>,
    actions: Seq<LogAction>,
    cut: int,
    flushed: bool,
    opened: bool,
    files: Seq<Seq<u8>>,
)
    requires
        are_actions_for(events, actions),
        0 <= cut <= events.len(),
        events.skip(cut) == events_of(Handling::Reopen { flushed, opened }),
        state_through(WriterState::Idle, events.take(cut)) is Idle,
        files_through(events, actions, cut as nat) == files,
    ensures
        files_through(events, actions, events.len()) == if opened {
            files.push(Seq::empty())
        } else {
            files
        },
        state_through(WriterState::Idle, events) is Idle,
{
    let own = events.skip(cut);
    assert(own.len() == 3);
    assert(events.take(events.len() as int) =~= events);
    assert(own[0] == events[cut]);
    assert(own[1] == events[cut + 1]);
    assert(own[2] == events[cut + 2]);
    lemma_one_event(events, actions, cut);
    lemma_one_event(events, actions, cut + 1);
    lemma_one_event(events, actions, cut + 2);
    assert(files_through(events, actions, (cut + 1) as nat) == files);
    assert(files_through(events, actions, (cut + 2) as nat) == files);
    assert(events.len() == cut + 3);
}

/// The writer serves its commands in the order in which they come in, whatever they are and however
/// its actions go. Every line is written once, to the file that was in use when it came, and with a
/// line feed behind it, as far as writing succeeds; a failure harms no other line. A file that
/// could be opened again takes the place of the old one for the lines that follow; where it could
/// not, the old one stays in use. After each command the writer waits for the next one.
pub proof fn law_commands_are_served_in_order(handlings: Seq<Handling>, actions: Seq<LogAction>)
    requires
        are_actions_for(events_of_all(handlings), actions),
    ensures
        files_through(events_of_all(handlings), actions, actions.len()) == log_files(handlings),
        state_through(WriterState::Idle, events_of_all(handlings)) is Idle,
        log_files(handlings).len() > 0,
    decreases handlings.len(),
{
    if handlings.len() > 0 {
        let rest = handlings.drop_last();
        let events = events_of_all(handlings);
        let earlier = events_of_all(rest);
        let own = events_of(handlings.last());
        let cut = earlier.len() as int;
        let before = actions.take(cut);
        assert(events.take(cut) =~= earlier);
        assert(events.skip(cut) =~= own);
        assert forall|i: int| 0 <= i < earlier.len() implies acts(
            state_through(WriterState::Idle, earlier.take(i)),
            earlier[i],
            #[trigger] before[i],
        ) by {
            assert(before[i] == actions[i]);
            assert(earlier.take(i) =~= events.take(i));
            assert(earlier[i] == events[i]);
        }
        law_commands_are_served_in_order(rest, before);
        assert(events[cut] == own[0]);
        lemma_files_of_prefix(events, actions, cut as nat, cut as nat);
        match handlings.last() {
            Handling::Append { line, fate } => {
                lemma_append_at_end(events, actions, cut, line, fate, log_files(rest));
            },
            Handling::Reopen { flushed, opened } => {
                lemma_reopen_at_end(events, actions, cut, flushed, opened, log_files(rest));
            },
        }
    }
}

/// Where writing succeeds, the files together hold every line that came in, once each and in the
/// order in which they came, however often the file was opened again.
pub proof fn law_lines_are_written_in_order(handlings: Seq<Handling>)
    requires
        forall|i: int|
            0 <= i < handlings.len() ==> ((#[trigger] handlings[i]) matches Handling::Append {
                fate,
                ..
            } ==> fate is Written || fate is FlushFailed),
    ensures
        log_files(handlings).len() > 0,
        log_files(handlings).flatten() == as_lines(lines_of(handlings)),
    decreases handlings.len(),
{
    if handlings.len() == 0 {
        let none = seq![Seq::<u8>::empty()];
        none.lemma_flatten_one_element();
    } else {
        let rest = handlings.drop_last();
        assert forall|i: int| 0 <= i < rest.len() implies ((#[trigger] rest[i]) matches Handling::Append {
            fate,
            ..
        } ==> fate is Written || fate is FlushFailed) by {
            assert(rest[i] == handlings[i]);
        }
        law_lines_are_written_in_order(rest);
        let before = log_files(rest);
        let last = handlings[handlings.len() - 1];
        match last {
            Handling::Append { line, fate } => {
                let more = line_bytes(line@, fate);
                before.drop_last().lemma_flatten_push(before.last());
                before.drop_last().lemma_flatten_push(before.last() + more);
                assert(before.drop_last().push(before.last()) =~= before);
                assert(before.drop_last().flatten() + (before.last() + more) =~= before.flatten()
                    + more);
                let lines = lines_of(handlings);
                assert(lines.drop_last() =~= lines_of(rest));
                assert(as_lines(lines) =~= as_lines(lines_of(rest)) + more);
            },
            Handling::Reopen { opened, .. } => {
                if opened {
                    before.lemma_flatten_push(Seq::empty());
                    assert(before.flatten() + Seq::empty() =~= before.flatten());
                }
            },
        }
    }
}

/// A failure to write does not stop the writer: it reports it, and waits for the next command.
pub proof fn law_write_failure_is_survived(state: WriterState, action: LogAction)
    requires
        state is WritingLine || state is WritingEnd || state is Flushing,
        acts(state, LogEvent::Failed, action),
    ensures
        state_after(state, LogEvent::Failed) is Idle,
        action is ReportWriteFailure,
{
}

// ------------------------------------------------------------------------------------------
// Entries
// ------------------------------------------------------------------------------------------

/// One entry of the access log.
#[derive(Debug)]
pub struct LogEntry {
    /// When the request came in: whole seconds since the epoch.
    pub timestamp_secs: u64,
    /// The milliseconds of that time.
    pub timestamp_millis: u32,
    pub method: String,
    /// The path, with the query.
    pub path: String,
    /// The headers that were passed on, as far as they are text; each name once.
    pub headers: Vec<(String, String)>,
    /// The status that was answered.
    pub status: u16,
    /// The milliseconds until the answer of the upstream service.
    pub latency_ms: u32,
    /// The bits of the average latency.
    pub average_latency: u64,
    pub high_load: bool,
}

/// The text of each header among the given ones: of several with the same name, the last that is
/// visible text.
pub open spec fn logged(entries: Seq<(Seq<char>, Seq<u8>)>) -> Map<Seq<char>, Seq<char>>
    decreases entries.len(),
{
    if entries.len() == 0 {
        Map::empty()
    } else {
        let before = logged(entries.drop_last());
        match visible_text(entries.last().1) {
            Some(text) => before.insert(entries.last().0, text),
            None => before,
        }
    }
}

/// Whether pairs hold just the keys and values of a map, each key once.
pub open spec fn are_pairs_of(pairs: Seq<(String, String)>, map: Map<Seq<char>, Seq<char>>) -> bool {
    &&& forall|i: int, j: int| 0 <= i < j < pairs.len() ==> pairs[i].0@ != pairs[j].0@
    &&& forall|i: int|
        0 <= i < pairs.len() ==> map.contains_key((#[trigger] pairs[i]).0@) && map[pairs[i].0@]
            == pairs[i].1@
    &&& forall|key: Seq<char>| #[trigger]
        map.contains_key(key) ==> exists|i: int|
            0 <= i < pairs.len() && (#[trigger] pairs[i]).0@ == key
}

/// Sets the value of a key among pairs.
fn set_pair(
    pairs: &mut Vec<(String, String)>,
    key: &String,
    value: String,
    map: Ghost<Map<Seq<char>, Seq<char>>>,
)
    requires
        are_pairs_of(old(pairs)@, map@),
    ensures
        are_pairs_of(final(pairs)@, map@.insert(key@, value@)),
{
    let ghost before = pairs@;
    let ghost after = map@.insert(key@, value@);
    let mut i: usize = 0;
    while i < pairs.len()
        invariant
            i <= pairs@.len(),
            pairs@ == before,
            are_pairs_of(before, map@),
            forall|j: int| 0 <= j < i ==> (#[trigger] before[j]).0@ != key@,
            after == map@.insert(key@, value@),
        decreases pairs@.len() - i,
    {
        if same_text(pairs[i].0.as_str(), key.as_str()) {
            pairs.set(i, (key.clone(), value));
            assert forall|k: Seq<char>| #[trigger] after.contains_key(k) implies exists|j: int|
                0 <= j < pairs@.len() && (#[trigger] pairs@[j]).0@ == k by {
                if k == key@ {
                    assert(pairs@[i as int].0@ == k);
                } else {
                    assert(map@.contains_key(k));
                    let j = choose|j: int| 0 <= j < before.len() && (#[trigger] before[j]).0@ == k;
                    assert(pairs@[j].0@ == k);
                }
            }
            assert forall|j: int| 0 <= j < pairs@.len() implies after.contains_key(
                (#[trigger] pairs@[j]).0@,
            ) && after[pairs@[j].0@] == pairs@[j].1@ by {
                if j != i {
                    assert(pairs@[j] == before[j]);
                    assert(before[j].0@ != before[i as int].0@);
                }
            }
            return;
        }
        i += 1;
    }
    pairs.push((key.clone(), value));
    assert forall|k: Seq<char>| #[trigger] after.contains_key(k) implies exists|j: int|
        0 <= j < pairs@.len() && (#[trigger] pairs@[j]).0@ == k by {
        if k == key@ {
            assert(pairs@[before.len() as int].0@ == k);
        } else {
            assert(map@.contains_key(k));
            let j = choose|j: int| 0 <= j < before.len() && (#[trigger] before[j]).0@ == k;
            assert(pairs@[j].0@ == k);
        }
    }
    assert forall|j: int| 0 <= j < pairs@.len() implies after.contains_key((#[trigger] pairs@[j]).0@)
        && after[pairs@[j].0@] == pairs@[j].1@ by {
        if j < before.len() {
            assert(pairs@[j] == before[j]);
        }
    }
}

/// The headers to log, of those that are passed on.
pub fn logged_headers(forwarded: &Vec<(String, Vec<u8>)>) -> (r: Vec<(String, String)>)
    ensures
        are_pairs_of(r@, logged(entries_view(forwarded@))),
{
    let ghost all = entries_view(forwarded@);
    let mut pairs: Vec<(String, String)> = Vec::new();
    let mut i: usize = 0;
    assert(logged(all.take(0)) =~= Map::empty());
    while i < forwarded.len()
        invariant
            i <= forwarded@.len(),
            all == entries_view(forwarded@),
            are_pairs_of(pairs@, logged(all.take(i as int))),
        decreases forwarded@.len() - i,
    {
        assert(all.take(i + 1).drop_last() =~= all.take(i as int));
        assert(all.take(i + 1).last() == (forwarded@[i as int].0@, forwarded@[i as int].1@));
        if let Some(text) = visible(forwarded[i].1.as_slice()) {
            set_pair(
                &mut pairs,
                &forwarded[i].0,
                text_of(&text),
                Ghost(logged(all.take(i as int))),
            );
        }
        i += 1;
    }
    assert(all.take(i as int) =~= all);
    pairs
}

/// Nothing is logged but what was passed on: the log holds a header only with a value that one of
/// the headers of that name had.
pub proof fn law_logged_headers_were_passed_on(
    entries: Seq<(Seq<char>, Seq<u8>)>,
    name: Seq<char>,
)
    requires
        logged(entries).contains_key(name),
    ensures
        exists|i: int|
            0 <= i < entries.len() && (#[trigger] entries[i]).0 == name && visible_text(
                entries[i].1,
            ) == Some(logged(entries)[name]),
    decreases entries.len(),
{
    let last = entries.len() - 1;
    let rest = entries.drop_last();
    if entries[last].0 == name && visible_text(entries[last].1) is Some {
        assert(visible_text(entries[last].1) == Some(logged(entries)[name]));
    } else {
        law_logged_headers_were_passed_on(rest, name);
        let i = choose|i: int|
            0 <= i < rest.len() && (#[trigger] rest[i]).0 == name && visible_text(rest[i].1)
                == Some(logged(rest)[name]);
        assert(entries[i] == rest[i]);
    }
}

/// A latency in whole milliseconds as it is logged: no more than a 32-bit number holds.
pub fn logged_latency(millis: u128) -> (r: u32)
    ensures
        millis <= u32::MAX ==> r == millis,
        millis > u32::MAX ==> r == u32::MAX,
{
    if millis <= u32::MAX as u128 {
        millis as u32
    } else {
        u32::MAX
    }
}

/// The log holds of each name the last value that is text, and of every name that has one.
pub proof fn law_last_text_is_logged(
    entries: Seq<(Seq<char>, Seq<u8>)>,
    i: int,
)
    requires
        0 <= i < entries.len(),
        visible_text(entries[i].1) is Some,
    ensures
        logged(entries).contains_key(entries[i].0),
        (forall|j: int|
            i < j < entries.len() ==> (#[trigger] entries[j]).0 != entries[i].0 || visible_text(
                entries[j].1,
            ) is None) ==> logged(entries)[entries[i].0] == visible_text(entries[i].1).unwrap(),
    decreases entries.len(),
{
    let n = entries.len() - 1;
    let rest = entries.drop_last();
    assert(entries[n] == entries.last());
    if i < n {
        assert(rest[i] == entries[i]);
        law_last_text_is_logged(rest, i);
        if forall|j: int|
            i < j < entries.len() ==> (#[trigger] entries[j]).0 != entries[i].0 || visible_text(
                entries[j].1,
            ) is None {
            assert forall|j: int| i < j < rest.len() implies (#[trigger] rest[j]).0 != rest[i].0
                || visible_text(rest[j].1) is None by {
                assert(rest[j] == entries[j]);
            }
            assert(entries[n].0 != entries[i].0 || visible_text(entries[n].1) is None);
        }
    }
}

/// The headers that are logged are those pairs, each name once; and a latency is logged as it is,
/// up to the largest number that fits.
pub proof fn law_headers_and_latency_are_logged(
    forwarded: Vec<(String, Vec<u8>)>,
    pairs: Vec<(String, String)>,
    i: int,
    j: int,
    millis: u128,
    latency: u32,
)
    requires
        call_ensures(logged_headers, (&forwarded,), pairs),
        call_ensures(logged_latency, (millis,), latency),
        0 <= i < pairs@.len(),
        0 <= j < pairs@.len(),
    ensures
        i != j ==> pairs@[i].0@ != pairs@[j].0@,
        logged(entries_view(forwarded@)).contains_key(pairs@[i].0@),
        logged(entries_view(forwarded@))[pairs@[i].0@] == pairs@[i].1@,
        forall|key: Seq<char>| #[trigger]
            logged(entries_view(forwarded@)).contains_key(key) ==> exists|k: int|
                0 <= k < pairs@.len() && (#[trigger] pairs@[k]).0@ == key,
        millis < 0x1_0000_0000 ==> latency == millis,
        millis >= 0x1_0000_0000 ==> latency == 0xffff_ffff,
{
}

/// What the writer does, step by step. A line is written, then a line feed, then both are flushed,
/// before the next command is waited for; any failure on the way is reported. To open the file
/// again, the old one is flushed first, whether or not that succeeds, then the new one is opened;
/// it takes the old one's place where that succeeds, and else the failure is reported. Without
/// further commands the writer stops, for good.
pub proof fn law_writer_takes_its_steps(
    line: String,
    received: (WriterState, LogAction),
    written: (WriterState, LogAction),
    ended: (WriterState, LogAction),
    flushed: (WriterState, LogAction),
    reopen: (WriterState, LogAction),
    old_flushed: (WriterState, LogAction),
    old_not_flushed: (WriterState, LogAction),
    opened: (WriterState, LogAction),
    not_opened: (WriterState, LogAction),
    closed: (WriterState, LogAction),
)
    requires
        call_ensures(
            writer_step,
            (WriterState::Idle, LogEvent::Received(LogCmd::Append(line))),
            received,
        ),
        call_ensures(writer_step, (received.0, LogEvent::Succeeded), written),
        call_ensures(writer_step, (written.0, LogEvent::Succeeded), ended),
        call_ensures(writer_step, (ended.0, LogEvent::Succeeded), flushed),
        call_ensures(
            writer_step,
            (WriterState::Idle, LogEvent::Received(LogCmd::Reopen)),
            reopen,
        ),
        call_ensures(writer_step, (reopen.0, LogEvent::Succeeded), old_flushed),
        call_ensures(writer_step, (reopen.0, LogEvent::Failed), old_not_flushed),
        call_ensures(writer_step, (old_flushed.0, LogEvent::Succeeded), opened),
        call_ensures(writer_step, (old_flushed.0, LogEvent::Failed), not_opened),
        call_ensures(writer_step, (WriterState::Idle, LogEvent::Closed), closed),
    ensures
        received.1 matches LogAction::Write(bytes) && bytes@ == encode_utf8(line@),
        written.1 matches LogAction::Write(bytes) && bytes@ == seq![10u8],
        ended.1 is Flush,
        flushed.0 is Idle && flushed.1 is Receive,
        reopen.1 is Flush,
        old_flushed.1 is Open && old_not_flushed.1 is Open,
        old_flushed.0 == old_not_flushed.0,
        opened.0 is Idle && opened.1 is Replace,
        not_opened.0 is Idle && not_opened.1 is ReportReopenFailure,
        closed.1 is Stop,
        forall|r: (WriterState, LogAction)| #[trigger]
            call_ensures(writer_step, (received.0, LogEvent::Failed), r) ==> r.0 is Idle
                && r.1 is ReportWriteFailure,
        forall|r: (WriterState, LogAction)| #[trigger]
            call_ensures(writer_step, (written.0, LogEvent::Failed), r) ==> r.0 is Idle
                && r.1 is ReportWriteFailure,
        forall|r: (WriterState, LogAction)| #[trigger]
            call_ensures(writer_step, (ended.0, LogEvent::Failed), r) ==> r.0 is Idle
                && r.1 is ReportWriteFailure,
        forall|event: LogEvent, r: (WriterState, LogAction)| #[trigger]
            call_ensures(writer_step, (closed.0, event), r) ==> r.1 is Stop && r.0 == closed.0,
        call_requires(
            writer_step,
            (WriterState::Idle, LogEvent::Received(LogCmd::Append(line))),
        ),
        call_requires(writer_step, (received.0, LogEvent::Succeeded)),
        call_requires(writer_step, (written.0, LogEvent::Succeeded)),
        call_requires(writer_step, (ended.0, LogEvent::Failed)),
        call_requires(writer_step, (reopen.0, LogEvent::Failed)),
        call_requires(writer_step, (old_flushed.0, LogEvent::Failed)),
{
}

} // verus!
