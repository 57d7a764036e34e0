//! The commands of the debug socket.

use crate::text::{chars_of, push_text, same, text_of, trim, trim_end, trim_start, trimmed, white};
use vstd::prelude::*;

verus! {

/// What to do with what was read from a client.
#[derive(Debug)]
pub enum SocketStep {
    /// The client has closed the connection.
    Close,
    /// The line is blank: read on.
    Ignore,
    /// Send a reply.
    Reply(String),
}

/// The reply to a command, without white space around it. A blank one has none.
pub open spec fn reply_to(command: Seq<char>) -> Option<Seq<char>> {
    if command == "hello"@ || command == "hi"@ {
        Some("Hello, world!\n"@)
    } else if command.len() == 0 {
        None
    } else {
        Some("error: unknown command: "@ + command + seq!['\n'])
    }
}

/// What follows from reading a line of `num_read` bytes.
pub fn handle_line(num_read: usize, line: &str) -> (r: SocketStep)
    ensures
        match r {
            SocketStep::Close => num_read == 0,
            SocketStep::Ignore => num_read != 0 && reply_to(trimmed(line@, white())) is None,
            SocketStep::Reply(text) => num_read != 0 && reply_to(trimmed(line@, white())) == Some(
                text@,
            ),
        },
{
    if num_read == 0 {
        return SocketStep::Close;
    }
    let line = chars_of(line);
    let command = trim(&line);
    let hello = chars_of("hello");
    let hi = chars_of("hi");
    if same(command, &hello) || same(command, &hi) {
        let mut reply = String::new();
        push_text(&mut reply, "Hello, world!\n");
        assert(reply@ =~= "Hello, world!\n"@);
        return SocketStep::Reply(reply);
    }
    if command.len() == 0 {
        return SocketStep::Ignore;
    }
    let mut reply = String::new();
    push_text(&mut reply, "error: unknown command: ");
    push_text(&mut reply, text_of(command).as_str());
    reply.push('\n');
    assert(reply@ =~= "error: unknown command: "@ + command@ + seq!['\n']);
    SocketStep::Reply(reply)
}

/// What stands at the path of the socket before it is bound.
#[derive(Clone, Copy, Debug, PartialEq, Eq, Structural)]
pub enum Leftover {
    /// Nothing that can be looked at.
    Nothing,
    /// A socket, left over from an earlier run.
    Socket,
    /// Something else.
    Other,
}

/// Whether what stands at the path is to be removed first: only a socket is.
pub fn removes(leftover: Leftover) -> (r: bool)
    ensures
        r == (leftover is Socket),
{
    matches!(leftover, Leftover::Socket)
}

proof fn lemma_trim_start(s: Seq<char>)
    ensures
        trim_start(s, white()).len() > 0 ==> !white()(trim_start(s, white())[0]),
    decreases s.len(),
{
    if s.len() > 0 && white()(s[0]) {
        lemma_trim_start(s.skip(1));
    }
}

proof fn lemma_trim_end(s: Seq<char>)
    ensures
        trim_end(s, white()).len() > 0 ==> !white()(trim_end(s, white()).last()),
        trim_end(s, white()).len() > 0 ==> trim_end(s, white())[0] == s[0],
    decreases s.len(),
{
    if s.len() > 0 && white()(s.last()) {
        lemma_trim_end(s.drop_last());
    }
}

/// White space around a command makes no difference.
pub proof fn law_white_space_is_ignored(line: Seq<char>)
    ensures
        reply_to(trimmed(trimmed(line, white()), white())) == reply_to(trimmed(line, white())),
{
    let a = trim_start(line, white());
    let b = trim_end(a, white());
    lemma_trim_start(line);
    lemma_trim_end(a);
    if b.len() > 0 {
        assert(!white()(b[0]));
    }
    assert(trim_start(b, white()) == b);
    assert(trim_end(b, white()) == b);
}

/// Every reply is ended by a line feed.
pub proof fn law_replies_are_lines(command: Seq<char>)
    ensures
        reply_to(command) matches Some(text) ==> text.len() > 0 && text.last() == '\n',
{
    reveal_strlit("Hello, world!\n");
}

/// What a line leads to. Nothing read means that the client is gone. Of a line, what counts is what
/// is left without the white space around it: nothing is passed over, a greeting is greeted, and
/// anything else is quoted in an error, whole and unchanged.
pub proof fn law_lines_are_answered(num_read: usize, line: &str, step: SocketStep)
    requires
        call_ensures(handle_line, (num_read, line), step),
    ensures
        ({
            let command = trimmed(line@, white());
            let greeting = command == "hello"@ || command == "hi"@;
            &&& step is Close <==> num_read == 0
            &&& step is Ignore <==> num_read != 0 && command.len() == 0
            &&& step matches SocketStep::Reply(text) ==> text@ == if greeting {
                "Hello, world!\n"@
            } else {
                "error: unknown command: "@ + command + seq!['\n']
            }
        }),
{
    reveal_strlit("hello");
    reveal_strlit("hi");
}

/// Only a socket is removed from the path of the new one.
pub proof fn law_only_sockets_are_removed(leftover: Leftover, r: bool)
    requires
        call_ensures(removes, (leftover,), r),
    ensures
        r <==> leftover is Socket,
{
}

} // verus!
