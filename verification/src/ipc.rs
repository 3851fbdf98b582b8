//! The control port, over which a running renderer is asked for its status and stopped.

use vstd::prelude::*;
use vstd::string::*;

use crate::number;
use crate::number::decimal;
use crate::text;
use crate::text::{CharSet, begins, decode, equals_but_case, trim, trim_start, upper};
use crate::time::Duration;

verus! {

/// Where a running renderer listens for commands.
pub const CONTROL_ADDR: &'static str = "127.0.0.1:52411";

/// The answer to a command.
#[derive(Debug)]
pub struct ControlReply {
    pub text: String,
    /// The renderer has to shut down.
    pub stops: bool,
}

/// The command tells the renderer to stop: `STOP` and whatever follows it, in any case. `upper` is
/// the command in capital letters.
pub open spec fn is_stop(cmd: Seq<char>, upper: Seq<char>) -> bool {
    text::same_but_case(cmd, "STOP"@) || text::starts_with(upper, "STOP"@)
}

/// The answer to a command, and whether the renderer has to shut down. `upper` is the command in
/// capital letters.
pub open spec fn command_reply(
    cmd: Seq<char>,
    upper: Seq<char>,
    friendly_name: Seq<char>,
    pid: nat,
) -> (Seq<char>, bool) {
    if is_stop(cmd, upper) {
        ("OK stopping "@ + friendly_name + "\n"@, true)
    } else if text::same_but_case(cmd, "STATUS"@) {
        (
            "OK running "@ + friendly_name + " pid="@ + number::decimal_of(pid) + "\n"@,
            false,
        )
    } else {
        ("OK unknown command "@ + cmd + "\n"@, false)
    }
}

/// The answer to a command, which is `upper` in capital letters.
pub fn answer_command(cmd: &str, upper: &str, friendly_name: &str, pid: u32) -> (r: ControlReply)
    ensures
        (r.text@, r.stops) == command_reply(cmd@, upper@, friendly_name@, pid as nat),
{
    if equals_but_case(cmd, "STOP") || begins(upper, "STOP") {
        let mut s = "OK stopping ".to_owned();
        s.append(friendly_name);
        s.append("\n");
        return ControlReply { text: s, stops: true };
    }
    if equals_but_case(cmd, "STATUS") {
        let mut s = "OK running ".to_owned();
        s.append(friendly_name);
        s.append(" pid=");
        s.append(decimal(pid as u64).as_str());
        s.append("\n");
        return ControlReply { text: s, stops: false };
    }
    let mut s = "OK unknown command ".to_owned();
    s.append(cmd);
    s.append("\n");
    ControlReply { text: s, stops: false }
}

/// The answer to the bytes that were received, whose text is a command with white space round it.
pub fn answer_bytes(received: &[u8], friendly_name: &str, pid: u32) -> (r: ControlReply)
    ensures
        (r.text@, r.stops) == command_reply(
            text::trim_of(text::text_of(received@)),
            text::upper_of(text::trim_of(text::text_of(received@))),
            friendly_name@,
            pid as nat,
        ),
{
    let content = decode(received);
    let cmd: &str = trim(content.as_str());
    answer_command(cmd, upper(cmd).as_str(), friendly_name, pid)
}

/// A reply to `STATUS` tells that a renderer runs.
pub open spec fn tells_running(reply: Seq<char>) -> bool {
    text::starts_with(text::trim_start_of(reply, CharSet::White), "OK running "@)
}

/// Does the reply to `STATUS` tell that a renderer runs?
pub fn is_running_text(reply: &str) -> (r: bool)
    ensures
        r == tells_running(reply@),
{
    begins(trim_start(reply, CharSet::White), "OK running ")
}

/// Do the bytes of a reply to `STATUS` tell that a renderer runs?
pub fn is_running_reply(reply: &[u8]) -> (r: bool)
    ensures
        r == tells_running(text::text_of(reply@)),
{
    is_running_text(decode(reply).as_str())
}

/// How long to wait for a renderer to start or to stop.
pub fn patience() -> (r: Duration)
    ensures
        r@ == crate::time::secs(5),
{
    Duration::from_secs(5)
}

/// Is there still time to wait, for what began at the reading `start`?
pub fn may_wait(start: Duration, now: Duration) -> (r: bool)
    ensures
        r == (crate::time::minus(now@, start@) < crate::time::secs(5)),
{
    now.since(&start).less_than(&patience())
}

/// A running renderer is recognised by its own reply to `STATUS`, and by none to another command.
pub proof fn lemma_status_is_recognised(
    cmd: Seq<char>,
    upper: Seq<char>,
    friendly_name: Seq<char>,
    pid: nat,
)
    ensures
        tells_running(command_reply(cmd, upper, friendly_name, pid).0) <==> text::same_but_case(
            cmd,
            "STATUS"@,
        ) && !is_stop(cmd, upper),
{
    reveal_strlit("OK running ");
    reveal_strlit("OK stopping ");
    reveal_strlit("OK unknown command ");
    let (reply, _) = command_reply(cmd, upper, friendly_name, pid);
    assert(reply[0] == 'O');
    assert(text::trim_start_of(reply, CharSet::White) == reply);
    if is_stop(cmd, upper) {
        assert(reply[3] == 's');
        if text::starts_with(reply, "OK running "@) {
            assert(reply.subrange(0, 11)[3] == reply[3]);
        }
    } else if text::same_but_case(cmd, "STATUS"@) {
        assert(reply.subrange(0, 11) =~= "OK running "@);
    } else {
        assert(reply[3] == 'u');
        if text::starts_with(reply, "OK running "@) {
            assert(reply.subrange(0, 11)[3] == reply[3]);
        }
    }
}

/// A renderer that is told to stop says so and stops; asked for its status it tells its name and
/// its process, in whichever case the command is written; any other command is repeated as unknown,
/// and stops nothing.
pub proof fn lemma_commands_are_answered(
    cmd: Seq<char>,
    upper: Seq<char>,
    rest: Seq<char>,
    friendly_name: Seq<char>,
    pid: nat,
)
    ensures
        upper == "STOP"@ + rest ==> command_reply(cmd, upper, friendly_name, pid) == (
            "OK stopping "@ + friendly_name + "\n"@,
            true,
        ),
        text::same_but_case(cmd, "STOP"@) ==> command_reply(cmd, upper, friendly_name, pid).1,
        text::same_but_case(cmd, "STATUS"@) && !text::starts_with(upper, "STOP"@) ==> command_reply(
            cmd,
            upper,
            friendly_name,
            pid,
        ) == (
            "OK running "@ + friendly_name + " pid="@ + number::decimal_of(pid) + "\n"@,
            false,
        ),
        !text::same_but_case(cmd, "STOP"@) && !text::same_but_case(cmd, "STATUS"@)
            && !text::starts_with(upper, "STOP"@) ==> command_reply(cmd, upper, friendly_name, pid)
            == ("OK unknown command "@ + cmd + "\n"@, false),
{
    reveal_strlit("STOP");
    reveal_strlit("STATUS");
    if upper == "STOP"@ + rest {
        assert(upper.subrange(0, 4) =~= "STOP"@);
    }
    if text::same_but_case(cmd, "STATUS"@) {
        assert(text::ascii_lower_of(cmd).len() == cmd.len());
        assert(text::ascii_lower_of("STATUS"@).len() == 6);
        assert(text::ascii_lower_of("STOP"@).len() == 4);
    }
}

} // verus!
