//! Desktop notification plumbing: which run-time directories belong to a
//! user session, the session bus address of a user, and the `notify-send`
//! command line.

use vstd::prelude::*;
use vstd::string::*;

use crate::text::chars_of;

verus! {

/// The application name notifications are sent under.
pub const APP_NAME: &'static str = "liquidctl-monitor";

/// `c` is an ASCII decimal digit.
pub open spec fn is_ascii_digit(c: char) -> bool {
    '0' <= c <= '9'
}

/// Every character of `name` is an ASCII digit (vacuously so for the empty
/// name), as for a numeric user ID.
pub open spec fn all_digits(name: Seq<char>) -> bool {
    forall|i: int| 0 <= i < name.len() ==> is_ascii_digit(#[trigger] name[i])
}

/// Whether `name` (an entry of the per-user run-time directory) consists of
/// ASCII digits only, so that it names a user ID.
pub fn is_numeric_uid(name: &str) -> (b: bool)
    ensures
        b == all_digits(name@),
        b == (forall|i: int| 0 <= i < name@.len() ==> '0' <= #[trigger] name@[i] <= '9'),
{
    let cs = chars_of(name);
    let mut i: usize = 0;
    while i < cs.len()
        invariant
            cs@ == name@,
            i <= cs@.len(),
            forall|k: int| 0 <= k < i ==> is_ascii_digit(#[trigger] name@[k]),
        decreases cs@.len() - i,
    {
        let c = cs[i];
        if !('0' <= c && c <= '9') {
            return false;
        }
        i = i + 1;
    }
    true
}

/// The D-Bus session bus address of the user with run-time directory `uid`.
pub open spec fn session_bus_spec(uid: Seq<char>) -> Seq<char> {
    "unix:path=/run/user/"@ + uid + "/bus"@
}

/// The D-Bus session bus address of user `uid`:
/// `unix:path=/run/user/{uid}/bus`.
pub fn session_bus_address(uid: &str) -> (address: String)
    ensures
        address@ == session_bus_spec(uid@),
        address@ == "unix:path=/run/user/"@ + uid@ + "/bus"@,
        address@.len() == uid@.len() + 24,
        address@.subrange(20, 20 + uid@.len() as int) == uid@,
{
    proof {
        lemma_session_bus_holds_uid(uid@);
    }
    let mut address = String::from_str("unix:path=/run/user/");
    address.append(uid);
    address.append("/bus");
    address
}

/// The session bus address holds the user ID verbatim between the fixed
/// prefix and suffix, so different user IDs get different addresses.
pub proof fn lemma_session_bus_holds_uid(uid: Seq<char>)
    ensures
        session_bus_spec(uid) == "unix:path=/run/user/"@ + uid + "/bus"@,
        session_bus_spec(uid).len() == uid.len() + 24,
        session_bus_spec(uid).subrange(20, 20 + uid.len() as int) == uid,
        forall|other: Seq<char>| #[trigger] session_bus_spec(other) == session_bus_spec(uid) ==> other == uid,
{
    reveal_strlit("unix:path=/run/user/");
    reveal_strlit("/bus");
    let a = session_bus_spec(uid);
    assert(a.subrange(20, 20 + uid.len() as int) =~= uid);
    assert forall|other: Seq<char>| #[trigger] session_bus_spec(other) == session_bus_spec(uid) implies other == uid by {
        let b = session_bus_spec(other);
        assert(b.len() == other.len() + 24);
        assert(b.subrange(20, 20 + other.len() as int) =~= other);
    }
}

/// The arguments of `notify-send` for one notification.
pub open spec fn notify_args_spec(urgency: Seq<char>, summary: Seq<char>, body: Seq<char>) -> Seq<Seq<char>> {
    seq!["--urgency"@, urgency, "--app-name"@, APP_NAME@, summary, body]
}

/// The urgency, summary and body are handed to `notify-send` unchanged, in
/// the places its options expect them.
pub proof fn lemma_notify_args_pass_through(urgency: Seq<char>, summary: Seq<char>, body: Seq<char>)
    ensures
        notify_args_spec(urgency, summary, body).len() == 6,
        notify_args_spec(urgency, summary, body)[0] == "--urgency"@,
        notify_args_spec(urgency, summary, body)[1] == urgency,
        notify_args_spec(urgency, summary, body)[2] == "--app-name"@,
        notify_args_spec(urgency, summary, body)[3] == "liquidctl-monitor"@,
        notify_args_spec(urgency, summary, body)[4] == summary,
        notify_args_spec(urgency, summary, body)[5] == body,
{
}

/// The arguments of `notify-send` for a notification with the given
/// urgency (`low`, `normal` or `critical`), summary and body, sent under the
/// application name.
pub fn notify_send_args(urgency: &str, summary: &str, body: &str) -> (args: Vec<String>)
    ensures
        args@.map_values(|a: String| a@) == notify_args_spec(urgency@, summary@, body@),
        args@.len() == 6,
        args@[0]@ == "--urgency"@,
        args@[1]@ == urgency@,
        args@[2]@ == "--app-name"@,
        args@[3]@ == "liquidctl-monitor"@,
        args@[4]@ == summary@,
        args@[5]@ == body@,
{
    proof {
        lemma_notify_args_pass_through(urgency@, summary@, body@);
    }
    let args = vec![
        String::from_str("--urgency"),
        String::from_str(urgency),
        String::from_str("--app-name"),
        String::from_str(APP_NAME),
        String::from_str(summary),
        String::from_str(body),
    ];
    assert(args@.map_values(|a: String| a@) =~= notify_args_spec(urgency@, summary@, body@));
    args
}

} // verus!
