//! Single "default instance" lock file at `$XDG_RUNTIME_DIR/veil-host.lock`.
//!
//! A plain `run` refuses to start a second time by accident, and `run -a`
//! without `-s` finds whatever is running without the caller having to know
//! its socket name. `-O` opts an instance out of both: it is deliberately
//! unregistered, so `-a` does not find it either.

use vstd::prelude::*;
use crate::text::{
    append_signed, append_str, chars_of, copy_str, has_prefix, lines_of, parse_i32,
    string_of, trimmed,
};
use crate::text::{
    bounded_number, decimal, find, is_digit, law_signed_decimal_reads_back, lemma_find_is,
    lemma_trim_id, lines, signed_decimal, starts_with, strip_cr, trim, views,
    white,
};
use vstd::slice::slice_subrange;

verus! {

/// The registered instance.
#[derive(Debug)]
pub struct LockInfo {
    pub pid: i32,
    pub socket_name: String,
}

/// What has been read of a lock file.
#[verifier::ext_equal]
pub struct LockScan {
    pub pid: Option<int>,
    pub socket: Option<Seq<char>>,
}

/// One more line. Later lines win; a pid that is no number counts as none.
pub open spec fn scan_line(s: LockScan, line: Seq<char>) -> LockScan {
    if starts_with(line, "pid="@) {
        LockScan {
            pid: bounded_number(trim(line.skip(4)), true, i32::MIN as int, i32::MAX as int),
            ..s
        }
    } else if starts_with(line, "socket="@) {
        LockScan { socket: Some(trim(line.skip(7))), ..s }
    } else {
        s
    }
}

pub open spec fn scan(ls: Seq<Seq<char>>) -> LockScan
    decreases ls.len(),
{
    if ls.len() == 0 {
        LockScan { pid: None, socket: None }
    } else {
        scan_line(scan(ls.drop_last()), ls.last())
    }
}

/// The pid and socket that a lock file names; both must be there.
pub open spec fn lock_says(content: Seq<char>) -> Option<(int, Seq<char>)> {
    let s = scan(lines(content));
    if s.pid is Some && s.socket is Some {
        Some((s.pid->0, s.socket->0))
    } else {
        None
    }
}

/// Reads a lock file. `None` where it is malformed. Whether the instance still
/// lives is for the caller to find out.
pub fn read_lock(content: &str) -> (r: Option<LockInfo>)
    ensures
        match r {
            Some(i) => lock_says(content@) == Some((i.pid as int, i.socket_name@)),
            None => lock_says(content@) is None,
        },
{
    let text: Vec<char> = chars_of(content);
    let ls: Vec<&[char]> = lines_of(text.as_slice());
    let pid_key: Vec<char> = chars_of("pid=");
    let socket_key: Vec<char> = chars_of("socket=");
    proof {
        reveal_strlit("pid=");
        reveal_strlit("socket=");
    }
    let mut pid: Option<i32> = None;
    let mut socket: Option<String> = None;
    let ghost all = views(ls@);
    assert(all.take(0) =~= Seq::<Seq<char>>::empty());
    for i in 0..ls.len()
        invariant
            all == views(ls@),
            pid_key@ == "pid="@,
            socket_key@ == "socket="@,
            "pid="@.len() == 4,
            "socket="@.len() == 7,
            "pid="@[0] == 'p',
            "socket="@[0] == 's',
            scan(all.take(i as int)) == (LockScan {
                pid: match pid {
                    Some(p) => Some(p as int),
                    None => None,
                },
                socket: match socket {
                    Some(s) => Some(s@),
                    None => None,
                },
            }),
    {
        assert(all.take(i + 1).drop_last() =~= all.take(i as int));
        let line: &[char] = ls[i];
        if has_prefix(line, pid_key.as_slice()) {
            let rest: &[char] = slice_subrange(line, 4, line.len());
            assert(rest@ =~= line@.skip(4));
            pid = parse_i32(trimmed(rest));
        } else if has_prefix(line, socket_key.as_slice()) {
            let rest: &[char] = slice_subrange(line, 7, line.len());
            assert(rest@ =~= line@.skip(7));
            socket = Some(string_of(trimmed(rest)));
        }
    }
    assert(all.take(ls.len() as int) =~= all);
    match (pid, socket) {
        (Some(pid), Some(socket_name)) => Some(LockInfo { pid, socket_name }),
        _ => None,
    }
}

/// What is written for a running instance.
pub open spec fn lock_text(pid: int, socket: Seq<char>) -> Seq<char> {
    "pid="@ + signed_decimal(pid) + "\nsocket="@ + socket + "\n"@
}

/// The contents of the lock file of an instance.
pub fn lock_content(pid: u32, socket_name: &str) -> (r: String)
    ensures
        r@ == lock_text(pid as int, socket_name@),
{
    let mut v: Vec<char> = chars_of("pid=");
    append_signed(&mut v, pid as i64);
    append_str(&mut v, "\nsocket=");
    append_str(&mut v, socket_name);
    append_str(&mut v, "\n");
    assert(v@ =~= lock_text(pid as int, socket_name@));
    string_of(v.as_slice())
}

proof fn lemma_decimal_plain(n: nat)
    ensures
        decimal(n).len() > 0,
        forall|i: int| 0 <= i < decimal(n).len() ==> is_digit(#[trigger] decimal(n)[i]),
{
    crate::text::law_decimal_reads_back(n);
}

/// Reading back what was written gives the same instance, for a process number
/// that is a signed 32-bit number and a socket name with no line break in it
/// and no white space at its ends.
pub proof fn law_lock_reads_back(pid: int, socket: Seq<char>)
    requires
        0 <= pid <= i32::MAX,
        socket.len() > 0 ==> !white(socket[0]) && !white(socket[socket.len() - 1]),
        forall|i: int| 0 <= i < socket.len() ==> #[trigger] socket[i] != '\n',
    ensures
        lock_says(lock_text(pid, socket)) == Some((pid, socket)),
{
    reveal_strlit("pid=");
    reveal_strlit("socket=");
    reveal_strlit("\nsocket=");
    reveal_strlit("\n");
    let d = signed_decimal(pid);
    lemma_decimal_plain(pid as nat);
    law_signed_decimal_reads_back(pid);
    let first = "pid="@ + d;
    let second = "socket="@ + socket;
    let text = lock_text(pid, socket);
    // The text is the two lines, each with its line feed.
    assert(text =~= first + seq!['\n'] + second + seq!['\n']);
    assert forall|i: int| 0 <= i < first.len() implies #[trigger] first[i] != '\n' by {
        if i >= 4 {
            assert(first[i] == d[i - 4]);
            assert(is_digit(d[i - 4]));
        }
    }
    assert forall|i: int| 0 <= i < second.len() implies #[trigger] second[i] != '\n' by {
        if i >= 7 {
            assert(second[i] == socket[i - 7]);
        }
    }
    assert forall|j: int| 0 <= j < first.len() implies text[j] != '\n' by {
        assert(text[j] == first[j]);
    }
    lemma_find_is(text, '\n', first.len() as int);
    assert(text.take(first.len() as int) =~= first);
    let rest = text.skip(first.len() as int + 1);
    assert(rest =~= second + seq!['\n']);
    assert forall|j: int| 0 <= j < second.len() implies rest[j] != '\n' by {
        assert(rest[j] == second[j]);
    }
    lemma_find_is(rest, '\n', second.len() as int);
    assert(rest.take(second.len() as int) =~= second);
    let end = rest.skip(second.len() as int + 1);
    assert(end =~= Seq::<char>::empty());
    reveal_with_fuel(lines, 3);
    let ls = lines(text);
    assert(lines(end) =~= Seq::<Seq<char>>::empty());
    // Neither line ends in a carriage return that would be taken off, for the
    // digits are digits and the name has no white space at its end.
    assert(first.last() == d.last());
    assert(is_digit(d[d.len() - 1]));
    assert(strip_cr(first) == first);
    if socket.len() > 0 {
        assert(second.last() == socket.last());
        assert(white('\r'));
    }
    assert(strip_cr(second) == second);
    assert(ls =~= seq![first, second]);
    // First line.
    assert(first.subrange(0, 4) =~= "pid="@);
    assert(starts_with(first, "pid="@));
    assert(first.skip(4) =~= d);
    assert(is_digit(d[0]));
    lemma_trim_id(d);
    // Second line.
    assert(second.subrange(0, 7) =~= "socket="@);
    assert(starts_with(second, "socket="@));
    assert(!starts_with(second, "pid="@)) by {
        assert(second[0] == 's');
        if starts_with(second, "pid="@) {
            assert(second.subrange(0, 4)[0] == 'p');
        }
    }
    assert(second.skip(7) =~= socket);
    lemma_trim_id(socket);
    reveal_with_fuel(scan, 3);
    assert(ls.drop_last() =~= seq![first]);
    assert(ls.drop_last().drop_last() =~= Seq::<Seq<char>>::empty());
    assert(ls.last() == second);
    assert(ls.drop_last().last() == first);
}

/// What a starting instance does about the lock.
#[derive(Clone, Copy, Debug, PartialEq, Eq, Structural)]
pub enum Acquire {
    /// Run without the lock.
    Unregistered,
    /// Another instance runs: do not start.
    Refuse,
    /// Write the lock file.
    Write,
}

/// Enforce the single-default-instance rule. `running` says whether a live
/// default instance is registered.
pub fn acquire(running: bool, override_lock: bool) -> (r: Acquire)
    ensures
        r == (if override_lock {
            Acquire::Unregistered
        } else if running {
            Acquire::Refuse
        } else {
            Acquire::Write
        }),
{
    if override_lock {
        Acquire::Unregistered
    } else if running {
        Acquire::Refuse
    } else {
        Acquire::Write
    }
}

/// The socket that an app joins: the one asked for, else that of the live
/// instance, which is given as its lock file tells it, else the default.
pub open spec fn joined_socket(asked: Option<Seq<char>>, live: Option<(int, Seq<char>)>) -> Seq<
    char,
> {
    match asked {
        Some(s) => s,
        None => match live {
            Some(i) => i.1,
            None => "wayland-veil-0"@,
        },
    }
}

pub fn attach_socket(asked: &Option<String>, live: &Option<LockInfo>) -> (r: String)
    ensures
        r@ == joined_socket(
            match *asked {
                Some(s) => Some(s@),
                None => None,
            },
            match *live {
                Some(i) => Some((i.pid as int, i.socket_name@)),
                None => None,
            },
        ),
{
    match asked {
        Some(s) => copy_str(s.as_str()),
        None => match live {
            Some(i) => copy_str(i.socket_name.as_str()),
            None => copy_str("wayland-veil-0"),
        },
    }
}

/// An app that asks for no socket joins the instance that wrote the lock file,
/// whatever its socket is called; one that asks is not sent elsewhere.
pub proof fn law_app_joins_the_registered(pid: int, socket: Seq<char>, asked: Seq<char>)
    requires
        0 <= pid <= i32::MAX,
        socket.len() > 0 ==> !white(socket[0]) && !white(socket[socket.len() - 1]),
        forall|i: int| 0 <= i < socket.len() ==> #[trigger] socket[i] != '\n',
    ensures
        joined_socket(None, lock_says(lock_text(pid, socket))) == socket,
        joined_socket(Some(asked), lock_says(lock_text(pid, socket))) == asked,
{
    law_lock_reads_back(pid, socket);
}

/// Where no instance is registered and none was asked for, the app joins the
/// default socket; the line of a lock file that comes last counts.
pub proof fn law_default_socket_is_joined(s: LockScan, name: Seq<char>)
    requires
        name.len() > 0,
        !white(name[0]),
        !white(name.last()),
    ensures
        joined_socket(None, None) == "wayland-veil-0"@,
        scan_line(s, "socket="@ + name) == (LockScan { socket: Some(name), ..s }),
        scan_line(s, name) == s || starts_with(name, "pid="@) || starts_with(name, "socket="@),
{
    reveal_strlit("pid=");
    reveal_strlit("socket=");
    let l = "socket="@ + name;
    assert(l.subrange(0, 7) =~= "socket="@);
    assert(l.skip(7) =~= name);
    lemma_trim_id(name);
    if starts_with(l, "pid="@) {
        assert(l.subrange(0, 4)[0] == 'p');
    }
}

} // verus!
