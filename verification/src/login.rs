//! The login manager's decisions: what a session is started with, what the
//! greeter does after an attempt, and how the session helper is called.

use vstd::prelude::*;
use vstd::slice::slice_to_vec;
use vstd::utf8::{decode_utf8, encode_utf8, valid_utf8};
use crate::environment::{EnvVar, Environment};
use crate::environment::{held, with_default};
use crate::session::SessionEntry;
use crate::state::{avatar_candidate, avatar_path};
use crate::state::{icon_of, safe_name};
use crate::text::{
    append_chars, append_decimal, append_signed, append_str, chars_of, copy_str, has_prefix, is_str,
    parse_i32, parse_unsigned, split_at_char, string_of, trimmed,
};
use crate::text::{
    bounded_number, decimal, find, law_signed_decimal_reads_back, lemma_find_from, lemma_find_is,
    lemma_find_none, signed_decimal, split, starts_with, texts,
    trim, views,
};

verus! {

/// Why a session could not be started.
#[derive(Debug)]
pub enum LaunchError {
    /// The authentication stack refused, in its own words.
    Pam(String),
    UnknownUser(String),
    /// A system call failed, in the system's words.
    Io(String),
    /// A field of the user or the session holds a NUL.
    BadString,
}

/// `std::str::from_utf8`: bytes that are valid UTF-8 as the text they encode,
/// and nothing for any others.
#[verifier::external_body]
fn utf8_text(bytes: &[u8]) -> (r: Option<&str>)
    ensures
        r is Some <==> valid_utf8(bytes@),
        r matches Some(s) ==> s@ == decode_utf8(bytes@),
{
    std::str::from_utf8(bytes).ok()
}

/// The upper case of a character, which may be several characters.
pub uninterp spec fn uppercase(c: char) -> Seq<char>;

/// `char::to_uppercase`, written out as a string. Its result is only named:
/// it goes by the tables of Unicode.
#[verifier::external_body]
fn uppercase_of(c: char) -> (r: String)
    ensures
        r@ == uppercase(c),
{
    c.to_uppercase().to_string()
}

fn bytes_of(s: &str) -> (r: Vec<u8>)
    ensures
        r@ == encode_utf8(s@),
{
    slice_to_vec(s.as_bytes())
}

// ── What the session is started with ─────────────────────────────────────

/// The path of the user's shell, `/bin/sh` where none is set.
pub fn login_shell(shell: &[u8]) -> (r: Vec<u8>)
    ensures
        r@ == (if shell@.len() == 0 {
            encode_utf8("/bin/sh"@)
        } else {
            shell@
        }),
{
    if shell.len() == 0 {
        bytes_of("/bin/sh")
    } else {
        slice_to_vec(shell)
    }
}

/// `s` without the copies of `p` it starts with.
pub open spec fn strip_all(s: Seq<char>, p: Seq<char>) -> Seq<char>
    decreases s.len(),
{
    if p.len() > 0 && starts_with(s, p) {
        strip_all(s.skip(p.len() as int), p)
    } else {
        s
    }
}

/// The number of the virtual terminal at a terminal's path.
pub open spec fn vt_of(tty: Option<Seq<char>>) -> Option<u32> {
    match tty {
        Some(t) => match bounded_number(strip_all(t, "/dev/tty"@), false, 0, u32::MAX as int) {
            Some(n) => Some(n as u32),
            None => None,
        },
        None => None,
    }
}

/// The number of the virtual terminal at a terminal's path (`/dev/tty1`).
pub fn vt_number(tty: Option<&str>) -> (r: Option<u32>)
    ensures
        r == vt_of(
            match tty {
                Some(t) => Some(t@),
                None => None,
            },
        ),
{
    let t: &str = match tty {
        Some(t) => t,
        None => {
            return None;
        },
    };
    let text: Vec<char> = chars_of(t);
    let prefix: Vec<char> = chars_of("/dev/tty");
    proof {
        reveal_strlit("/dev/tty");
    }
    let mut rest: &[char] = text.as_slice();
    while has_prefix(rest, prefix.as_slice())
        invariant
            prefix@ == "/dev/tty"@,
            prefix@.len() == 8,
            strip_all(text@, prefix@) == strip_all(rest@, prefix@),
        decreases rest@.len(),
    {
        rest = vstd::slice::slice_subrange(rest, 8, rest.len());
    }
    match parse_unsigned(rest, 0xffff_ffff) {
        Some(n) => Some(n as u32),
        None => None,
    }
}

/// What the authentication stack is told before it opens the session.
pub struct SeatSettings {
    /// The name of the terminal, without its directory.
    pub tty: Option<String>,
    /// Variables, as `NAME=value`.
    pub variables: Vec<String>,
}

/// What makes the session an activatable one on the first seat.
pub fn seat_settings(vt: Option<u32>) -> (r: SeatSettings)
    ensures
        r.tty is Some <==> vt is Some,
        vt matches Some(n) ==> r.tty->0@ == "tty"@ + decimal(n as nat),
        texts(r.variables@) == (match vt {
            Some(n) => seq!["XDG_VTNR="@ + decimal(n as nat)],
            None => Seq::<Seq<char>>::empty(),
        }) + seq!["XDG_SEAT=seat0"@, "XDG_SESSION_CLASS=user"@],
{
    let mut variables: Vec<String> = Vec::new();
    let mut tty: Option<String> = None;
    if let Some(n) = vt {
        let mut name: Vec<char> = chars_of("tty");
        append_decimal(&mut name, n as u64);
        tty = Some(string_of(name.as_slice()));
        let mut line: Vec<char> = chars_of("XDG_VTNR=");
        append_decimal(&mut line, n as u64);
        variables.push(string_of(line.as_slice()));
    }
    variables.push(copy_str("XDG_SEAT=seat0"));
    variables.push(copy_str("XDG_SESSION_CLASS=user"));
    assert(texts(variables@) =~= (match vt {
        Some(n) => seq!["XDG_VTNR="@ + decimal(n as nat)],
        None => Seq::<Seq<char>>::empty(),
    }) + seq!["XDG_SEAT=seat0"@, "XDG_SESSION_CLASS=user"@]);
    SeatSettings { tty, variables }
}

/// Who logs in, and where.
pub struct Login {
    pub username: String,
    pub home: String,
    pub shell: String,
    pub uid: u32,
    pub vt: Option<u32>,
    /// The user's runtime directory exists.
    pub has_runtime_dir: bool,
}

/// The directory of the user's runtime files.
pub open spec fn runtime_path(uid: u32) -> Seq<char> {
    "/run/user/"@ + decimal(uid as nat)
}

pub fn runtime_dir(uid: u32) -> (r: String)
    ensures
        r@ == runtime_path(uid),
{
    let mut v: Vec<char> = chars_of("/run/user/");
    append_decimal(&mut v, uid as u64);
    string_of(v.as_slice())
}

/// The directory of the user's own programs.
pub open spec fn own_programs(home: Seq<char>) -> Seq<char> {
    home + "/.local/bin"@
}

/// `dir` is one of the directories of a search path. A path that is no text
/// holds none.
pub open spec fn on_path(path: Seq<u8>, dir: Seq<char>) -> bool {
    valid_utf8(path) && split(decode_utf8(path), ':').contains(dir)
}

/// The variables with `name` set to `value` where it was not set.
pub open spec fn or_set(
    m: Map<Seq<u8>, Seq<u8>>,
    name: Seq<char>,
    value: Seq<char>,
) -> Map<Seq<u8>, Seq<u8>> {
    with_default(m, encode_utf8(name), encode_utf8(value))
}

/// The variables of the login itself: the user, the terminal and the session.
pub open spec fn login_defaults(m: Map<Seq<u8>, Seq<u8>>, l: Login) -> Map<Seq<u8>, Seq<u8>> {
    let m1 = or_set(m, "HOME"@, l.home@);
    let m2 = or_set(m1, "USER"@, l.username@);
    let m3 = or_set(m2, "LOGNAME"@, l.username@);
    let m4 = or_set(m3, "SHELL"@, l.shell@);
    let m5 = or_set(
        m4,
        "PATH"@,
        "/usr/local/sbin:/usr/local/bin:/usr/bin:/usr/sbin:/bin:/sbin"@,
    );
    or_set(m5, "TERM"@, "linux"@)
}

/// The variables by which the seat and the kind of session are found.
pub open spec fn seat_defaults(m: Map<Seq<u8>, Seq<u8>>, l: Login) -> Map<Seq<u8>, Seq<u8>> {
    let m1 = or_set(m, "XDG_SEAT"@, "seat0"@);
    let m2 = match l.vt {
        Some(n) => or_set(m1, "XDG_VTNR"@, decimal(n as nat)),
        None => m1,
    };
    let m3 = or_set(m2, "XDG_SESSION_TYPE"@, "wayland"@);
    let m4 = or_set(m3, "XDG_SESSION_CLASS"@, "user"@);
    if l.has_runtime_dir {
        or_set(m4, "XDG_RUNTIME_DIR"@, runtime_path(l.uid))
    } else {
        m4
    }
}

/// The variables with the user's own programs on the search path.
pub open spec fn with_own_programs(m: Map<Seq<u8>, Seq<u8>>, home: Seq<char>) -> Map<
    Seq<u8>,
    Seq<u8>,
> {
    let path = m[encode_utf8("PATH"@)];
    if on_path(path, own_programs(home)) {
        m
    } else {
        m.insert(encode_utf8("PATH"@), path + encode_utf8(":"@ + own_programs(home)))
    }
}

/// The environment of the session: what the authentication stack set, then
/// what was missing.
pub open spec fn session_variables(pam: Seq<EnvVar>, l: Login) -> Map<Seq<u8>, Seq<u8>> {
    with_own_programs(seat_defaults(login_defaults(held(pam), l), l), l.home@)
}

fn set_default(env: &mut Environment, name: &str, value: &str)
    requires
        old(env).wf(),
    ensures
        final(env).wf(),
        final(env)@ == or_set(old(env)@, name@, value@),
{
    env.set_default(bytes_of(name), bytes_of(value));
}

fn set_login_defaults(env: &mut Environment, l: &Login)
    requires
        old(env).wf(),
    ensures
        final(env).wf(),
        final(env)@ == login_defaults(old(env)@, *l),
{
    set_default(env, "HOME", l.home.as_str());
    set_default(env, "USER", l.username.as_str());
    set_default(env, "LOGNAME", l.username.as_str());
    set_default(env, "SHELL", l.shell.as_str());
    set_default(env, "PATH", "/usr/local/sbin:/usr/local/bin:/usr/bin:/usr/sbin:/bin:/sbin");
    set_default(env, "TERM", "linux");
}

fn set_seat_defaults(env: &mut Environment, l: &Login)
    requires
        old(env).wf(),
    ensures
        final(env).wf(),
        final(env)@ == seat_defaults(old(env)@, *l),
{
    set_default(env, "XDG_SEAT", "seat0");
    if let Some(n) = l.vt {
        let mut v: Vec<char> = Vec::new();
        append_decimal(&mut v, n as u64);
        assert(v@ =~= decimal(n as nat));
        let text: String = string_of(v.as_slice());
        set_default(env, "XDG_VTNR", text.as_str());
    }
    set_default(env, "XDG_SESSION_TYPE", "wayland");
    set_default(env, "XDG_SESSION_CLASS", "user");
    if l.has_runtime_dir {
        let dir: String = runtime_dir(l.uid);
        set_default(env, "XDG_RUNTIME_DIR", dir.as_str());
    }
}

/// A directory is on a search path.
pub fn path_has(path: &[u8], dir: &[char]) -> (r: bool)
    ensures
        r == on_path(path@, dir@),
{
    let text: &str = match utf8_text(path) {
        Some(t) => t,
        None => {
            return false;
        },
    };
    let c: Vec<char> = chars_of(text);
    let dirs: Vec<&[char]> = split_at_char(c.as_slice(), ':');
    let ghost all = split(c@, ':');
    for i in 0..dirs.len()
        invariant
            views(dirs@) == all,
            all == split(decode_utf8(path@), ':'),
            valid_utf8(path@),
            forall|j: int| 0 <= j < i ==> #[trigger] all[j] != dir@,
    {
        if crate::text::same(dirs[i], dir) {
            assert(all[i as int] == dir@);
            return true;
        }
        assert(all[i as int] == dirs@[i as int]@);
    }
    assert(!all.contains(dir@));
    false
}

fn set_own_programs(env: &mut Environment, home: &str)
    requires
        old(env).wf(),
        old(env)@.contains_key(encode_utf8("PATH"@)),
    ensures
        final(env).wf(),
        final(env)@ == with_own_programs(old(env)@, home@),
{
    let mut dir: Vec<char> = chars_of(home);
    append_str(&mut dir, "/.local/bin");
    let key: Vec<u8> = bytes_of("PATH");
    let mut path: Vec<u8> = Vec::new();
    if let Some(p) = env.get(&key) {
        path = slice_to_vec(p.as_slice());
    }
    if !path_has(path.as_slice(), dir.as_slice()) {
        let mut tail: Vec<char> = chars_of(":");
        append_chars(&mut tail, dir.as_slice());
        let text: String = string_of(tail.as_slice());
        let mut more: Vec<u8> = bytes_of(text.as_str());
        path.append(&mut more);
        env.insert(key, path);
    }
}

/// The environment of the session. `pam` is what the authentication stack set.
pub fn session_environment(pam: &Vec<EnvVar>, l: &Login) -> (env: Environment)
    ensures
        env.wf(),
        env@ == session_variables(pam@, *l),
{
    let mut env: Environment = Environment::new();
    assert(pam@.take(0) =~= Seq::<EnvVar>::empty());
    for i in 0..pam.len()
        invariant
            env.wf(),
            env@ == held(pam@.take(i as int)),
    {
        assert(pam@.take(i + 1).drop_last() =~= pam@.take(i as int));
        env.insert(slice_to_vec(pam[i].key.as_slice()), slice_to_vec(pam[i].value.as_slice()));
    }
    assert(pam@.take(pam.len() as int) =~= pam@);
    set_login_defaults(&mut env, l);
    set_seat_defaults(&mut env, l);
    set_own_programs(&mut env, l.home.as_str());
    env
}

proof fn lemma_or_set_keeps(
    m: Map<Seq<u8>, Seq<u8>>,
    name: Seq<char>,
    value: Seq<char>,
    key: Seq<u8>,
)
    requires
        m.contains_key(key),
    ensures
        or_set(m, name, value).contains_key(key),
        or_set(m, name, value)[key] == m[key],
{
}

proof fn lemma_login_keeps(m: Map<Seq<u8>, Seq<u8>>, l: Login, key: Seq<u8>)
    requires
        m.contains_key(key),
    ensures
        login_defaults(m, l).contains_key(key),
        login_defaults(m, l)[key] == m[key],
{
    let path = "/usr/local/sbin:/usr/local/bin:/usr/bin:/usr/sbin:/bin:/sbin"@;
    let m1 = or_set(m, "HOME"@, l.home@);
    let m2 = or_set(m1, "USER"@, l.username@);
    let m3 = or_set(m2, "LOGNAME"@, l.username@);
    let m4 = or_set(m3, "SHELL"@, l.shell@);
    let m5 = or_set(m4, "PATH"@, path);
    lemma_or_set_keeps(m, "HOME"@, l.home@, key);
    lemma_or_set_keeps(m1, "USER"@, l.username@, key);
    lemma_or_set_keeps(m2, "LOGNAME"@, l.username@, key);
    lemma_or_set_keeps(m3, "SHELL"@, l.shell@, key);
    lemma_or_set_keeps(m4, "PATH"@, path, key);
    lemma_or_set_keeps(m5, "TERM"@, "linux"@, key);
}

proof fn lemma_seat_keeps(m: Map<Seq<u8>, Seq<u8>>, l: Login, key: Seq<u8>)
    requires
        m.contains_key(key),
    ensures
        seat_defaults(m, l).contains_key(key),
        seat_defaults(m, l)[key] == m[key],
{
    let m1 = or_set(m, "XDG_SEAT"@, "seat0"@);
    lemma_or_set_keeps(m, "XDG_SEAT"@, "seat0"@, key);
    let m2 = match l.vt {
        Some(n) => or_set(m1, "XDG_VTNR"@, decimal(n as nat)),
        None => m1,
    };
    if let Some(n) = l.vt {
        lemma_or_set_keeps(m1, "XDG_VTNR"@, decimal(n as nat), key);
    }
    let m3 = or_set(m2, "XDG_SESSION_TYPE"@, "wayland"@);
    let m4 = or_set(m3, "XDG_SESSION_CLASS"@, "user"@);
    lemma_or_set_keeps(m2, "XDG_SESSION_TYPE"@, "wayland"@, key);
    lemma_or_set_keeps(m3, "XDG_SESSION_CLASS"@, "user"@, key);
    lemma_or_set_keeps(m4, "XDG_RUNTIME_DIR"@, runtime_path(l.uid), key);
}

/// What the authentication stack set stays as it is, but for the search path.
pub proof fn law_stack_variables_stay(pam: Seq<EnvVar>, l: Login, name: Seq<u8>)
    requires
        held(pam).contains_key(name),
        name != encode_utf8("PATH"@),
    ensures
        session_variables(pam, l).contains_key(name),
        session_variables(pam, l)[name] == held(pam)[name],
{
    lemma_login_keeps(held(pam), l, name);
    lemma_seat_keeps(login_defaults(held(pam), l), l, name);
}

proof fn lemma_encode_concat(a: Seq<char>, b: Seq<char>)
    ensures
        encode_utf8(a + b) == encode_utf8(a) + encode_utf8(b),
    decreases a.len(),
{
    if a.len() == 0 {
        assert(a + b =~= b);
        assert(encode_utf8(a) + encode_utf8(b) =~= encode_utf8(b));
    } else {
        assert((a + b).drop_first() =~= a.drop_first() + b);
        lemma_encode_concat(a.drop_first(), b);
        assert(encode_utf8(a + b) =~= encode_utf8(a) + encode_utf8(b));
    }
}

/// What follows the last separator is a part.
proof fn lemma_last_part(p: Seq<char>, c: char, d: Seq<char>)
    requires
        !d.contains(c),
    ensures
        split(p.push(c) + d, c).contains(d),
    decreases p.len(),
{
    let s = p.push(c) + d;
    let i = find(p, c);
    lemma_find_from(p, c, 0);
    if i < p.len() {
        assert(s[i] == c);
        assert forall|j: int| 0 <= j < i implies s[j] != c by {
            assert(s[j] == p[j]);
        }
        lemma_find_is(s, c, i);
        assert(s.skip(i + 1) =~= p.skip(i + 1).push(c) + d);
        lemma_last_part(p.skip(i + 1), c, d);
        let rest = split(s.skip(i + 1), c);
        let k = choose|k: int| 0 <= k < rest.len() && rest[k] == d;
        assert(split(s, c)[k + 1] == d);
    } else {
        assert(s[p.len() as int] == c);
        assert forall|j: int| 0 <= j < p.len() implies s[j] != c by {
            assert(s[j] == p[j]);
        }
        lemma_find_is(s, c, p.len() as int);
        assert(s.skip(p.len() as int + 1) =~= d);
        assert forall|j: int| 0 <= j < d.len() implies d[j] != c by {
            if d[j] == c {
                assert(d.contains(c));
            }
        }
        lemma_find_none(d, c);
        assert(split(d, c) =~= seq![d]);
        assert(split(s, c)[1] == d);
    }
}

/// The user's own programs can be found, whatever search path the
/// authentication stack set. (A search path that is no text is never read as
/// one, and a directory with a colon in it cannot be written in one.)
pub proof fn law_own_programs_are_found(pam: Seq<EnvVar>, l: Login)
    requires
        held(pam).contains_key(encode_utf8("PATH"@)) ==> valid_utf8(
            held(pam)[encode_utf8("PATH"@)],
        ),
        !own_programs(l.home@).contains(':'),
    ensures
        session_variables(pam, l).contains_key(encode_utf8("PATH"@)),
        on_path(session_variables(pam, l)[encode_utf8("PATH"@)], own_programs(l.home@)),
{
    let key = encode_utf8("PATH"@);
    let m = held(pam);
    let usual = "/usr/local/sbin:/usr/local/bin:/usr/bin:/usr/sbin:/bin:/sbin"@;
    let m1 = or_set(m, "HOME"@, l.home@);
    let m2 = or_set(m1, "USER"@, l.username@);
    let m3 = or_set(m2, "LOGNAME"@, l.username@);
    let m4 = or_set(m3, "SHELL"@, l.shell@);
    let m5 = or_set(m4, "PATH"@, usual);
    reveal_strlit("HOME");
    reveal_strlit("USER");
    reveal_strlit("LOGNAME");
    reveal_strlit("SHELL");
    reveal_strlit("PATH");
    vstd::utf8::encode_utf8_decode_utf8("PATH"@);
    vstd::utf8::encode_utf8_decode_utf8("HOME"@);
    vstd::utf8::encode_utf8_decode_utf8("USER"@);
    vstd::utf8::encode_utf8_decode_utf8("LOGNAME"@);
    vstd::utf8::encode_utf8_decode_utf8("SHELL"@);
    assert("PATH"@[0] != "HOME"@[0] && "PATH"@[0] != "USER"@[0] && "PATH"@[0] != "LOGNAME"@[0]
        && "PATH"@[0] != "SHELL"@[0]);
    vstd::utf8::encode_utf8_valid_utf8(usual);
    assert(m5.contains_key(key) && valid_utf8(m5[key]));
    let m6 = or_set(m5, "TERM"@, "linux"@);
    lemma_or_set_keeps(m5, "TERM"@, "linux"@, key);
    lemma_seat_keeps(m6, l, key);
    let path = seat_defaults(m6, l)[key];
    let dir = own_programs(l.home@);
    if !on_path(path, dir) {
        let p = decode_utf8(path);
        reveal_strlit(":");
        vstd::utf8::decode_utf8_encode_utf8(path);
        lemma_encode_concat(p, ":"@ + dir);
        assert(p + (":"@ + dir) =~= p.push(':') + dir);
        vstd::utf8::encode_utf8_decode_utf8(p.push(':') + dir);
        vstd::utf8::encode_utf8_valid_utf8(p.push(':') + dir);
        lemma_last_part(p, ':', dir);
    }
}

/// The bytes of `NAME=value`.
pub open spec fn assignment(v: EnvVar) -> Seq<u8> {
    v.key@.push(0x3d) + v.value@
}

/// The assignments that hold no NUL, in order.
pub open spec fn assignments(vars: Seq<EnvVar>) -> Seq<Seq<u8>>
    decreases vars.len(),
{
    if vars.len() == 0 {
        Seq::empty()
    } else {
        let head = assignments(vars.drop_last());
        if assignment(vars.last()).contains(0) {
            head
        } else {
            head.push(assignment(vars.last()))
        }
    }
}

pub open spec fn byte_views(v: Seq<Vec<u8>>) -> Seq<Seq<u8>> {
    Seq::new(v.len(), |i: int| v[i]@)
}

/// The bytes hold a NUL.
fn has_nul(bytes: &[u8]) -> (r: bool)
    ensures
        r == bytes@.contains(0),
{
    for i in 0..bytes.len()
        invariant
            forall|j: int| 0 <= j < i ==> bytes@[j] != 0,
    {
        if bytes[i] == 0 {
            return true;
        }
    }
    false
}

/// The environment as the system takes it: `NAME=value` in the order of the
/// names, without what holds a NUL.
pub fn env_strings(env: &Environment) -> (r: Vec<Vec<u8>>)
    ensures
        byte_views(r@) == assignments(env.vars@),
{
    let mut out: Vec<Vec<u8>> = Vec::new();
    let ghost all = env.vars@;
    assert(all.take(0) =~= Seq::<EnvVar>::empty());
    assert(byte_views(out@) =~= Seq::<Seq<u8>>::empty());
    for i in 0..env.vars.len()
        invariant
            all == env.vars@,
            byte_views(out@) == assignments(all.take(i as int)),
    {
        assert(all.take(i + 1).drop_last() =~= all.take(i as int));
        let mut line: Vec<u8> = slice_to_vec(env.vars[i].key.as_slice());
        line.push(0x3d);
        let mut value: Vec<u8> = slice_to_vec(env.vars[i].value.as_slice());
        line.append(&mut value);
        assert(line@ =~= assignment(all[i as int]));
        if !has_nul(line.as_slice()) {
            let ghost before = out@;
            let ghost x = line@;
            out.push(line);
            assert(byte_views(out@) =~= byte_views(before).push(x));
        }
    }
    assert(all.take(all.len() as int) =~= all);
    out
}

/// A text holds a NUL.
fn text_has_nul(s: &str) -> (r: bool)
    ensures
        r == s@.contains('\0'),
{
    let c: Vec<char> = chars_of(s);
    for i in 0..c.len()
        invariant
            c@ == s@,
            forall|j: int| 0 <= j < i ==> c@[j] != '\0',
    {
        if c[i] == '\0' {
            return true;
        }
    }
    false
}

/// The arguments of the login shell: its name with a dash before it, and the
/// session's command where there is one.
pub open spec fn shell_arguments(shell_name: Seq<char>, command: Seq<char>) -> Seq<Seq<char>> {
    if command.len() == 0 {
        seq!["-"@ + shell_name]
    } else {
        seq!["-"@ + shell_name, "-c"@, "exec "@ + command]
    }
}

/// The arguments of the login shell. No field may hold a NUL: the path of the
/// shell, its file name, the command, the user and the home directory.
pub fn session_argv(
    shell: &[u8],
    shell_name: &str,
    command: &str,
    username: &str,
    home: &[u8],
) -> (r: Result<Vec<String>, LaunchError>)
    ensures
        r is Err <==> shell@.contains(0) || shell_name@.contains('\0') || command@.contains('\0')
            || username@.contains('\0') || home@.contains(0),
        r matches Err(e) ==> e == LaunchError::BadString,
        r matches Ok(argv) ==> texts(argv@) == shell_arguments(shell_name@, command@),
{
    if has_nul(shell) || text_has_nul(shell_name) || text_has_nul(command) || text_has_nul(username)
        || has_nul(home) {
        return Err(LaunchError::BadString);
    }
    let mut argv: Vec<String> = Vec::new();
    let mut first: Vec<char> = chars_of("-");
    append_str(&mut first, shell_name);
    argv.push(string_of(first.as_slice()));
    if !command.is_empty() {
        argv.push(copy_str("-c"));
        let mut line: Vec<char> = chars_of("exec ");
        append_str(&mut line, command);
        argv.push(string_of(line.as_slice()));
    }
    assert(texts(argv@) =~= shell_arguments(shell_name@, command@));
    Ok(argv)
}

/// Room for the user's groups after a try with room for `len` failed and
/// `needed` were reported.
pub fn group_room(needed: i32, len: i32) -> (r: i32)
    requires
        0 <= len <= 0x3fff_ffff,
    ensures
        r == (if needed > 2 * len {
            needed as int
        } else {
            2 * len
        }),
{
    if needed > 2 * len {
        needed
    } else {
        2 * len
    }
}

/// Waiting for the session goes on after a signal cut it short.
pub fn wait_again(result: i32, interrupted: bool) -> (r: bool)
    ensures
        r == (result < 0 && interrupted),
{
    result < 0 && interrupted
}

// ── The session helper ───────────────────────────────────────────────────

/// What the session helper is asked to do.
pub struct HelperRequest {
    pub username: String,
    pub entry: SessionEntry,
    /// Where the password is read from; -1 for nowhere.
    pub password_fd: i32,
}

/// The arguments of the session helper.
pub open spec fn helper_arguments(
    username: Seq<char>,
    name: Seq<char>,
    command: Seq<char>,
    fd: int,
) -> Seq<Seq<char>> {
    seq!["velogin"@, "--session"@, username, name, command, signed_decimal(fd)]
}

/// The arguments of the session helper; `None` where one would hold a NUL.
pub fn helper_argv(username: &str, entry: &SessionEntry, fd: i32) -> (r: Option<Vec<String>>)
    ensures
        r is None <==> username@.contains('\0') || entry.name@.contains('\0')
            || entry.command@.contains('\0'),
        r matches Some(argv) ==> texts(argv@) == helper_arguments(
            username@,
            entry.name@,
            entry.command@,
            fd as int,
        ),
{
    if text_has_nul(username) || text_has_nul(entry.name.as_str()) || text_has_nul(
        entry.command.as_str(),
    ) {
        return None;
    }
    let mut argv: Vec<String> = Vec::new();
    argv.push(copy_str("velogin"));
    argv.push(copy_str("--session"));
    argv.push(copy_str(username));
    argv.push(copy_str(entry.name.as_str()));
    argv.push(copy_str(entry.command.as_str()));
    let mut n: Vec<char> = Vec::new();
    append_signed(&mut n, fd as i64);
    assert(n@ =~= signed_decimal(fd as int));
    argv.push(string_of(n.as_slice()));
    assert(texts(argv@) =~= helper_arguments(username@, entry.name@, entry.command@, fd as int));
    Some(argv)
}

/// The argument at `i`, empty where there is none.
pub open spec fn argument(argv: Seq<Seq<char>>, i: int) -> Seq<char> {
    if 0 <= i < argv.len() {
        argv[i]
    } else {
        Seq::empty()
    }
}

/// The file descriptor that the argument at `i` names, -1 where it names none.
pub open spec fn descriptor(argv: Seq<Seq<char>>, i: int) -> int {
    if i < argv.len() {
        match bounded_number(argv[i], true, i32::MIN as int, i32::MAX as int) {
            Some(n) => n,
            None => -1,
        }
    } else {
        -1
    }
}

fn argument_at(argv: &Vec<String>, i: usize) -> (r: String)
    ensures
        r@ == argument(texts(argv@), i as int),
{
    if i < argv.len() {
        copy_str(argv[i].as_str())
    } else {
        let r: String = String::new();
        assert(r@ =~= Seq::empty());
        r
    }
}

/// The process is the session helper.
pub open spec fn is_helper(argv: Seq<Seq<char>>) -> bool {
    argv.len() > 1 && argv[1] == "--session"@
}

/// What a command line (with the program's name) asks of the session helper;
/// `None` where the process is the greeter.
pub fn helper_request(argv: &Vec<String>) -> (r: Option<HelperRequest>)
    ensures
        r is Some <==> is_helper(texts(argv@)),
        r matches Some(q) ==> q.username@ == argument(texts(argv@), 2) && q.entry.name@ == argument(
            texts(argv@),
            3,
        ) && q.entry.command@ == argument(texts(argv@), 4) && q.password_fd == descriptor(
            texts(argv@),
            5,
        ),
{
    if argv.len() <= 1 {
        return None;
    }
    let flag: Vec<char> = chars_of(argv[1].as_str());
    if !is_str(flag.as_slice(), "--session") {
        return None;
    }
    let password_fd: i32 = if argv.len() > 5 {
        let c: Vec<char> = chars_of(argv[5].as_str());
        match parse_i32(c.as_slice()) {
            Some(n) => n,
            None => -1,
        }
    } else {
        -1
    };
    Some(
        HelperRequest {
            username: argument_at(argv, 2),
            entry: SessionEntry { name: argument_at(argv, 3), command: argument_at(argv, 4) },
            password_fd,
        },
    )
}

/// The session helper reads back what the greeter wrote.
pub proof fn law_helper_reads_back(
    username: Seq<char>,
    name: Seq<char>,
    command: Seq<char>,
    fd: i32,
)
    ensures
        is_helper(helper_arguments(username, name, command, fd as int)),
        argument(helper_arguments(username, name, command, fd as int), 2) == username,
        argument(helper_arguments(username, name, command, fd as int), 3) == name,
        argument(helper_arguments(username, name, command, fd as int), 4) == command,
        descriptor(helper_arguments(username, name, command, fd as int), 5) == fd,
{
    law_signed_decimal_reads_back(fd as int);
}

/// The file descriptors that are closed before the session starts: all but
/// the three standard ones. `names` are the entries of the directory of open
/// descriptors; what is no number there is none.
pub open spec fn lingering(names: Seq<Seq<char>>) -> Seq<i32>
    decreases names.len(),
{
    if names.len() == 0 {
        Seq::empty()
    } else {
        let head = lingering(names.drop_last());
        match bounded_number(names.last(), true, i32::MIN as int, i32::MAX as int) {
            Some(n) => if n > 2 {
                head.push(n as i32)
            } else {
                head
            },
            None => head,
        }
    }
}

pub fn lingering_fds(names: &Vec<String>) -> (r: Vec<i32>)
    ensures
        r@ == lingering(texts(names@)),
{
    let mut out: Vec<i32> = Vec::new();
    let ghost all = texts(names@);
    assert(all.take(0) =~= Seq::<Seq<char>>::empty());
    for i in 0..names.len()
        invariant
            all == texts(names@),
            out@ == lingering(all.take(i as int)),
    {
        assert(all.take(i + 1).drop_last() =~= all.take(i as int));
        let c: Vec<char> = chars_of(names[i].as_str());
        assert(all[i as int] == c@);
        if let Some(n) = parse_i32(c.as_slice()) {
            if n > 2 {
                out.push(n);
            }
        }
    }
    assert(all.take(all.len() as int) =~= all);
    out
}

// ── The greeter ──────────────────────────────────────────────────────────

/// What is missing for logins to work, one line each.
pub open spec fn missing_for_login(pam_file: bool, root: bool, seatd: bool) -> Seq<Seq<char>> {
    (if pam_file {
        Seq::<Seq<char>>::empty()
    } else {
        seq![
            "missing /etc/pam.d/velogin — auth will always fail"@,
            "install veil-login/dist/pam.d/velogin there, then retry"@,
        ]
    }) + (if root {
        Seq::<Seq<char>>::empty()
    } else {
        seq![
            "not running as root — auth will fail for other users"@,
            "(set VELOGIN_DRY_RUN=1 to test the UI without logging in)"@,
        ]
    }) + (if seatd {
        Seq::<Seq<char>>::empty()
    } else {
        seq![
            "/run/seatd.sock missing — linuxkms needs seatd on a bare TTY"@,
            "systemctl enable --now seatd.service"@,
        ]
    })
}

pub open spec fn literals(v: Seq<&'static str>) -> Seq<Seq<char>> {
    Seq::new(v.len(), |i: int| v[i]@)
}

/// Warns of what is missing. A dry run needs nothing.
pub fn check_prerequisites(dry_run: bool, pam_file: bool, root: bool, seatd: bool) -> (r: Vec<
    &'static str,
>)
    ensures
        literals(r@) == (if dry_run {
            Seq::<Seq<char>>::empty()
        } else {
            missing_for_login(pam_file, root, seatd)
        }),
{
    let mut out: Vec<&'static str> = Vec::new();
    if !dry_run {
        if !pam_file {
            out.push("missing /etc/pam.d/velogin — auth will always fail");
            out.push("install veil-login/dist/pam.d/velogin there, then retry");
        }
        if !root {
            out.push("not running as root — auth will fail for other users");
            out.push("(set VELOGIN_DRY_RUN=1 to test the UI without logging in)");
        }
        if !seatd {
            out.push("/run/seatd.sock missing — linuxkms needs seatd on a bare TTY");
            out.push("systemctl enable --now seatd.service");
        }
        assert(literals(out@) =~= missing_for_login(pam_file, root, seatd));
    } else {
        assert(literals(out@) =~= Seq::<Seq<char>>::empty());
    }
    out
}

/// The seconds to wait after the `attempts`-th failure in a row: none for the
/// first two, then three more each time.
pub open spec fn cooldown(attempts: int) -> Option<int> {
    if attempts >= 3 {
        Some((attempts - 2) * 3)
    } else {
        None
    }
}

/// What the greeter shows after a failed attempt.
pub struct Failure {
    pub message: &'static str,
    /// Seconds until the next attempt.
    pub cooldown: Option<u32>,
}

/// The failed attempts since the last login.
pub struct Attempts {
    pub failed: u32,
}

impl Attempts {
    pub fn new() -> (a: Self)
        ensures
            a.failed == 0,
    {
        Attempts { failed: 0 }
    }

    pub fn succeed(&mut self)
        ensures
            final(self).failed == 0,
    {
        self.failed = 0;
    }

    pub fn fail(&mut self, pam_file: bool) -> (f: Failure)
        requires
            old(self).failed <= 0x5555_5556,
        ensures
            final(self).failed == old(self).failed + 1,
            f.message@ == (if pam_file {
                "authentication failed"@
            } else {
                "missing /etc/pam.d/velogin"@
            }),
            match f.cooldown {
                Some(s) => cooldown(old(self).failed + 1) == Some(s as int),
                None => cooldown(old(self).failed + 1) is None,
            },
    {
        self.failed = self.failed + 1;
        let message: &'static str = if pam_file {
            "authentication failed"
        } else {
            "missing /etc/pam.d/velogin"
        };
        let cooldown: Option<u32> = if self.failed >= 3 {
            Some((self.failed - 2) * 3)
        } else {
            None
        };
        Failure { message, cooldown }
    }
}

/// Each failure beyond the second makes the wait longer.
pub proof fn law_waits_grow(attempts: int)
    requires
        attempts >= 3,
    ensures
        cooldown(attempts) is Some,
        cooldown(attempts)->0 >= 3,
        cooldown(attempts + 1)->0 > cooldown(attempts)->0,
{
}

/// The index of the session that the greeter's selection means.
pub fn session_index(selected: i32) -> (r: usize)
    ensures
        r == (if selected < 0 {
            0int
        } else {
            selected as int
        }),
{
    if selected < 0 {
        0
    } else {
        selected as usize
    }
}

/// The chosen session, the first where there is no such index.
pub fn chosen_session(sessions: &Vec<SessionEntry>, index: usize) -> (r: &SessionEntry)
    requires
        sessions@.len() > 0,
    ensures
        *r == (if index < sessions@.len() {
            sessions@[index as int]
        } else {
            sessions@[0]
        }),
{
    if index < sessions.len() {
        &sessions[index]
    } else {
        &sessions[0]
    }
}

/// The letter shown where the user has no picture.
pub open spec fn initial(username: Seq<char>) -> Seq<char> {
    if trim(username).len() == 0 {
        "?"@
    } else {
        uppercase(trim(username)[0])
    }
}

pub fn user_initial(username: &str) -> (r: String)
    ensures
        r@ == initial(username@),
{
    let c: Vec<char> = chars_of(username);
    let t: &[char] = trimmed(c.as_slice());
    if t.len() == 0 {
        copy_str("?")
    } else {
        uppercase_of(t[0])
    }
}

/// A picture: RGBA pixels, row by row.
pub struct Picture {
    pub rgba: Vec<u8>,
    pub width: u32,
    pub height: u32,
}

impl Picture {
    /// Four bytes for each pixel.
    pub open spec fn wf(self) -> bool {
        self.rgba@.len() == 4 * (self.width * self.height)
    }
}

/// Width, height and pixels of a picture.
pub open spec fn picture_of(p: Option<Picture>) -> Option<(u32, u32, Seq<u8>)> {
    match p {
        Some(p) => Some((p.width, p.height, p.rgba@)),
        None => None,
    }
}

/// What the `image` crate makes of the bytes of a file: width, height and RGBA
/// pixels of the picture in them, or `None` where it cannot read them. There
/// may be more than one outcome: the decoders of lossy files are picked by the
/// vector instructions of the machine, and a program may register decoding
/// hooks of its own with the crate.
pub uninterp spec fn decodings(bytes: Seq<u8>) -> Set<Option<(u32, u32, Seq<u8>)>>;

/// `image::load_from_memory` and `DynamicImage::into_rgba8`: one of the
/// outcomes for these bytes, with four bytes for each pixel of a picture. Which
/// bytes hold a picture is not stated. `ImageReader::decode` (`image`,
/// `src/io/image_reader_type.rs`) hands on the errors that the PNG and JPEG
/// decoders report (`png`, `src/decoder/stream.rs`; `zune-jpeg`,
/// `src/decoder.rs`). Their sources do not rule out that malformed bytes make
/// one of them panic; the panic is then this function's too.
#[verifier::external_body]
fn decode_image(bytes: &[u8]) -> (r: Option<Picture>)
    ensures
        decodings(bytes@).contains(picture_of(r)),
        r matches Some(p) ==> p.wf(),
{
    let img = image::load_from_memory(bytes).ok()?.into_rgba8();
    let (width, height) = img.dimensions();
    Some(Picture { rgba: img.into_raw(), width, height })
}

/// The picture in the bytes of a file, whatever the file is called. No file
/// holds no picture.
pub fn load_image(bytes: Option<&[u8]>) -> (r: Option<Picture>)
    ensures
        match bytes {
            Some(b) => decodings(b@).contains(picture_of(r)),
            None => r is None,
        },
        r matches Some(p) ==> p.wf(),
{
    match bytes {
        Some(b) => decode_image(b),
        None => None,
    }
}

/// What stands for a user: the initial, and the picture over it.
pub struct Avatar {
    pub initial: String,
    pub picture: Option<Picture>,
}

/// The file that [`avatar_file`] asks about.
pub fn avatar_query(username: &str) -> (r: Option<String>)
    ensures
        r is Some <==> safe_name(trim(username@)),
        r matches Some(p) ==> p@ == icon_of(trim(username@)),
{
    let c: Vec<char> = chars_of(username);
    let t: String = string_of(trimmed(c.as_slice()));
    avatar_candidate(t.as_str())
}

/// The file that holds a user's picture, where there is one. `is_file` says
/// whether the file asked about is one.
pub fn avatar_file(username: &str, is_file: bool) -> (r: Option<String>)
    ensures
        r is Some <==> safe_name(trim(username@)) && is_file,
        r matches Some(p) ==> p@ == icon_of(trim(username@)),
{
    let c: Vec<char> = chars_of(username);
    let t: String = string_of(trimmed(c.as_slice()));
    avatar_path(t.as_str(), is_file)
}

/// The avatar of a user, with what [`avatar_file`] holds.
pub fn load_avatar(username: &str, bytes: Option<&[u8]>) -> (a: Avatar)
    ensures
        a.initial@ == initial(username@),
        match bytes {
            Some(b) => decodings(b@).contains(picture_of(a.picture)),
            None => a.picture is None,
        },
        a.picture matches Some(p) ==> p.wf(),
{
    Avatar { initial: user_initial(username), picture: load_image(bytes) }
}

/// Drop the last character of a text.
pub fn pop_char(s: &str) -> (r: String)
    ensures
        r@ == (if s@.len() == 0 {
            s@
        } else {
            s@.drop_last()
        }),
{
    let mut t: String = copy_str(s);
    let _ = t.pop();
    t
}

// ── What a session starts with ───────────────────────────────────────────

proof fn lemma_names_are_told_apart(a: Seq<char>, b: Seq<char>)
    requires
        a != b,
    ensures
        encode_utf8(a) != encode_utf8(b),
{
    vstd::utf8::encode_utf8_decode_utf8(a);
    vstd::utf8::encode_utf8_decode_utf8(b);
}

proof fn lemma_login_sets(m: Map<Seq<u8>, Seq<u8>>, l: Login)
    ensures
        !m.contains_key(encode_utf8("HOME"@)) ==> login_defaults(m, l)[encode_utf8("HOME"@)]
            == encode_utf8(l.home@),
        !m.contains_key(encode_utf8("USER"@)) ==> login_defaults(m, l)[encode_utf8("USER"@)]
            == encode_utf8(l.username@),
        !m.contains_key(encode_utf8("LOGNAME"@)) ==> login_defaults(m, l)[encode_utf8("LOGNAME"@)]
            == encode_utf8(l.username@),
        !m.contains_key(encode_utf8("SHELL"@)) ==> login_defaults(m, l)[encode_utf8("SHELL"@)]
            == encode_utf8(l.shell@),
        !m.contains_key(encode_utf8("TERM"@)) ==> login_defaults(m, l)[encode_utf8("TERM"@)]
            == encode_utf8("linux"@),
        login_defaults(m, l).contains_key(encode_utf8("HOME"@)),
        login_defaults(m, l).contains_key(encode_utf8("USER"@)),
        login_defaults(m, l).contains_key(encode_utf8("LOGNAME"@)),
        login_defaults(m, l).contains_key(encode_utf8("SHELL"@)),
        login_defaults(m, l).contains_key(encode_utf8("TERM"@)),
{
    reveal_strlit("HOME");
    reveal_strlit("USER");
    reveal_strlit("LOGNAME");
    reveal_strlit("SHELL");
    reveal_strlit("PATH");
    reveal_strlit("TERM");
    assert("HOME"@.len() == 4 && "USER"@.len() == 4 && "LOGNAME"@.len() == 7 && "SHELL"@.len() == 5
        && "PATH"@.len() == 4 && "TERM"@.len() == 4);
    assert("HOME"@[0] == 'H' && "USER"@[0] == 'U' && "PATH"@[0] == 'P' && "TERM"@[0] == 'T');
    vstd::utf8::encode_utf8_decode_utf8("HOME"@);
    vstd::utf8::encode_utf8_decode_utf8("USER"@);
    vstd::utf8::encode_utf8_decode_utf8("LOGNAME"@);
    vstd::utf8::encode_utf8_decode_utf8("SHELL"@);
    vstd::utf8::encode_utf8_decode_utf8("PATH"@);
    vstd::utf8::encode_utf8_decode_utf8("TERM"@);
}

/// A variable that the authentication stack left out is set for the user who
/// logs in: the home directory, the two names, the shell and the terminal.
pub proof fn law_missing_variables_are_set(pam: Seq<EnvVar>, l: Login)
    ensures
        ({
            let v = session_variables(pam, l);
            let m = held(pam);
            &&& !m.contains_key(encode_utf8("HOME"@)) ==> v.contains_key(encode_utf8("HOME"@))
                && v[encode_utf8("HOME"@)] == encode_utf8(l.home@)
            &&& !m.contains_key(encode_utf8("USER"@)) ==> v.contains_key(encode_utf8("USER"@))
                && v[encode_utf8("USER"@)] == encode_utf8(l.username@)
            &&& !m.contains_key(encode_utf8("LOGNAME"@)) ==> v.contains_key(encode_utf8("LOGNAME"@))
                && v[encode_utf8("LOGNAME"@)] == encode_utf8(l.username@)
            &&& !m.contains_key(encode_utf8("SHELL"@)) ==> v.contains_key(encode_utf8("SHELL"@))
                && v[encode_utf8("SHELL"@)] == encode_utf8(l.shell@)
            &&& !m.contains_key(encode_utf8("TERM"@)) ==> v.contains_key(encode_utf8("TERM"@))
                && v[encode_utf8("TERM"@)] == encode_utf8("linux"@)
        }),
{
    let m = held(pam);
    let d = login_defaults(m, l);
    lemma_login_sets(m, l);
    lemma_seat_keeps(d, l, encode_utf8("HOME"@));
    lemma_seat_keeps(d, l, encode_utf8("USER"@));
    lemma_seat_keeps(d, l, encode_utf8("LOGNAME"@));
    lemma_seat_keeps(d, l, encode_utf8("SHELL"@));
    lemma_seat_keeps(d, l, encode_utf8("TERM"@));
    reveal_strlit("HOME");
    reveal_strlit("USER");
    reveal_strlit("LOGNAME");
    reveal_strlit("SHELL");
    reveal_strlit("PATH");
    reveal_strlit("TERM");
    assert("HOME"@[0] == 'H' && "USER"@[0] == 'U' && "PATH"@[0] == 'P' && "TERM"@[0] == 'T'
        && "LOGNAME"@[0] == 'L' && "SHELL"@[0] == 'S');
    lemma_names_are_told_apart("HOME"@, "PATH"@);
    lemma_names_are_told_apart("USER"@, "PATH"@);
    lemma_names_are_told_apart("LOGNAME"@, "PATH"@);
    lemma_names_are_told_apart("SHELL"@, "PATH"@);
    lemma_names_are_told_apart("TERM"@, "PATH"@);
}

/// The seat and the kind of session are set where they were left out, the
/// virtual terminal where there is one, and the runtime directory where it
/// exists.
pub proof fn law_seat_variables_are_set(m: Map<Seq<u8>, Seq<u8>>, l: Login)
    ensures
        ({
            let v = seat_defaults(m, l);
            &&& v.contains_key(encode_utf8("XDG_SEAT"@)) && (!m.contains_key(
                encode_utf8("XDG_SEAT"@),
            ) ==> v[encode_utf8("XDG_SEAT"@)] == encode_utf8("seat0"@))
            &&& v.contains_key(encode_utf8("XDG_SESSION_TYPE"@)) && (!m.contains_key(
                encode_utf8("XDG_SESSION_TYPE"@),
            ) ==> v[encode_utf8("XDG_SESSION_TYPE"@)] == encode_utf8("wayland"@))
            &&& v.contains_key(encode_utf8("XDG_SESSION_CLASS"@)) && (!m.contains_key(
                encode_utf8("XDG_SESSION_CLASS"@),
            ) ==> v[encode_utf8("XDG_SESSION_CLASS"@)] == encode_utf8("user"@))
            &&& !m.contains_key(encode_utf8("XDG_VTNR"@)) ==> (v.contains_key(
                encode_utf8("XDG_VTNR"@),
            ) <==> l.vt is Some)
            &&& !m.contains_key(encode_utf8("XDG_VTNR"@)) && l.vt is Some ==> v[encode_utf8(
                "XDG_VTNR"@,
            )] == encode_utf8(decimal(l.vt->0 as nat))
            &&& !m.contains_key(encode_utf8("XDG_RUNTIME_DIR"@)) ==> (v.contains_key(
                encode_utf8("XDG_RUNTIME_DIR"@),
            ) <==> l.has_runtime_dir)
            &&& !m.contains_key(encode_utf8("XDG_RUNTIME_DIR"@)) && l.has_runtime_dir
                ==> v[encode_utf8("XDG_RUNTIME_DIR"@)] == encode_utf8(
                "/run/user/"@ + decimal(l.uid as nat),
            )
        }),
{
    reveal_strlit("XDG_SEAT");
    reveal_strlit("XDG_VTNR");
    reveal_strlit("XDG_SESSION_TYPE");
    reveal_strlit("XDG_SESSION_CLASS");
    reveal_strlit("XDG_RUNTIME_DIR");
    assert("XDG_SEAT"@.len() == 8 && "XDG_VTNR"@.len() == 8 && "XDG_SESSION_TYPE"@.len() == 16
        && "XDG_SESSION_CLASS"@.len() == 17 && "XDG_RUNTIME_DIR"@.len() == 15);
    assert("XDG_SEAT"@[4] == 'S' && "XDG_VTNR"@[4] == 'V');
    vstd::utf8::encode_utf8_decode_utf8("XDG_SEAT"@);
    vstd::utf8::encode_utf8_decode_utf8("XDG_VTNR"@);
    vstd::utf8::encode_utf8_decode_utf8("XDG_SESSION_TYPE"@);
    vstd::utf8::encode_utf8_decode_utf8("XDG_SESSION_CLASS"@);
    vstd::utf8::encode_utf8_decode_utf8("XDG_RUNTIME_DIR"@);
}

/// The number of a virtual terminal is read from the path of its device.
pub proof fn law_terminals_are_numbered(n: u32)
    ensures
        vt_of(Some("/dev/tty"@ + decimal(n as nat))) == Some(n),
        vt_of(None) is None,
        vt_of(Some("/dev/tty"@)) is None,
{
    reveal_strlit("/dev/tty");
    let p = "/dev/tty"@;
    let d = decimal(n as nat);
    crate::text::law_decimal_reads_back(n as nat);
    let t = p + d;
    assert(t.subrange(0, 8) =~= p);
    assert(t.skip(8) =~= d);
    assert(crate::text::is_digit(d[0]));
    if starts_with(d, p) {
        assert(d.subrange(0, 8)[0] == '/');
    }
    assert(strip_all(d, p) == d);
    assert(strip_all(t, p) == strip_all(t.skip(8), p));
    assert(p.subrange(0, 8) =~= p);
    assert(p.skip(8) =~= Seq::<char>::empty());
    assert(strip_all(Seq::<char>::empty(), p) == Seq::<char>::empty());
}

/// The session is told every variable once as `NAME=value`, in order, and none
/// that holds a NUL.
pub proof fn law_assignments_hold_no_nul(vars: Seq<EnvVar>, v: EnvVar)
    ensures
        forall|i: int|
            0 <= i < assignments(vars).len() ==> !(#[trigger] assignments(vars)[i]).contains(0),
        assignment(v).len() == v.key@.len() + 1 + v.value@.len(),
        assignment(v).take(v.key@.len() as int) == v.key@,
        assignment(v)[v.key@.len() as int] == 0x3d,
        assignment(v).skip(v.key@.len() as int + 1) == v.value@,
        !assignment(v).contains(0) ==> assignments(vars.push(v)) == assignments(vars).push(
            assignment(v),
        ),
        assignment(v).contains(0) ==> assignments(vars.push(v)) == assignments(vars),
    decreases vars.len(),
{
    assert(assignment(v).take(v.key@.len() as int) =~= v.key@);
    assert(assignment(v).skip(v.key@.len() as int + 1) =~= v.value@);
    assert(vars.push(v).drop_last() =~= vars);
    if vars.len() > 0 {
        law_assignments_hold_no_nul(vars.drop_last(), v);
    }
}

/// Every open descriptor but the three standard ones is closed, and no other
/// number is.
pub proof fn law_open_descriptors_are_closed(names: Seq<Seq<char>>, n: i32)
    ensures
        lingering(names).contains(n) <==> n > 2 && exists|i: int|
            0 <= i < names.len() && bounded_number(
                #[trigger] names[i],
                true,
                i32::MIN as int,
                i32::MAX as int,
            ) == Some(n as int),
    decreases names.len(),
{
    if names.len() > 0 {
        let d = names.drop_last();
        law_open_descriptors_are_closed(d, n);
        let head = lingering(d);
        let all = lingering(names);
        let last = bounded_number(names.last(), true, i32::MIN as int, i32::MAX as int);
        assert(names[names.len() - 1] == names.last());
        if all.contains(n) {
            let k = choose|k: int| 0 <= k < all.len() && all[k] == n;
            if k < head.len() {
                assert(head[k] == n);
                let i = choose|i: int|
                    0 <= i < d.len() && bounded_number(
                        #[trigger] d[i],
                        true,
                        i32::MIN as int,
                        i32::MAX as int,
                    ) == Some(n as int);
                assert(names[i] == d[i]);
            }
        }
        if n > 2 && exists|i: int|
            0 <= i < names.len() && bounded_number(
                #[trigger] names[i],
                true,
                i32::MIN as int,
                i32::MAX as int,
            ) == Some(n as int) {
            let i = choose|i: int|
                0 <= i < names.len() && bounded_number(
                    #[trigger] names[i],
                    true,
                    i32::MIN as int,
                    i32::MAX as int,
                ) == Some(n as int);
            if i < d.len() {
                assert(d[i] == names[i]);
                assert(head.contains(n));
                let k = choose|k: int| 0 <= k < head.len() && head[k] == n;
                assert(all[k] == n);
            } else {
                assert(all[head.len() as int] == n);
            }
        }
    }
}

/// The first two failures cost no time, the third three seconds, and each one
/// after it three seconds more.
pub proof fn law_each_failure_costs_three_seconds_more(n: int)
    ensures
        n < 3 ==> cooldown(n) is None,
        cooldown(3) == Some(3int),
        n >= 3 ==> cooldown(n + 1) == Some(cooldown(n)->0 + 3),
{
}

/// A login shell is told so by a dash before its name; a session's command
/// takes the shell's place, and a session without one is the shell itself.
pub proof fn law_shells_are_login_shells(shell: Seq<char>, command: Seq<char>)
    ensures
        shell_arguments(shell, command)[0].len() == shell.len() + 1,
        shell_arguments(shell, command)[0][0] == '-',
        shell_arguments(shell, command)[0].skip(1) == shell,
        command.len() == 0 ==> shell_arguments(shell, command).len() == 1,
        command.len() > 0 ==> shell_arguments(shell, command).len() == 3 && shell_arguments(
            shell,
            command,
        )[2].skip(5) == command,
{
    reveal_strlit("-");
    reveal_strlit("exec ");
    assert(("-"@ + shell).skip(1) =~= shell);
    assert(("exec "@ + command).skip(5) =~= command);
}

/// Two lines are shown for each thing that is missing, and none where nothing
/// is.
pub proof fn law_each_lack_is_told(pam_file: bool, root: bool, seatd: bool)
    ensures
        missing_for_login(pam_file, root, seatd).len() == (if pam_file {
            0int
        } else {
            2
        }) + (if root {
            0int
        } else {
            2
        }) + (if seatd {
            0int
        } else {
            2
        }),
{
}

} // verus!
