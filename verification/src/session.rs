//! Session detection: what can the user be logged into?
//!
//! Hardcoded entries first (Veil, the user's shell), then anything with a
//! .desktop file in the standard wayland/x11 session dirs.

use vstd::prelude::*;
use crate::text::{chars_of, copy_str, cut_once, has_prefix, lines_of, same, string_of, trimmed};
use crate::text::{lines, split_once, starts_with, trim, views};

verus! {

/// A session the user can choose.
#[derive(Debug)]
pub struct SessionEntry {
    pub name: String,
    /// Shell command line, run as `<user shell> -lc "exec <command>"`. Empty
    /// means "just a login shell".
    pub command: String,
}

/// What a `SessionEntry` says.
#[verifier::ext_equal]
pub struct Session {
    pub name: Seq<char>,
    pub command: Seq<char>,
}

impl View for SessionEntry {
    type V = Session;

    open spec fn view(&self) -> Session {
        Session { name: self.name@, command: self.command@ }
    }
}

pub open spec fn sessions_of(v: Seq<SessionEntry>) -> Seq<Session> {
    Seq::new(v.len(), |i: int| v[i]@)
}

/// The value of a `key=value` line; `None` where the line has another key or
/// none.
pub open spec fn value_in(line: Seq<char>, key: Seq<char>) -> Option<Seq<char>> {
    match split_once(line, '=') {
        Some((k, v)) => if trim(k) == key {
            Some(trim(v))
        } else {
            None
        },
        None => None,
    }
}

/// The first value of `key` in the lines of `section`.
pub open spec fn ini_value(
    ls: Seq<Seq<char>>,
    header: Seq<char>,
    key: Seq<char>,
    in_section: bool,
) -> Option<Seq<char>>
    decreases ls.len(),
{
    if ls.len() == 0 {
        None
    } else {
        let l = trim(ls[0]);
        if starts_with(l, seq!['[']) {
            ini_value(ls.skip(1), header, key, l == header)
        } else if in_section && value_in(l, key) is Some {
            value_in(l, key)
        } else {
            ini_value(ls.skip(1), header, key, in_section)
        }
    }
}

/// The header line of a section.
pub open spec fn section_header(section: Seq<char>) -> Seq<char> {
    seq!['['] + section + seq![']']
}

pub fn ini_get(content: &str, section: &str, key: &str) -> (r: Option<String>)
    ensures
        match r {
            Some(v) => ini_value(lines(content@), section_header(section@), key@, false) == Some(
                v@,
            ),
            None => ini_value(lines(content@), section_header(section@), key@, false) is None,
        },
{
    let text: Vec<char> = chars_of(content);
    let ls: Vec<&[char]> = lines_of(text.as_slice());
    let mut header: Vec<char> = Vec::new();
    header.push('[');
    crate::text::append_str(&mut header, section);
    header.push(']');
    assert(header@ =~= section_header(section@));
    let k: Vec<char> = chars_of(key);
    let mut in_section: bool = false;
    let ghost all = views(ls@);
    assert(all.skip(0) =~= all);
    for i in 0..ls.len()
        invariant
            all == views(ls@),
            all == lines(content@),
            header@ == section_header(section@),
            k@ == key@,
            ini_value(all, header@, key@, false) == ini_value(
                all.skip(i as int),
                header@,
                key@,
                in_section,
            ),
    {
        assert(all.skip(i as int).skip(1) =~= all.skip(i + 1));
        assert(all.skip(i as int)[0] == ls@[i as int]@);
        let line: &[char] = trimmed(ls[i]);
        let bracket: [char; 1] = ['['];
        assert(bracket@ =~= seq!['[']);
        if has_prefix(line, &bracket) {
            in_section = same(line, header.as_slice());
        } else if in_section {
            if let Some((a, b)) = cut_once(line, '=') {
                if same(trimmed(a), k.as_slice()) {
                    return Some(string_of(trimmed(b)));
                }
            }
        }
    }
    None
}

/// The session that a desktop file describes: it needs a command; its name is
/// that of the file where it gives none.
pub open spec fn desktop_session(content: Seq<char>, stem: Seq<char>) -> Option<Session> {
    let header = section_header("Desktop Entry"@);
    match ini_value(lines(content), header, "Exec"@, false) {
        Some(command) => Some(
            Session {
                name: match ini_value(lines(content), header, "Name"@, false) {
                    Some(n) => n,
                    None => stem,
                },
                command,
            },
        ),
        None => None,
    }
}

/// Reads one desktop file; `stem` is its file name without the extension.
pub fn from_desktop_file(content: &str, stem: &str) -> (r: Option<SessionEntry>)
    ensures
        match r {
            Some(e) => desktop_session(content@, stem@) == Some(e@),
            None => desktop_session(content@, stem@) is None,
        },
{
    let command: String = match ini_get(content, "Desktop Entry", "Exec") {
        Some(c) => c,
        None => {
            return None;
        },
    };
    let name: String = match ini_get(content, "Desktop Entry", "Name") {
        Some(n) => n,
        None => copy_str(stem),
    };
    Some(SessionEntry { name, command })
}

/// A desktop file: the stem of its name, and its contents.
pub struct DesktopFile {
    pub stem: String,
    pub content: String,
}

pub open spec fn has_name(s: Seq<Session>, name: Seq<char>) -> bool {
    exists|i: int| 0 <= i < s.len() && (#[trigger] s[i]).name == name
}

/// The two sessions that are always there, then those of the files in order,
/// without those whose name is taken.
pub open spec fn detected(files: Seq<DesktopFile>) -> Seq<Session>
    decreases files.len(),
{
    if files.len() == 0 {
        seq![
            Session { name: "Veil"@, command: "veil-host start"@ },
            Session { name: "Shell"@, command: Seq::empty() },
        ]
    } else {
        let before = detected(files.drop_last());
        match desktop_session(files.last().content@, files.last().stem@) {
            Some(s) => if has_name(before, s.name) {
                before
            } else {
                before.push(s)
            },
            None => before,
        }
    }
}

fn name_taken(sessions: &Vec<SessionEntry>, name: &String) -> (r: bool)
    ensures
        r == has_name(sessions_of(sessions@), name@),
{
    for i in 0..sessions.len()
        invariant
            forall|j: int| 0 <= j < i ==> (#[trigger] sessions@[j])@.name != name@,
    {
        if sessions[i].name == *name {
            assert(sessions_of(sessions@)[i as int].name == name@);
            return true;
        }
    }
    assert forall|j: int| 0 <= j < sessions_of(sessions@).len() implies (#[trigger] sessions_of(
        sessions@,
    )[j]).name != name@ by {
        assert(sessions@[j]@.name != name@);
    }
    false
}

/// The sessions to choose from, given the desktop files of the session
/// directories in the order they were found.
pub fn detect(files: &Vec<DesktopFile>) -> (r: Vec<SessionEntry>)
    ensures
        sessions_of(r@) == detected(files@),
{
    let mut out: Vec<SessionEntry> = Vec::new();
    out.push(SessionEntry { name: copy_str("Veil"), command: copy_str("veil-host start") });
    out.push(SessionEntry { name: copy_str("Shell"), command: String::new() });
    assert(files@.take(0) =~= Seq::<DesktopFile>::empty());
    assert(sessions_of(out@) =~= detected(files@.take(0)));
    for i in 0..files.len()
        invariant
            sessions_of(out@) == detected(files@.take(i as int)),
    {
        assert(files@.take(i + 1).drop_last() =~= files@.take(i as int));
        let f: &DesktopFile = &files[i];
        assert(files@.take(i + 1).last() == *f);
        if let Some(s) = from_desktop_file(f.content.as_str(), f.stem.as_str()) {
            // Skip duplicates by name (same desktop in both dirs).
            if !name_taken(&out, &s.name) {
                let ghost prev = out@;
                let ghost x = s@;
                out.push(s);
                assert(sessions_of(out@) =~= sessions_of(prev).push(x));
            }
        }
    }
    assert(files@.take(files.len() as int) =~= files@);
    out
}

/// No two sessions share a name, and Veil comes first.
pub proof fn law_session_names_differ(files: Seq<DesktopFile>)
    ensures
        detected(files).len() >= 2,
        detected(files)[0].name == "Veil"@,
        forall|i: int, j: int|
            0 <= i < j < detected(files).len() ==> (#[trigger] detected(files)[i]).name != (
            #[trigger] detected(files)[j]).name,
    decreases files.len(),
{
    reveal_strlit("Veil");
    reveal_strlit("Shell");
    assert("Veil"@.len() != "Shell"@.len());
    if files.len() > 0 {
        law_session_names_differ(files.drop_last());
    }
}

/// The index of the session named `name`.
pub fn index_of(sessions: &Vec<SessionEntry>, name: &str) -> (r: Option<usize>)
    ensures
        r is None <==> !has_name(sessions_of(sessions@), name@),
        r matches Some(i) ==> i < sessions@.len() && sessions@[i as int].name@ == name@ && (forall|
            j: int,
        |
            0 <= j < i ==> (#[trigger] sessions@[j]).name@ != name@),
{
    let n: String = copy_str(name);
    for i in 0..sessions.len()
        invariant
            n@ == name@,
            forall|j: int| 0 <= j < i ==> (#[trigger] sessions@[j]).name@ != name@,
    {
        if sessions[i].name == n {
            assert(sessions_of(sessions@)[i as int].name == name@);
            return Some(i);
        }
    }
    assert forall|j: int| 0 <= j < sessions_of(sessions@).len() implies (#[trigger] sessions_of(
        sessions@,
    )[j]).name != name@ by {
        assert(sessions@[j].name@ != name@);
    }
    None
}

/// A line gives its key the value behind the first equals sign, without the
/// white space around it, and gives no other key any.
pub proof fn law_lines_name_their_keys(k: Seq<char>, v: Seq<char>, key: Seq<char>)
    requires
        !k.contains('='),
    ensures
        value_in(k + seq!['='] + v, key) == (if trim(k) == key {
            Some(trim(v))
        } else {
            None
        }),
        value_in(k, key) is None,
{
    let l = k + seq!['='] + v;
    assert forall|j: int| 0 <= j < k.len() implies l[j] != '=' by {
        assert(k.contains(k[j]));
    }
    crate::text::lemma_find_is(l, '=', k.len() as int);
    assert(l.take(k.len() as int) =~= k);
    assert(l.skip(k.len() as int + 1) =~= v);
    assert forall|j: int| 0 <= j < k.len() implies k[j] != '=' by {
        assert(k.contains(k[j]));
    }
    crate::text::lemma_find_none(k, '=');
}

/// The first value that is found counts, whatever follows it.
pub proof fn law_first_value_counts(
    a: Seq<Seq<char>>,
    b: Seq<Seq<char>>,
    header: Seq<char>,
    key: Seq<char>,
    in_section: bool,
)
    ensures
        ini_value(a, header, key, in_section) is Some ==> ini_value(a + b, header, key, in_section)
            == ini_value(a, header, key, in_section),
    decreases a.len(),
{
    if a.len() > 0 {
        let l = trim(a[0]);
        assert((a + b)[0] == a[0]);
        assert((a + b).skip(1) =~= a.skip(1) + b);
        if starts_with(l, seq!['[']) {
            law_first_value_counts(a.skip(1), b, header, key, l == header);
        } else if in_section && value_in(l, key) is Some {
        } else {
            law_first_value_counts(a.skip(1), b, header, key, in_section);
        }
    }
}

/// Without the section's header no line counts, whatever the keys.
pub proof fn law_other_sections_do_not_count(
    ls: Seq<Seq<char>>,
    header: Seq<char>,
    key: Seq<char>,
)
    requires
        forall|i: int| 0 <= i < ls.len() ==> trim(#[trigger] ls[i]) != header,
    ensures
        ini_value(ls, header, key, false) is None,
    decreases ls.len(),
{
    if ls.len() > 0 {
        assert(trim(ls[0]) != header);
        assert forall|i: int| 0 <= i < ls.skip(1).len() implies trim(#[trigger] ls.skip(1)[i])
            != header by {
            assert(ls[i + 1] == ls.skip(1)[i]);
        }
        law_other_sections_do_not_count(ls.skip(1), header, key);
    }
}

/// A value right below its section's header is found, wherever the header
/// stands behind lines of other sections.
pub proof fn law_values_in_their_section_are_found(
    before: Seq<Seq<char>>,
    section: Seq<char>,
    key: Seq<char>,
    v: Seq<char>,
    after: Seq<Seq<char>>,
)
    requires
        forall|i: int| 0 <= i < before.len() ==> trim(#[trigger] before[i]) != section_header(section),
        key.len() > 0,
        !key.contains('='),
        key[0] != '[',
        !crate::text::white(key[0]),
        !crate::text::white(key.last()),
        v.len() > 0,
        !crate::text::white(v[0]),
        !crate::text::white(v.last()),
    ensures
        ini_value(
            before + seq![section_header(section), key + seq!['='] + v] + after,
            section_header(section),
            key,
            false,
        ) == Some(v),
    decreases before.len(),
{
    let h = section_header(section);
    let line = key + seq!['='] + v;
    let all = before + seq![h, line] + after;
    if before.len() == 0 {
        crate::text::lemma_trim_id(h);
        assert(h.subrange(0, 1) =~= seq!['[']);
        assert(all[0] == h);
        let rest = all.skip(1);
        assert(rest[0] == line);
        crate::text::lemma_trim_id(line);
        crate::text::lemma_trim_id(key);
        crate::text::lemma_trim_id(v);
        law_lines_name_their_keys(key, v, key);
        assert(!starts_with(line, seq!['['])) by {
            if starts_with(line, seq!['[']) {
                assert(line.subrange(0, 1)[0] == '[');
                assert(line[0] == key[0]);
            }
        }
        assert(ini_value(rest, h, key, true) == Some(v));
    } else {
        let less = before.skip(1);
        assert(trim(before[0]) != h);
        assert forall|i: int| 0 <= i < less.len() implies trim(#[trigger] less[i]) != h by {
            assert(less[i] == before[i + 1]);
        }
        law_values_in_their_section_are_found(less, section, key, v, after);
        assert(all[0] == before[0]);
        assert(all.skip(1) =~= less + seq![h, line] + after);
    }
}

/// Sessions keep their order: a further file adds at most one, at the end, and
/// changes none of the others.
pub proof fn law_files_add_sessions(files: Seq<DesktopFile>, f: DesktopFile)
    ensures
        ({
            let old = detected(files);
            let new = detected(files.push(f));
            &&& new.take(old.len() as int) == old
            &&& new.len() <= old.len() + 1
            &&& desktop_session(f.content@, f.stem@) matches Some(s) ==> has_name(new, s.name)
            &&& desktop_session(f.content@, f.stem@) is None ==> new == old
        }),
{
    let old = detected(files);
    let new = detected(files.push(f));
    assert(files.push(f).drop_last() =~= files);
    assert(new.take(old.len() as int) =~= old);
    if let Some(s) = desktop_session(f.content@, f.stem@) {
        if !has_name(old, s.name) {
            assert(new[old.len() as int].name == s.name);
        }
    }
}

} // verus!
