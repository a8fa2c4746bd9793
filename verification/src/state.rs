//! Persistent state and asset lookup of the greeter: remembered username and
//! session, avatar, wallpaper. The files are read and written by the caller.

use vstd::prelude::*;
use crate::text::{append_str, chars_of, copy_str, has_part, string_of, trimmed};
use crate::text::{contains, trim};

verus! {

/// A username that cannot leave its directory.
pub open spec fn safe_name(username: Seq<char>) -> bool {
    username.len() > 0 && !contains(username, "/"@) && !contains(username, ".."@)
}

/// Where a user's avatar is looked for.
pub open spec fn icon_of(username: Seq<char>) -> Seq<char> {
    "/var/lib/AccountsService/icons/"@ + username
}

/// The file that [`avatar_path`] asks about. Path-traversal shaped usernames
/// have none.
pub fn avatar_candidate(username: &str) -> (r: Option<String>)
    ensures
        r is Some <==> safe_name(username@),
        r matches Some(p) ==> p@ == icon_of(username@),
{
    let v: Vec<char> = chars_of(username);
    let slash: Vec<char> = chars_of("/");
    let dots: Vec<char> = chars_of("..");
    if v.len() == 0 || has_part(v.as_slice(), slash.as_slice()) || has_part(
        v.as_slice(),
        dots.as_slice(),
    ) {
        return None;
    }
    let mut p: Vec<char> = chars_of("/var/lib/AccountsService/icons/");
    append_str(&mut p, username);
    Some(string_of(p.as_slice()))
}

/// AccountsService avatar convention: the file that holds a user's avatar,
/// where there is one. `is_file` says whether the candidate is a file.
pub fn avatar_path(username: &str, is_file: bool) -> (r: Option<String>)
    ensures
        r is Some <==> safe_name(username@) && is_file,
        r matches Some(p) ==> p@ == icon_of(username@),
{
    if is_file {
        avatar_candidate(username)
    } else {
        None
    }
}

/// Where a background image is looked for, in order.
pub open spec fn wallpaper_candidate(i: int) -> Seq<char> {
    if i == 0 {
        "/etc/abyss/background.png"@
    } else if i == 1 {
        "/etc/abyss/background.jpg"@
    } else {
        "/etc/abyss/background"@
    }
}

pub fn wallpaper_candidates() -> (r: [&'static str; 3])
    ensures
        forall|i: int| 0 <= i < 3 ==> (#[trigger] r@[i])@ == wallpaper_candidate(i),
{
    [
        "/etc/abyss/background.png",
        "/etc/abyss/background.jpg",
        "/etc/abyss/background",
    ]
}

/// Optional background image. First hit wins; `is_file` says which of the
/// candidates there are.
pub fn wallpaper_path(is_file: [bool; 3]) -> (r: Option<String>)
    ensures
        r is Some <==> is_file@[0] || is_file@[1] || is_file@[2],
        r matches Some(p) ==> p@ == wallpaper_candidate(
            if is_file@[0] {
                0
            } else if is_file@[1] {
                1
            } else {
                2
            },
        ),
{
    if is_file[0] {
        Some(copy_str("/etc/abyss/background.png"))
    } else if is_file[1] {
        Some(copy_str("/etc/abyss/background.jpg"))
    } else if is_file[2] {
        Some(copy_str("/etc/abyss/background"))
    } else {
        None
    }
}

/// What a state file says: its text without the white space around it, unless
/// nothing is left.
pub open spec fn remembered(content: Option<Seq<char>>) -> Option<Seq<char>> {
    match content {
        Some(s) => if trim(s).len() > 0 {
            Some(trim(s))
        } else {
            None
        },
        None => None,
    }
}

fn read_state(content: Option<&str>) -> (r: Option<String>)
    ensures
        match r {
            Some(s) => content is Some && remembered(Some(content->0@)) == Some(s@),
            None => content is None || remembered(Some(content->0@)) is None,
        },
{
    match content {
        Some(c) => {
            let v: Vec<char> = chars_of(c);
            let t: &[char] = trimmed(v.as_slice());
            if t.len() > 0 {
                Some(string_of(t))
            } else {
                None
            }
        },
        None => None,
    }
}

/// A state file to write.
pub struct StateFile {
    pub path: String,
    pub content: String,
}

/// The user who logged in last, by the contents of the state file.
pub fn last_user(content: Option<&str>) -> (r: Option<String>)
    ensures
        match r {
            Some(s) => content is Some && remembered(Some(content->0@)) == Some(s@),
            None => content is None || remembered(Some(content->0@)) is None,
        },
{
    read_state(content)
}

/// The state file that remembers a user.
pub fn save_last_user(username: &str) -> (f: StateFile)
    ensures
        f.path@ == "/var/lib/abyss/last-user"@,
        f.content@ == username@,
{
    StateFile { path: copy_str("/var/lib/abyss/last-user"), content: copy_str(username) }
}

/// Session *name* (not index: the detected list can reorder between boots),
/// by the contents of the state file.
pub fn last_session(content: Option<&str>) -> (r: Option<String>)
    ensures
        match r {
            Some(s) => content is Some && remembered(Some(content->0@)) == Some(s@),
            None => content is None || remembered(Some(content->0@)) is None,
        },
{
    read_state(content)
}

/// The state file that remembers a session.
pub fn save_last_session(name: &str) -> (f: StateFile)
    ensures
        f.path@ == "/var/lib/abyss/last-session"@,
        f.content@ == name@,
{
    StateFile { path: copy_str("/var/lib/abyss/last-session"), content: copy_str(name) }
}

/// What was saved is remembered, for a name with no white space at its ends.
pub proof fn law_saved_name_is_remembered(name: Seq<char>)
    requires
        name.len() > 0,
        !crate::text::white(name[0]),
        !crate::text::white(name[name.len() - 1]),
    ensures
        remembered(Some(name)) == Some(name),
{
    crate::text::lemma_trim_id(name);
}

/// A safe name has no slash in it and no two dots in a row, so that the file it
/// names lies in the one directory.
pub proof fn law_safe_names_stay_in_their_directory(username: Seq<char>, i: int)
    requires
        safe_name(username),
        0 <= i < username.len(),
    ensures
        username[i] != '/',
        i + 1 < username.len() ==> !(username[i] == '.' && username[i + 1] == '.'),
        icon_of(username).len() == 31 + username.len(),
        icon_of(username)[30] == '/',
        icon_of(username).skip(31) == username,
{
    reveal_strlit("/");
    reveal_strlit("..");
    reveal_strlit("/var/lib/AccountsService/icons/");
    if username[i] == '/' {
        assert(username.subrange(i, i + 1) =~= "/"@);
        assert(crate::text::occurs_at(username, "/"@, i));
    }
    if i + 1 < username.len() && username[i] == '.' && username[i + 1] == '.' {
        assert(username.subrange(i, i + 2) =~= ".."@);
        assert(crate::text::occurs_at(username, ".."@, i));
    }
    assert(icon_of(username).skip(31) =~= username);
}

/// A name without slashes and dots is safe.
pub proof fn law_plain_names_are_safe(username: Seq<char>)
    requires
        username.len() > 0,
        !username.contains('/'),
        !username.contains('.'),
    ensures
        safe_name(username),
{
    reveal_strlit("/");
    reveal_strlit("..");
    if contains(username, "/"@) {
        let at = choose|at: int| crate::text::occurs_at(username, "/"@, at);
        assert(username.subrange(at, at + 1)[0] == '/');
        assert(username.contains(username[at]));
    }
    if contains(username, ".."@) {
        let at = choose|at: int| crate::text::occurs_at(username, ".."@, at);
        assert(username.subrange(at, at + 2)[0] == '.');
        assert(username.contains(username[at]));
    }
}

} // verus!
