//! Where the program's files are.

use vstd::prelude::*;
use crate::text::{append_str, chars_of, copy_str, has_prefix, has_suffix, string_of};
use crate::text::{ends_with, starts_with};

verus! {

/// The path of `name` in `dir`; an absolute name stays as it is.
pub open spec fn path_join(dir: Seq<char>, name: Seq<char>) -> Seq<char> {
    if starts_with(name, seq!['/']) || dir.len() == 0 {
        name
    } else if ends_with(dir, seq!['/']) {
        dir + name
    } else {
        dir + seq!['/'] + name
    }
}

pub fn join_path(dir: &str, name: &str) -> (r: String)
    ensures
        r@ == path_join(dir@, name@),
{
    let mut d: Vec<char> = chars_of(dir);
    let n: Vec<char> = chars_of(name);
    let slash: [char; 1] = ['/'];
    assert(slash@ =~= seq!['/']);
    if has_prefix(n.as_slice(), &slash) || d.len() == 0 {
        return copy_str(name);
    }
    if !has_suffix(d.as_slice(), &slash) {
        d.push('/');
    }
    append_str(&mut d, name);
    assert(d@ =~= path_join(dir@, name@));
    string_of(d.as_slice())
}

/// The value of an optional variable.
pub open spec fn said(v: Option<&str>) -> Option<Seq<char>> {
    match v {
        Some(s) => Some(s@),
        None => None,
    }
}

/// The directory that a variable names; without it, one below the home
/// directory, or below the current one.
pub open spec fn base_dir(
    var: Option<Seq<char>>,
    home: Option<Seq<char>>,
    below: Seq<char>,
) -> Seq<char> {
    match var {
        Some(d) => d,
        None => path_join(
            match home {
                Some(h) => h,
                None => "."@,
            },
            below,
        ),
    }
}

fn base(var: Option<&str>, home: Option<&str>, below: &str) -> (r: String)
    ensures
        r@ == base_dir(said(var), said(home), below@),
{
    match var {
        Some(d) => copy_str(d),
        None => match home {
            Some(h) => join_path(h, below),
            None => join_path(".", below),
        },
    }
}

/// The debug log. It is kept over a reboot, which a temporary directory is
/// not.
pub fn log_path(state_home: Option<&str>, home: Option<&str>) -> (r: String)
    ensures
        r@ == path_join(
            path_join(base_dir(said(state_home), said(home), ".local/state"@), "veil"@),
            "veil.log"@,
        ),
{
    let dir: String = base(state_home, home, ".local/state");
    let veil: String = join_path(dir.as_str(), "veil");
    join_path(veil.as_str(), "veil.log")
}

/// The directory of the configuration.
pub open spec fn config_dir(config_home: Option<Seq<char>>, home: Option<Seq<char>>) -> Seq<char> {
    path_join(base_dir(config_home, home, ".config"@), "veil"@)
}

/// Where the configuration may be: the current directory first.
pub fn config_candidates(config_home: Option<&str>, home: Option<&str>) -> (r: [String; 2])
    ensures
        r@[0]@ == "config.lua"@,
        r@[1]@ == path_join(config_dir(said(config_home), said(home)), "config.lua"@),
{
    let dir: String = base(config_home, home, ".config");
    let veil: String = join_path(dir.as_str(), "veil");
    [copy_str("config.lua"), join_path(veil.as_str(), "config.lua")]
}

/// The configuration of the terminal front end.
pub fn default_config_path(home: Option<&str>) -> (r: String)
    ensures
        r@ == (match home {
            Some(h) => path_join(h@, ".config/veil-config.lua"@),
            None => "veil-config.lua"@,
        }),
{
    match home {
        Some(h) => join_path(h, ".config/veil-config.lua"),
        None => copy_str("veil-config.lua"),
    }
}

/// A relative name in a directory is the directory, one slash, and the name;
/// an absolute name stands by itself.
pub proof fn law_joined_paths(dir: Seq<char>, name: Seq<char>)
    ensures
        name.len() > 0 && name[0] == '/' ==> path_join(dir, name) == name,
        dir.len() > 0 && dir.last() != '/' && (name.len() == 0 || name[0] != '/') ==> path_join(
            dir,
            name,
        ) == dir + seq!['/'] + name,
        name.len() == 0 || name[0] != '/' ==> path_join(dir + seq!['/'], name) == dir + seq!['/']
            + name,
{
    if name.len() > 0 && name[0] == '/' {
        assert(name.subrange(0, 1) =~= seq!['/']);
    }
    if starts_with(name, seq!['/']) {
        assert(name.subrange(0, 1)[0] == '/');
    }
    if dir.len() > 0 && ends_with(dir, seq!['/']) {
        assert(dir.subrange(dir.len() - 1, dir.len() as int)[0] == '/');
        assert(dir.last() == '/');
    }
    let d = dir + seq!['/'];
    assert(d.subrange(d.len() - 1, d.len() as int) =~= seq!['/']);
}

/// The variable decides; the home directory only counts without it, and the
/// current directory only without both.
pub proof fn law_variables_come_before_home(
    var: Seq<char>,
    home: Option<Seq<char>>,
    h: Seq<char>,
    below: Seq<char>,
)
    requires
        h.len() > 0,
        h.last() != '/',
        below.len() > 0,
        below[0] != '/',
    ensures
        base_dir(Some(var), home, below) == var,
        base_dir(None, Some(h), below) == h + seq!['/'] + below,
        base_dir(None, None, below) == "./"@ + below,
{
    law_joined_paths(h, below);
    law_joined_paths("."@, below);
    reveal_strlit(".");
    reveal_strlit("./");
    assert("."@ + seq!['/'] =~= "./"@);
}

} // verus!
