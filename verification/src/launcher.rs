//! The app launcher: a modal that can start a new client at any time, even
//! with no window open.
//!
//! Two match sources: `.desktop` entries, filtered by name, or, where nothing
//! matches, the typed text itself as a shell command.

use vstd::prelude::*;
use crate::text::{
    chars_of, copy_str, has_part, has_prefix, is_str, joined, lines_of, lower_all,
    same, string_of, trimmed, words_of,
};
use crate::text::{contains, join, lines, lowered, starts_with, trim, views, words};
use crate::text::law_words_are_parted_by_white_space;
use vstd::slice::slice_subrange;

verus! {

/// `String::pop` takes the last character off, where there is one.
pub assume_specification[ String::pop ](s: &mut String) -> (r: Option<char>)
    ensures
        old(s)@.len() == 0 ==> r is None && final(s)@ == old(s)@,
        old(s)@.len() > 0 ==> r == Some(old(s)@.last()) && final(s)@ == old(s)@.drop_last(),
;

/// One launchable application.
pub struct DesktopEntry {
    pub name: String,
    pub command: String,
}

/// What a `DesktopEntry` says.
#[verifier::ext_equal]
pub struct Entry {
    pub name: Seq<char>,
    pub command: Seq<char>,
}

impl View for DesktopEntry {
    type V = Entry;

    open spec fn view(&self) -> Entry {
        Entry { name: self.name@, command: self.command@ }
    }
}

impl DesktopEntry {
    pub fn copy(&self) -> (r: Self)
        ensures
            r@ == self@,
    {
        DesktopEntry { name: copy_str(self.name.as_str()), command: copy_str(self.command.as_str()) }
    }
}

/// What a list of entries says.
pub open spec fn entries_of(v: Seq<DesktopEntry>) -> Seq<Entry> {
    Seq::new(v.len(), |i: int| v[i]@)
}

// ── Desktop files ────────────────────────────────────────────────────────

/// A field code such as `%f`: a percent sign and one ASCII character.
pub open spec fn field_code(word: Seq<char>) -> bool {
    word.len() == 2 && word[0] == '%' && (word[1] as u32) < 0x80
}

pub open spec fn without_codes(ws: Seq<Seq<char>>) -> Seq<Seq<char>>
    decreases ws.len(),
{
    if ws.len() == 0 {
        Seq::empty()
    } else if field_code(ws.last()) {
        without_codes(ws.drop_last())
    } else {
        without_codes(ws.drop_last()).push(ws.last())
    }
}

/// The words of a command line without the field codes, one space apart.
pub open spec fn cleaned_exec(command: Seq<char>) -> Seq<char> {
    join(without_codes(words(command)), seq![' '])
}

/// Strip desktop-entry field codes (`%f`, `%F`, `%u`, `%U`, `%i`, `%c`, `%k`,
/// `%%`): no files or icons are passed through, the app is just launched.
pub fn clean_exec(command: &str) -> (r: String)
    ensures
        r@ == cleaned_exec(command@),
{
    let v: Vec<char> = chars_of(command);
    let ws: Vec<&[char]> = words_of(v.as_slice());
    let mut kept: Vec<&[char]> = Vec::new();
    let ghost all = views(ws@);
    assert(all.take(0) =~= Seq::<Seq<char>>::empty());
    for i in 0..ws.len()
        invariant
            all == views(ws@),
            views(kept@) =~= without_codes(all.take(i as int)),
    {
        let w: &[char] = ws[i];
        let ghost before = kept@;
        if !(w.len() == 2 && w[0] == '%' && (w[1] as u32) < 0x80) {
            kept.push(w);
            assert(views(kept@) =~= views(before).push(w@));
        }
        assert(all.take(i + 1).drop_last() =~= all.take(i as int));
        assert(all.take(i + 1).last() == w@);
    }
    assert(all.take(ws.len() as int) =~= all);
    let sep: [char; 1] = [' '];
    assert(sep@ =~= seq![' ']);
    let j: Vec<char> = joined(&kept, &sep);
    string_of(j.as_slice())
}

/// What has been read of a desktop file.
#[verifier::ext_equal]
pub struct DesktopScan {
    pub name: Option<Seq<char>>,
    pub command: Option<Seq<char>>,
    pub skip: bool,
    pub in_main_section: bool,
}

/// One more line of a desktop file. Only the lines of the main section count;
/// the first name and the last command stay.
pub open spec fn scan_line(s: DesktopScan, line: Seq<char>) -> DesktopScan {
    let l = trim(line);
    if starts_with(l, seq!['[']) {
        DesktopScan { in_main_section: l == "[Desktop Entry]"@, ..s }
    } else if !s.in_main_section {
        s
    } else if starts_with(l, "Name="@) {
        if s.name is None {
            DesktopScan { name: Some(l.skip(5)), ..s }
        } else {
            s
        }
    } else if starts_with(l, "Exec="@) {
        DesktopScan { command: Some(l.skip(5)), ..s }
    } else if l == "NoDisplay=true"@ || l == "Hidden=true"@ {
        DesktopScan { skip: true, ..s }
    } else {
        s
    }
}

pub open spec fn scan_lines(ls: Seq<Seq<char>>) -> DesktopScan
    decreases ls.len(),
{
    if ls.len() == 0 {
        DesktopScan { name: None, command: None, skip: false, in_main_section: false }
    } else {
        scan_line(scan_lines(ls.drop_last()), ls.last())
    }
}

/// The entry that a desktop file describes: one with a name and a command
/// that is not empty, and that is not hidden.
pub open spec fn desktop_entry(content: Seq<char>) -> Option<Entry> {
    let s = scan_lines(lines(content));
    if s.skip || s.name is None || s.command is None || cleaned_exec(s.command->0).len() == 0 {
        None
    } else {
        Some(Entry { name: s.name->0, command: cleaned_exec(s.command->0) })
    }
}

spec fn text_of(s: Option<String>) -> Option<Seq<char>> {
    match s {
        Some(t) => Some(t@),
        None => None,
    }
}

/// Reads one desktop file.
pub fn parse_desktop_file(content: &str) -> (r: Option<DesktopEntry>)
    ensures
        match r {
            Some(e) => desktop_entry(content@) == Some(e@),
            None => desktop_entry(content@) is None,
        },
{
    let v: Vec<char> = chars_of(content);
    let ls: Vec<&[char]> = lines_of(v.as_slice());
    let mut name: Option<String> = None;
    let mut command: Option<String> = None;
    let mut skip: bool = false;
    let mut in_main_section: bool = false;
    let ghost all = views(ls@);
    assert(all.take(0) =~= Seq::<Seq<char>>::empty());
    let name_key: Vec<char> = chars_of("Name=");
    let exec_key: Vec<char> = chars_of("Exec=");
    proof {
        reveal_strlit("Name=");
        reveal_strlit("Exec=");
    }
    for i in 0..ls.len()
        invariant
            all == views(ls@),
            name_key@ == "Name="@,
            exec_key@ == "Exec="@,
            name_key@.len() == 5,
            exec_key@.len() == 5,
            scan_lines(all.take(i as int)) == (DesktopScan {
                name: text_of(name),
                command: text_of(command),
                skip,
                in_main_section,
            }),
    {
        assert(all.take(i + 1).drop_last() =~= all.take(i as int));
        let line: &[char] = trimmed(ls[i]);
        let bracket: [char; 1] = ['['];
        assert(bracket@ =~= seq!['[']);
        if has_prefix(line, &bracket) {
            in_main_section = is_str(line, "[Desktop Entry]");
        } else if in_main_section {
            if has_prefix(line, name_key.as_slice()) {
                if name.is_none() {
                    let rest: &[char] = slice_subrange(line, 5, line.len());
                    assert(rest@ =~= line@.skip(5));
                    name = Some(string_of(rest));
                }
            } else if has_prefix(line, exec_key.as_slice()) {
                let rest: &[char] = slice_subrange(line, 5, line.len());
                assert(rest@ =~= line@.skip(5));
                command = Some(string_of(rest));
            } else if is_str(line, "NoDisplay=true") || is_str(line, "Hidden=true") {
                skip = true;
            }
        }
    }
    assert(all.take(ls.len() as int) =~= all);
    if skip {
        return None;
    }
    match (name, command) {
        (Some(n), Some(x)) => {
            let cleaned: String = clean_exec(x.as_str());
            let c: Vec<char> = chars_of(cleaned.as_str());
            if c.len() == 0 {
                None
            } else {
                Some(DesktopEntry { name: n, command: cleaned })
            }
        },
        _ => None,
    }
}

/// A file name with the extension `desktop`.
pub open spec fn desktop_name(name: Seq<char>) -> bool {
    crate::text::ends_with(name, ".desktop"@) && name.len() > 8
}

/// Whether a directory entry is a desktop file, by its name.
pub fn is_desktop_file(name: &str) -> (r: bool)
    ensures
        r == desktop_name(name@),
{
    let v: Vec<char> = chars_of(name);
    let ext: Vec<char> = chars_of(".desktop");
    crate::text::has_suffix(v.as_slice(), ext.as_slice()) && v.len() > 8
}

// ── Order ────────────────────────────────────────────────────────────────

/// `a` comes before `b`, by the codes of their characters.
pub open spec fn before(a: Seq<char>, b: Seq<char>) -> bool
    decreases a.len(),
{
    if b.len() == 0 {
        false
    } else if a.len() == 0 {
        true
    } else if a[0] != b[0] {
        a[0] < b[0]
    } else {
        before(a.skip(1), b.skip(1))
    }
}

/// The order is strict and total.
pub proof fn lemma_before_order(a: Seq<char>, b: Seq<char>)
    ensures
        !before(a, a),
        !(before(a, b) && before(b, a)),
        before(a, b) || before(b, a) || a == b,
    decreases a.len(),
{
    if a.len() > 0 && b.len() > 0 {
        lemma_before_order(a.skip(1), b.skip(1));
        if a[0] == b[0] && a.skip(1) == b.skip(1) {
            assert(a =~= seq![a[0]] + a.skip(1));
            assert(b =~= seq![b[0]] + b.skip(1));
        }
    } else if a.len() > 0 {
        lemma_before_order(a.skip(1), a.skip(1));
    } else if b.len() == 0 {
        assert(a =~= b);
    }
}

pub proof fn lemma_before_transitive(a: Seq<char>, b: Seq<char>, c: Seq<char>)
    requires
        !before(b, a),
        !before(c, b),
    ensures
        !before(c, a),
    decreases a.len(),
{
    if a.len() > 0 && b.len() > 0 && c.len() > 0 && a[0] == b[0] && b[0] == c[0] {
        lemma_before_transitive(a.skip(1), b.skip(1), c.skip(1));
    }
}

pub fn comes_before(a: &[char], b: &[char]) -> (r: bool)
    ensures
        r == before(a@, b@),
{
    let mut i: usize = 0;
    assert(a@.skip(0) =~= a@);
    assert(b@.skip(0) =~= b@);
    while i < a.len() && i < b.len()
        invariant
            i <= a.len(),
            i <= b.len(),
            before(a@, b@) == before(a@.skip(i as int), b@.skip(i as int)),
        decreases a.len() - i,
    {
        if a[i] != b[i] {
            return a[i] < b[i];
        }
        assert(a@.skip(i as int).skip(1) =~= a@.skip(i + 1));
        assert(b@.skip(i as int).skip(1) =~= b@.skip(i + 1));
        i = i + 1;
    }
    i < b.len()
}

pub open spec fn sort_key(e: Entry) -> Seq<char> {
    lowered(e.name)
}

/// `x` put behind every entry of `s` that it does not come before.
pub open spec fn placed(s: Seq<Entry>, x: Entry) -> Seq<Entry>
    decreases s.len(),
{
    if s.len() > 0 && before(sort_key(x), sort_key(s.last())) {
        placed(s.drop_last(), x).push(s.last())
    } else {
        s.push(x)
    }
}

/// The entries by name, letter case aside; entries with equal keys keep their
/// order.
pub open spec fn by_name(s: Seq<Entry>) -> Seq<Entry>
    decreases s.len(),
{
    if s.len() == 0 {
        Seq::empty()
    } else {
        placed(by_name(s.drop_last()), s.last())
    }
}

/// Without the entries that have the name of the entry before them.
pub open spec fn without_repeats(s: Seq<Entry>) -> Seq<Entry>
    decreases s.len(),
{
    if s.len() == 0 {
        Seq::empty()
    } else if s.len() > 1 && s[s.len() - 2].name == s.last().name {
        without_repeats(s.drop_last())
    } else {
        without_repeats(s.drop_last()).push(s.last())
    }
}

/// The entries that a list of desktop files describes.
pub open spec fn described(files: Seq<Seq<char>>) -> Seq<Entry>
    decreases files.len(),
{
    if files.len() == 0 {
        Seq::empty()
    } else {
        match desktop_entry(files.last()) {
            Some(e) => described(files.drop_last()).push(e),
            None => described(files.drop_last()),
        }
    }
}

/// No entry comes after one that should be behind it.
pub open spec fn ordered(s: Seq<Entry>) -> bool {
    forall|i: int, j: int|
        0 <= i < j < s.len() ==> !before(sort_key(#[trigger] s[j]), sort_key(#[trigger] s[i]))
}

proof fn lemma_placed(s: Seq<Entry>, x: Entry)
    requires
        ordered(s),
    ensures
        ordered(placed(s, x)),
        placed(s, x).to_multiset() == s.to_multiset().insert(x),
        placed(s, x).len() == s.len() + 1,
    decreases s.len(),
{
    broadcast use vstd::seq_lib::group_to_multiset_ensures;

    if s.len() > 0 && before(sort_key(x), sort_key(s.last())) {
        let head = s.drop_last();
        lemma_placed(head, x);
        let p = placed(head, x);
        assert(s =~= head.push(s.last()));
        assert(placed(s, x) == p.push(s.last()));
        assert(p.push(s.last()).to_multiset() =~= s.to_multiset().insert(x));
        assert forall|i: int, j: int| 0 <= i < j < p.push(s.last()).len() implies !before(
            sort_key(#[trigger] p.push(s.last())[j]),
            sort_key(#[trigger] p.push(s.last())[i]),
        ) by {
            let q = p.push(s.last());
            if j == p.len() {
                let m = p.to_multiset();
                assert(p.contains(p[i]));
                assert(m.contains(p[i]));
                if p[i] == x {
                    lemma_before_order(sort_key(x), sort_key(s.last()));
                } else {
                    assert(head.to_multiset().contains(p[i]));
                    assert(head.contains(p[i]));
                    let k = choose|k: int| 0 <= k < head.len() && head[k] == p[i];
                    assert(s[k] == p[i]);
                    assert(!before(sort_key(s[s.len() - 1]), sort_key(s[k])));
                }
            } else {
                assert(q[i] == p[i] && q[j] == p[j]);
            }
        }
    } else {
        let q = s.push(x);
        assert forall|i: int, j: int| 0 <= i < j < q.len() implies !before(
            sort_key(#[trigger] q[j]),
            sort_key(#[trigger] q[i]),
        ) by {
            if j == s.len() {
                if i < s.len() - 1 {
                    assert(!before(sort_key(s[s.len() - 1]), sort_key(s[i])));
                    lemma_before_transitive(sort_key(s[i]), sort_key(s.last()), sort_key(x));
                }
            } else {
                assert(q[i] == s[i] && q[j] == s[j]);
            }
        }
        assert(q.to_multiset() =~= s.to_multiset().insert(x));
    }
}

/// The sorted list is ordered and holds exactly the same entries.
pub proof fn law_by_name_sorts(s: Seq<Entry>)
    ensures
        ordered(by_name(s)),
        by_name(s).to_multiset() == s.to_multiset(),
        by_name(s).len() == s.len(),
    decreases s.len(),
{
    broadcast use vstd::seq_lib::group_to_multiset_ensures;

    if s.len() > 0 {
        law_by_name_sorts(s.drop_last());
        lemma_placed(by_name(s.drop_last()), s.last());
        assert(s =~= s.drop_last().push(s.last()));
        assert(by_name(s).to_multiset() =~= s.to_multiset());
    } else {
        assert(by_name(s) =~= s);
    }
}

/// Neighbours in a list without repeats have different names.
pub proof fn law_no_neighbours_share_a_name(s: Seq<Entry>)
    ensures
        forall|i: int|
            0 < i < without_repeats(s).len() ==> (#[trigger] without_repeats(s)[i]).name
                != without_repeats(s)[i - 1].name,
        s.len() > 0 ==> without_repeats(s).len() > 0 && without_repeats(s).last().name
            == s.last().name,
    decreases s.len(),
{
    if s.len() > 0 {
        let d = s.drop_last();
        law_no_neighbours_share_a_name(d);
        let r = without_repeats(d);
        assert forall|i: int| 0 < i < without_repeats(s).len() implies (
        #[trigger] without_repeats(s)[i]).name != without_repeats(s)[i - 1].name by {
            if i < r.len() {
                assert(r[i].name != r[i - 1].name);
            } else {
                assert(r.len() == i);
                assert(d.len() > 0);
            }
        }
    }
}

fn position_for(v: &Vec<DesktopEntry>, key: &[char]) -> (at: usize)
    ensures
        at <= v.len(),
        at < v.len() ==> before(key@, sort_key(v@[at as int]@)),
        forall|j: int| at <= j < v.len() ==> before(key@, sort_key(#[trigger] v@[j]@)),
        at > 0 ==> !before(key@, sort_key(v@[at - 1]@)),
{
    let mut at: usize = v.len();
    while at > 0
        invariant
            at <= v.len(),
            forall|j: int| at <= j < v.len() ==> before(key@, sort_key(#[trigger] v@[j]@)),
        decreases at,
    {
        let n: Vec<char> = chars_of(v[at - 1].name.as_str());
        let k: Vec<char> = lower_all(n.as_slice());
        if !comes_before(key, k.as_slice()) {
            return at;
        }
        at = at - 1;
    }
    at
}

proof fn lemma_placed_at(s: Seq<Entry>, x: Entry, at: int)
    requires
        0 <= at <= s.len(),
        forall|j: int| at <= j < s.len() ==> before(sort_key(x), sort_key(#[trigger] s[j])),
        at > 0 ==> !before(sort_key(x), sort_key(s[at - 1])),
    ensures
        placed(s, x) == s.insert(at, x),
    decreases s.len(),
{
    if at < s.len() {
        lemma_placed_at(s.drop_last(), x, at);
        assert(s.drop_last().insert(at, x).push(s.last()) =~= s.insert(at, x));
    } else {
        assert(s.push(x) =~= s.insert(at, x));
    }
}

/// The launchable applications: what the desktop files describe, in scan
/// order, sorted by name without repeats. Not full XDG compliance, just enough
/// to list launchable apps.
pub fn scan_desktop_entries(files: &Vec<String>) -> (r: Vec<DesktopEntry>)
    ensures
        entries_of(r@) == without_repeats(
            by_name(described(Seq::new(files@.len(), |i: int| files@[i]@))),
        ),
{
    let ghost texts = Seq::new(files@.len(), |i: int| files@[i]@);
    let mut sorted: Vec<DesktopEntry> = Vec::new();
    assert(entries_of(sorted@) =~= by_name(described(texts.take(0)))) by {
        assert(texts.take(0) =~= Seq::<Seq<char>>::empty());
    }
    for i in 0..files.len()
        invariant
            texts == Seq::new(files@.len(), |i: int| files@[i]@),
            entries_of(sorted@) == by_name(described(texts.take(i as int))),
    {
        assert(texts.take(i + 1).drop_last() =~= texts.take(i as int));
        if let Some(e) = parse_desktop_file(files[i].as_str()) {
            let n: Vec<char> = chars_of(e.name.as_str());
            let key: Vec<char> = lower_all(n.as_slice());
            let at: usize = position_for(&sorted, key.as_slice());
            let ghost old_sorted = sorted@;
            let ghost x = e@;
            proof {
                let s = entries_of(old_sorted);
                assert forall|j: int| at <= j < s.len() implies before(
                    sort_key(x),
                    sort_key(#[trigger] s[j]),
                ) by {
                    assert(s[j] == old_sorted[j]@);
                }
                lemma_placed_at(s, x, at as int);
            }
            sorted.insert(at, e);
            assert(entries_of(sorted@) =~= entries_of(old_sorted).insert(at as int, x));
            let ghost d = described(texts.take(i as int));
            assert(described(texts.take(i + 1)) == d.push(x));
            assert(d.push(x).drop_last() =~= d);
        }
    }
    assert(texts.take(files.len() as int) =~= texts);
    let mut out: Vec<DesktopEntry> = Vec::new();
    let ghost all = entries_of(sorted@);
    assert(all.take(0) =~= Seq::<Entry>::empty());
    for i in 0..sorted.len()
        invariant
            all == entries_of(sorted@),
            entries_of(out@) =~= without_repeats(all.take(i as int)),
    {
        assert(all.take(i + 1).drop_last() =~= all.take(i as int));
        assert(all.take(i + 1).last() == all[i as int]);
        let repeat: bool = i > 0 && sorted[i - 1].name == sorted[i].name;
        assert(i > 0 ==> all.take(i + 1)[i - 1] == sorted@[i - 1]@);
        if !repeat {
            let ghost prev = out@;
            out.push(sorted[i].copy());
            assert(entries_of(out@) =~= entries_of(prev).push(all[i as int]));
        }
    }
    assert(all.take(sorted.len() as int) =~= all);
    out
}

// ── The modal ────────────────────────────────────────────────────────────

/// The open launcher: what has been typed and which match is highlighted.
pub struct Launcher {
    pub query: String,
    pub selected: usize,
    pub entries: Vec<DesktopEntry>,
}

/// The entry's name contains the query, letter case aside.
pub open spec fn matches_query(e: Entry, query: Seq<char>) -> bool {
    contains(lowered(e.name), lowered(query))
}

/// The entries that match, in order.
pub open spec fn matching(s: Seq<Entry>, query: Seq<char>) -> Seq<Entry>
    decreases s.len(),
{
    if s.len() == 0 {
        Seq::empty()
    } else if matches_query(s.last(), query) {
        matching(s.drop_last(), query).push(s.last())
    } else {
        matching(s.drop_last(), query)
    }
}

/// An empty query matches everything.
pub proof fn law_empty_query_matches_all(s: Seq<Entry>)
    ensures
        matching(s, Seq::empty()) == s,
    decreases s.len(),
{
    if s.len() > 0 {
        law_empty_query_matches_all(s.drop_last());
        let q = lowered(Seq::<char>::empty());
        let n = lowered(s.last().name);
        assert(crate::text::occurs_at(n, q, 0)) by {
            assert(n.subrange(0, 0) =~= q);
        }
        assert(s.drop_last().push(s.last()) =~= s);
    } else {
        assert(matching(s, Seq::empty()) =~= s);
    }
}

/// What a list of entry references says.
pub open spec fn refs_of(v: Seq<&DesktopEntry>) -> Seq<Entry> {
    Seq::new(v.len(), |i: int| v[i]@)
}

/// What Enter runs: the highlighted match, or the typed text where nothing
/// matches and something but white space is typed.
pub open spec fn chosen_command(
    entries: Seq<Entry>,
    query: Seq<char>,
    selected: int,
) -> Option<Seq<char>> {
    let m = matching(entries, query);
    if m.len() > 0 {
        Some(
            m[if selected < m.len() {
                selected
            } else {
                m.len() - 1
            }].command,
        )
    } else if trim(query).len() > 0 {
        Some(query)
    } else {
        None
    }
}

impl Launcher {
    /// An open launcher over the given desktop files, with nothing typed.
    pub fn new(files: &Vec<String>) -> (l: Self)
        ensures
            l.query@ == Seq::<char>::empty(),
            l.selected == 0,
            entries_of(l.entries@) == without_repeats(
                by_name(described(Seq::new(files@.len(), |i: int| files@[i]@))),
            ),
    {
        Self { query: String::new(), selected: 0, entries: scan_desktop_entries(files) }
    }

    /// Entries whose name contains the query (case-insensitive). Empty query
    /// returns everything, alphabetical.
    pub fn matches(&self) -> (r: Vec<&DesktopEntry>)
        ensures
            refs_of(r@) == matching(entries_of(self.entries@), self.query@),
    {
        let q: Vec<char> = chars_of(self.query.as_str());
        let ql: Vec<char> = lower_all(q.as_slice());
        let mut out: Vec<&DesktopEntry> = Vec::new();
        let ghost all = entries_of(self.entries@);
        assert(all.take(0) =~= Seq::<Entry>::empty());
        for i in 0..self.entries.len()
            invariant
                all == entries_of(self.entries@),
                ql@ == lowered(self.query@),
                refs_of(out@) =~= matching(all.take(i as int), self.query@),
        {
            let e: &DesktopEntry = &self.entries[i];
            let n: Vec<char> = chars_of(e.name.as_str());
            let nl: Vec<char> = lower_all(n.as_slice());
            assert(all.take(i + 1).drop_last() =~= all.take(i as int));
            assert(all.take(i + 1).last() == e@);
            if has_part(nl.as_slice(), ql.as_slice()) {
                let ghost prev = out@;
                out.push(e);
                assert(refs_of(out@) =~= refs_of(prev).push(e@));
            }
        }
        assert(all.take(self.entries.len() as int) =~= all);
        out
    }

    /// What Enter runs, as a shell command.
    pub fn command(&self) -> (r: Option<String>)
        ensures
            match r {
                Some(c) => chosen_command(
                    entries_of(self.entries@),
                    self.query@,
                    self.selected as int,
                ) == Some(c@),
                None => chosen_command(
                    entries_of(self.entries@),
                    self.query@,
                    self.selected as int,
                ) is None,
            },
    {
        let m: Vec<&DesktopEntry> = self.matches();
        assert(refs_of(m@).len() == m.len());
        if m.len() > 0 {
            let at: usize = if self.selected < m.len() {
                self.selected
            } else {
                m.len() - 1
            };
            assert(refs_of(m@)[at as int] == m@[at as int]@);
            Some(copy_str(m[at].command.as_str()))
        } else {
            let q: Vec<char> = chars_of(self.query.as_str());
            let t: &[char] = trimmed(q.as_slice());
            if t.len() > 0 {
                Some(copy_str(self.query.as_str()))
            } else {
                None
            }
        }
    }
}

// ── What the launcher lists and runs ─────────────────────────────────────

/// The listed entries are exactly those that match, and a list of two parts is
/// matched part by part, so that the order stays.
pub proof fn law_matching_keeps_the_matches(a: Seq<Entry>, b: Seq<Entry>, query: Seq<char>)
    ensures
        matching(a + b, query) == matching(a, query) + matching(b, query),
        forall|e: Entry| #[trigger]
            matching(b, query).contains(e) <==> b.contains(e) && matches_query(e, query),
    decreases b.len(),
{
    if b.len() == 0 {
        assert(a + b =~= a);
        assert(matching(a, query) + matching(b, query) =~= matching(a, query));
    } else {
        let d = b.drop_last();
        law_matching_keeps_the_matches(a, d, query);
        assert((a + b).drop_last() =~= a + d);
        assert((a + b).last() == b.last());
        assert(matching(a + b, query) =~= matching(a, query) + matching(b, query));
        let m = matching(d, query);
        let all = matching(b, query);
        assert forall|e: Entry| #[trigger] all.contains(e) <==> b.contains(e) && matches_query(
            e,
            query,
        ) by {
            if all.contains(e) {
                let k = choose|k: int| 0 <= k < all.len() && all[k] == e;
                if k < m.len() {
                    assert(m[k] == e);
                    assert(m.contains(e));
                    let j = choose|j: int| 0 <= j < d.len() && d[j] == e;
                    assert(b[j] == e);
                } else {
                    assert(b[b.len() - 1] == e);
                }
            }
            if b.contains(e) && matches_query(e, query) {
                let k = choose|k: int| 0 <= k < b.len() && b[k] == e;
                if k < d.len() {
                    assert(d[k] == e);
                    assert(m.contains(e));
                    let j = choose|j: int| 0 <= j < m.len() && m[j] == e;
                    assert(all[j] == e);
                } else {
                    assert(all[all.len() - 1] == e);
                }
            }
        }
    }
}

/// Every part of a name finds it, whatever the case of its letters, and what
/// is longer than the name does not.
pub proof fn law_parts_of_a_name_match(e: Entry, from: int, to: int, query: Seq<char>)
    requires
        0 <= from <= to <= e.name.len(),
    ensures
        lowered(query) == lowered(e.name.subrange(from, to)) ==> matches_query(e, query),
        query.len() > e.name.len() ==> !matches_query(e, query),
        matches_query(e, lowered(query)) == matches_query(e, query),
        matches_query(Entry { name: lowered(e.name), ..e }, query) == matches_query(e, query),
{
    let n = lowered(e.name);
    let p = lowered(e.name.subrange(from, to));
    assert(n.subrange(from, to) =~= p);
    if lowered(query) == p {
        assert(crate::text::occurs_at(n, lowered(query), from));
    }
    assert(lowered(lowered(query)) =~= lowered(query));
    assert(lowered(n) =~= n);
}

/// What runs is a listed entry's command where any is listed, the one that is
/// selected; otherwise it is the text as typed, and nothing for a blank one.
pub proof fn law_enter_runs_the_selection(entries: Seq<Entry>, query: Seq<char>, selected: int)
    requires
        0 <= selected,
    ensures
        ({
            let m = matching(entries, query);
            let c = chosen_command(entries, query, selected);
            &&& selected < m.len() ==> c == Some(m[selected].command)
            &&& 0 < m.len() <= selected ==> c == Some(m.last().command)
            &&& m.len() == 0 && (exists|k: int|
                0 <= k < query.len() && !crate::text::white(#[trigger] query[k])) ==> c == Some(
                query,
            )
            &&& m.len() == 0 && (forall|k: int|
                0 <= k < query.len() ==> crate::text::white(#[trigger] query[k])) ==> c is None
        }),
{
    crate::text::law_trim_takes_white_space(query);
    let t = trim(query);
    let (i, j) = choose|i: int, j: int|
        #![trigger query.subrange(i, j)]
        {
            &&& 0 <= i <= j <= query.len()
            &&& trim(query) == query.subrange(i, j)
            &&& forall|k: int|
                0 <= k < i || j <= k < query.len() ==> crate::text::white(#[trigger] query[k])
        };
    if t.len() > 0 {
        assert(t[0] == query[i]);
    } else {
        assert(i == j);
    }
}

proof fn lemma_without_codes_parts(a: Seq<Seq<char>>, b: Seq<Seq<char>>)
    ensures
        without_codes(a + b) == without_codes(a) + without_codes(b),
    decreases b.len(),
{
    if b.len() == 0 {
        assert(a + b =~= a);
        assert(without_codes(a) + without_codes(b) =~= without_codes(a));
    } else {
        lemma_without_codes_parts(a, b.drop_last());
        assert((a + b).drop_last() =~= a + b.drop_last());
        assert((a + b).last() == b.last());
        assert(without_codes(a + b) =~= without_codes(a) + without_codes(b));
    }
}

/// A field code between two parts of a command line leaves no trace, and white
/// space at the ends does not matter.
pub proof fn law_field_codes_are_dropped(a: Seq<char>, x: char, b: Seq<char>)
    requires
        (x as u32) < 0x80,
        !crate::text::white(x),
    ensures
        cleaned_exec(a + seq![' ', '%', x, ' '] + b) == cleaned_exec(a + seq![' '] + b),
        cleaned_exec(seq![' '] + a) == cleaned_exec(a),
        cleaned_exec(a + seq![' ']) == cleaned_exec(a),
{
    let code = seq!['%', x];
    let empty = Seq::<char>::empty();
    law_words_are_parted_by_white_space(code, ' ', b);
    law_words_are_parted_by_white_space(a, ' ', code + seq![' '] + b);
    assert(a + seq![' '] + (code + seq![' '] + b) =~= a + seq![' ', '%', x, ' '] + b);
    law_words_are_parted_by_white_space(a, ' ', b);
    lemma_without_codes_parts(words(a), words(code) + words(b));
    lemma_without_codes_parts(words(code), words(b));
    lemma_without_codes_parts(words(a), words(b));
    assert(words(code) == seq![code]);
    assert(seq![code].drop_last() =~= Seq::<Seq<char>>::empty());
    assert(seq![code].last() == code);
    assert(without_codes(Seq::<Seq<char>>::empty()) =~= Seq::<Seq<char>>::empty());
    assert(without_codes(seq![code]) =~= Seq::<Seq<char>>::empty());
    assert(without_codes(words(code)) + without_codes(words(b)) =~= without_codes(words(b)));
    law_words_are_parted_by_white_space(empty, ' ', a);
    assert(empty + seq![' '] + a =~= seq![' '] + a);
    assert(words(empty) + words(a) =~= words(a));
    law_words_are_parted_by_white_space(a, ' ', empty);
    assert(a + seq![' '] + empty =~= a + seq![' ']);
    assert(words(a) + words(empty) =~= words(a));
}

/// Words that are no field codes all stay, in order and one space apart.
pub proof fn law_other_words_stay(command: Seq<char>)
    requires
        !command.contains('%'),
    ensures
        cleaned_exec(command) == join(words(command), seq![' ']),
{
    lemma_words_hold_only(command, '%');
    lemma_no_codes(words(command));
}

proof fn lemma_words_hold_only(s: Seq<char>, c: char)
    requires
        !s.contains(c),
    ensures
        forall|i: int| 0 <= i < words(s).len() ==> !(#[trigger] words(s)[i]).contains(c),
    decreases s.len(),
{
    if s.len() > 0 {
        if crate::text::white(s[0]) {
            assert forall|k: int| 0 <= k < s.skip(1).len() implies s.skip(1)[k] != c by {
                assert(s.contains(s[k + 1]));
            }
            lemma_words_hold_only(s.skip(1), c);
            assert(words(s) == words(s.skip(1)));
        } else {
            let n = crate::text::word_len(s);
            if 0 < n <= s.len() {
                let rest = s.skip(n);
                assert forall|k: int| 0 <= k < rest.len() implies rest[k] != c by {
                    assert(s.contains(s[k + n]));
                }
                lemma_words_hold_only(rest, c);
                assert(words(s) == seq![s.take(n)] + words(rest));
                assert forall|i: int| 0 <= i < words(s).len() implies !(
                #[trigger] words(s)[i]).contains(c) by {
                    if i == 0 {
                        assert forall|k: int| 0 <= k < s.take(n).len() implies s.take(n)[k]
                            != c by {
                            assert(s.contains(s[k]));
                        }
                    } else {
                        assert(words(s)[i] == words(rest)[i - 1]);
                    }
                }
            } else {
                assert(words(s).len() == 0);
            }
        }
    } else {
        assert(words(s).len() == 0);
    }
}

proof fn lemma_no_codes(ws: Seq<Seq<char>>)
    requires
        forall|i: int| 0 <= i < ws.len() ==> !(#[trigger] ws[i]).contains('%'),
    ensures
        without_codes(ws) == ws,
    decreases ws.len(),
{
    if ws.len() > 0 {
        let d = ws.drop_last();
        assert forall|i: int| 0 <= i < d.len() implies !(#[trigger] d[i]).contains('%') by {
            assert(d[i] == ws[i]);
        }
        lemma_no_codes(d);
        let l = ws[ws.len() - 1];
        if field_code(l) {
            assert(l.contains(l[0]));
        }
        assert(d.push(ws.last()) =~= ws);
    } else {
        assert(without_codes(ws) =~= ws);
    }
}

/// Of several names in the main section the first counts, of several commands
/// the last; a hidden entry stays hidden; outside the main section nothing
/// counts.
pub proof fn law_first_name_and_last_command(s: DesktopScan, a: Seq<char>, line: Seq<char>)
    requires
        a.len() > 0,
        !crate::text::white(a.last()),
    ensures
        s.in_main_section && s.name is None ==> scan_line(s, "Name="@ + a) == (DesktopScan {
            name: Some(a),
            ..s
        }),
        s.name is Some ==> scan_line(s, line).name == s.name,
        s.in_main_section ==> scan_line(s, "Exec="@ + a) == (DesktopScan { command: Some(a), ..s }),
        s.skip ==> scan_line(s, line).skip,
        s.in_main_section ==> scan_line(s, "NoDisplay=true"@).skip && scan_line(
            s,
            "Hidden=true"@,
        ).skip,
        !s.in_main_section ==> scan_line(s, line).name == s.name && scan_line(s, line).command
            == s.command && scan_line(s, line).skip == s.skip,
        scan_line(s, "[Desktop Entry]"@).in_main_section,
        !scan_line(s, seq!['['] + a).in_main_section || seq!['['] + a == "[Desktop Entry]"@,
{
    reveal_strlit("Name=");
    reveal_strlit("Exec=");
    reveal_strlit("NoDisplay=true");
    reveal_strlit("Hidden=true");
    reveal_strlit("[Desktop Entry]");
    let n = "Name="@ + a;
    let x = "Exec="@ + a;
    let b = seq!['['] + a;
    crate::text::lemma_trim_id(n);
    crate::text::lemma_trim_id(x);
    crate::text::lemma_trim_id(b);
    crate::text::lemma_trim_id("NoDisplay=true"@);
    crate::text::lemma_trim_id("Hidden=true"@);
    crate::text::lemma_trim_id("[Desktop Entry]"@);
    lemma_starts(n, "Name="@);
    lemma_starts(x, "Exec="@);
    lemma_starts(b, seq!['[']);
    assert("[Desktop Entry]"@.subrange(0, 1) =~= seq!['[']);
    assert(n.skip(5) =~= a);
    assert(x.skip(5) =~= a);
    assert(!starts_with(n, seq!['['])) by {
        assert(n.subrange(0, 1)[0] == 'N');
    }
    assert(!starts_with(x, seq!['['])) by {
        assert(x.subrange(0, 1)[0] == 'E');
    }
    assert(!starts_with(x, "Name="@)) by {
        assert(x.subrange(0, 5)[0] == 'E');
    }
    let nd = "NoDisplay=true"@;
    let hd = "Hidden=true"@;
    assert(!starts_with(nd, seq!['['])) by {
        assert(nd.subrange(0, 1)[0] == 'N');
    }
    assert(!starts_with(nd, "Name="@)) by {
        assert(nd.subrange(0, 5)[1] == 'o');
    }
    assert(!starts_with(nd, "Exec="@)) by {
        assert(nd.subrange(0, 5)[0] == 'N');
    }
    assert(!starts_with(hd, seq!['['])) by {
        assert(hd.subrange(0, 1)[0] == 'H');
    }
    assert(!starts_with(hd, "Name="@)) by {
        assert(hd.subrange(0, 5)[0] == 'H');
    }
    assert(!starts_with(hd, "Exec="@)) by {
        assert(hd.subrange(0, 5)[0] == 'H');
    }
}

proof fn lemma_starts(s: Seq<char>, p: Seq<char>)
    requires
        p.len() <= s.len(),
        forall|i: int| 0 <= i < p.len() ==> s[i] == p[i],
    ensures
        starts_with(s, p),
{
    assert(s.subrange(0, p.len() as int) =~= p);
}

/// The order of names is that of a dictionary: where two first differ decides,
/// and a name comes before every longer one that it begins.
pub proof fn law_names_in_dictionary_order(
    p: Seq<char>,
    a: char,
    b: char,
    s: Seq<char>,
    t: Seq<char>,
)
    requires
        a != b,
    ensures
        before(p + seq![a] + s, p + seq![b] + t) <==> a < b,
        before(p, p + seq![a] + s),
        !before(p + seq![a] + s, p),
    decreases p.len(),
{
    let x = p + seq![a] + s;
    let y = p + seq![b] + t;
    if p.len() > 0 {
        let q = p.skip(1);
        law_names_in_dictionary_order(q, a, b, s, t);
        assert(x.skip(1) =~= q + seq![a] + s);
        assert(y.skip(1) =~= q + seq![b] + t);
        assert(x[0] == p[0] && y[0] == p[0]);
    } else {
        assert(x[0] == a && y[0] == b);
    }
}

/// A list that is in order already stays as it is, so that entries of one name
/// keep their order; a list without neighbours of one name loses none.
pub proof fn law_ordered_lists_stay(s: Seq<Entry>)
    ensures
        ordered(s) ==> by_name(s) == s,
        (forall|i: int| 0 < i < s.len() ==> (#[trigger] s[i]).name != s[i - 1].name)
            ==> without_repeats(s) == s,
        s.len() > 0 ==> without_repeats(s).len() > 0 && without_repeats(s)[0] == s[0],
    decreases s.len(),
{
    if s.len() > 0 {
        let d = s.drop_last();
        law_ordered_lists_stay(d);
        assert(d.push(s.last()) =~= s);
        if ordered(s) {
            assert forall|i: int, j: int| 0 <= i < j < d.len() implies !before(
                sort_key(#[trigger] d[j]),
                sort_key(#[trigger] d[i]),
            ) by {
                assert(d[i] == s[i] && d[j] == s[j]);
            }
            if d.len() > 0 {
                assert(!before(sort_key(s[s.len() - 1]), sort_key(s[s.len() - 2])));
                assert(d.last() == s[s.len() - 2]);
            }
        }
        if forall|i: int| 0 < i < s.len() ==> (#[trigger] s[i]).name != s[i - 1].name {
            assert forall|i: int| 0 < i < d.len() implies (#[trigger] d[i]).name
                != d[i - 1].name by {
                assert(d[i] == s[i] && d[i - 1] == s[i - 1]);
            }
            if s.len() > 1 {
                assert(s[s.len() - 1].name != s[s.len() - 2].name);
            }
        }
    } else {
        assert(by_name(s) =~= s);
        assert(without_repeats(s) =~= s);
    }
}

/// Repeats go and nothing else does: what stays is from the list, and every
/// name of the list stays once or more.
pub proof fn law_no_name_is_lost(s: Seq<Entry>)
    ensures
        forall|e: Entry| #[trigger] without_repeats(s).contains(e) ==> s.contains(e),
        forall|i: int|
            0 <= i < s.len() ==> exists|k: int|
                0 <= k < without_repeats(s).len() && (#[trigger] without_repeats(s)[k]).name == (
                #[trigger] s[i]).name,
    decreases s.len(),
{
    if s.len() > 0 {
        let d = s.drop_last();
        let r = without_repeats(d);
        let all = without_repeats(s);
        law_no_name_is_lost(d);
        law_no_neighbours_share_a_name(s);
        assert forall|e: Entry| #[trigger] all.contains(e) implies s.contains(e) by {
            let k = choose|k: int| 0 <= k < all.len() && all[k] == e;
            if k < r.len() {
                assert(r[k] == e);
                assert(r.contains(e));
                let j = choose|j: int| 0 <= j < d.len() && d[j] == e;
                assert(s[j] == e);
            } else {
                assert(s[s.len() - 1] == e);
            }
        }
        assert forall|i: int| 0 <= i < s.len() implies exists|k: int|
            0 <= k < all.len() && (#[trigger] all[k]).name == (#[trigger] s[i]).name by {
            if i < d.len() {
                assert(d[i] == s[i]);
                let k = choose|k: int| 0 <= k < r.len() && (#[trigger] r[k]).name == d[i].name;
                assert(all[k] == r[k]);
            } else {
                assert(all[all.len() - 1].name == s[i].name);
            }
        }
    }
}

/// A file whose name is more than the extension counts, and no other.
pub proof fn law_desktop_files_by_extension(stem: Seq<char>)
    ensures
        stem.len() > 0 <==> desktop_name(stem + ".desktop"@),
        desktop_name(stem) ==> stem.len() > 8 && stem.skip(stem.len() - 8) == ".desktop"@,
{
    reveal_strlit(".desktop");
    let n = stem + ".desktop"@;
    assert(n.subrange(n.len() - 8, n.len() as int) =~= ".desktop"@);
    if desktop_name(stem) {
        assert(stem.skip(stem.len() - 8) =~= stem.subrange(stem.len() - 8, stem.len() as int));
    }
}

/// Entries are sorted whatever the case of their letters.
pub proof fn law_case_does_not_sort(a: Entry, b: Entry)
    requires
        lowered(a.name) == lowered(b.name),
    ensures
        sort_key(a) == sort_key(b),
        !before(sort_key(a), sort_key(b)),
        by_name(seq![a, b]) == seq![a, b],
        by_name(seq![b, a]) == seq![b, a],
{
    lemma_before_order(sort_key(a), sort_key(b));
    law_ordered_lists_stay(seq![a, b]);
    law_ordered_lists_stay(seq![b, a]);
}

/// Only a percent sign with one ASCII character is a field code: longer words,
/// single signs and other characters stay.
pub proof fn law_only_field_codes_go(x: char, y: char)
    requires
        !crate::text::white(x),
        !crate::text::white(y),
    ensures
        cleaned_exec(seq!['%', x, y]) == seq!['%', x, y],
        cleaned_exec(seq!['%']) == seq!['%'],
        x as u32 >= 0x80 ==> cleaned_exec(seq!['%', x]) == seq!['%', x],
        x as u32 <= 0x7f ==> cleaned_exec(seq!['%', x]).len() == 0,
        x != '%' ==> cleaned_exec(seq![x, y]) == seq![x, y],
{
    lemma_one_word(seq!['%', x, y]);
    lemma_one_word(seq!['%']);
    lemma_one_word(seq!['%', x]);
    lemma_one_word(seq![x, y]);
}

proof fn lemma_one_word(s: Seq<char>)
    requires
        s.len() > 0,
        forall|k: int| 0 <= k < s.len() ==> !crate::text::white(#[trigger] s[k]),
    ensures
        cleaned_exec(s) == (if field_code(s) {
            Seq::<char>::empty()
        } else {
            s
        }),
{
    law_words_are_parted_by_white_space(s, ' ', s);
    let ws = seq![s];
    assert(words(s) == ws);
    assert(ws.drop_last() =~= Seq::<Seq<char>>::empty());
    assert(ws.last() == s);
    assert(without_codes(Seq::<Seq<char>>::empty()) =~= Seq::<Seq<char>>::empty());
    if field_code(s) {
        assert(without_codes(ws) =~= Seq::<Seq<char>>::empty());
    } else {
        assert(without_codes(ws) =~= ws);
    }
}

} // verus!
