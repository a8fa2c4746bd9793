//! Text as sequences of characters: the string operations that the parsers
//! and formatters of this crate are built from.
//!
//! Executable functions take character slices; `chars_of` and `string_of`
//! convert from and to strings.

use vstd::prelude::*;
use vstd::slice::slice_subrange;

verus! {

/// `String::push` appends one character.
pub assume_specification[ String::push ](s: &mut String, c: char)
    ensures
        final(s)@ == old(s)@.push(c),
;

/// The characters of a string.
pub fn chars_of(s: &str) -> (r: Vec<char>)
    ensures
        r@ == s@,
{
    let mut v: Vec<char> = Vec::new();
    for c in it: s.chars()
        invariant
            v@ == it.seq().take(it.index() as int),
    {
        v.push(c);
    }
    v
}

/// The string made of the given characters.
pub fn string_of(v: &[char]) -> (r: String)
    ensures
        r@ == v@,
{
    let mut s: String = String::new();
    for i in 0..v.len()
        invariant
            s@ == v@.take(i as int),
    {
        s.push(v[i]);
        assert(v@.take(i + 1) =~= v@.take(i as int).push(v@[i as int]));
    }
    assert(v@.take(v.len() as int) =~= v@);
    s
}

/// A copy of the given characters.
pub fn copy_of(v: &[char]) -> (r: Vec<char>)
    ensures
        r@ == v@,
{
    vstd::slice::slice_to_vec(v)
}

/// A copy of the given string.
pub fn copy_str(s: &str) -> (r: String)
    ensures
        r@ == s@,
{
    s.to_owned()
}

// ── Characters ───────────────────────────────────────────────────────────

/// The characters with the Unicode property White_Space.
pub open spec fn white(c: char) -> bool {
    ||| 0x09 <= c as u32 <= 0x0d
    ||| c as u32 == 0x20
    ||| c as u32 == 0x85
    ||| c as u32 == 0xa0
    ||| c as u32 == 0x1680
    ||| 0x2000 <= c as u32 <= 0x200a
    ||| c as u32 == 0x2028
    ||| c as u32 == 0x2029
    ||| c as u32 == 0x202f
    ||| c as u32 == 0x205f
    ||| c as u32 == 0x3000
}

pub fn is_white(c: char) -> (r: bool)
    ensures
        r == white(c),
{
    let u: u32 = c as u32;
    (0x09 <= u && u <= 0x0d) || u == 0x20 || u == 0x85 || u == 0xa0 || u == 0x1680 || (0x2000
        <= u && u <= 0x200a) || u == 0x2028 || u == 0x2029 || u == 0x202f || u == 0x205f || u
        == 0x3000
}

/// ASCII letters in lower case; every other character as it is.
pub open spec fn lower(c: char) -> char {
    if 'A' <= c <= 'Z' {
        (c as u32 + 32) as char
    } else {
        c
    }
}

pub fn to_lower(c: char) -> (r: char)
    ensures
        r == lower(c),
{
    if 'A' <= c && c <= 'Z' {
        ((c as u8) + 32) as char
    } else {
        c
    }
}

pub open spec fn lowered(s: Seq<char>) -> Seq<char> {
    Seq::new(s.len(), |i: int| lower(s[i]))
}

/// The text with ASCII letters in lower case.
pub fn lower_all(s: &[char]) -> (r: Vec<char>)
    ensures
        r@ == lowered(s@),
{
    let mut v: Vec<char> = Vec::new();
    for i in 0..s.len()
        invariant
            v.len() == i,
            forall|j: int| 0 <= j < i ==> v[j] == lower(s@[j]),
    {
        v.push(to_lower(s[i]));
    }
    assert(v@ =~= lowered(s@));
    v
}

// ── Comparison and search ────────────────────────────────────────────────

pub fn same(a: &[char], b: &[char]) -> (r: bool)
    ensures
        r == (a@ == b@),
{
    if a.len() != b.len() {
        return false;
    }
    for i in 0..a.len()
        invariant
            a.len() == b.len(),
            forall|j: int| 0 <= j < i ==> a@[j] == b@[j],
    {
        if a[i] != b[i] {
            return false;
        }
    }
    assert(a@ =~= b@);
    true
}

/// The text equals the given string.
pub fn is_str(a: &[char], b: &str) -> (r: bool)
    ensures
        r == (a@ == b@),
{
    let v: Vec<char> = chars_of(b);
    same(a, v.as_slice())
}

/// `p` stands in `s` at position `at`.
pub open spec fn occurs_at(s: Seq<char>, p: Seq<char>, at: int) -> bool {
    0 <= at && at + p.len() <= s.len() && s.subrange(at, at + p.len()) == p
}

pub open spec fn starts_with(s: Seq<char>, p: Seq<char>) -> bool {
    occurs_at(s, p, 0)
}

pub open spec fn ends_with(s: Seq<char>, p: Seq<char>) -> bool {
    occurs_at(s, p, s.len() - p.len())
}

pub open spec fn contains(s: Seq<char>, p: Seq<char>) -> bool {
    exists|at: int| occurs_at(s, p, at)
}

fn occurs(s: &[char], p: &[char], at: usize) -> (r: bool)
    requires
        at + p.len() <= s.len(),
    ensures
        r == occurs_at(s@, p@, at as int),
{
    same(slice_subrange(s, at, at + p.len()), p)
}

pub fn has_prefix(s: &[char], p: &[char]) -> (r: bool)
    ensures
        r == starts_with(s@, p@),
{
    p.len() <= s.len() && occurs(s, p, 0)
}

pub fn has_suffix(s: &[char], p: &[char]) -> (r: bool)
    ensures
        r == ends_with(s@, p@),
{
    p.len() <= s.len() && occurs(s, p, s.len() - p.len())
}

pub fn has_part(s: &[char], p: &[char]) -> (r: bool)
    ensures
        r == contains(s@, p@),
{
    if p.len() > s.len() {
        return false;
    }
    let last: usize = s.len() - p.len();
    let mut at: usize = 0;
    while at <= last
        invariant
            last == s.len() - p.len(),
            at <= last + 1,
            forall|j: int| 0 <= j < at ==> !occurs_at(s@, p@, j),
        decreases last + 1 - at,
    {
        if occurs(s, p, at) {
            return true;
        }
        if at == last {
            return false;
        }
        at = at + 1;
    }
    false
}

/// The position of the first `c` at or after `from`, or the length.
pub open spec fn find_from(s: Seq<char>, c: char, from: int) -> int
    decreases s.len() - from,
{
    if from >= s.len() {
        s.len() as int
    } else if s[from] == c {
        from
    } else {
        find_from(s, c, from + 1)
    }
}

pub open spec fn find(s: Seq<char>, c: char) -> int {
    find_from(s, c, 0)
}

pub proof fn lemma_find_from(s: Seq<char>, c: char, from: int)
    requires
        0 <= from <= s.len(),
    ensures
        from <= find_from(s, c, from) <= s.len(),
        find_from(s, c, from) < s.len() ==> s[find_from(s, c, from)] == c,
        forall|j: int| from <= j < find_from(s, c, from) ==> s[j] != c,
    decreases s.len() - from,
{
    if from < s.len() && s[from] != c {
        lemma_find_from(s, c, from + 1);
    }
}

/// A position with `c` and no earlier one is the first.
pub proof fn lemma_find_is(s: Seq<char>, c: char, at: int)
    requires
        0 <= at < s.len(),
        s[at] == c,
        forall|j: int| 0 <= j < at ==> s[j] != c,
    ensures
        find(s, c) == at,
{
    lemma_find_from(s, c, 0);
}

/// Text without `c` has no position of it.
pub proof fn lemma_find_none(s: Seq<char>, c: char)
    requires
        forall|j: int| 0 <= j < s.len() ==> s[j] != c,
    ensures
        find(s, c) == s.len(),
{
    lemma_find_from(s, c, 0);
}

pub fn find_char(s: &[char], c: char) -> (r: usize)
    ensures
        r == find(s@, c),
        r <= s.len(),
{
    let mut i: usize = 0;
    while i < s.len() && s[i] != c
        invariant
            i <= s.len(),
            find(s@, c) == find_from(s@, c, i as int),
        decreases s.len() - i,
    {
        i = i + 1;
    }
    i
}

/// The text before and after the first `c`.
pub open spec fn split_once(s: Seq<char>, c: char) -> Option<(Seq<char>, Seq<char>)> {
    let i = find(s, c);
    if i < s.len() {
        Some((s.take(i), s.skip(i + 1)))
    } else {
        None
    }
}

pub fn cut_once(s: &[char], c: char) -> (r: Option<(&[char], &[char])>)
    ensures
        match r {
            Some((a, b)) => split_once(s@, c) == Some((a@, b@)),
            None => split_once(s@, c) is None,
        },
{
    proof {
        lemma_find_from(s@, c, 0);
    }
    let i: usize = find_char(s, c);
    if i < s.len() {
        let a: &[char] = slice_subrange(s, 0, i);
        let b: &[char] = slice_subrange(s, i + 1, s.len());
        assert(a@ =~= s@.take(i as int));
        assert(b@ =~= s@.skip(i + 1));
        Some((a, b))
    } else {
        None
    }
}

// ── Trimming ─────────────────────────────────────────────────────────────

pub open spec fn trim_start(s: Seq<char>) -> Seq<char>
    decreases s.len(),
{
    if s.len() > 0 && white(s[0]) {
        trim_start(s.skip(1))
    } else {
        s
    }
}

pub open spec fn trim_end(s: Seq<char>) -> Seq<char>
    decreases s.len(),
{
    if s.len() > 0 && white(s[s.len() - 1]) {
        trim_end(s.take(s.len() - 1))
    } else {
        s
    }
}

/// The text without the white space at its ends.
pub open spec fn trim(s: Seq<char>) -> Seq<char> {
    trim_end(trim_start(s))
}

/// Text with no white space at its ends stays as it is.
pub proof fn lemma_trim_id(s: Seq<char>)
    requires
        s.len() > 0 ==> !white(s[0]) && !white(s[s.len() - 1]),
    ensures
        trim(s) == s,
{
}

pub fn trimmed_start(s: &[char]) -> (r: &[char])
    ensures
        r@ == trim_start(s@),
{
    let mut i: usize = 0;
    assert(s@.skip(0) =~= s@);
    while i < s.len() && is_white(s[i])
        invariant
            i <= s.len(),
            trim_start(s@) == trim_start(s@.skip(i as int)),
        decreases s.len() - i,
    {
        assert(s@.skip(i as int).skip(1) =~= s@.skip(i + 1));
        i = i + 1;
    }
    let r: &[char] = slice_subrange(s, i, s.len());
    assert(r@ =~= s@.skip(i as int));
    r
}

pub fn trimmed_end(s: &[char]) -> (r: &[char])
    ensures
        r@ == trim_end(s@),
{
    let mut n: usize = s.len();
    assert(s@.take(s.len() as int) =~= s@);
    while n > 0 && is_white(s[n - 1])
        invariant
            n <= s.len(),
            trim_end(s@) == trim_end(s@.take(n as int)),
        decreases n,
    {
        assert(s@.take(n as int).take(n - 1) =~= s@.take(n - 1));
        n = n - 1;
    }
    let r: &[char] = slice_subrange(s, 0, n);
    assert(r@ =~= s@.take(n as int));
    r
}

pub fn trimmed(s: &[char]) -> (r: &[char])
    ensures
        r@ == trim(s@),
{
    trimmed_end(trimmed_start(s))
}

// ── Splitting ────────────────────────────────────────────────────────────

/// What a list of strings says.
pub open spec fn texts(v: Seq<String>) -> Seq<Seq<char>> {
    Seq::new(v.len(), |i: int| v[i]@)
}

/// The views of a list of slices.
pub open spec fn views(v: Seq<&[char]>) -> Seq<Seq<char>> {
    Seq::new(v.len(), |i: int| v[i]@)
}

/// A line without the carriage return that ends it.
pub open spec fn strip_cr(s: Seq<char>) -> Seq<char> {
    if s.len() > 0 && s[s.len() - 1] == '\r' {
        s.take(s.len() - 1)
    } else {
        s
    }
}

/// The lines of a text. Each line feed ends a line and may have a carriage
/// return before it; the last line needs no line feed.
pub open spec fn lines(s: Seq<char>) -> Seq<Seq<char>>
    decreases s.len(),
{
    let i = find(s, '\n');
    if s.len() == 0 {
        Seq::empty()
    } else if 0 <= i < s.len() {
        seq![strip_cr(s.take(i))] + lines(s.skip(i + 1))
    } else {
        seq![s]
    }
}

pub fn lines_of(s: &[char]) -> (r: Vec<&[char]>)
    ensures
        views(r@) == lines(s@),
{
    let mut v: Vec<&[char]> = Vec::new();
    let mut rest: &[char] = s;
    while rest.len() > 0
        invariant
            lines(s@) =~= views(v@) + lines(rest@),
        decreases rest.len(),
    {
        proof {
            lemma_find_from(rest@, '\n', 0);
        }
        let ghost before = v@;
        let i: usize = find_char(rest, '\n');
        if i < rest.len() {
            let line: &[char] = slice_subrange(rest, 0, i);
            assert(line@ =~= rest@.take(i as int));
            let n: usize = line.len();
            let line: &[char] = if n > 0 && line[n - 1] == '\r' {
                let l: &[char] = slice_subrange(line, 0, n - 1);
                assert(l@ =~= line@.take(n - 1));
                l
            } else {
                line
            };
            v.push(line);
            let next: &[char] = slice_subrange(rest, i + 1, rest.len());
            assert(next@ =~= rest@.skip(i + 1));
            assert(views(v@) =~= views(before) + seq![line@]);
            assert(views(before) + (seq![line@] + lines(next@)) =~= (views(before) + seq![line@])
                + lines(next@));
            rest = next;
        } else {
            v.push(rest);
            let next: &[char] = slice_subrange(rest, rest.len(), rest.len());
            assert(next@ =~= Seq::<char>::empty());
            assert(views(v@) =~= views(before) + seq![rest@]);
            rest = next;
        }
    }
    assert(views(v@) + lines(rest@) =~= views(v@));
    v
}

/// The parts between the occurrences of `c`; one more than there are of them.
pub open spec fn split(s: Seq<char>, c: char) -> Seq<Seq<char>>
    decreases s.len(),
{
    let i = find(s, c);
    if 0 <= i < s.len() {
        seq![s.take(i)] + split(s.skip(i + 1), c)
    } else {
        seq![s]
    }
}

pub fn split_at_char(s: &[char], c: char) -> (r: Vec<&[char]>)
    ensures
        views(r@) == split(s@, c),
{
    let mut v: Vec<&[char]> = Vec::new();
    let mut rest: &[char] = s;
    assert(views(v@) + split(rest@, c) =~= split(s@, c));
    loop
        invariant
            split(s@, c) =~= views(v@) + split(rest@, c),
        decreases rest.len(),
    {
        proof {
            lemma_find_from(rest@, c, 0);
        }
        let ghost before = v@;
        let i: usize = find_char(rest, c);
        if i >= rest.len() {
            v.push(rest);
            assert(views(v@) =~= views(before) + seq![rest@]);
            return v;
        }
        let part: &[char] = slice_subrange(rest, 0, i);
        assert(part@ =~= rest@.take(i as int));
        v.push(part);
        let next: &[char] = slice_subrange(rest, i + 1, rest.len());
        assert(next@ =~= rest@.skip(i + 1));
        assert(views(v@) =~= views(before) + seq![part@]);
        assert(views(before) + (seq![part@] + split(next@, c)) =~= (views(before) + seq![part@])
            + split(next@, c));
        rest = next;
    }
}

/// The length of the run of characters without white space at the start.
pub open spec fn word_len(s: Seq<char>) -> int
    decreases s.len(),
{
    if s.len() > 0 && !white(s[0]) {
        1 + word_len(s.skip(1))
    } else {
        0
    }
}

/// The runs of characters between white space.
pub open spec fn words(s: Seq<char>) -> Seq<Seq<char>>
    decreases s.len(),
{
    if s.len() == 0 {
        Seq::empty()
    } else if white(s[0]) {
        words(s.skip(1))
    } else if 0 < word_len(s) <= s.len() {
        seq![s.take(word_len(s))] + words(s.skip(word_len(s)))
    } else {
        Seq::empty()
    }
}

fn first_word_len(s: &[char]) -> (r: usize)
    ensures
        r == word_len(s@),
        r <= s.len(),
{
    let mut i: usize = 0;
    assert(s@.skip(0) =~= s@);
    while i < s.len() && !is_white(s[i])
        invariant
            i <= s.len(),
            word_len(s@) == i + word_len(s@.skip(i as int)),
        decreases s.len() - i,
    {
        assert(s@.skip(i as int).skip(1) =~= s@.skip(i + 1));
        i = i + 1;
    }
    i
}

pub fn words_of(s: &[char]) -> (r: Vec<&[char]>)
    ensures
        views(r@) == words(s@),
{
    let mut v: Vec<&[char]> = Vec::new();
    let mut rest: &[char] = s;
    while rest.len() > 0
        invariant
            words(s@) =~= views(v@) + words(rest@),
        decreases rest.len(),
    {
        let ghost before = v@;
        let n: usize = first_word_len(rest);
        if n == 0 {
            let next: &[char] = slice_subrange(rest, 1, rest.len());
            assert(next@ =~= rest@.skip(1));
            assert(white(rest@[0])) by {
                if !white(rest@[0]) {
                    lemma_word_len(rest@.skip(1));
                }
            }
            rest = next;
        } else {
            let word: &[char] = slice_subrange(rest, 0, n);
            assert(word@ =~= rest@.take(n as int));
            v.push(word);
            let next: &[char] = slice_subrange(rest, n, rest.len());
            assert(next@ =~= rest@.skip(n as int));
            assert(views(v@) =~= views(before) + seq![word@]);
            assert(views(before) + (seq![word@] + words(next@)) =~= (views(before) + seq![word@])
                + words(next@));
            rest = next;
        }
    }
    assert(views(v@) + words(rest@) =~= views(v@));
    v
}

proof fn lemma_word_len(s: Seq<char>)
    ensures
        0 <= word_len(s) <= s.len(),
    decreases s.len(),
{
    if s.len() > 0 && !white(s[0]) {
        lemma_word_len(s.skip(1));
    }
}

// ── Joining ──────────────────────────────────────────────────────────────

/// The parts one after another with `sep` between them.
pub open spec fn join(parts: Seq<Seq<char>>, sep: Seq<char>) -> Seq<char>
    decreases parts.len(),
{
    if parts.len() == 0 {
        Seq::empty()
    } else if parts.len() == 1 {
        parts[0]
    } else {
        join(parts.drop_last(), sep) + sep + parts.last()
    }
}

/// Appends the characters of `tail`.
pub fn append_chars(v: &mut Vec<char>, tail: &[char])
    ensures
        final(v)@ == old(v)@ + tail@,
{
    let ghost start = v@;
    for i in 0..tail.len()
        invariant
            v@ =~= start + tail@.take(i as int),
    {
        v.push(tail[i]);
    }
    assert(tail@.take(tail.len() as int) =~= tail@);
}

/// Appends the characters of a string.
pub fn append_str(v: &mut Vec<char>, tail: &str)
    ensures
        final(v)@ == old(v)@ + tail@,
{
    let t: Vec<char> = chars_of(tail);
    append_chars(v, t.as_slice());
}

pub fn joined(parts: &Vec<&[char]>, sep: &[char]) -> (r: Vec<char>)
    ensures
        r@ == join(views(parts@), sep@),
{
    let mut v: Vec<char> = Vec::new();
    let ghost all = views(parts@);
    assert(all.take(0) =~= Seq::<Seq<char>>::empty());
    for i in 0..parts.len()
        invariant
            all == views(parts@),
            v@ == join(all.take(i as int), sep@),
    {
        if i > 0 {
            append_chars(&mut v, sep);
        }
        append_chars(&mut v, parts[i]);
        proof {
            let next = all.take(i + 1);
            assert(next.drop_last() =~= all.take(i as int));
            assert(next.last() == parts@[i as int]@);
            if i == 0 {
                assert(v@ =~= next[0]);
            }
        }
    }
    assert(all.take(parts.len() as int) =~= all);
    v
}

// ── Numbers ──────────────────────────────────────────────────────────────

pub open spec fn is_digit(c: char) -> bool {
    '0' <= c <= '9'
}

/// The decimal value of a run of digits.
pub open spec fn digits_value(s: Seq<char>) -> nat
    decreases s.len(),
{
    if s.len() == 0 {
        0
    } else {
        (digits_value(s.drop_last()) * 10 + (s.last() as u32 - '0' as u32)) as nat
    }
}

pub open spec fn all_digits(s: Seq<char>) -> bool {
    s.len() > 0 && forall|i: int| 0 <= i < s.len() ==> is_digit(#[trigger] s[i])
}

/// The number that `s` writes: decimal digits after an optional sign. A
/// minus sign is only read where `signed`.
pub open spec fn number(s: Seq<char>, signed: bool) -> Option<int> {
    if s.len() > 0 && s[0] == '+' {
        if all_digits(s.skip(1)) {
            Some(digits_value(s.skip(1)) as int)
        } else {
            None
        }
    } else if s.len() > 0 && s[0] == '-' && signed {
        if all_digits(s.skip(1)) {
            Some(-digits_value(s.skip(1)))
        } else {
            None
        }
    } else if all_digits(s) {
        Some(digits_value(s) as int)
    } else {
        None
    }
}

/// The number that `s` writes, where it lies between the bounds.
pub open spec fn bounded_number(s: Seq<char>, signed: bool, lo: int, hi: int) -> Option<int> {
    match number(s, signed) {
        Some(n) => if lo <= n <= hi {
            Some(n)
        } else {
            None
        },
        None => None,
    }
}

proof fn lemma_value_prefix(s: Seq<char>, k: int)
    requires
        0 <= k <= s.len(),
        forall|i: int| 0 <= i < s.len() ==> is_digit(#[trigger] s[i]),
    ensures
        digits_value(s.take(k)) <= digits_value(s),
    decreases s.len() - k,
{
    if k < s.len() {
        lemma_value_prefix(s, k + 1);
        assert(s.take(k + 1).drop_last() =~= s.take(k));
    } else {
        assert(s.take(k) =~= s);
    }
}

/// The value of a run of digits, `None` where it is not one or is above `max`.
fn digits_at_most(s: &[char], max: u64) -> (r: Option<u64>)
    ensures
        match r {
            Some(n) => all_digits(s@) && n == digits_value(s@) && n <= max,
            None => !all_digits(s@) || digits_value(s@) > max,
        },
{
    if s.len() == 0 {
        return None;
    }
    let mut n: u64 = 0;
    assert(s@.take(0) =~= Seq::<char>::empty());
    for i in 0..s.len()
        invariant
            n == digits_value(s@.take(i as int)),
            n <= max,
            forall|j: int| 0 <= j < i ==> is_digit(#[trigger] s@[j]),
    {
        let c: char = s[i];
        if !('0' <= c && c <= '9') {
            assert(!is_digit(s@[i as int]));
            return None;
        }
        assert(s@.take(i + 1).drop_last() =~= s@.take(i as int));
        let d: u64 = (c as u32 - '0' as u32) as u64;
        if n > (max - (if d <= max { d } else { max })) / 10 || d > max {
            proof {
                assert(digits_value(s@.take(i + 1)) > max);
                if all_digits(s@) {
                    lemma_value_prefix(s@, i + 1);
                }
            }
            return None;
        }
        n = n * 10 + d;
    }
    assert(s@.take(s.len() as int) =~= s@);
    Some(n)
}

/// Reads an unsigned number of at most `max`.
pub fn parse_unsigned(s: &[char], max: u64) -> (r: Option<u64>)
    ensures
        match r {
            Some(n) => bounded_number(s@, false, 0, max as int) == Some(n as int),
            None => bounded_number(s@, false, 0, max as int) is None,
        },
{
    if s.len() > 0 && s[0] == '+' {
        let t: &[char] = slice_subrange(s, 1, s.len());
        assert(t@ =~= s@.skip(1));
        digits_at_most(t, max)
    } else {
        digits_at_most(s, max)
    }
}

/// Reads a signed 32-bit number.
pub fn parse_i32(s: &[char]) -> (r: Option<i32>)
    ensures
        match r {
            Some(n) => bounded_number(s@, true, i32::MIN as int, i32::MAX as int) == Some(n as int),
            None => bounded_number(s@, true, i32::MIN as int, i32::MAX as int) is None,
        },
{
    if s.len() > 0 && s[0] == '-' {
        let t: &[char] = slice_subrange(s, 1, s.len());
        assert(t@ =~= s@.skip(1));
        match digits_at_most(t, 0x8000_0000) {
            Some(n) => Some((-(n as i64)) as i32),
            None => None,
        }
    } else {
        match parse_unsigned(s, 0x7fff_ffff) {
            Some(n) => Some(n as i32),
            None => None,
        }
    }
}

/// The decimal digits of `n`, with no leading zero.
pub open spec fn decimal(n: nat) -> Seq<char>
    decreases n,
{
    if n < 10 {
        seq![('0' as u32 + n) as char]
    } else {
        decimal(n / 10).push(('0' as u32 + n % 10) as char)
    }
}

/// The decimal digits of an integer, with a minus sign where it is negative.
pub open spec fn signed_decimal(n: int) -> Seq<char> {
    if n < 0 {
        seq!['-'] + decimal((-n) as nat)
    } else {
        decimal(n as nat)
    }
}

/// Reading the digits written for a number gives the number back.
pub proof fn law_decimal_reads_back(n: nat)
    ensures
        all_digits(decimal(n)),
        digits_value(decimal(n)) == n,
        number(decimal(n), true) == Some(n as int),
        number(decimal(n), false) == Some(n as int),
    decreases n,
{
    let d = decimal(n);
    if n < 10 {
        assert(d.drop_last() =~= Seq::<char>::empty());
        reveal_with_fuel(digits_value, 2);
    } else {
        law_decimal_reads_back(n / 10);
        assert(d.drop_last() =~= decimal(n / 10));
    }
    assert(is_digit(d[0]));
}

/// Reading what is written for an integer gives the integer back.
pub proof fn law_signed_decimal_reads_back(n: int)
    ensures
        number(signed_decimal(n), true) == Some(n),
{
    if n < 0 {
        law_decimal_reads_back((-n) as nat);
        assert(signed_decimal(n).skip(1) =~= decimal((-n) as nat));
    } else {
        law_decimal_reads_back(n as nat);
    }
}

fn digit_char(d: u64) -> (c: char)
    requires
        d < 10,
    ensures
        c == ('0' as u32 + d) as char,
{
    (('0' as u8) + (d as u8)) as char
}

/// Appends the decimal digits of `n`.
pub fn append_decimal(v: &mut Vec<char>, n: u64)
    ensures
        final(v)@ == old(v)@ + decimal(n as nat),
    decreases n,
{
    if n >= 10 {
        append_decimal(v, n / 10);
    }
    let ghost before = v@;
    v.push(digit_char(n % 10));
    assert(old(v)@ + decimal(n as nat) =~= v@);
}

/// Appends an integer in decimal.
pub fn append_signed(v: &mut Vec<char>, n: i64)
    ensures
        final(v)@ == old(v)@ + signed_decimal(n as int),
{
    if n < 0 {
        v.push('-');
        let m: u64 = if n == i64::MIN {
            0x8000_0000_0000_0000
        } else {
            (-n) as u64
        };
        append_decimal(v, m);
        assert(old(v)@ + signed_decimal(n as int) =~= v@);
    } else {
        append_decimal(v, n as u64);
    }
}

/// The value of a hexadecimal digit.
pub open spec fn hex_value(c: char) -> Option<u8> {
    if '0' <= c <= '9' {
        Some((c as u32 - '0' as u32) as u8)
    } else if 'a' <= c <= 'f' {
        Some((c as u32 - 'a' as u32 + 10) as u8)
    } else if 'A' <= c <= 'F' {
        Some((c as u32 - 'A' as u32 + 10) as u8)
    } else {
        None
    }
}

pub fn hex_digit(c: char) -> (r: Option<u8>)
    ensures
        r == hex_value(c),
{
    if '0' <= c && c <= '9' {
        Some((c as u32 - '0' as u32) as u8)
    } else if 'a' <= c && c <= 'f' {
        Some((c as u32 - 'a' as u32 + 10) as u8)
    } else if 'A' <= c && c <= 'F' {
        Some((c as u32 - 'A' as u32 + 10) as u8)
    } else {
        None
    }
}

// ── What parting and joining keep ────────────────────────────────────────

proof fn lemma_join_front(a: Seq<char>, rest: Seq<Seq<char>>, sep: Seq<char>)
    requires
        rest.len() > 0,
    ensures
        join(seq![a] + rest, sep) == a + sep + join(rest, sep),
    decreases rest.len(),
{
    let all = seq![a] + rest;
    assert(all.last() == rest.last());
    if rest.len() == 1 {
        assert(all.drop_last() =~= seq![a]);
        assert(join(seq![a], sep) == a);
    } else {
        assert(all.drop_last() =~= seq![a] + rest.drop_last());
        lemma_join_front(a, rest.drop_last(), sep);
        assert(join(all, sep) =~= a + sep + join(rest, sep));
    }
}

/// Joining the parts of a text with the character that parted them gives the
/// text back, and no part holds that character.
pub proof fn law_split_and_join(s: Seq<char>, c: char)
    ensures
        join(split(s, c), seq![c]) == s,
        split(s, c).len() > 0,
        forall|i: int, j: int|
            0 <= i < split(s, c).len() && 0 <= j < split(s, c)[i].len()
                ==> #[trigger] split(s, c)[i][j] != c,
    decreases s.len(),
{
    lemma_find_from(s, c, 0);
    let i = find(s, c);
    if i < s.len() {
        let rest = s.skip(i + 1);
        law_split_and_join(rest, c);
        lemma_join_front(s.take(i), split(rest, c), seq![c]);
        assert(s =~= s.take(i) + seq![c] + rest);
        assert forall|k: int, j: int|
            0 <= k < split(s, c).len() && 0 <= j < split(s, c)[k].len() implies #[trigger] split(
            s,
            c,
        )[k][j] != c by {
            if k > 0 {
                assert(split(s, c)[k] == split(rest, c)[k - 1]);
                assert(split(rest, c)[k - 1][j] != c);
            }
        }
    }
}

/// A text is parted at the first occurrence: what comes before does not hold
/// the character, and the two sides with it between them are the text.
pub proof fn law_split_once_is_the_first(s: Seq<char>, c: char)
    ensures
        split_once(s, c) matches Some((a, b)) ==> s == a + seq![c] + b && !a.contains(c),
        split_once(s, c) is None <==> !s.contains(c),
{
    lemma_find_from(s, c, 0);
    let i = find(s, c);
    if i < s.len() {
        assert(s =~= s.take(i) + seq![c] + s.skip(i + 1));
        assert(s.contains(s[i]));
    }
}

/// Trimming takes white space off the two ends, all of it, and nothing else.
pub proof fn law_trim_takes_white_space(s: Seq<char>)
    ensures
        exists|i: int, j: int|
            #![trigger s.subrange(i, j)]
            {
                &&& 0 <= i <= j <= s.len()
                &&& trim(s) == s.subrange(i, j)
                &&& forall|k: int| 0 <= k < i || j <= k < s.len() ==> white(#[trigger] s[k])
            },
        trim(s).len() > 0 ==> !white(trim(s)[0]) && !white(trim(s)[trim(s).len() - 1]),
{
    let a = trim_start(s);
    let i = lemma_trim_start(s);
    let n = lemma_trim_end(a);
    assert(trim(s) =~= s.subrange(i, i + n));
    assert forall|k: int| 0 <= k < i || i + n <= k < s.len() implies white(#[trigger] s[k]) by {
        if k >= i {
            assert(a[k - i] == s[k]);
        }
    }
}

proof fn lemma_trim_start(s: Seq<char>) -> (i: int)
    ensures
        0 <= i <= s.len(),
        trim_start(s) == s.skip(i),
        forall|k: int| 0 <= k < i ==> white(#[trigger] s[k]),
        i < s.len() ==> !white(s[i]),
    decreases s.len(),
{
    if s.len() > 0 && white(s[0]) {
        let i = lemma_trim_start(s.skip(1));
        assert(s.skip(1).skip(i) =~= s.skip(i + 1));
        assert forall|k: int| 0 <= k < i + 1 implies white(#[trigger] s[k]) by {
            if k > 0 {
                assert(s.skip(1)[k - 1] == s[k]);
            }
        }
        i + 1
    } else {
        assert(s.skip(0) =~= s);
        0
    }
}

proof fn lemma_trim_end(s: Seq<char>) -> (n: int)
    ensures
        0 <= n <= s.len(),
        trim_end(s) == s.take(n),
        forall|k: int| n <= k < s.len() ==> white(#[trigger] s[k]),
        n > 0 ==> !white(s[n - 1]),
    decreases s.len(),
{
    if s.len() > 0 && white(s[s.len() - 1]) {
        let t = s.take(s.len() - 1);
        let n = lemma_trim_end(t);
        assert(t.take(n) =~= s.take(n));
        assert forall|k: int| n <= k < s.len() implies white(#[trigger] s[k]) by {
            if k < s.len() - 1 {
                assert(t[k] == s[k]);
            }
        }
        n
    } else {
        assert(s.take(s.len() as int) =~= s);
        s.len() as int
    }
}

proof fn lemma_word_len_is(s: Seq<char>)
    ensures
        0 <= word_len(s) <= s.len(),
        forall|k: int| 0 <= k < word_len(s) ==> !white(#[trigger] s[k]),
        word_len(s) < s.len() ==> white(s[word_len(s)]),
    decreases s.len(),
{
    if s.len() > 0 && !white(s[0]) {
        let t = s.skip(1);
        lemma_word_len_is(t);
        assert forall|k: int| 0 <= k < word_len(s) implies !white(#[trigger] s[k]) by {
            if k > 0 {
                assert(t[k - 1] == s[k]);
            }
        }
    }
}

/// A run of characters without white space is one word; white space parts the
/// words before it from those after it, and belongs to none.
pub proof fn law_words_are_parted_by_white_space(a: Seq<char>, w: char, b: Seq<char>)
    ensures
        a.len() > 0 && (forall|k: int| 0 <= k < a.len() ==> !white(#[trigger] a[k])) ==> words(a)
            == seq![a],
        white(w) ==> words(a + seq![w] + b) == words(a) + words(b),
        words(Seq::<char>::empty()) == Seq::<Seq<char>>::empty(),
    decreases a.len(),
{
    lemma_word_len_is(a);
    let whole = a + seq![w] + b;
    if a.len() > 0 && (forall|k: int| 0 <= k < a.len() ==> !white(#[trigger] a[k])) {
        assert(word_len(a) == a.len());
        assert(a.take(a.len() as int) =~= a);
        assert(a.skip(a.len() as int) =~= Seq::<char>::empty());
        assert(!white(a[0]));
        assert(words(Seq::<char>::empty()) =~= Seq::<Seq<char>>::empty());
        assert(words(a) =~= seq![a] + words(Seq::<char>::empty()));
        assert(words(a) =~= seq![a]);
    }
    if white(w) {
        lemma_word_len_is(whole);
        if a.len() == 0 {
            assert(whole[0] == w);
            assert(whole.skip(1) =~= b);
            assert(words(a) + words(b) =~= words(b));
        } else if white(a[0]) {
            assert(whole[0] == a[0]);
            assert(whole.skip(1) =~= a.skip(1) + seq![w] + b);
            law_words_are_parted_by_white_space(a.skip(1), w, b);
        } else {
            let n = word_len(a);
            assert(n > 0) by {
                lemma_word_len_is(a);
                if n == 0 {
                    assert(white(a[0]));
                }
            }
            assert(word_len(whole) == n) by {
                let m = word_len(whole);
                assert(whole[0] == a[0]);
                if m < n {
                    assert(white(whole[m]));
                    assert(whole[m] == a[m]);
                }
                if m > n {
                    assert(!white(whole[n]));
                    if n < a.len() {
                        assert(whole[n] == a[n]);
                    } else {
                        assert(whole[n] == w);
                    }
                }
            }
            assert(whole.take(n) =~= a.take(n));
            assert(whole.skip(n) =~= a.skip(n) + seq![w] + b);
            law_words_are_parted_by_white_space(a.skip(n), w, b);
            assert(words(whole) =~= words(a) + words(b));
        }
    }
}

/// A line feed ends a line, and a carriage return right before it is no part
/// of the line; text without a line feed is one line, and no text is none.
pub proof fn law_lines_end_at_line_feeds(a: Seq<char>, b: Seq<char>)
    requires
        !a.contains('\n'),
    ensures
        a.len() == 0 || a.last() != '\r' ==> lines(a + seq!['\n'] + b) == seq![a] + lines(b),
        lines(a + seq!['\r', '\n'] + b) == seq![a] + lines(b),
        a.len() > 0 ==> lines(a) == seq![a],
        lines(Seq::<char>::empty()) == Seq::<Seq<char>>::empty(),
{
    let n = a.len() as int;
    let s = a + seq!['\n'] + b;
    assert forall|j: int| 0 <= j < a.len() implies s[j] != '\n' by {
        assert(a.contains(a[j]));
    }
    lemma_find_is(s, '\n', a.len() as int);
    assert(s.take(a.len() as int) =~= a);
    assert(s.skip(n + 1) =~= b);
    let t = a + seq!['\r', '\n'] + b;
    assert forall|j: int| 0 <= j < a.len() + 1 implies t[j] != '\n' by {
        if j < a.len() {
            assert(a.contains(a[j]));
        }
    }
    lemma_find_is(t, '\n', n + 1);
    assert(t.take(n + 1) =~= a.push('\r'));
    assert(a.push('\r').take(a.len() as int) =~= a);
    assert(t.skip(n + 2) =~= b);
    assert forall|j: int| 0 <= j < a.len() implies a[j] != '\n' by {
        assert(a.contains(a[j]));
    }
    lemma_find_none(a, '\n');
}

/// Lowering a character twice is lowering it once; letters of either case
/// become the same, and nothing but the letters changes.
pub proof fn law_lower_forgets_the_case(c: char)
    ensures
        lower(lower(c)) == lower(c),
        0x41 <= c as u32 <= 0x5a ==> lower(c) as u32 == c as u32 + 0x20,
        !(0x41 <= c as u32 <= 0x5a) ==> lower(c) == c,
{
}

/// A plus sign changes no number; a minus sign negates it where it is read,
/// and without a sign a text is a number only where all of it is digits.
pub proof fn law_signs_of_numbers(d: Seq<char>, signed: bool)
    requires
        all_digits(d),
    ensures
        number(seq!['+'] + d, signed) == number(d, signed),
        number(d, signed) is Some,
        number(seq!['-'] + d, true) == Some(-number(d, true)->0),
        number(seq!['-'] + d, false) is None,
        number(Seq::<char>::empty(), signed) is None,
{
    assert((seq!['+'] + d).skip(1) =~= d);
    assert((seq!['-'] + d).skip(1) =~= d);
    assert(is_digit(d[0]));
    assert(!is_digit((seq!['-'] + d)[0]));
}

/// A further digit multiplies a number by ten and is added to it.
pub proof fn law_digits_are_decimal(d: Seq<char>, c: char)
    requires
        all_digits(d),
        is_digit(c),
    ensures
        number(d.push(c), false) == Some(number(d, false)->0 * 10 + (c as u32 - 0x30)),
{
    let e = d.push(c);
    assert(e.drop_last() =~= d);
    assert forall|i: int| 0 <= i < e.len() implies is_digit(#[trigger] e[i]) by {
        if i < d.len() {
            assert(is_digit(d[i]));
        }
    }
    assert(is_digit(d[0]) && is_digit(e[0]));
}

/// The sixteen hexadecimal digits have the values 0 to 15, letters in either
/// case, and no other character has one.
pub proof fn law_hexadecimal_digits(c: char)
    ensures
        hex_value(c) matches Some(v) ==> v < 16,
        hex_value(lower(c)) == hex_value(c),
        0x30 <= c as u32 <= 0x39 ==> hex_value(c) == Some((c as u32 - 0x30) as u8),
        0x61 <= c as u32 <= 0x66 ==> hex_value(c) == Some((c as u32 - 0x57) as u8),
        hex_value(c) is Some ==> is_digit(c) || 0x61 <= lower(c) as u32 <= 0x66,
{
}

/// In ASCII the white space is the blank and the five controls from the tab on;
/// beyond it, the next-line control, the spaces of every width, and the
/// separators of lines and paragraphs.
pub proof fn law_white_space_of_unicode(c: char)
    ensures
        (c as u32) < 0x80 ==> (white(c) <==> c == ' ' || c == '\t' || c == '\n' || c as u32 == 0x0b
            || c as u32 == 0x0c || c == '\r'),
        (c as u32) >= 0x80 ==> (white(c) <==> 0x2000 <= c as u32 <= 0x200a || seq![
            0x85u32,
            0xa0,
            0x1680,
            0x2028,
            0x2029,
            0x202f,
            0x205f,
            0x3000,
        ].contains(c as u32)),
{
    let others = seq![0x85u32, 0xa0, 0x1680, 0x2028, 0x2029, 0x202f, 0x205f, 0x3000];
    assert(others[0] == 0x85 && others[1] == 0xa0 && others[2] == 0x1680 && others[3] == 0x2028
        && others[4] == 0x2029 && others[5] == 0x202f && others[6] == 0x205f && others[7]
        == 0x3000);
}

} // verus!
