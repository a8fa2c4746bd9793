//! Where frames go: choosing between the terminal and the display hardware,
//! and driving the display.

use vstd::prelude::*;
use crate::config::OutputPref;
use crate::text::{chars_of, has_prefix, is_str, string_of};
use crate::text::{digits_value, is_digit, starts_with, texts};
use vstd::slice::slice_subrange;

verus! {

// ── Choice ───────────────────────────────────────────────────────────────

/// Which output to open.
#[derive(Clone, Copy, Debug, PartialEq, Eq, Structural)]
pub enum OutputChoice {
    Terminal,
    /// The display; a failure is reported.
    Drm,
    /// The display; the terminal where it cannot be opened.
    DrmElseTerminal,
}

/// What the override variable asks for.
pub open spec fn forced_output(var: Option<Seq<char>>) -> OutputPref {
    match var {
        Some(s) => if s == "drm"@ || s == "kms"@ {
            OutputPref::Drm
        } else if s == "terminal"@ || s == "term"@ {
            OutputPref::Terminal
        } else {
            OutputPref::Auto
        },
        None => OutputPref::Auto,
    }
}

/// The override wins over everything; a nested session is always a terminal;
/// then the configured preference; then SSH means terminal; else the display
/// is tried.
pub open spec fn chosen_output(
    forced: OutputPref,
    nested: bool,
    pref: OutputPref,
    ssh: bool,
) -> OutputChoice {
    if forced == OutputPref::Terminal {
        OutputChoice::Terminal
    } else if forced == OutputPref::Drm {
        OutputChoice::Drm
    } else if nested {
        OutputChoice::Terminal
    } else if pref == OutputPref::Terminal {
        OutputChoice::Terminal
    } else if pref == OutputPref::Drm {
        OutputChoice::Drm
    } else if ssh {
        OutputChoice::Terminal
    } else {
        OutputChoice::DrmElseTerminal
    }
}

/// Auto-detect best output backend for the environment. `var` is the override
/// variable, `nested` whether a compositor is around, `pref` the configured
/// preference, `ssh` whether the session is remote.
pub fn choose_output(var: &Option<String>, nested: bool, pref: OutputPref, ssh: bool) -> (c:
    OutputChoice)
    ensures
        c == chosen_output(
            forced_output(
                match *var {
                    Some(s) => Some(s@),
                    None => None,
                },
            ),
            nested,
            pref,
            ssh,
        ),
{
    let forced: OutputPref = match var {
        Some(s) => {
            let v: Vec<char> = chars_of(s.as_str());
            let c: &[char] = v.as_slice();
            if is_str(c, "drm") || is_str(c, "kms") {
                OutputPref::Drm
            } else if is_str(c, "terminal") || is_str(c, "term") {
                OutputPref::Terminal
            } else {
                OutputPref::Auto
            }
        },
        None => OutputPref::Auto,
    };
    if forced == OutputPref::Terminal {
        return OutputChoice::Terminal;
    }
    if forced == OutputPref::Drm {
        return OutputChoice::Drm;
    }
    if nested {
        return OutputChoice::Terminal;
    }
    match pref {
        OutputPref::Terminal => OutputChoice::Terminal,
        OutputPref::Drm => OutputChoice::Drm,
        OutputPref::Auto => if ssh {
            OutputChoice::Terminal
        } else {
            OutputChoice::DrmElseTerminal
        },
    }
}

/// Without an override, a nested session is never given the display, whatever
/// the configuration says.
pub proof fn law_nested_is_never_display(pref: OutputPref, ssh: bool)
    ensures
        chosen_output(OutputPref::Auto, true, pref, ssh) == OutputChoice::Terminal,
{
}

// ── Cards ────────────────────────────────────────────────────────────────

/// A primary node: `card` and a number.
pub open spec fn card_name(name: Seq<char>) -> bool {
    starts_with(name, "card"@) && forall|i: int|
        4 <= i < name.len() ==> is_digit(#[trigger] name[i])
}

/// The number of a card.
pub open spec fn card_number(name: Seq<char>) -> nat {
    digits_value(name.skip(4))
}

/// `x` put behind every card whose number is not greater.
pub open spec fn card_placed(s: Seq<Seq<char>>, x: Seq<char>) -> Seq<Seq<char>>
    decreases s.len(),
{
    if s.len() > 0 && card_number(x) < card_number(s.last()) {
        card_placed(s.drop_last(), x).push(s.last())
    } else {
        s.push(x)
    }
}

/// The cards among the names, by number.
pub open spec fn cards_in(names: Seq<Seq<char>>) -> Seq<Seq<char>>
    decreases names.len(),
{
    if names.len() == 0 {
        Seq::empty()
    } else if card_name(names.last()) {
        card_placed(cards_in(names.drop_last()), names.last())
    } else {
        cards_in(names.drop_last())
    }
}

/// The cards come out by number.
pub proof fn law_cards_are_in_order(names: Seq<Seq<char>>)
    ensures
        forall|i: int, j: int|
            0 <= i < j < cards_in(names).len() ==> card_number(#[trigger] cards_in(names)[i])
                <= card_number(#[trigger] cards_in(names)[j]),
    decreases names.len(),
{
    if names.len() > 0 {
        law_cards_are_in_order(names.drop_last());
        if card_name(names.last()) {
            lemma_card_placed(cards_in(names.drop_last()), names.last());
        }
    }
}

proof fn lemma_card_placed(s: Seq<Seq<char>>, x: Seq<char>)
    requires
        forall|i: int, j: int|
            0 <= i < j < s.len() ==> card_number(#[trigger] s[i]) <= card_number(#[trigger] s[j]),
    ensures
        forall|i: int, j: int|
            0 <= i < j < card_placed(s, x).len() ==> card_number(#[trigger] card_placed(s, x)[i])
                <= card_number(#[trigger] card_placed(s, x)[j]),
        card_placed(s, x).len() == s.len() + 1,
        forall|i: int|
            0 <= i < card_placed(s, x).len() ==> (#[trigger] card_placed(s, x)[i]) == x
                || s.contains(card_placed(s, x)[i]),
    decreases s.len(),
{
    let p = card_placed(s, x);
    if s.len() > 0 && card_number(x) < card_number(s.last()) {
        let d = s.drop_last();
        lemma_card_placed(d, x);
        let q = card_placed(d, x);
        assert forall|i: int| 0 <= i < p.len() implies (#[trigger] p[i]) == x || s.contains(
            p[i],
        ) by {
            if i < q.len() {
                assert(p[i] == q[i]);
                if q[i] != x {
                    assert(d.contains(q[i]));
                    let k = choose|k: int| 0 <= k < d.len() && d[k] == q[i];
                    assert(s[k] == q[i]);
                }
            } else {
                assert(s[s.len() - 1] == p[i]);
            }
        }
        assert forall|i: int, j: int| 0 <= i < j < p.len() implies card_number(#[trigger] p[i])
            <= card_number(#[trigger] p[j]) by {
            if j == q.len() {
                assert(p[i] == q[i]);
                if q[i] != x {
                    assert(d.contains(q[i]));
                    let k = choose|k: int| 0 <= k < d.len() && d[k] == q[i];
                    assert(s[k] == q[i]);
                    assert(card_number(s[k]) <= card_number(s[s.len() - 1]));
                }
            } else {
                assert(p[i] == q[i] && p[j] == q[j]);
            }
        }
    } else {
        assert forall|i: int, j: int| 0 <= i < j < p.len() implies card_number(#[trigger] p[i])
            <= card_number(#[trigger] p[j]) by {
            if j == s.len() {
                if i < s.len() - 1 {
                    assert(card_number(s[i]) <= card_number(s[s.len() - 1]));
                }
            } else {
                assert(p[i] == s[i] && p[j] == s[j]);
            }
        }
        assert forall|i: int| 0 <= i < p.len() implies (#[trigger] p[i]) == x || s.contains(
            p[i],
        ) by {
            if i < s.len() {
                assert(s[i] == p[i]);
            }
        }
    }
}

pub open spec fn ten_to(n: nat) -> nat
    decreases n,
{
    if n == 0 {
        1
    } else {
        10 * ten_to((n - 1) as nat)
    }
}

proof fn lemma_value_bounds(s: Seq<char>)
    requires
        forall|i: int| 0 <= i < s.len() ==> is_digit(#[trigger] s[i]),
    ensures
        digits_value(s) < ten_to(s.len()),
        s.len() > 0 && s[0] != '0' ==> 10 * digits_value(s) >= ten_to(s.len()),
        ten_to(s.len()) >= 1,
    decreases s.len(),
{
    if s.len() > 0 {
        assert forall|i: int| 0 <= i < s.drop_last().len() implies is_digit(
            #[trigger] s.drop_last()[i],
        ) by {
            assert(s.drop_last()[i] == s[i]);
        }
        lemma_value_bounds(s.drop_last());
        assert(is_digit(s[s.len() - 1]));
        if s.len() == 1 {
            assert(s.drop_last() =~= Seq::<char>::empty());
            assert(ten_to(0) == 1);
            assert(ten_to(1) == 10 * ten_to(0));
        }
    }
}

/// Two numbers with equally many digits compare by their first difference.
proof fn lemma_value_prefix(a: Seq<char>, b: Seq<char>)
    requires
        a.len() == b.len(),
        a.len() > 0,
        forall|i: int| 0 <= i < a.len() ==> is_digit(#[trigger] a[i]),
        forall|i: int| 0 <= i < b.len() ==> is_digit(#[trigger] b[i]),
    ensures
        digits_value(a.drop_last()) < digits_value(b.drop_last()) ==> digits_value(a)
            < digits_value(b),
        digits_value(a.drop_last()) == digits_value(b.drop_last()) ==> (digits_value(a)
            < digits_value(b) <==> a.last() < b.last()),
{
    assert(is_digit(a[a.len() - 1]));
    assert(is_digit(b[b.len() - 1]));
}

proof fn lemma_leading_zero(s: Seq<char>)
    requires
        s.len() > 0,
        s[0] == '0',
    ensures
        digits_value(s) == digits_value(s.skip(1)),
    decreases s.len(),
{
    if s.len() == 1 {
        assert(s.drop_last() =~= Seq::<char>::empty());
        assert(s.skip(1) =~= Seq::<char>::empty());
        reveal_with_fuel(digits_value, 2);
    } else {
        lemma_leading_zero(s.drop_last());
        assert(s.skip(1).drop_last() =~= s.drop_last().skip(1));
    }
}

fn without_zeros(s: &[char]) -> (r: &[char])
    ensures
        digits_value(r@) == digits_value(s@),
        r@.len() > 0 ==> r@[0] != '0',
        (forall|i: int| 0 <= i < s@.len() ==> is_digit(#[trigger] s@[i])) ==> forall|i: int|
            0 <= i < r@.len() ==> is_digit(#[trigger] r@[i]),
{
    let mut i: usize = 0;
    assert(s@.skip(0) =~= s@);
    while i < s.len() && s[i] == '0'
        invariant
            i <= s.len(),
            digits_value(s@.skip(i as int)) == digits_value(s@),
        decreases s.len() - i,
    {
        proof {
            lemma_leading_zero(s@.skip(i as int));
            assert(s@.skip(i as int).skip(1) =~= s@.skip(i + 1));
        }
        i = i + 1;
    }
    let r: &[char] = slice_subrange(s, i, s.len());
    assert(r@ =~= s@.skip(i as int));
    r
}

/// The number of `a` is less than that of `b`, both runs of digits.
fn lesser(a: &[char], b: &[char]) -> (r: bool)
    requires
        forall|i: int| 0 <= i < a@.len() ==> is_digit(#[trigger] a@[i]),
        forall|i: int| 0 <= i < b@.len() ==> is_digit(#[trigger] b@[i]),
    ensures
        r == (digits_value(a@) < digits_value(b@)),
{
    let x: &[char] = without_zeros(a);
    let y: &[char] = without_zeros(b);
    proof {
        lemma_value_bounds(x@);
        lemma_value_bounds(y@);
    }
    if x.len() != y.len() {
        proof {
            if x@.len() < y@.len() {
                lemma_ten_grows(x@.len(), y@.len());
            } else {
                lemma_ten_grows(y@.len(), x@.len());
            }
        }
        return x.len() < y.len();
    }
    let mut less: bool = false;
    let mut i: usize = 0;
    assert(x@.take(0) =~= y@.take(0));
    while i < x.len()
        invariant
            i <= x.len(),
            x.len() == y.len(),
            digits_value(x@) == digits_value(a@),
            digits_value(y@) == digits_value(b@),
            forall|k: int| 0 <= k < x@.len() ==> is_digit(#[trigger] x@[k]),
            forall|k: int| 0 <= k < y@.len() ==> is_digit(#[trigger] y@[k]),
            less == (digits_value(x@.take(i as int)) < digits_value(y@.take(i as int))),
            !less ==> x@.take(i as int) == y@.take(i as int),
        decreases x.len() - i,
    {
        proof {
            let p = x@.take(i + 1);
            let q = y@.take(i + 1);
            assert(p.drop_last() =~= x@.take(i as int));
            assert(q.drop_last() =~= y@.take(i as int));
            assert forall|k: int| 0 <= k < p.len() implies is_digit(#[trigger] p[k]) by {
                assert(p[k] == x@[k]);
            }
            assert forall|k: int| 0 <= k < q.len() implies is_digit(#[trigger] q[k]) by {
                assert(q[k] == y@[k]);
            }
            lemma_value_prefix(p, q);
        }
        if !less {
            if x[i] < y[i] {
                less = true;
            } else if x[i] > y[i] {
                proof {
                    let p = x@.take(i + 1);
                    let q = y@.take(i + 1);
                    lemma_value_prefix(q, p);
                    lemma_greater_stays(q, p, y@, x@, i + 1);
                    assert(x@.take(x.len() as int) =~= x@);
                    assert(y@.take(y.len() as int) =~= y@);
                }
                return false;
            } else {
                assert(x@.take(i + 1) =~= x@.take(i as int).push(x@[i as int]));
                assert(y@.take(i + 1) =~= y@.take(i as int).push(y@[i as int]));
            }
        }
        i = i + 1;
    }
    assert(x@.take(x.len() as int) =~= x@);
    assert(y@.take(y.len() as int) =~= y@);
    less
}

/// Once the first `k` digits make one number greater, the rest cannot undo it.
proof fn lemma_greater_stays(q: Seq<char>, p: Seq<char>, y: Seq<char>, x: Seq<char>, k: int)
    requires
        0 < k <= x.len(),
        x.len() == y.len(),
        p == x.take(k),
        q == y.take(k),
        forall|i: int| 0 <= i < x.len() ==> is_digit(#[trigger] x[i]),
        forall|i: int| 0 <= i < y.len() ==> is_digit(#[trigger] y[i]),
        digits_value(q) < digits_value(p),
    ensures
        digits_value(y) < digits_value(x),
    decreases x.len() - k,
{
    if k == x.len() {
        assert(x.take(k) =~= x);
        assert(y.take(k) =~= y);
    } else {
        let p2 = x.take(k + 1);
        let q2 = y.take(k + 1);
        assert(p2.drop_last() =~= p);
        assert(q2.drop_last() =~= q);
        assert forall|i: int| 0 <= i < p2.len() implies is_digit(#[trigger] p2[i]) by {
            assert(p2[i] == x[i]);
        }
        assert forall|i: int| 0 <= i < q2.len() implies is_digit(#[trigger] q2[i]) by {
            assert(q2[i] == y[i]);
        }
        lemma_value_prefix(q2, p2);
        lemma_greater_stays(q2, p2, y, x, k + 1);
    }
}

proof fn lemma_ten_grows(a: nat, b: nat)
    requires
        a < b,
    ensures
        10 * ten_to(a) <= ten_to(b),
    decreases b,
{
    if a + 1 < b {
        lemma_ten_grows(a, (b - 1) as nat);
    }
}

fn is_card(name: &[char]) -> (r: bool)
    ensures
        r == card_name(name@),
{
    let prefix: Vec<char> = chars_of("card");
    if !has_prefix(name, prefix.as_slice()) {
        return false;
    }
    proof {
        reveal_strlit("card");
    }
    let mut i: usize = 4;
    while i < name.len()
        invariant
            4 <= i <= name.len(),
            forall|j: int| 4 <= j < i ==> is_digit(#[trigger] name@[j]),
        decreases name.len() - i,
    {
        let c: char = name[i];
        if !('0' <= c && c <= '9') {
            assert(!is_digit(name@[i as int]));
            return false;
        }
        i = i + 1;
    }
    true
}

pub open spec fn char_lists(v: Seq<Vec<char>>) -> Seq<Seq<char>> {
    Seq::new(v.len(), |i: int| v[i]@)
}

/// Enumerate primary nodes among the names of a directory, numerically sorted.
pub fn list_cards(names: &Vec<String>) -> (r: Vec<String>)
    ensures
        r@.len() == cards_in(texts(names@)).len(),
        forall|i: int|
            0 <= i < r@.len() ==> (#[trigger] r@[i])@ == "/dev/dri/"@ + cards_in(texts(names@))[i],
{
    let ghost all = texts(names@);
    let mut cards: Vec<Vec<char>> = Vec::new();
    assert(all.take(0) =~= Seq::<Seq<char>>::empty());
    proof {
        reveal_strlit("card");
    }
    for k in 0..names.len()
        invariant
            all == texts(names@),
            "card"@.len() == 4,
            char_lists(cards@) =~= cards_in(all.take(k as int)),
            forall|i: int| 0 <= i < cards@.len() ==> card_name((#[trigger] cards@[i])@),
    {
        assert(all.take(k + 1).drop_last() =~= all.take(k as int));
        let name: Vec<char> = chars_of(names[k].as_str());
        if is_card(name.as_slice()) {
            let ghost before = cards@;
            let number: &[char] = slice_subrange(name.as_slice(), 4, name.len());
            assert(number@ =~= name@.skip(4));
            assert forall|i: int| 0 <= i < number@.len() implies is_digit(
                #[trigger] number@[i],
            ) by {
                assert(is_digit(name@[i + 4]));
            }
            let mut at: usize = cards.len();
            while at > 0
                invariant_except_break
                    at <= cards.len(),
                    forall|j: int|
                        at <= j < cards@.len() ==> card_number(name@) < card_number(
                            #[trigger] cards@[j]@,
                        ),
                invariant
                    at <= cards.len(),
                    "card"@.len() == 4,
                    number@ == name@.skip(4),
                    forall|i: int| 0 <= i < number@.len() ==> is_digit(#[trigger] number@[i]),
                    forall|i: int| 0 <= i < cards@.len() ==> card_name((#[trigger] cards@[i])@),
                    forall|j: int|
                        at <= j < cards@.len() ==> card_number(name@) < card_number(
                            #[trigger] cards@[j]@,
                        ),
                ensures
                    at > 0 ==> !(card_number(name@) < card_number(cards@[at - 1]@)),
                decreases at,
            {
                assert(card_name(cards@[at - 1]@));
                let other: &[char] = slice_subrange(
                    cards[at - 1].as_slice(),
                    4,
                    cards[at - 1].len(),
                );
                assert(other@ =~= cards@[at - 1]@.skip(4));
                assert forall|i: int| 0 <= i < other@.len() implies is_digit(
                    #[trigger] other@[i],
                ) by {
                    assert(is_digit(cards@[at - 1]@[i + 4]));
                }
                if !lesser(number, other) {
                    break;
                }
                at = at - 1;
            }
            let ghost x = name@;
            proof {
                let s = char_lists(before);
                assert forall|j: int| at <= j < s.len() implies card_number(x) < card_number(
                    #[trigger] s[j],
                ) by {
                    assert(s[j] == before[j]@);
                }
                lemma_card_placed_at(s, x, at as int);
            }
            cards.insert(at, name);
            assert(char_lists(cards@) =~= char_lists(before).insert(at as int, x));
        }
    }
    assert(all.take(names.len() as int) =~= all);
    let mut out: Vec<String> = Vec::new();
    for i in 0..cards.len()
        invariant
            out.len() == i,
            forall|j: int|
                0 <= j < i ==> (#[trigger] out@[j])@ == "/dev/dri/"@ + char_lists(cards@)[j],
    {
        let mut p: Vec<char> = chars_of("/dev/dri/");
        crate::text::append_chars(&mut p, cards[i].as_slice());
        out.push(string_of(p.as_slice()));
    }
    out
}

proof fn lemma_card_placed_at(s: Seq<Seq<char>>, x: Seq<char>, at: int)
    requires
        0 <= at <= s.len(),
        forall|j: int| at <= j < s.len() ==> card_number(x) < card_number(#[trigger] s[j]),
        at > 0 ==> !(card_number(x) < card_number(s[at - 1])),
    ensures
        card_placed(s, x) == s.insert(at, x),
    decreases s.len(),
{
    if at < s.len() {
        lemma_card_placed_at(s.drop_last(), x, at);
        assert(s.drop_last().insert(at, x).push(s.last()) =~= s.insert(at, x));
    } else {
        assert(s.push(x) =~= s.insert(at, x));
    }
}

// ── Page flips ───────────────────────────────────────────────────────────

/// What came of asking for a page flip.
#[derive(Clone, Copy, Debug, PartialEq, Eq, Structural)]
pub enum FlipResult {
    Queued,
    /// The previous flip has not retired yet: the frame is dropped.
    Busy,
    Failed,
}

/// Double buffering with asynchronous page flips.
#[derive(Clone, Copy, Debug, PartialEq, Eq, Structural)]
pub struct DrmOutput {
    pub width: u32,
    pub height: u32,
    /// The buffer to draw into next, not currently scanned out.
    pub back: usize,
    /// A page flip is queued; its completion has not been seen yet.
    pub flip_pending: bool,
}

impl DrmOutput {
    /// There are two buffers.
    pub open spec fn wf(self) -> bool {
        self.back < 2
    }

    /// The buffer being scanned out.
    pub open spec fn front(self) -> int {
        1 - self.back
    }

    /// Buffer 0 is scanned out; buffer 1 is drawn into first.
    pub fn new(width: u32, height: u32) -> (d: Self)
        ensures
            d == (DrmOutput { width, height, back: 1, flip_pending: false }),
            d.wf(),
    {
        DrmOutput { width, height, back: 1, flip_pending: false }
    }

    pub fn get_size(&self) -> (r: (u32, u32))
        ensures
            r == (self.width, self.height),
    {
        (self.width, self.height)
    }

    /// The buffer that is scanned out, to set again after a switch back.
    pub fn front_buffer(&self) -> (r: usize)
        requires
            self.wf(),
        ensures
            r == self.front(),
            r < 2,
            r != self.back,
    {
        1 - self.back
    }

    /// The buffer to set again after a switch back, where the session is in
    /// front.
    pub fn on_vt_switch(&self, switch_in: bool, active: bool) -> (r: Option<usize>)
        requires
            self.wf(),
        ensures
            match r {
                Some(b) => switch_in && active && b == self.front(),
                None => !(switch_in && active),
            },
    {
        if switch_in && active {
            Some(self.front_buffer())
        } else {
            None
        }
    }

    /// Events were drained; `any` says whether there was one.
    pub fn drained(&mut self, any: bool)
        ensures
            *final(self) == (DrmOutput {
                flip_pending: old(self).flip_pending && !any,
                ..*old(self)
            }),
    {
        if self.flip_pending && any {
            self.flip_pending = false;
        }
    }

    /// A page flip was asked for: where it was queued, the buffers trade
    /// places. Returns whether the frame loop goes on.
    pub fn flipped(&mut self, result: FlipResult) -> (ok: bool)
        requires
            old(self).wf(),
            !old(self).flip_pending,
        ensures
            final(self).wf(),
            ok <==> result != FlipResult::Failed,
            *final(self) == (if result == FlipResult::Queued {
                DrmOutput { back: (1 - old(self).back) as usize, flip_pending: true, ..*old(self) }
            } else {
                *old(self)
            }),
    {
        match result {
            FlipResult::Queued => {
                self.flip_pending = true;
                self.back = 1 - self.back;
                true
            },
            FlipResult::Busy => true,
            FlipResult::Failed => false,
        }
    }
}

// ── Display ──────────────────────────────────────────────────────────────

/// A connector of a card: whether a display is connected, and its modes, the
/// preferred first.
pub struct ConnectorInfo {
    pub connected: bool,
    pub modes: Vec<(u16, u16)>,
}

/// Why a card cannot show anything.
#[derive(Clone, Copy, Debug, PartialEq, Eq, Structural)]
pub enum CardError {
    NoDisplay,
    NoMode,
    NoCrtc,
}

pub open spec fn first_connected(cs: Seq<ConnectorInfo>, i: int) -> bool {
    &&& 0 <= i < cs.len()
    &&& cs[i].connected
    &&& forall|j: int| 0 <= j < i ==> !(#[trigger] cs[j]).connected
}

/// The first connector with a display, and the size of its preferred mode.
pub fn choose_connector(connectors: &Vec<ConnectorInfo>) -> (r: Result<
    (usize, u32, u32),
    CardError,
>)
    ensures
        match r {
            Ok((i, w, h)) => first_connected(connectors@, i as int)
                && connectors@[i as int].modes@.len() > 0 && w == connectors@[i as int].modes@[0].0
                && h == connectors@[i as int].modes@[0].1,
            Err(e) => e == CardError::NoDisplay && (forall|j: int|
                0 <= j < connectors@.len() ==> !(#[trigger] connectors@[j]).connected) || e
                == CardError::NoMode && (exists|i: int|
                #[trigger] first_connected(connectors@, i) && connectors@[i].modes@.len() == 0),
        },
{
    for i in 0..connectors.len()
        invariant
            forall|j: int| 0 <= j < i ==> !(#[trigger] connectors@[j]).connected,
    {
        if connectors[i].connected {
            assert(first_connected(connectors@, i as int));
            if connectors[i].modes.len() == 0 {
                return Err(CardError::NoMode);
            }
            let (w, h) = connectors[i].modes[0];
            return Ok((i, w as u32, h as u32));
        }
    }
    Err(CardError::NoDisplay)
}

/// The first controller that one of the connector's encoders can drive.
/// `compatible` lists, for each encoder in order, the controllers it can.
pub open spec fn first_crtc(compatible: Seq<Vec<u32>>) -> Option<u32>
    decreases compatible.len(),
{
    if compatible.len() == 0 {
        None
    } else if compatible[0]@.len() > 0 {
        Some(compatible[0]@[0])
    } else {
        first_crtc(compatible.skip(1))
    }
}

pub fn choose_crtc(compatible: &Vec<Vec<u32>>) -> (r: Result<u32, CardError>)
    ensures
        r == (match first_crtc(compatible@) {
            Some(c) => Ok(c),
            None => Err(CardError::NoCrtc),
        }),
{
    let ghost all = compatible@;
    assert(all.skip(0) =~= all);
    for i in 0..compatible.len()
        invariant
            all == compatible@,
            first_crtc(all) == first_crtc(all.skip(i as int)),
    {
        assert(all.skip(i as int)[0] == all[i as int]);
        assert(all.skip(i as int).skip(1) =~= all.skip(i + 1));
        if compatible[i].len() > 0 {
            return Ok(compatible[i][0]);
        }
    }
    Err(CardError::NoCrtc)
}

// ── Seat ─────────────────────────────────────────────────────────────────

/// What the seat tells its session.
#[derive(Clone, Copy, Debug, PartialEq, Eq, Structural)]
pub enum SeatEvent {
    Enable,
    Disable,
}

/// Whether the session is in the foreground. Sessions without a seat always
/// are.
#[derive(Clone, Copy, Debug, PartialEq, Eq, Structural)]
pub struct SessionState {
    pub active: bool,
}

impl SessionState {
    /// A session without a seat.
    pub fn new() -> (s: Self)
        ensures
            s.active,
    {
        SessionState { active: true }
    }

    /// A seat is being opened: it is not active until it says so.
    pub fn opening(&mut self)
        ensures
            !final(self).active,
    {
        self.active = false;
    }

    /// Follows a seat event. Returns whether the event has to be acknowledged.
    pub fn on_event(&mut self, event: SeatEvent) -> (acknowledge: bool)
        ensures
            final(self).active == (event == SeatEvent::Enable),
            acknowledge == (event == SeatEvent::Disable),
    {
        match event {
            SeatEvent::Enable => {
                self.active = true;
                false
            },
            SeatEvent::Disable => {
                self.active = false;
                true
            },
        }
    }
}

/// Whether the session is currently in the foreground: input is forwarded and
/// frames are drawn only then.
pub fn session_active(s: &SessionState) -> (r: bool)
    ensures
        r == s.active,
{
    s.active
}

// ── Scan-out ─────────────────────────────────────────────────────────────

pub open spec fn least(a: u32, b: u32) -> int {
    if a < b {
        a as int
    } else {
        b as int
    }
}

/// Byte `k` of row `y` of the display: blue, green, red, unused from the frame
/// where they overlap, zero elsewhere.
pub open spec fn scan_byte(src: Seq<u8>, dw: u32, dh: u32, sw: u32, sh: u32, y: int, k: int) -> u8 {
    if y < least(dh, sh) && k / 4 < least(dw, sw) && k % 4 < 3 {
        src[y * (sw * 4) + 4 * (k / 4) + 2 - k % 4]
    } else {
        0
    }
}

/// `dst` with its first `n` rows written.
pub open spec fn scanned(
    dst: Seq<u8>,
    pitch: int,
    dw: u32,
    dh: u32,
    src: Seq<u8>,
    sw: u32,
    sh: u32,
    n: int,
) -> Seq<u8>
    decreases n,
{
    if n <= 0 {
        dst
    } else {
        let before = scanned(dst, pitch, dw, dh, src, sw, sh, n - 1);
        Seq::new(
            dst.len(),
            |k: int|
                if (n - 1) * pitch <= k < (n - 1) * pitch + dw * 4 {
                    scan_byte(src, dw, dh, sw, sh, n - 1, k - (n - 1) * pitch)
                } else {
                    before[k]
                },
        )
    }
}

proof fn lemma_scanned_len(
    dst: Seq<u8>,
    pitch: int,
    dw: u32,
    dh: u32,
    src: Seq<u8>,
    sw: u32,
    sh: u32,
    n: int,
)
    ensures
        scanned(dst, pitch, dw, dh, src, sw, sh, n).len() == dst.len(),
    decreases n,
{
}

/// Every row of the display lies in the buffer, and every row that is copied
/// lies in the frame.
pub open spec fn scan_fits(
    dst_len: int,
    pitch: int,
    dw: u32,
    dh: u32,
    src_len: int,
    sw: u32,
    sh: u32,
) -> bool {
    &&& dh > 0 ==> (dh - 1) * pitch + dw * 4 <= dst_len
    &&& least(dh, sh) > 0 ==> least(dh, sh) * (sw * 4) <= src_len
}

/// Repack compositor RGBA (R,G,B,A) into XRGB8888 little-endian (B,G,R,X),
/// honouring the destination pitch and clipping to the overlap of frame and
/// display; the rest of the display is black.
pub fn blit_rgba_to_xrgb(
    dst: &mut [u8],
    pitch: usize,
    dw: u32,
    dh: u32,
    src: &[u8],
    sw: u32,
    sh: u32,
)
    requires
        scan_fits(
            old(dst).len() as int,
            pitch as int,
            dw,
            dh,
            src.len() as int,
            sw,
            sh,
        ),
    ensures
        final(dst)@ == scanned(old(dst)@, pitch as int, dw, dh, src@, sw, sh, dh as int),
{
    let ghost start = dst@;
    let copy_h: u32 = if dh < sh {
        dh
    } else {
        sh
    };
    let copy_w: u32 = if dw < sw {
        dw
    } else {
        sw
    };
    let mut y: u32 = 0;
    let mut drow: usize = 0;
    let mut srow: usize = 0;
    assert(0 * pitch == 0) by (nonlinear_arith);
    assert(0 * (sw * 4) == 0) by (nonlinear_arith);
    while y < dh
        invariant
            y <= dh,
            dst.len() == start.len(),
            copy_h == least(dh, sh),
            copy_w == least(dw, sw),
            scan_fits(start.len() as int, pitch as int, dw, dh, src.len() as int, sw, sh),
            y < dh ==> drow == y * pitch,
            y < copy_h ==> srow == y * (sw * 4),
            dst@ == scanned(start, pitch as int, dw, dh, src@, sw, sh, y as int),
        decreases dh - y,
    {
        let ghost mid = dst@;
        assert(y * pitch <= (dh - 1) * pitch) by (nonlinear_arith)
            requires
                y <= dh - 1,
                0 <= pitch,
        ;
        if y < copy_h {
            assert(y * (sw * 4) + sw * 4 <= copy_h * (sw * 4)) by (nonlinear_arith)
                requires
                    y + 1 <= copy_h,
                    0 <= sw,
            ;
        }
        let mut x: u32 = 0;
        while x < dw
            invariant
                y < dh,
                x <= dw,
                dst.len() == start.len(),
                mid.len() == start.len(),
                copy_h == least(dh, sh),
                copy_w == least(dw, sw),
                drow == y * pitch,
                drow + dw * 4 <= dst.len(),
                y < copy_h ==> srow == y * (sw * 4) && srow + sw * 4 <= src.len(),
                forall|k: int|
                    0 <= k < dst.len() ==> #[trigger] dst@[k] == (if drow <= k < drow + 4 * x {
                        scan_byte(src@, dw, dh, sw, sh, y as int, k - drow)
                    } else {
                        mid[k]
                    }),
            decreases dw - x,
        {
            let d: usize = drow + 4 * (x as usize);
            let ghost prev = dst@;
            if y < copy_h && x < copy_w {
                let s: usize = srow + 4 * (x as usize);
                dst[d] = src[s + 2];
                dst[d + 1] = src[s + 1];
                dst[d + 2] = src[s];
                dst[d + 3] = 0;
            } else {
                dst[d] = 0;
                dst[d + 1] = 0;
                dst[d + 2] = 0;
                dst[d + 3] = 0;
            }
            assert forall|k: int| 0 <= k < dst.len() implies #[trigger] dst@[k] == (if drow <= k
                < drow + 4 * (x + 1) {
                scan_byte(src@, dw, dh, sw, sh, y as int, k - drow)
            } else {
                mid[k]
            }) by {
                if d <= k < d + 4 {
                    assert((k - drow) / 4 == x);
                    assert((k - drow) % 4 == k - d);
                } else {
                    assert(dst@[k] == prev[k]);
                }
            }
            x = x + 1;
        }
        assert(dst@ =~= scanned(start, pitch as int, dw, dh, src@, sw, sh, y + 1)) by {
            lemma_scanned_len(start, pitch as int, dw, dh, src@, sw, sh, y as int);
        }
        if y + 1 < dh {
            assert((y + 1) * pitch == y * pitch + pitch && (y + 1) * pitch <= (dh - 1) * pitch)
                by (nonlinear_arith)
                requires
                    y + 1 <= dh - 1,
                    0 <= pitch,
            ;
            drow = drow + pitch;
        }
        if y + 1 < copy_h {
            assert((y + 1) * (sw * 4) == y * (sw * 4) + sw * 4) by (nonlinear_arith);
            srow = srow + 4 * (sw as usize);
        }
        y = y + 1;
    }
}

/// The override in the environment wins over everything else.
pub proof fn law_override_wins(nested: bool, pref: OutputPref, ssh: bool)
    ensures
        chosen_output(OutputPref::Drm, nested, pref, ssh) == OutputChoice::Drm,
        chosen_output(OutputPref::Terminal, nested, pref, ssh) == OutputChoice::Terminal,
{
}

/// Outside another session and without an override the configuration decides;
/// where it leaves the choice open, a remote session gets the terminal, and a
/// local one the display with the terminal to fall back on.
pub proof fn law_configuration_decides(ssh: bool)
    ensures
        chosen_output(OutputPref::Auto, false, OutputPref::Terminal, ssh) == OutputChoice::Terminal,
        chosen_output(OutputPref::Auto, false, OutputPref::Drm, ssh) == OutputChoice::Drm,
        chosen_output(OutputPref::Auto, false, OutputPref::Auto, ssh) == OutputChoice::Terminal
            <==> ssh,
        chosen_output(OutputPref::Auto, false, OutputPref::Auto, ssh)
            == OutputChoice::DrmElseTerminal <==> !ssh,
{
}

/// The variable names outputs as the configuration does, and forces none where
/// it is not set.
pub proof fn law_override_is_named_alike(s: Seq<char>)
    ensures
        forced_output(Some(s)) == crate::config::output_named(s),
        forced_output(None) == OutputPref::Auto,
{
}

/// A card is named by its number, and numbers of any length are told apart.
pub proof fn law_cards_are_named_by_number(n: nat)
    ensures
        card_name("card"@ + crate::text::decimal(n)),
        card_number("card"@ + crate::text::decimal(n)) == n,
{
    reveal_strlit("card");
    let d = crate::text::decimal(n);
    let name = "card"@ + d;
    crate::text::law_decimal_reads_back(n);
    assert(name.subrange(0, 4) =~= "card"@);
    assert(name.skip(4) =~= d);
    assert forall|i: int| 4 <= i < name.len() implies is_digit(#[trigger] name[i]) by {
        assert(name[i] == d[i - 4]);
        assert(is_digit(d[i - 4]));
    }
}

/// Every card among the names is listed, and nothing else is.
pub proof fn law_all_cards_are_listed(names: Seq<Seq<char>>)
    ensures
        forall|x: Seq<char>| #[trigger]
            cards_in(names).contains(x) <==> names.contains(x) && card_name(x),
    decreases names.len(),
{
    if names.len() > 0 {
        let d = names.drop_last();
        let last = names.last();
        law_all_cards_are_listed(d);
        let c = cards_in(d);
        assert forall|x: Seq<char>| #[trigger]
            cards_in(names).contains(x) <==> names.contains(x) && card_name(x) by {
            assert(names.contains(x) <==> d.contains(x) || x == last) by {
                if names.contains(x) {
                    let k = choose|k: int| 0 <= k < names.len() && names[k] == x;
                    if k < d.len() {
                        assert(d[k] == x);
                    }
                }
                if d.contains(x) {
                    let k = choose|k: int| 0 <= k < d.len() && d[k] == x;
                    assert(names[k] == x);
                }
                assert(names[names.len() - 1] == last);
            }
            if card_name(last) {
                lemma_placed_holds(c, last, x);
            }
        }
    }
}

proof fn lemma_placed_holds(s: Seq<Seq<char>>, x: Seq<char>, y: Seq<char>)
    ensures
        card_placed(s, x).contains(y) <==> s.contains(y) || y == x,
    decreases s.len(),
{
    let p = card_placed(s, x);
    if s.len() > 0 && card_number(x) < card_number(s.last()) {
        let d = s.drop_last();
        let q = card_placed(d, x);
        lemma_placed_holds(d, x, y);
        if q.contains(y) {
            let k = choose|k: int| 0 <= k < q.len() && q[k] == y;
            assert(p[k] == y);
        }
        assert(p[q.len() as int] == s.last());
        if p.contains(y) {
            let k = choose|k: int| 0 <= k < p.len() && p[k] == y;
            if k < q.len() {
                assert(q[k] == y);
            }
        }
        if d.contains(y) {
            let k = choose|k: int| 0 <= k < d.len() && d[k] == y;
            assert(s[k] == y);
        }
        if s.contains(y) {
            let k = choose|k: int| 0 <= k < s.len() && s[k] == y;
            if k < d.len() {
                assert(d[k] == y);
            }
        }
        assert(s[s.len() - 1] == s.last());
    } else {
        assert(p[s.len() as int] == x);
        if s.contains(y) {
            let k = choose|k: int| 0 <= k < s.len() && s[k] == y;
            assert(p[k] == y);
        }
        if p.contains(y) {
            let k = choose|k: int| 0 <= k < p.len() && p[k] == y;
            if k < s.len() {
                assert(s[k] == y);
            }
        }
    }
}

/// The controller is the first of the first encoder that can drive any.
pub proof fn law_first_usable_controller(a: Seq<Vec<u32>>, b: Seq<Vec<u32>>)
    ensures
        (forall|i: int| 0 <= i < a.len() ==> (#[trigger] a[i])@.len() == 0) ==> first_crtc(a + b)
            == first_crtc(b),
        b.len() > 0 && b[0]@.len() > 0 ==> first_crtc(b) == Some(b[0]@[0]),
        first_crtc(Seq::<Vec<u32>>::empty()) is None,
    decreases a.len(),
{
    if a.len() == 0 {
        assert(a + b =~= b);
    } else if forall|i: int| 0 <= i < a.len() ==> (#[trigger] a[i])@.len() == 0 {
        let t = a.skip(1);
        assert forall|i: int| 0 <= i < t.len() implies (#[trigger] t[i])@.len() == 0 by {
            assert(a[i + 1] == t[i]);
        }
        law_first_usable_controller(t, b);
        assert((a + b)[0] == a[0]);
        assert(a[0]@.len() == 0);
        assert((a + b).skip(1) =~= t + b);
    }
}

/// A pixel of the display shows the frame's pixel of the same row and column,
/// blue, green and red in that order; beside the frame it is black, and bytes
/// behind a row of the display stay as they were.
pub proof fn law_display_shows_the_frame(
    dst: Seq<u8>,
    pitch: int,
    dw: u32,
    dh: u32,
    src: Seq<u8>,
    sw: u32,
    sh: u32,
    n: int,
    x: int,
    y: int,
)
    requires
        pitch >= 4 * dw,
        0 <= y < n <= dh,
        0 <= x < dw,
        n * pitch <= dst.len(),
    ensures
        ({
            let out = scanned(dst, pitch, dw, dh, src, sw, sh, n);
            let d = y * pitch + 4 * x;
            let s = 4 * (y * sw + x);
            &&& out.len() == dst.len()
            &&& x < sw && y < sh ==> out[d] == src[s + 2] && out[d + 1] == src[s + 1] && out[d + 2]
                == src[s] && out[d + 3] == 0
            &&& x >= sw || y >= sh ==> out[d] == 0 && out[d + 1] == 0 && out[d + 2] == 0 && out[d
                + 3] == 0
            &&& forall|k: int|
                y * pitch + 4 * dw <= k < (y + 1) * pitch ==> #[trigger] out[k] == dst[k]
        }),
    decreases n,
{
    lemma_scanned_len(dst, pitch, dw, dh, src, sw, sh, n);
    lemma_scanned_len(dst, pitch, dw, dh, src, sw, sh, n - 1);
    let out = scanned(dst, pitch, dw, dh, src, sw, sh, n);
    let before = scanned(dst, pitch, dw, dh, src, sw, sh, n - 1);
    let d = y * pitch + 4 * x;
    assert(0 <= y * pitch && (y + 1) * pitch == y * pitch + pitch && y * pitch + pitch <= n * pitch)
        by (nonlinear_arith)
        requires
            0 <= y < n,
            pitch >= 0,
    ;
    assert(y * (sw * 4) == 4 * (y * sw)) by (nonlinear_arith);
    if y == n - 1 {
        assert(out[d + 0] == scan_byte(src, dw, dh, sw, sh, y, 4 * x + 0));
        assert(out[d + 1] == scan_byte(src, dw, dh, sw, sh, y, 4 * x + 1));
        assert(out[d + 2] == scan_byte(src, dw, dh, sw, sh, y, 4 * x + 2));
        assert(out[d + 3] == scan_byte(src, dw, dh, sw, sh, y, 4 * x + 3));
        lemma_later_rows_untouched(dst, pitch, dw, dh, src, sw, sh, n - 1);
    } else {
        assert((n - 1) * pitch >= (y + 1) * pitch && (n - 1) * pitch <= dst.len()) by (
        nonlinear_arith)
            requires
                y + 1 <= n - 1,
                pitch >= 0,
                n * pitch <= dst.len(),
        ;
        law_display_shows_the_frame(dst, pitch, dw, dh, src, sw, sh, n - 1, x, y);
    }
}

proof fn lemma_later_rows_untouched(
    dst: Seq<u8>,
    pitch: int,
    dw: u32,
    dh: u32,
    src: Seq<u8>,
    sw: u32,
    sh: u32,
    n: int,
)
    requires
        pitch >= 4 * dw,
        0 <= n,
    ensures
        forall|k: int|
            n * pitch <= k < dst.len() ==> #[trigger] scanned(
                dst,
                pitch,
                dw,
                dh,
                src,
                sw,
                sh,
                n,
            )[k] == dst[k],
    decreases n,
{
    if n > 0 {
        lemma_later_rows_untouched(dst, pitch, dw, dh, src, sw, sh, n - 1);
        lemma_scanned_len(dst, pitch, dw, dh, src, sw, sh, n - 1);
        assert((n - 1) * pitch + pitch == n * pitch && 0 <= (n - 1) * pitch) by (nonlinear_arith)
            requires
                n >= 1,
                pitch >= 0,
        ;
    }
}

} // verus!
