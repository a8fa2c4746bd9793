//! Environment variables as bytes, kept in the order of their names.

use vstd::prelude::*;

verus! {

/// One variable.
pub struct EnvVar {
    pub key: Vec<u8>,
    pub value: Vec<u8>,
}

/// What variables hold: the last of two with one name counts.
pub open spec fn held(vars: Seq<EnvVar>) -> Map<Seq<u8>, Seq<u8>>
    decreases vars.len(),
{
    if vars.len() == 0 {
        Map::empty()
    } else {
        held(vars.drop_last()).insert(vars.last().key@, vars.last().value@)
    }
}

/// `a` comes before `b` in the order of dictionaries.
pub open spec fn before(a: Seq<u8>, b: Seq<u8>) -> bool
    decreases a.len(),
{
    if b.len() == 0 {
        false
    } else if a.len() == 0 {
        true
    } else if a[0] != b[0] {
        a[0] < b[0]
    } else {
        before(a.skip(1), b.skip(1))
    }
}

pub proof fn lemma_before_total(a: Seq<u8>, b: Seq<u8>)
    ensures
        before(a, b) || before(b, a) || a == b,
        !(before(a, b) && before(b, a)),
        a == b ==> !before(a, b),
    decreases a.len(),
{
    if a.len() > 0 && b.len() > 0 && a[0] == b[0] {
        lemma_before_total(a.skip(1), b.skip(1));
        if a.skip(1) == b.skip(1) {
            assert(a =~= seq![a[0]] + a.skip(1));
            assert(b =~= seq![b[0]] + b.skip(1));
        }
    } else if a.len() == 0 && b.len() == 0 {
        assert(a =~= b);
    }
}

pub proof fn lemma_before_transitive(a: Seq<u8>, b: Seq<u8>, c: Seq<u8>)
    requires
        before(a, b),
        before(b, c),
    ensures
        before(a, c),
    decreases a.len(),
{
    if a.len() > 0 && a[0] == b[0] && b[0] == c[0] {
        lemma_before_transitive(a.skip(1), b.skip(1), c.skip(1));
    }
}

fn comes_before(a: &Vec<u8>, b: &Vec<u8>) -> (r: bool)
    ensures
        r == before(a@, b@),
{
    let mut i: usize = 0;
    assert(a@.skip(0) =~= a@ && b@.skip(0) =~= b@);
    while i < a.len() && i < b.len() && a[i] == b[i]
        invariant
            i <= a.len(),
            i <= b.len(),
            before(a@, b@) == before(a@.skip(i as int), b@.skip(i as int)),
        decreases a.len() - i,
    {
        assert(a@.skip(i as int).skip(1) =~= a@.skip(i + 1));
        assert(b@.skip(i as int).skip(1) =~= b@.skip(i + 1));
        i = i + 1;
    }
    if i >= b.len() {
        false
    } else if i >= a.len() {
        true
    } else {
        a[i] < b[i]
    }
}

/// The variables are in the order of their names, each name once.
pub open spec fn sorted(vars: Seq<EnvVar>) -> bool {
    forall|i: int, j: int|
        0 <= i < j < vars.len() ==> before((#[trigger] vars[i]).key@, (#[trigger] vars[j]).key@)
}

proof fn lemma_held_at(vars: Seq<EnvVar>, at: int)
    requires
        sorted(vars),
        0 <= at < vars.len(),
    ensures
        held(vars).contains_key(vars[at].key@),
        held(vars)[vars[at].key@] == vars[at].value@,
    decreases vars.len(),
{
    let head = vars.drop_last();
    if at < head.len() {
        assert(head[at] == vars[at]);
        assert(sorted(head)) by {
            assert forall|i: int, j: int| 0 <= i < j < head.len() implies before(
                (#[trigger] head[i]).key@,
                (#[trigger] head[j]).key@,
            ) by {
                assert(head[i] == vars[i] && head[j] == vars[j]);
            }
        }
        lemma_held_at(head, at);
        lemma_before_total(vars[at].key@, vars.last().key@);
    }
}

proof fn lemma_held_none(vars: Seq<EnvVar>, key: Seq<u8>)
    requires
        forall|i: int| 0 <= i < vars.len() ==> (#[trigger] vars[i]).key@ != key,
    ensures
        !held(vars).contains_key(key),
    decreases vars.len(),
{
    if vars.len() > 0 {
        let head = vars.drop_last();
        assert forall|i: int| 0 <= i < head.len() implies (#[trigger] head[i]).key@ != key by {
            assert(head[i] == vars[i]);
        }
        lemma_held_none(head, key);
        assert(vars[vars.len() - 1].key@ != key);
    }
}

/// A name that is held stands somewhere.
proof fn lemma_held_somewhere(vars: Seq<EnvVar>, key: Seq<u8>) -> (at: int)
    requires
        held(vars).contains_key(key),
    ensures
        0 <= at < vars.len(),
        vars[at].key@ == key,
{
    if forall|i: int| 0 <= i < vars.len() ==> (#[trigger] vars[i]).key@ != key {
        lemma_held_none(vars, key);
    }
    choose|i: int| 0 <= i < vars.len() && (#[trigger] vars[i]).key@ == key
}

/// Two lists in order that hold the same are written the same.
pub proof fn law_order_is_fixed(a: Seq<EnvVar>, b: Seq<EnvVar>)
    requires
        sorted(a),
        sorted(b),
        held(a) == held(b),
    ensures
        a.len() == b.len(),
        forall|i: int|
            0 <= i < a.len() ==> (#[trigger] a[i]).key@ == b[i].key@ && a[i].value@ == b[i].value@,
    decreases a.len(),
{
    if a.len() == 0 {
        if b.len() > 0 {
            lemma_held_at(b, 0);
        }
    } else if b.len() == 0 {
        lemma_held_at(a, 0);
    } else {
        let ka = a.last().key@;
        let kb = b.last().key@;
        lemma_held_at(a, a.len() - 1);
        lemma_held_at(b, b.len() - 1);
        let ia = lemma_held_somewhere(a, kb);
        let ib = lemma_held_somewhere(b, ka);
        lemma_before_total(ka, kb);
        if ia < a.len() - 1 {
            assert(before(a[ia].key@, a[a.len() - 1].key@));
        }
        if ib < b.len() - 1 {
            assert(before(b[ib].key@, b[b.len() - 1].key@));
        }
        assert(ka == kb);
        let ha = a.drop_last();
        let hb = b.drop_last();
        assert(sorted(ha)) by {
            assert forall|i: int, j: int| 0 <= i < j < ha.len() implies before(
                (#[trigger] ha[i]).key@,
                (#[trigger] ha[j]).key@,
            ) by {
                assert(ha[i] == a[i] && ha[j] == a[j]);
            }
        }
        assert(sorted(hb)) by {
            assert forall|i: int, j: int| 0 <= i < j < hb.len() implies before(
                (#[trigger] hb[i]).key@,
                (#[trigger] hb[j]).key@,
            ) by {
                assert(hb[i] == b[i] && hb[j] == b[j]);
            }
        }
        assert forall|i: int| 0 <= i < ha.len() implies (#[trigger] ha[i]).key@ != ka by {
            assert(before(a[i].key@, a[a.len() - 1].key@));
            lemma_before_total(a[i].key@, ka);
        }
        assert forall|i: int| 0 <= i < hb.len() implies (#[trigger] hb[i]).key@ != ka by {
            assert(before(b[i].key@, b[b.len() - 1].key@));
            lemma_before_total(b[i].key@, ka);
        }
        lemma_held_none(ha, ka);
        lemma_held_none(hb, ka);
        assert(held(ha) =~= held(a).remove(ka));
        assert(held(hb) =~= held(b).remove(ka));
        law_order_is_fixed(ha, hb);
        assert forall|i: int| 0 <= i < a.len() implies (#[trigger] a[i]).key@ == b[i].key@
            && a[i].value@ == b[i].value@ by {
            if i < ha.len() {
                assert(ha[i] == a[i] && hb[i] == b[i]);
            }
        }
    }
}

/// Where `key` stands, or belongs: the number of names before it.
fn place(vars: &Vec<EnvVar>, key: &Vec<u8>) -> (at: usize)
    requires
        sorted(vars@),
    ensures
        at <= vars@.len(),
        forall|i: int| 0 <= i < at ==> before((#[trigger] vars@[i]).key@, key@),
        forall|i: int| at <= i < vars@.len() ==> !before((#[trigger] vars@[i]).key@, key@),
{
    let mut at: usize = 0;
    while at < vars.len() && comes_before(&vars[at].key, key)
        invariant
            at <= vars@.len(),
            forall|i: int| 0 <= i < at ==> before((#[trigger] vars@[i]).key@, key@),
        decreases vars.len() - at,
    {
        at = at + 1;
    }
    proof {
        assert forall|i: int| at <= i < vars@.len() implies !before(
            (#[trigger] vars@[i]).key@,
            key@,
        ) by {
            if i > at && before(vars@[i].key@, key@) {
                lemma_before_transitive(vars@[at as int].key@, vars@[i].key@, key@);
            }
        }
    }
    at
}

fn equal(a: &Vec<u8>, b: &Vec<u8>) -> (r: bool)
    ensures
        r == (a@ == b@),
{
    if a.len() != b.len() {
        return false;
    }
    for i in 0..a.len()
        invariant
            a.len() == b.len(),
            forall|j: int| 0 <= j < i ==> a@[j] == b@[j],
    {
        if a[i] != b[i] {
            return false;
        }
    }
    assert(a@ =~= b@);
    true
}

/// The session's environment.
pub struct Environment {
    pub vars: Vec<EnvVar>,
}

impl View for Environment {
    type V = Map<Seq<u8>, Seq<u8>>;

    open spec fn view(&self) -> Map<Seq<u8>, Seq<u8>> {
        held(self.vars@)
    }
}

impl Environment {
    pub open spec fn wf(&self) -> bool {
        sorted(self.vars@)
    }

    pub fn new() -> (e: Self)
        ensures
            e.wf(),
            e@ == Map::<Seq<u8>, Seq<u8>>::empty(),
    {
        Environment { vars: Vec::new() }
    }

    /// The place of `key`, if it is set.
    fn find(&self, key: &Vec<u8>) -> (r: (usize, bool))
        requires
            self.wf(),
        ensures
            r.0 <= self.vars@.len(),
            forall|i: int| 0 <= i < r.0 ==> before((#[trigger] self.vars@[i]).key@, key@),
            forall|i: int| r.0 + r.1 as int <= i < self.vars@.len() ==> before(
                key@,
                (#[trigger] self.vars@[i]).key@,
            ),
            r.1 ==> r.0 < self.vars@.len() && self.vars@[r.0 as int].key@ == key@,
            r.1 == self@.contains_key(key@),
            r.1 ==> self@[key@] == self.vars@[r.0 as int].value@,
    {
        let at: usize = place(&self.vars, key);
        let there: bool = at < self.vars.len() && equal(&self.vars[at].key, key);
        proof {
            let s = self.vars@;
            assert forall|i: int| at + there as int <= i < s.len() implies before(
                key@,
                (#[trigger] s[i]).key@,
            ) by {
                lemma_before_total(key@, s[i].key@);
                if s[i].key@ == key@ && i > at {
                    assert(before(s[at as int].key@, s[i].key@));
                }
            }
            if there {
                lemma_held_at(s, at as int);
            } else {
                assert forall|i: int| 0 <= i < s.len() implies (#[trigger] s[i]).key@ != key@ by {
                    lemma_before_total(s[i].key@, key@);
                }
                lemma_held_none(s, key@);
            }
        }
        (at, there)
    }

    /// Sets a variable.
    pub fn insert(&mut self, key: Vec<u8>, value: Vec<u8>)
        requires
            old(self).wf(),
        ensures
            final(self).wf(),
            final(self)@ == old(self)@.insert(key@, value@),
    {
        let ghost s = self.vars@;
        let ghost k = key@;
        let ghost v = value@;
        let (at, there) = self.find(&key);
        if there {
            let var: EnvVar = EnvVar { key, value };
            self.vars.set(at, var);
        } else {
            self.vars.insert(at, EnvVar { key, value });
        }
        proof {
            let t = self.vars@;
            let gap: int = if there {
                0
            } else {
                1
            };
            assert forall|i: int, j: int| 0 <= i < j < t.len() implies before(
                (#[trigger] t[i]).key@,
                (#[trigger] t[j]).key@,
            ) by {
                if i != at && j != at {
                    let i0 = if i < at {
                        i
                    } else {
                        i - gap
                    };
                    let j0 = if j < at {
                        j
                    } else {
                        j - gap
                    };
                    assert(t[i] == s[i0] && t[j] == s[j0]);
                } else if i == at {
                    assert(t[j] == s[j - gap]);
                } else {
                    assert(t[i] == s[i]);
                }
            }
            assert(t[at as int].key@ == k && t[at as int].value@ == v);
            lemma_held_at(t, at as int);
            assert forall|q: Seq<u8>| #[trigger] held(t).contains_key(q) == held(s).insert(
                k,
                v,
            ).contains_key(q) && (held(t).contains_key(q) ==> held(t)[q] == held(s).insert(
                k,
                v,
            )[q]) by {
                if q != k {
                    if held(t).contains_key(q) {
                        let i = lemma_held_somewhere(t, q);
                        let i0 = if i < at {
                            i
                        } else {
                            i - gap
                        };
                        assert(t[i] == s[i0]);
                        lemma_held_at(t, i);
                        lemma_held_at(s, i0);
                    }
                    if held(s).contains_key(q) {
                        let i = lemma_held_somewhere(s, q);
                        let i1 = if i < at {
                            i
                        } else {
                            i + gap
                        };
                        assert(t[i1] == s[i]);
                        lemma_held_at(t, i1);
                    }
                }
            }
            assert(held(t) =~= held(s).insert(k, v));
        }
    }

    /// Sets a variable that is not set.
    pub fn set_default(&mut self, key: Vec<u8>, value: Vec<u8>)
        requires
            old(self).wf(),
        ensures
            final(self).wf(),
            final(self)@ == with_default(old(self)@, key@, value@),
    {
        if !self.find(&key).1 {
            self.insert(key, value);
        }
    }

    /// The value of a variable.
    pub fn get(&self, key: &Vec<u8>) -> (r: Option<&Vec<u8>>)
        requires
            self.wf(),
        ensures
            r is Some <==> self@.contains_key(key@),
            r matches Some(v) ==> v@ == self@[key@],
    {
        let (at, there) = self.find(key);
        if there {
            Some(&self.vars[at].value)
        } else {
            None
        }
    }
}

/// The variables with `key` set to `value` where it was not set.
pub open spec fn with_default(
    m: Map<Seq<u8>, Seq<u8>>,
    key: Seq<u8>,
    value: Seq<u8>,
) -> Map<Seq<u8>, Seq<u8>> {
    if m.contains_key(key) {
        m
    } else {
        m.insert(key, value)
    }
}

/// The order of names is that of a dictionary: where two first differ decides,
/// and a name comes before every longer one that it begins.
pub proof fn law_names_in_dictionary_order(p: Seq<u8>, a: u8, b: u8, s: Seq<u8>, t: Seq<u8>)
    requires
        a != b,
    ensures
        before(p + seq![a] + s, p + seq![b] + t) <==> a < b,
        before(p, p + seq![a] + s),
        !before(p + seq![a] + s, p),
    decreases p.len(),
{
    let x = p + seq![a] + s;
    let y = p + seq![b] + t;
    if p.len() > 0 {
        let q = p.skip(1);
        law_names_in_dictionary_order(q, a, b, s, t);
        assert(x.skip(1) =~= q + seq![a] + s);
        assert(y.skip(1) =~= q + seq![b] + t);
        assert(x[0] == p[0] && y[0] == p[0]);
    } else {
        assert(x[0] == a && y[0] == b);
    }
}

/// Of two variables of one name the later one counts, and setting a default
/// never changes a variable that is set.
pub proof fn law_later_variables_count(vars: Seq<EnvVar>, v: EnvVar, k: Seq<u8>, d: Seq<u8>)
    ensures
        held(vars.push(v))[v.key@] == v.value@,
        k != v.key@ ==> held(vars.push(v)).contains_key(k) == held(vars).contains_key(k),
        k != v.key@ && held(vars).contains_key(k) ==> held(vars.push(v))[k] == held(vars)[k],
        held(vars).contains_key(k) ==> with_default(held(vars), k, d)[k] == held(vars)[k],
        !held(vars).contains_key(k) ==> with_default(held(vars), k, d)[k] == d,
        with_default(held(vars), k, d).contains_key(k),
{
    assert(vars.push(v).drop_last() =~= vars);
}

} // verus!
