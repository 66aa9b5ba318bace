//! Ordered lists of byte-string name/value pairs in which a later entry for a
//! name replaces earlier ones. Header carriers and baggage are both built on it.
use vstd::prelude::*;

verus! {

/// The abstract form of an entry list: a sequence of (name, value) byte strings.
pub type PairSeq = Seq<(Seq<u8>, Seq<u8>)>;

/// The abstract form of a vector of (name, value) byte vectors.
pub open spec fn view_pairs(s: Seq<(Vec<u8>, Vec<u8>)>) -> PairSeq {
    Seq::new(s.len(), |i: int| (s[i].0@, s[i].1@))
}

/// The value recorded for `name`: the one of the last entry that has it.
pub open spec fn lookup(s: PairSeq, name: Seq<u8>) -> Option<Seq<u8>>
    decreases s.len(),
{
    if s.len() == 0 {
        None
    } else if s.last().0 == name {
        Some(s.last().1)
    } else {
        lookup(s.drop_last(), name)
    }
}

/// `s` with every entry named `name` taken out, the others kept in order.
pub open spec fn without(s: PairSeq, name: Seq<u8>) -> PairSeq
    decreases s.len(),
{
    if s.len() == 0 {
        s
    } else if s.last().0 == name {
        without(s.drop_last(), name)
    } else {
        without(s.drop_last(), name).push(s.last())
    }
}

/// `s` after setting `name` to `value`: older entries of that name are dropped
/// and the new one goes last.
pub open spec fn put(s: PairSeq, name: Seq<u8>, value: Seq<u8>) -> PairSeq {
    without(s, name).push((name, value))
}

/// No two entries share a name.
pub open spec fn names_unique(s: PairSeq) -> bool {
    forall|i: int, j: int| 0 <= i < s.len() && 0 <= j < s.len() && i != j ==> s[i].0 != s[j].0
}

/// Taking out a name makes it absent and leaves the other names' values.
pub proof fn lemma_lookup_without(s: PairSeq, name: Seq<u8>, other: Seq<u8>)
    ensures
        lookup(without(s, name), other) == if other == name {
            None
        } else {
            lookup(s, other)
        },
    decreases s.len(),
{
    if s.len() > 0 {
        lemma_lookup_without(s.drop_last(), name, other);
        let w = without(s.drop_last(), name);
        assert(w.push(s.last()).drop_last() =~= w);
    }
}

/// Setting a name gives it the new value and leaves the other names' values.
pub proof fn lemma_lookup_put(s: PairSeq, name: Seq<u8>, value: Seq<u8>, other: Seq<u8>)
    ensures
        lookup(put(s, name, value), other) == if other == name {
            Some(value)
        } else {
            lookup(s, other)
        },
{
    lemma_lookup_without(s, name, name);
    lemma_lookup_without(s, name, other);
    assert(put(s, name, value).drop_last() =~= without(s, name));
}

/// Taking out a name that no entry has leaves the list as it was.
pub proof fn lemma_without_absent(s: PairSeq, name: Seq<u8>)
    requires
        forall|i: int| 0 <= i < s.len() ==> s[i].0 != name,
    ensures
        without(s, name) == s,
    decreases s.len(),
{
    if s.len() > 0 {
        lemma_without_absent(s.drop_last(), name);
        assert(s.drop_last().push(s.last()) =~= s);
    }
}

/// Bytes of `v` equal to `w`, compared one by one.
pub fn bytes_eq(v: &[u8], w: &[u8]) -> (r: bool)
    ensures
        r == (v@ == w@),
{
    if v.len() != w.len() {
        return false;
    }
    let mut i: usize = 0;
    while i < v.len()
        invariant
            v@.len() == w@.len(),
            0 <= i <= v@.len(),
            forall|j: int| 0 <= j < i ==> v@[j] == w@[j],
        decreases v@.len() - i,
    {
        if v[i] != w[i] {
            return false;
        }
        i = i + 1;
    }
    assert(v@ =~= w@);
    true
}

/// A fresh copy of a byte string.
pub fn copy_bytes(v: &[u8]) -> (r: Vec<u8>)
    ensures
        r@ == v@,
{
    let mut r: Vec<u8> = Vec::new();
    let mut i: usize = 0;
    while i < v.len()
        invariant
            0 <= i <= v@.len(),
            r@ == v@.take(i as int),
        decreases v@.len() - i,
    {
        r.push(v[i]);
        i = i + 1;
        assert(r@ =~= v@.take(i as int));
    }
    assert(v@.take(v@.len() as int) =~= v@);
    r
}

/// The value of the last entry named `name`, if any.
pub fn find<'a>(s: &'a Vec<(Vec<u8>, Vec<u8>)>, name: &[u8]) -> (r: Option<&'a Vec<u8>>)
    ensures
        match r {
            Some(v) => lookup(view_pairs(s@), name@) == Some(v@),
            None => lookup(view_pairs(s@), name@) is None,
        },
{
    let mut i: usize = s.len();
    assert(view_pairs(s@).take(i as int) =~= view_pairs(s@));
    while i > 0
        invariant
            0 <= i <= s@.len(),
            lookup(view_pairs(s@), name@) == lookup(view_pairs(s@).take(i as int), name@),
        decreases i,
    {
        assert(view_pairs(s@).take(i as int).drop_last() =~= view_pairs(s@).take(i - 1));
        if bytes_eq(s[i - 1].0.as_slice(), name) {
            return Some(&s[i - 1].1);
        }
        i = i - 1;
    }
    None
}

/// A copy of `s` without the entries named `name`.
pub fn remove_name(s: &Vec<(Vec<u8>, Vec<u8>)>, name: &[u8]) -> (r: Vec<(Vec<u8>, Vec<u8>)>)
    ensures
        view_pairs(r@) == without(view_pairs(s@), name@),
{
    let mut r: Vec<(Vec<u8>, Vec<u8>)> = Vec::new();
    let mut i: usize = 0;
    assert(view_pairs(r@) =~= without(view_pairs(s@).take(0), name@));
    while i < s.len()
        invariant
            0 <= i <= s@.len(),
            view_pairs(r@) == without(view_pairs(s@).take(i as int), name@),
        decreases s@.len() - i,
    {
        assert(view_pairs(s@).take(i + 1).drop_last() =~= view_pairs(s@).take(i as int));
        if !bytes_eq(s[i].0.as_slice(), name) {
            let n = copy_bytes(s[i].0.as_slice());
            let v = copy_bytes(s[i].1.as_slice());
            r.push((n, v));
            assert(view_pairs(r@) =~= without(view_pairs(s@).take(i as int), name@).push((n@, v@)));
            assert(view_pairs(r@) =~= without(view_pairs(s@).take(i + 1), name@));
        }
        i = i + 1;
    }
    assert(view_pairs(s@).take(s@.len() as int) =~= view_pairs(s@));
    r
}

} // verus!

verus! {

/// Taking out a name twice is taking it out once.
pub proof fn lemma_without_twice(s: PairSeq, name: Seq<u8>)
    ensures
        without(without(s, name), name) == without(s, name),
    decreases s.len(),
{
    if s.len() > 0 {
        lemma_without_twice(s.drop_last(), name);
        let w = without(s.drop_last(), name);
        assert(w.push(s.last()).drop_last() =~= w);
    }
}

/// Setting a name twice to the same value leaves what setting it once left.
pub proof fn lemma_put_twice(s: PairSeq, name: Seq<u8>, value: Seq<u8>)
    ensures
        put(put(s, name, value), name, value) == put(s, name, value),
{
    let w = without(s, name);
    assert(w.push((name, value)).drop_last() =~= w);
    lemma_without_twice(s, name);
}

} // verus!

verus! {

/// Taking out a name keeps only entries of the list with other names, and keeps names distinct.
pub proof fn lemma_without_facts(s: PairSeq, name: Seq<u8>)
    ensures
        forall|i: int|
            0 <= i < without(s, name).len() ==> (#[trigger] without(s, name)[i]).0 != name
                && s.contains(without(s, name)[i]),
        names_unique(s) ==> names_unique(without(s, name)),
    decreases s.len(),
{
    if s.len() > 0 {
        let d = s.drop_last();
        lemma_without_facts(d, name);
        let w0 = without(d, name);
        let w = without(s, name);
        assert forall|i: int| 0 <= i < w0.len() implies s.contains(#[trigger] w0[i]) by {
            let j = choose|j: int| 0 <= j < d.len() && d[j] == w0[i];
            assert(s[j] == w0[i]);
        }
        if s.last().0 != name {
            assert(w == w0.push(s.last()));
            assert(s[s.len() - 1] == s.last());
            assert forall|i: int| 0 <= i < w.len() implies (#[trigger] w[i]).0 != name && s.contains(w[i]) by {
                if i < w0.len() {
                    assert(w[i] == w0[i]);
                }
            }
            if names_unique(s) {
                assert(names_unique(d)) by {
                    assert forall|i: int, j: int| 0 <= i < d.len() && 0 <= j < d.len() && i != j implies d[i].0 != d[j].0 by {
                        assert(d[i] == s[i] && d[j] == s[j]);
                    }
                }
                assert forall|i: int, j: int| 0 <= i < w.len() && 0 <= j < w.len() && i != j implies w[i].0 != w[j].0 by {
                    if i < w0.len() && j < w0.len() {
                        assert(w[i] == w0[i] && w[j] == w0[j]);
                    } else if i < w0.len() {
                        assert(w[i] == w0[i]);
                        let k = choose|k: int| 0 <= k < d.len() && d[k] == w0[i];
                        assert(s[k] == d[k]);
                    } else {
                        assert(w[j] == w0[j]);
                        let k = choose|k: int| 0 <= k < d.len() && d[k] == w0[j];
                        assert(s[k] == d[k]);
                    }
                }
            }
        } else {
            if names_unique(s) {
                assert(names_unique(d)) by {
                    assert forall|i: int, j: int| 0 <= i < d.len() && 0 <= j < d.len() && i != j implies d[i].0 != d[j].0 by {
                        assert(d[i] == s[i] && d[j] == s[j]);
                    }
                }
            }
        }
    }
}

/// Setting a name keeps the names of a list distinct.
pub proof fn lemma_put_unique(s: PairSeq, name: Seq<u8>, value: Seq<u8>)
    requires
        names_unique(s),
    ensures
        names_unique(put(s, name, value)),
{
    lemma_without_facts(s, name);
    let w = without(s, name);
    let p = put(s, name, value);
    assert forall|i: int, j: int| 0 <= i < p.len() && 0 <= j < p.len() && i != j implies p[i].0 != p[j].0 by {
        if i < w.len() && j < w.len() {
            assert(p[i] == w[i] && p[j] == w[j]);
        } else if i < w.len() {
            assert(p[i] == w[i]);
        } else {
            assert(p[j] == w[j]);
        }
    }
}

} // verus!
