//! Baggage and its propagator: application name/value pairs written as the
//! `baggage` header field, `name=value` entries joined by commas, each part
//! percent-encoded.
use vstd::prelude::*;
use crate::carrier::{HeaderCarrier, lower};
use crate::pairs::{
    PairSeq, view_pairs, lookup, put, names_unique, find, remove_name, copy_bytes, lemma_put_unique,
    lemma_without_absent, lemma_lookup_put,
};
use crate::percent::{
    percent_encode, percent_decode, push_percent_encoded, percent_decode_bytes, all_plain, is_plain,
    lemma_encoded_plain, lemma_percent_round_trip,
};
use crate::text::{
    split_on, split_first, trim, views, split_bytes, split_first_bytes, trim_bytes, occurs,
    lemma_split_without_sep, lemma_split_concat, lemma_trim_unchanged, lemma_split_first_at,
};

verus! {

/// The most bytes that an injected `baggage` value may hold; entries that
/// would go past it are left out, the last ones first.
pub const BAGGAGE_MAX_LEN: usize = 8192;

/// The header field name `baggage`.
pub open spec fn baggage_name() -> Seq<u8> {
    seq![98u8, 97, 103, 103, 97, 103, 101]
}

/// An ordered mapping from names to values. Names are distinct; setting a name
/// again moves it last with its new value.
pub struct Baggage {
    entries: Vec<(Vec<u8>, Vec<u8>)>,
}

impl View for Baggage {
    type V = PairSeq;

    closed spec fn view(&self) -> PairSeq {
        view_pairs(self.entries@)
    }
}

impl Baggage {
    pub open spec fn wf(&self) -> bool {
        names_unique(self@)
    }

    /// Empty baggage.
    pub fn new() -> (r: Baggage)
        ensures
            r@ == Seq::<(Seq<u8>, Seq<u8>)>::empty(),
            r.wf(),
    {
        let r = Baggage { entries: Vec::new() };
        assert(r@ =~= Seq::<(Seq<u8>, Seq<u8>)>::empty());
        r
    }

    /// Sets `name` to `value`.
    pub fn insert(&mut self, name: &[u8], value: &[u8])
        requires
            old(self).wf(),
        ensures
            final(self)@ == put(old(self)@, name@, value@),
            final(self).wf(),
    {
        let mut kept = remove_name(&self.entries, name);
        let n = copy_bytes(name);
        let v = copy_bytes(value);
        kept.push((n, v));
        self.entries = kept;
        assert(self@ =~= put(old(self)@, name@, value@));
        proof {
            lemma_put_unique(old(self)@, name@, value@);
        }
    }

    /// The value of `name`.
    pub fn get(&self, name: &[u8]) -> (r: Option<Vec<u8>>)
        ensures
            match r {
                Some(v) => lookup(self@, name@) == Some(v@),
                None => lookup(self@, name@) is None,
            },
    {
        match find(&self.entries, name) {
            Some(v) => Some(copy_bytes(v.as_slice())),
            None => None,
        }
    }

    /// The number of entries.
    pub fn len(&self) -> (r: usize)
        ensures
            r == self@.len(),
    {
        self.entries.len()
    }

    /// The entries in order.
    pub fn entries(&self) -> (r: &Vec<(Vec<u8>, Vec<u8>)>)
        ensures
            view_pairs(r@) == self@,
    {
        &self.entries
    }
}

/// One entry as written: `name=value`, both percent-encoded.
pub open spec fn entry_text(e: (Seq<u8>, Seq<u8>)) -> Seq<u8> {
    percent_encode(e.0) + seq![61u8] + percent_encode(e.1)
}

/// The entries written one after another, separated by commas.
pub open spec fn join_entries(es: PairSeq) -> Seq<u8>
    decreases es.len(),
{
    if es.len() == 0 {
        Seq::empty()
    } else if es.len() == 1 {
        entry_text(es[0])
    } else {
        join_entries(es.drop_last()) + seq![44u8] + entry_text(es.last())
    }
}

/// How many leading entries are kept, counting on from `m` while the next one
/// still fits within `cap` bytes.
pub open spec fn kept_from(es: PairSeq, cap: nat, m: nat) -> nat
    decreases es.len() - m,
{
    if m < es.len() && join_entries(es.take(m + 1 as int)).len() <= cap {
        kept_from(es, cap, m + 1)
    } else {
        m
    }
}

/// The `baggage` value written for `es`: the longest run of leading entries
/// that fits within the size bound.
pub open spec fn baggage_value(es: PairSeq) -> Seq<u8> {
    join_entries(es.take(kept_from(es, BAGGAGE_MAX_LEN as nat, 0) as int))
}

/// What one comma-separated item of a `baggage` value says: `None` when it has
/// no `=`, an empty name, or a malformed escape. Anything after a `;` in the
/// value is entry metadata and is left out.
pub open spec fn parse_entry(item: Seq<u8>) -> Option<(Seq<u8>, Seq<u8>)> {
    match split_first(item, 61) {
        None => None,
        Some(kv) => {
            let raw_value = match split_first(kv.1, 59) {
                Some(vm) => vm.0,
                None => kv.1,
            };
            match (percent_decode(trim(kv.0)), percent_decode(trim(raw_value))) {
                (Some(k), Some(v)) => if k.len() > 0 {
                    Some((k, v))
                } else {
                    None
                },
                _ => None,
            }
        },
    }
}

/// The baggage that a list of items gives, later items setting over earlier ones.
pub open spec fn collect_entries(items: Seq<Seq<u8>>) -> PairSeq
    decreases items.len(),
{
    if items.len() == 0 {
        Seq::empty()
    } else {
        let acc = collect_entries(items.drop_last());
        match parse_entry(items.last()) {
            Some(kv) => put(acc, kv.0, kv.1),
            None => acc,
        }
    }
}

/// The baggage that a `baggage` value denotes; malformed items are skipped.
pub open spec fn parse_baggage(h: Seq<u8>) -> PairSeq {
    collect_entries(split_on(h, 44))
}

/// A carrier after the baggage propagator has written `b` into it.
pub open spec fn inject_baggage_spec(b: PairSeq, s: PairSeq) -> PairSeq {
    if baggage_value(b).len() > 0 {
        put(s, baggage_name(), baggage_value(b))
    } else {
        s
    }
}

/// What the baggage propagator reads from a carrier.
pub open spec fn extract_baggage_spec(s: PairSeq) -> PairSeq {
    match lookup(s, baggage_name()) {
        Some(v) => parse_baggage(v),
        None => Seq::empty(),
    }
}

/// The field name `baggage`, already in lower case.
pub fn baggage_key() -> (r: Vec<u8>)
    ensures
        r@ == baggage_name(),
        lower(baggage_name()) == baggage_name(),
{
    // "baggage"
    let r: Vec<u8> = vec![98u8, 97, 103, 103, 97, 103, 101];
    assert(r@ =~= baggage_name());
    assert(lower(baggage_name()) =~= baggage_name());
    r
}

/// Writes one entry.
fn entry_bytes(name: &Vec<u8>, value: &Vec<u8>) -> (r: Vec<u8>)
    ensures
        r@ == entry_text((name@, value@)),
{
    let mut r: Vec<u8> = Vec::new();
    push_percent_encoded(&mut r, name.as_slice());
    r.push(61);
    push_percent_encoded(&mut r, value.as_slice());
    assert(r@ =~= entry_text((name@, value@)));
    r
}

/// Writes the `baggage` value for `b`, leaving out trailing entries that would
/// take it past `BAGGAGE_MAX_LEN` bytes.
pub fn encode_baggage(b: &Baggage) -> (r: Vec<u8>)
    ensures
        r@ == baggage_value(b@),
        r@.len() <= BAGGAGE_MAX_LEN,
{
    let es = b.entries();
    let ghost s = b@;
    let cap = BAGGAGE_MAX_LEN;
    let mut out: Vec<u8> = Vec::new();
    let mut i: usize = 0;
    assert(s.take(0) =~= Seq::<(Seq<u8>, Seq<u8>)>::empty());
    while i < es.len()
        invariant
            s == view_pairs(es@),
            0 <= i <= es@.len(),
            cap == BAGGAGE_MAX_LEN,
            out@ == join_entries(s.take(i as int)),
            out@.len() <= cap,
            kept_from(s, cap as nat, 0) == kept_from(s, cap as nat, i as nat),
        ensures
            0 <= i <= es@.len(),
            out@ == join_entries(s.take(i as int)),
            out@.len() <= cap,
            kept_from(s, cap as nat, 0) == i,
        decreases es@.len() - i,
    {
        let e = entry_bytes(&es[i].0, &es[i].1);
        let sep: usize = if i > 0 { 1 } else { 0 };
        assert(s.take(i + 1).drop_last() =~= s.take(i as int));
        assert(s.take(i + 1).last() == s[i as int]);
        if out.len() + sep > cap || e.len() > cap - out.len() - sep {
            if i == 0 {
                assert(s.take(1) =~= seq![s[0]]);
            }
            assert(join_entries(s.take(i + 1)).len() == out@.len() + sep + e@.len());
            break;
        }
        if i > 0 {
            out.push(44);
        }
        let ghost before = out@;
        let mut j: usize = 0;
        while j < e.len()
            invariant
                0 <= j <= e@.len(),
                out@ == before + e@.take(j as int),
            decreases e@.len() - j,
        {
            out.push(e[j]);
            j = j + 1;
            assert(out@ =~= before + e@.take(j as int));
        }
        assert(e@.take(e@.len() as int) =~= e@);
        if i == 0 {
            assert(s.take(1) =~= seq![s[0]]);
            assert(out@ =~= join_entries(s.take(1)));
        } else {
            assert(out@ =~= join_entries(s.take(i + 1)));
        }
        i = i + 1;
    }
    out
}

/// Reads a `baggage` value; malformed items are skipped.
pub fn decode_baggage(h: &[u8]) -> (r: Baggage)
    ensures
        r@ == parse_baggage(h@),
        r.wf(),
{
    let items = split_bytes(h, 44);
    let ghost iv = views(items@);
    let mut b = Baggage::new();
    let mut i: usize = 0;
    assert(iv.take(0) =~= Seq::<Seq<u8>>::empty());
    while i < items.len()
        invariant
            iv == views(items@),
            iv == split_on(h@, 44),
            0 <= i <= items@.len(),
            b@ == collect_entries(iv.take(i as int)),
            b.wf(),
        decreases items@.len() - i,
    {
        assert(iv.take(i + 1).drop_last() =~= iv.take(i as int));
        assert(iv.take(i + 1).last() == items@[i as int]@);
        match decode_entry(items[i].as_slice()) {
            Some(kv) => {
                b.insert(kv.0.as_slice(), kv.1.as_slice());
            },
            None => {},
        }
        i = i + 1;
    }
    assert(iv.take(iv.len() as int) =~= iv);
    b
}

/// Reads one comma-separated item of a `baggage` value.
fn decode_entry(item: &[u8]) -> (r: Option<(Vec<u8>, Vec<u8>)>)
    ensures
        match r {
            Some(kv) => parse_entry(item@) == Some((kv.0@, kv.1@)),
            None => parse_entry(item@) is None,
        },
{
    match split_first_bytes(item, 61) {
        None => None,
        Some(kv) => {
            let raw_value = match split_first_bytes(kv.1.as_slice(), 59) {
                Some(vm) => vm.0,
                None => kv.1,
            };
            let k = trim_bytes(kv.0.as_slice());
            let v = trim_bytes(raw_value.as_slice());
            match (percent_decode_bytes(k.as_slice()), percent_decode_bytes(v.as_slice())) {
                (Some(k), Some(v)) => if k.len() > 0 {
                    Some((k, v))
                } else {
                    None
                },
                _ => None,
            }
        },
    }
}

/// Writes `baggage` for `b` into the carrier, unless no entry fits.
pub fn inject_baggage(b: &Baggage, carrier: &mut HeaderCarrier)
    ensures
        final(carrier)@ == inject_baggage_spec(b@, old(carrier)@),
{
    let v = encode_baggage(b);
    if v.len() > 0 {
        let k = baggage_key();
        carrier.set(k.as_slice(), v.as_slice());
    }
}

/// Reads the baggage from the carrier's `baggage` field; without one, or with
/// an empty one, the baggage is empty.
pub fn extract_baggage(carrier: &HeaderCarrier) -> (r: Baggage)
    ensures
        r@ == extract_baggage_spec(carrier@),
        r.wf(),
{
    let k = baggage_key();
    match carrier.get(k.as_slice()) {
        Some(v) => decode_baggage(v.as_slice()),
        None => Baggage::new(),
    }
}

} // verus!

verus! {

/// Joining one more entry adds a comma (after the first) and its text.
pub proof fn lemma_join_step(es: PairSeq, m: int)
    requires
        0 <= m < es.len(),
    ensures
        join_entries(es.take(m + 1)) == if m == 0 {
            entry_text(es[0])
        } else {
            join_entries(es.take(m)) + seq![44u8] + entry_text(es[m])
        },
{
    assert(es.take(m + 1).drop_last() =~= es.take(m));
    assert(es.take(m + 1).last() == es[m]);
    if m == 0 {
        assert(es.take(1)[0] == es[0]);
    }
}

/// Fewer leading entries never take more bytes.
pub proof fn lemma_join_take_le(es: PairSeq, m: int)
    requires
        0 <= m <= es.len(),
    ensures
        join_entries(es.take(m)).len() <= join_entries(es).len(),
    decreases es.len() - m,
{
    if m == es.len() {
        assert(es.take(m) =~= es);
    } else {
        lemma_join_step(es, m);
        lemma_join_take_le(es, m + 1);
    }
}

/// When all entries fit, all are kept.
pub proof fn lemma_kept_all(es: PairSeq, cap: nat, m: nat)
    requires
        join_entries(es).len() <= cap,
        m <= es.len(),
    ensures
        kept_from(es, cap, m) == es.len(),
    decreases es.len() - m,
{
    if m < es.len() {
        lemma_join_take_le(es, m + 1 as int);
        lemma_kept_all(es, cap, m + 1);
    }
}

/// The written form of each entry.
pub open spec fn entry_texts(es: PairSeq) -> Seq<Seq<u8>> {
    Seq::new(es.len(), |i: int| entry_text(es[i]))
}

/// An entry's text holds no comma, and its encoded parts no separator or space.
pub proof fn lemma_entry_text_facts(e: (Seq<u8>, Seq<u8>))
    ensures
        forall|i: int| 0 <= i < entry_text(e).len() ==> #[trigger] entry_text(e)[i] != 44,
        all_plain(percent_encode(e.0)),
        all_plain(percent_encode(e.1)),
{
    lemma_encoded_plain(e.0);
    lemma_encoded_plain(e.1);
    let k = percent_encode(e.0);
    let t = entry_text(e);
    assert forall|i: int| 0 <= i < t.len() implies #[trigger] t[i] != 44 by {
        if i < k.len() {
            assert(t[i] == k[i]);
        } else if i > k.len() {
            assert(t[i] == percent_encode(e.1)[i - k.len() - 1]);
        }
    }
}

/// Splitting joined entries at commas gives the entries' texts back.
pub proof fn lemma_split_join(es: PairSeq)
    requires
        es.len() > 0,
    ensures
        split_on(join_entries(es), 44) == entry_texts(es),
    decreases es.len(),
{
    lemma_entry_text_facts(es.last());
    if es.len() == 1 {
        lemma_entry_text_facts(es[0]);
        lemma_split_without_sep(entry_text(es[0]), 44);
        assert(entry_texts(es) =~= seq![entry_text(es[0])]);
    } else {
        let d = es.drop_last();
        lemma_split_join(d);
        lemma_split_concat(join_entries(d), entry_text(es.last()), 44);
        lemma_split_without_sep(entry_text(es.last()), 44);
        assert(entry_texts(es) =~= entry_texts(d) + seq![entry_text(es.last())]);
    }
}

/// An entry with a non-empty name reads back as itself.
pub proof fn lemma_parse_entry_text(e: (Seq<u8>, Seq<u8>))
    requires
        e.0.len() > 0,
    ensures
        parse_entry(entry_text(e)) == Some(e),
{
    lemma_entry_text_facts(e);
    let k = percent_encode(e.0);
    let v = percent_encode(e.1);
    let t = entry_text(e);
    assert forall|j: int| 0 <= j < k.len() implies t[j] != 61 by {
        assert(t[j] == k[j]);
        assert(is_plain(k[j]));
    }
    lemma_split_first_at(t, 61, k.len() as int);
    assert(t.take(k.len() as int) =~= k);
    assert(t.skip(k.len() + 1 as int) =~= v);
    assert(!occurs(v, 59)) by {
        assert forall|j: int| 0 <= j < v.len() implies v[j] != 59 by {
            assert(is_plain(v[j]));
        }
    }
    if k.len() > 0 {
        assert(is_plain(k[0]) && is_plain(k[k.len() - 1]));
    }
    if v.len() > 0 {
        assert(is_plain(v[0]) && is_plain(v[v.len() - 1]));
    }
    lemma_trim_unchanged(k);
    lemma_trim_unchanged(v);
    lemma_percent_round_trip(e.0);
    lemma_percent_round_trip(e.1);
}

/// The texts of entries with distinct, non-empty names collect back into those entries.
pub proof fn lemma_collect_entry_texts(es: PairSeq)
    requires
        names_unique(es),
        forall|i: int| 0 <= i < es.len() ==> (#[trigger] es[i]).0.len() > 0,
    ensures
        collect_entries(entry_texts(es)) == es,
    decreases es.len(),
{
    if es.len() > 0 {
        let d = es.drop_last();
        assert(names_unique(d)) by {
            assert forall|i: int, j: int| 0 <= i < d.len() && 0 <= j < d.len() && i != j implies d[i].0 != d[j].0 by {
                assert(d[i] == es[i] && d[j] == es[j]);
            }
        }
        assert forall|i: int| 0 <= i < d.len() implies (#[trigger] d[i]).0.len() > 0 by {
            assert(d[i] == es[i]);
        }
        lemma_collect_entry_texts(d);
        assert(entry_texts(es).drop_last() =~= entry_texts(d));
        assert(es[es.len() - 1] == es.last());
        lemma_parse_entry_text(es.last());
        assert forall|i: int| 0 <= i < d.len() implies d[i].0 != es.last().0 by {
            assert(d[i] == es[i]);
        }
        lemma_without_absent(d, es.last().0);
        assert(d.push((es.last().0, es.last().1)) =~= es);
    }
}

/// Baggage whose entries all fit reads back exactly as it was written, in
/// order, whatever bytes its values hold (commas, `=` signs and spaces
/// included). Names must be non-empty, since an entry with an empty name is
/// malformed.
pub proof fn law_baggage_round_trip(es: PairSeq)
    requires
        names_unique(es),
        forall|i: int| 0 <= i < es.len() ==> (#[trigger] es[i]).0.len() > 0,
        join_entries(es).len() <= BAGGAGE_MAX_LEN,
    ensures
        parse_baggage(baggage_value(es)) == es,
{
    lemma_kept_all(es, BAGGAGE_MAX_LEN as nat, 0);
    assert(es.take(es.len() as int) =~= es);
    if es.len() == 0 {
        assert(split_on(Seq::<u8>::empty(), 44) =~= seq![Seq::<u8>::empty()]);
        let items = split_on(Seq::<u8>::empty(), 44);
        assert(items.drop_last() =~= Seq::<Seq<u8>>::empty());
        assert(items.last() == Seq::<u8>::empty());
        assert(es.take(0) =~= Seq::<(Seq<u8>, Seq<u8>)>::empty());
        assert(es =~= Seq::<(Seq<u8>, Seq<u8>)>::empty());
        assert(collect_entries(items.drop_last()) == Seq::<(Seq<u8>, Seq<u8>)>::empty());
        assert(parse_entry(items.last()) is None);
        assert(baggage_value(es) == Seq::<u8>::empty());
        assert(!occurs(Seq::<u8>::empty(), 61));
    } else {
        lemma_split_join(es);
        lemma_collect_entry_texts(es);
        assert(baggage_value(es) == join_entries(es));
    }
}

/// The same through a carrier: after injecting non-empty baggage that fits,
/// extracting gives it back, whatever else the carrier held.
pub proof fn law_baggage_carrier_round_trip(es: PairSeq, s: PairSeq)
    requires
        es.len() > 0,
        names_unique(es),
        forall|i: int| 0 <= i < es.len() ==> (#[trigger] es[i]).0.len() > 0,
        join_entries(es).len() <= BAGGAGE_MAX_LEN,
    ensures
        extract_baggage_spec(inject_baggage_spec(es, s)) == es,
{
    law_baggage_round_trip(es);
    lemma_kept_all(es, BAGGAGE_MAX_LEN as nat, 0);
    assert(es.take(es.len() as int) =~= es);
    lemma_join_take_le(es, 1);
    lemma_join_step(es, 0);
    lemma_lookup_put(s, baggage_name(), baggage_value(es), baggage_name());
}

} // verus!
