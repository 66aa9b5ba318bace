//! The header carrier: the field list of one HTTP request or response, as the
//! propagators see it. Field names are compared without regard to ASCII case.
use vstd::prelude::*;
use crate::pairs::{PairSeq, view_pairs, lookup, put, lemma_lookup_put, find, remove_name, copy_bytes};

verus! {

/// An ASCII capital turned to its small letter; other bytes stay.
pub open spec fn lower_byte(b: u8) -> u8 {
    if 65 <= b && b <= 90 {
        (b + 32) as u8
    } else {
        b
    }
}

/// A byte string with its ASCII capitals turned to small letters.
pub open spec fn lower(s: Seq<u8>) -> Seq<u8> {
    Seq::new(s.len(), |i: int| lower_byte(s[i]))
}

/// `s` with its ASCII capitals turned to small letters.
pub fn to_lower(s: &[u8]) -> (r: Vec<u8>)
    ensures
        r@ == lower(s@),
{
    let mut r: Vec<u8> = Vec::new();
    let mut i: usize = 0;
    while i < s.len()
        invariant
            0 <= i <= s@.len(),
            r@ =~= lower(s@.take(i as int)),
        decreases s@.len() - i,
    {
        let b = s[i];
        let l: u8 = if 65 <= b && b <= 90 { b + 32 } else { b };
        r.push(l);
        i = i + 1;
    }
    assert(s@.take(s@.len() as int) =~= s@);
    r
}

/// An HTTP header field list. Names are stored folded to lower case; setting a
/// name again replaces its value.
pub struct HeaderCarrier {
    fields: Vec<(Vec<u8>, Vec<u8>)>,
}

impl View for HeaderCarrier {
    type V = PairSeq;

    closed spec fn view(&self) -> PairSeq {
        view_pairs(self.fields@)
    }
}

impl HeaderCarrier {
    /// The value that a lookup of `name` finds, whatever its case.
    pub open spec fn value_of(self, name: Seq<u8>) -> Option<Seq<u8>> {
        lookup(self@, lower(name))
    }

    /// A carrier with no fields.
    pub fn new() -> (r: HeaderCarrier)
        ensures
            r@ == Seq::<(Seq<u8>, Seq<u8>)>::empty(),
            forall|n: Seq<u8>| #[trigger] r.value_of(n) is None,
    {
        let r = HeaderCarrier { fields: Vec::new() };
        assert(r@ =~= Seq::<(Seq<u8>, Seq<u8>)>::empty());
        r
    }

    /// Sets field `name` to `value`, replacing any earlier value of that name.
    pub fn set(&mut self, name: &[u8], value: &[u8])
        ensures
            final(self)@ == put(old(self)@, lower(name@), value@),
            forall|n: Seq<u8>| #[trigger] final(self).value_of(n) == if lower(n) == lower(name@) {
                Some(value@)
            } else {
                old(self).value_of(n)
            },
    {
        let key = to_lower(name);
        let mut kept = remove_name(&self.fields, key.as_slice());
        let v = copy_bytes(value);
        let ghost k = key@;
        kept.push((key, v));
        self.fields = kept;
        assert(self@ =~= put(old(self)@, lower(name@), value@));
        assert forall|n: Seq<u8>| #[trigger] self.value_of(n) == if lower(n) == lower(name@) {
            Some(value@)
        } else {
            old(self).value_of(n)
        } by {
            lemma_lookup_put(old(self)@, k, value@, lower(n));
        }
    }

    /// The value of field `name`, whatever its case.
    pub fn get(&self, name: &[u8]) -> (r: Option<Vec<u8>>)
        ensures
            match r {
                Some(v) => self.value_of(name@) == Some(v@),
                None => self.value_of(name@) is None,
            },
    {
        let key = to_lower(name);
        match find(&self.fields, key.as_slice()) {
            Some(v) => Some(copy_bytes(v.as_slice())),
            None => None,
        }
    }

    /// The fields, in the order in which they were last set.
    pub fn fields(&self) -> (r: &Vec<(Vec<u8>, Vec<u8>)>)
        ensures
            view_pairs(r@) == self@,
    {
        &self.fields
    }
}

} // verus!
