//! The relying party's trust anchors: identities mapped to public keys.
use crate::binary::bytes_equal;
use vstd::prelude::*;

verus! {

/// An identity accepted axiomatically, with its public key.
#[derive(Clone, Debug)]
pub struct TrustAnchor {
    pub identity: Vec<u8>,
    pub public_key: Vec<u8>,
}

/// A set of trust anchors. Adding an anchor for an identity that is already
/// present replaces its key.
#[derive(Clone, Debug)]
pub struct TrustStore {
    anchors: Vec<TrustAnchor>,
}

/// The map from identity to key that a run of anchors describes, where a
/// later anchor for an identity replaces an earlier one.
pub open spec fn anchors_map(s: Seq<TrustAnchor>) -> Map<Seq<u8>, Seq<u8>>
    decreases s.len(),
{
    if s.len() == 0 {
        Map::empty()
    } else {
        anchors_map(s.drop_last()).insert(s.last().identity@, s.last().public_key@)
    }
}

impl View for TrustStore {
    type V = Map<Seq<u8>, Seq<u8>>;

    closed spec fn view(&self) -> Map<Seq<u8>, Seq<u8>> {
        anchors_map(self.anchors@)
    }
}

impl TrustStore {
    /// A store with no anchors.
    pub fn new() -> (r: TrustStore)
        ensures
            r@ == Map::<Seq<u8>, Seq<u8>>::empty(),
    {
        TrustStore { anchors: Vec::new() }
    }

    /// Trusts `public_key` for `identity`, replacing any key it had.
    pub fn add_anchor(&mut self, identity: Vec<u8>, public_key: Vec<u8>)
        ensures
            final(self)@ == old(self)@.insert(identity@, public_key@),
    {
        let ghost before = self.anchors@;
        self.anchors.push(TrustAnchor { identity, public_key });
        assert(self.anchors@.drop_last() =~= before);
    }

    /// The key trusted for `identity`, compared byte for byte.
    pub fn lookup(&self, identity: &Vec<u8>) -> (r: Option<&Vec<u8>>)
        ensures
            r is None <==> !self@.contains_key(identity@),
            r matches Some(k) ==> k@ == self@[identity@],
    {
        let ghost all = self.anchors@;
        let mut i: usize = self.anchors.len();
        assert(all.take(i as int) =~= all);
        while i > 0
            invariant
                i <= all.len(),
                all == self.anchors@,
                anchors_map(all).contains_key(identity@) == anchors_map(all.take(i as int)).contains_key(
                    identity@,
                ),
                anchors_map(all).contains_key(identity@) ==> anchors_map(all)[identity@] == anchors_map(
                    all.take(i as int),
                )[identity@],
            decreases i,
        {
            let j = i - 1;
            assert(all.take(i as int).drop_last() =~= all.take(j as int));
            if bytes_equal(&self.anchors[j].identity, identity) {
                return Some(&self.anchors[j].public_key);
            }
            i = j;
        }
        assert(all.take(0) =~= Seq::<TrustAnchor>::empty());
        None
    }
}

} // verus!
