//! The data messages that were already seen.

use crate::peer::PeerId;
use std::collections::HashMap;
use vstd::prelude::*;

verus! {

broadcast use vstd::std_specs::hash::group_hash_axioms;

/// A set of data messages, each told by its sender and its number.
pub struct SeenIds {
    by_number: HashMap<u64, Vec<PeerId>>,
}

/// Whether a list of peers holds a peer with these bytes.
spec fn lists(peers: Seq<PeerId>, peer: Seq<u8>) -> bool {
    exists|i: int| 0 <= i < peers.len() && #[trigger] peers[i]@ == peer
}

impl View for SeenIds {
    type V = Set<(Seq<u8>, u64)>;

    closed spec fn view(&self) -> Set<(Seq<u8>, u64)> {
        Set::new(
            |m: (Seq<u8>, u64)|
                self.by_number@.contains_key(m.1) && lists(self.by_number@[m.1]@, m.0),
        )
    }
}

impl SeenIds {
    /// No message is held twice.
    pub closed spec fn wf(&self) -> bool {
        forall|n: u64, i: int, j: int|
            #![trigger self.by_number@[n]@[i], self.by_number@[n]@[j]]
            self.by_number@.contains_key(n) && 0 <= i < j < self.by_number@[n]@.len()
                ==> self.by_number@[n]@[i]@ != self.by_number@[n]@[j]@
    }

    /// Nothing seen.
    pub fn new() -> (r: SeenIds)
        ensures
            r.wf(),
            r@ == Set::<(Seq<u8>, u64)>::empty(),
    {
        let r = SeenIds { by_number: HashMap::new() };
        assert(r@ =~= Set::<(Seq<u8>, u64)>::empty());
        r
    }

    /// Forgets everything.
    pub fn clear(&mut self)
        ensures
            final(self).wf(),
            final(self)@ == Set::<(Seq<u8>, u64)>::empty(),
    {
        self.by_number.clear();
        assert(self@ =~= Set::<(Seq<u8>, u64)>::empty());
    }

    /// Adds a message, and tells whether it was not there before.
    pub fn insert(&mut self, sender: &PeerId, id: u64) -> (fresh: bool)
        requires
            old(self).wf(),
        ensures
            final(self).wf(),
            fresh == !old(self)@.contains((sender@, id)),
            final(self)@ == old(self)@.insert((sender@, id)),
    {
        let ghost before = self.by_number@;
        let mut peers: Vec<PeerId> = match self.by_number.remove(&id) {
            Some(peers) => peers,
            None => Vec::new(),
        };
        let ghost listed = peers@;
        let mut found: bool = false;
        let mut i: usize = 0;
        while i < peers.len() && !found
            invariant
                i <= peers.len(),
                peers@ == listed,
                found ==> lists(listed, sender@),
                !found ==> forall|k: int| 0 <= k < i ==> #[trigger] listed[k]@ != sender@,
            decreases peers.len() - i + if found { 0int } else { 1int },
        {
            if peers[i].same(sender) {
                assert(listed[i as int]@ == sender@);
                found = true;
            } else {
                i = i + 1;
            }
        }
        if !found {
            peers.push(sender.clone());
            assert(peers@[listed.len() as int]@ == sender@);
        }
        self.by_number.insert(id, peers);
        proof {
            let after = self.by_number@;
            assert(after[id]@ == peers@);
            assert forall|m: (Seq<u8>, u64)| #[trigger] self@.contains(m) <==> old(self)@.insert(
                (sender@, id),
            ).contains(m) by {
                if m.1 == id {
                    if lists(listed, m.0) {
                        let k = choose|k: int| 0 <= k < listed.len() && #[trigger] listed[k]@ == m.0;
                        assert(peers@[k]@ == m.0);
                    }
                    if lists(peers@, m.0) && m.0 != sender@ {
                        let k = choose|k: int| 0 <= k < peers@.len() && #[trigger] peers@[k]@ == m.0;
                        assert(listed[k]@ == m.0);
                    }
                }
            }
            assert(self@ =~= old(self)@.insert((sender@, id)));
        }
        !found
    }
}

impl Clone for SeenIds {
    fn clone(&self) -> (r: SeenIds)
        ensures
            r@ == self@,
            self.wf() ==> r.wf(),
    {
        let r = SeenIds { by_number: self.by_number.clone() };
        assert(r@ =~= self@);
        r
    }
}

} // verus!
