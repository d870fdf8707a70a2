//! The fragments that were sent and are not confirmed yet.

use vstd::prelude::*;
use std::collections::HashMap;
use crate::chunking::fragment::FragmentIdentifier;

verus! {

/// What is kept of a fragment while its acknowledgement is awaited.
#[derive(Debug)]
pub struct PendingAcknowledgement {
    /// Names the retransmission timer of the fragment: the handle by which
    /// the timer is cancelled.
    pub retransmission_cancel: u64,
    /// The fragment itself, to send it again.
    pub message_chunk: Vec<u8>,
}

impl PendingAcknowledgement {
    pub fn new(retransmission_cancel: u64, message_chunk: Vec<u8>) -> (pending: Self)
        ensures
            pending.retransmission_cancel == retransmission_cancel,
            pending.message_chunk == message_chunk,
    {
        PendingAcknowledgement { retransmission_cancel, message_chunk }
    }
}

/// The number under which the table files a real fragment.
pub open spec fn table_key(id: FragmentIdentifier) -> u64 {
    (id.set_id * 0x100 + id.fragment_position) as u64
}

/// `key` is the number of a real fragment.
pub open spec fn is_table_key(key: u64) -> bool {
    1 <= key / 0x100 <= i32::MAX && key % 0x100 >= 1
}

/// The fragment that is filed under `key`.
pub open spec fn fragment_of(key: u64) -> FragmentIdentifier {
    FragmentIdentifier { set_id: (key / 0x100) as i32, fragment_position: (key % 0x100) as u8 }
}

/// What a table holds whose entries are filed as `entries` says: for each
/// real fragment with an entry under its number, that entry.
pub open spec fn filed(entries: Map<u64, PendingAcknowledgement>) -> Map<
    FragmentIdentifier,
    PendingAcknowledgement,
> {
    Map::new(
        |id: FragmentIdentifier| id.is_real() && entries.contains_key(table_key(id)),
        |id: FragmentIdentifier| entries[table_key(id)],
    )
}

/// A real fragment is found again from its number, and no two share one.
pub proof fn lemma_table_key_is_exact(id: FragmentIdentifier)
    requires
        id.is_real(),
    ensures
        is_table_key(table_key(id)),
        fragment_of(table_key(id)) == id,
{
}

/// Finitely many entries file finitely many fragments, and no more than
/// there are entries.
pub proof fn lemma_filed_is_finite(entries: Map<u64, PendingAcknowledgement>)
    requires
        entries.dom().finite(),
    ensures
        filed(entries).dom().finite(),
        filed(entries).len() <= entries.len(),
        (forall|key: u64| entries.contains_key(key) ==> is_table_key(key)) ==> filed(entries).len()
            == entries.len(),
{
    let real_keys = entries.dom().filter(|key: u64| is_table_key(key));
    let back = |key: u64| fragment_of(key);
    entries.dom().lemma_len_filter(|key: u64| is_table_key(key));
    assert forall|id: FragmentIdentifier| filed(entries).dom().contains(id) implies real_keys.map(
        back,
    ).contains(id) by {
        lemma_table_key_is_exact(id);
        assert(real_keys.contains(table_key(id)));
        assert(back(table_key(id)) == id);
    }
    assert(real_keys.map(back) =~= filed(entries).dom());
    assert(vstd::relations::injective_on(back, real_keys));
    vstd::set_lib::lemma_map_size(real_keys, filed(entries).dom(), back);
    if forall|key: u64| entries.contains_key(key) ==> is_table_key(key) {
        assert(real_keys =~= entries.dom());
    }
}

/// The table of pending acknowledgements: for each fragment in flight, what
/// is kept of it. It holds real fragments only.
pub struct PendingAcksMap {
    entries: HashMap<u64, PendingAcknowledgement>,
}

impl View for PendingAcksMap {
    type V = Map<FragmentIdentifier, PendingAcknowledgement>;

    closed spec fn view(&self) -> Map<FragmentIdentifier, PendingAcknowledgement> {
        filed(self.entries@)
    }
}

fn key_of(id: &FragmentIdentifier) -> (key: u64)
    requires
        id.is_real(),
    ensures
        key == table_key(*id),
{
    (id.set_id as u64) * 0x100 + (id.fragment_position as u64)
}

proof fn lemma_keys_differ(a: FragmentIdentifier, b: FragmentIdentifier)
    requires
        a.is_real(),
        b.is_real(),
        a != b,
    ensures
        table_key(a) != table_key(b),
{
}

impl PendingAcksMap {
    /// Every entry is filed under the number of a real fragment.
    #[verifier::type_invariant]
    spec fn files_real_fragments(self) -> bool {
        forall|key: u64| self.entries@.contains_key(key) ==> is_table_key(key)
    }

    /// No entry of the table names anything but a real fragment.
    pub proof fn lemma_holds_real_fragments(&self, id: FragmentIdentifier)
        requires
            self@.contains_key(id),
        ensures
            id.is_real(),
    {
    }

    /// The table holds finitely many entries.
    pub proof fn lemma_finite(&self)
        ensures
            self@.dom().finite(),
    {
        broadcast use vstd::std_specs::hash::group_hash_axioms;

        lemma_filed_is_finite(self.entries@);
    }

    pub fn new() -> (table: Self)
        ensures
            table@ == Map::<FragmentIdentifier, PendingAcknowledgement>::empty(),
    {
        let table = PendingAcksMap { entries: HashMap::new() };
        assert(table@ =~= Map::<FragmentIdentifier, PendingAcknowledgement>::empty());
        table
    }

    /// The number of fragments that await their acknowledgement.
    pub fn len(&self) -> (count: usize)
        ensures
            self@.dom().finite(),
            count == self@.len(),
    {
        broadcast use vstd::std_specs::hash::group_hash_axioms;

        proof {
            use_type_invariant(self);
            lemma_filed_is_finite(self.entries@);
        }
        self.entries.len()
    }

    /// Enters a fragment that is about to be sent. An entry under the same
    /// identifier is replaced. Only a real fragment is entered: for any
    /// other identifier the table stays as it is and the answer is `false`.
    pub fn register_pending(
        &mut self,
        frag_id: FragmentIdentifier,
        pending_ack: PendingAcknowledgement,
    ) -> (registered: bool)
        ensures
            registered == frag_id.is_real(),
            registered ==> final(self)@ == old(self)@.insert(frag_id, pending_ack),
            !registered ==> final(self)@ == old(self)@,
            final(self)@.len() == old(self)@.len() + if frag_id.is_real() && !old(
                self,
            )@.contains_key(frag_id) {
                1nat
            } else {
                0nat
            },
    {
        broadcast use vstd::std_specs::hash::group_hash_axioms;

        if !frag_id.is_real_fragment() {
            return false;
        }
        let key = key_of(&frag_id);
        proof {
            lemma_table_key_is_exact(frag_id);
            old(self).lemma_finite();
        }
        proof {
            use_type_invariant(&*self);
        }
        let mut entries: HashMap<u64, PendingAcknowledgement> = HashMap::new();
        core::mem::swap(&mut self.entries, &mut entries);
        entries.insert(key, pending_ack);
        assert(forall|key: u64| entries@.contains_key(key) ==> is_table_key(key));
        core::mem::swap(&mut self.entries, &mut entries);
        proof {
            assert forall|id: FragmentIdentifier| id.is_real() && id != frag_id implies table_key(
                id,
            ) != key by {
                lemma_keys_differ(id, frag_id);
            }
            assert(self@ =~= old(self)@.insert(frag_id, pending_ack));
        }
        true
    }

    /// Whether the fragment is awaiting its acknowledgement.
    pub fn is_pending(&self, frag_id: &FragmentIdentifier) -> (pending: bool)
        ensures
            pending == self@.contains_key(*frag_id),
    {
        broadcast use vstd::std_specs::hash::group_hash_axioms;

        if !frag_id.is_real_fragment() {
            return false;
        }
        let key = key_of(frag_id);
        self.entries.contains_key(&key)
    }

    /// Takes the entry of a fragment out of the table, if it has one. All
    /// other entries stay as they are, so that the table then holds one
    /// entry fewer, or as many as before where it had none to take out.
    pub fn lookup_and_remove(&mut self, frag_id: &FragmentIdentifier) -> (removed: Option<
        PendingAcknowledgement,
    >)
        ensures
            removed is Some <==> old(self)@.contains_key(*frag_id),
            removed matches Some(pending_ack) ==> pending_ack == old(self)@[*frag_id],
            final(self)@ == old(self)@.remove(*frag_id),
            removed is Some ==> final(self)@.len() + 1 == old(self)@.len(),
            removed is None ==> final(self)@ == old(self)@,
    {
        broadcast use vstd::std_specs::hash::group_hash_axioms;

        proof {
            old(self).lemma_finite();
        }
        if !frag_id.is_real_fragment() {
            assert(self@ =~= old(self)@.remove(*frag_id));
            assert(self@ =~= old(self)@);
            return None;
        }
        let key = key_of(frag_id);
        proof {
            use_type_invariant(&*self);
        }
        let mut entries: HashMap<u64, PendingAcknowledgement> = HashMap::new();
        core::mem::swap(&mut self.entries, &mut entries);
        let removed = entries.remove(&key);
        assert(forall|key: u64| entries@.contains_key(key) ==> is_table_key(key));
        core::mem::swap(&mut self.entries, &mut entries);
        proof {
            assert forall|id: FragmentIdentifier| id.is_real() && id != *frag_id implies table_key(
                id,
            ) != key by {
                lemma_keys_differ(id, *frag_id);
            }
            assert(self@ =~= old(self)@.remove(*frag_id));
            if removed is None {
                assert(self@ =~= old(self)@);
            }
        }
        removed
    }
}

} // verus!
