//! What the client does when an acknowledgement arrives.

use vstd::prelude::*;
use crate::acknowledgements::identifier::{recover_identifier, recovered_identifier};
use crate::acknowledgements::pending::{PendingAcknowledgement, PendingAcksMap};
use crate::acknowledgements::AckAes128Key;
use crate::chunking::fragment::{FragmentIdentifier, FRAG_ID_LEN};

verus! {

/// Why an acknowledgement confirmed nothing, or a fragment was given up.
/// None of these stops the listener.
#[derive(Clone, Copy, Debug, PartialEq, Eq, Structural)]
pub enum AckError {
    /// The payload does not carry a well-formed identifier under the shared
    /// key.
    MalformedAcknowledgement,
    /// The identifier is well formed and no fragment of that name awaits an
    /// acknowledgement: it was confirmed before, or never sent.
    UnknownFragment(FragmentIdentifier),
    /// The fragment was sent again as often as the policy allows and never
    /// confirmed.
    RetriesExhausted(FragmentIdentifier),
}

/// What became of one item of the stream of acknowledgements.
#[derive(Debug)]
pub enum ListenerStep {
    /// A payload was dealt with: a fragment is confirmed and the timer of
    /// the entry is to be cancelled, or there is something to log. The
    /// listener goes on.
    Processed(Result<PendingAcknowledgement, AckError>),
    /// The stream has ended: the listener has stopped, and the session that
    /// owns it has to be set up again.
    Halted,
}

/// The fragment that recovered bytes name, if they name one.
pub open spec fn named_fragment(frag_id_bytes: Option<[u8; FRAG_ID_LEN]>) -> Option<
    FragmentIdentifier,
> {
    match frag_id_bytes {
        Some(bytes) => FragmentIdentifier::decoding(bytes@),
        None => None,
    }
}

/// What the table is after an acknowledgement for `frag_id`, if any, was
/// dealt with.
pub open spec fn table_after(
    table: Map<FragmentIdentifier, PendingAcknowledgement>,
    frag_id: Option<FragmentIdentifier>,
) -> Map<FragmentIdentifier, PendingAcknowledgement> {
    match frag_id {
        Some(id) => table.remove(id),
        None => table,
    }
}

/// What is to be done about an acknowledgement for `frag_id`, if it named
/// any: cancel the timer of the entry that the table has for it, or report
/// why there is none.
pub open spec fn outcome_of(
    table: Map<FragmentIdentifier, PendingAcknowledgement>,
    frag_id: Option<FragmentIdentifier>,
) -> Result<PendingAcknowledgement, AckError> {
    match frag_id {
        Some(id) => if table.contains_key(id) {
            Ok(table[id])
        } else {
            Err(AckError::UnknownFragment(id))
        },
        None => Err(AckError::MalformedAcknowledgement),
    }
}

/// Cancels retransmission timers and clears the table as acknowledgements
/// arrive.
pub struct AcknowledgementListener {
    ack_key: AckAes128Key,
    halted: bool,
}

impl AcknowledgementListener {
    /// The key under which the listener recovers identifiers.
    pub closed spec fn key(&self) -> Seq<u8> {
        self.ack_key@
    }

    /// The listener has stopped for good.
    pub closed spec fn is_halted(&self) -> bool {
        self.halted
    }

    pub fn new(ack_key: AckAes128Key) -> (listener: Self)
        ensures
            listener.key() == ack_key@,
            !listener.is_halted(),
    {
        AcknowledgementListener { ack_key, halted: false }
    }

    pub fn has_halted(&self) -> (halted: bool)
        ensures
            halted == self.is_halted(),
    {
        self.halted
    }

    /// Deals with what was recovered from one acknowledgement: the bytes of
    /// an identifier, or nothing. Where the bytes name a fragment that the
    /// table holds, its entry leaves the table and is handed out, for its
    /// timer to be cancelled; all other entries stay. In every other case
    /// the table stays as it is.
    pub fn on_recovered(
        pending_acks: &mut PendingAcksMap,
        frag_id_bytes: Option<[u8; FRAG_ID_LEN]>,
    ) -> (outcome: Result<PendingAcknowledgement, AckError>)
        ensures
            outcome == outcome_of(old(pending_acks)@, named_fragment(frag_id_bytes)),
            final(pending_acks)@ == table_after(old(pending_acks)@, named_fragment(frag_id_bytes)),
            outcome is Ok ==> final(pending_acks)@.len() + 1 == old(pending_acks)@.len(),
            outcome is Err ==> final(pending_acks)@ == old(pending_acks)@,
    {
        let frag_id = match frag_id_bytes {
            None => {
                return Err(AckError::MalformedAcknowledgement);
            },
            Some(frag_id_bytes) => match FragmentIdentifier::try_from_bytes(
                frag_id_bytes.as_slice(),
            ) {
                Ok(frag_id) => frag_id,
                Err(_) => {
                    return Err(AckError::MalformedAcknowledgement);
                },
            },
        };
        match pending_acks.lookup_and_remove(&frag_id) {
            // the timer of the entry is cancelled by whoever gets it
            Some(pending_ack) => Ok(pending_ack),
            None => {
                assert(pending_acks@ =~= old(pending_acks)@);
                Err(AckError::UnknownFragment(frag_id))
            },
        }
    }

    /// Deals with the payload of one acknowledgement: recovers the
    /// identifier under the shared key, and goes on as `on_recovered` does.
    pub fn on_ack(&self, pending_acks: &mut PendingAcksMap, ack_content: Vec<u8>) -> (outcome:
        Result<PendingAcknowledgement, AckError>)
        ensures
            outcome == outcome_of(
                old(pending_acks)@,
                recovered_identifier(self.key(), ack_content@),
            ),
            final(pending_acks)@ == table_after(
                old(pending_acks)@,
                recovered_identifier(self.key(), ack_content@),
            ),
            outcome is Ok ==> final(pending_acks)@.len() + 1 == old(pending_acks)@.len(),
            outcome is Err ==> final(pending_acks)@ == old(pending_acks)@,
    {
        let frag_id_bytes = recover_identifier(&self.ack_key, ack_content.as_slice());
        Self::on_recovered(pending_acks, frag_id_bytes)
    }

    /// Takes the next item of the stream of acknowledgements: a payload, or
    /// nothing where the stream has ended. A payload never stops the
    /// listener, whatever it holds. The end of the stream stops it for good:
    /// from then on nothing is dealt with and the table stays as it is.
    pub fn run(&mut self, pending_acks: &mut PendingAcksMap, next: Option<Vec<u8>>) -> (step:
        ListenerStep)
        ensures
            final(self).key() == old(self).key(),
            final(self).is_halted() == (old(self).is_halted() || next is None),
            step is Halted <==> final(self).is_halted(),
            final(self).is_halted() ==> final(pending_acks)@ == old(pending_acks)@,
            step matches ListenerStep::Processed(outcome) ==> next is Some && outcome
                == outcome_of(
                old(pending_acks)@,
                recovered_identifier(old(self).key(), next.unwrap()@),
            ) && final(pending_acks)@ == table_after(
                old(pending_acks)@,
                recovered_identifier(old(self).key(), next.unwrap()@),
            ) && (outcome is Ok ==> final(pending_acks)@.len() + 1 == old(pending_acks)@.len()),
    {
        if self.halted {
            return ListenerStep::Halted;
        }
        match next {
            Some(ack) => ListenerStep::Processed(self.on_ack(pending_acks, ack)),
            None => {
                self.halted = true;
                ListenerStep::Halted
            },
        }
    }
}

/// An acknowledgement for a fragment that the table holds takes exactly
/// that entry out and hands it over; every other entry stays.
pub proof fn lemma_known_fragment_is_confirmed(
    table: Map<FragmentIdentifier, PendingAcknowledgement>,
    frag_id: FragmentIdentifier,
    other: FragmentIdentifier,
)
    requires
        table.contains_key(frag_id),
        other != frag_id,
    ensures
        outcome_of(table, Some(frag_id)) == Ok::<PendingAcknowledgement, AckError>(table[frag_id]),
        !table_after(table, Some(frag_id)).contains_key(frag_id),
        table_after(table, Some(frag_id)).contains_key(other) == table.contains_key(other),
        table.contains_key(other) ==> table_after(table, Some(frag_id))[other] == table[other],
{
}

/// A confirmation leaves the table with one entry fewer.
pub proof fn lemma_confirmation_takes_one_entry(
    table: Map<FragmentIdentifier, PendingAcknowledgement>,
    frag_id: FragmentIdentifier,
)
    requires
        table.dom().finite(),
        table.contains_key(frag_id),
    ensures
        table_after(table, Some(frag_id)).dom().finite(),
        table_after(table, Some(frag_id)).len() + 1 == table.len(),
{
}

/// An acknowledgement for a fragment that the table does not hold, or one
/// that names nothing, leaves the table as it is.
pub proof fn lemma_unknown_fragment_changes_nothing(
    table: Map<FragmentIdentifier, PendingAcknowledgement>,
    frag_id: Option<FragmentIdentifier>,
)
    requires
        frag_id matches Some(id) ==> !table.contains_key(id),
    ensures
        outcome_of(table, frag_id) is Err,
        table_after(table, frag_id) == table,
{
    assert(table_after(table, frag_id) =~= table);
}

/// Once a fragment is confirmed, a second acknowledgement for it finds
/// nothing.
pub proof fn lemma_second_acknowledgement_is_unknown(
    table: Map<FragmentIdentifier, PendingAcknowledgement>,
    frag_id: FragmentIdentifier,
)
    ensures
        outcome_of(table_after(table, Some(frag_id)), Some(frag_id)) == Err::<
            PendingAcknowledgement,
            AckError,
        >(AckError::UnknownFragment(frag_id)),
        table_after(table_after(table, Some(frag_id)), Some(frag_id)) == table_after(
            table,
            Some(frag_id),
        ),
{
    assert(table_after(table_after(table, Some(frag_id)), Some(frag_id)) =~= table_after(
        table,
        Some(frag_id),
    ));
}

} // verus!
