use vstd::prelude::*;

use crate::amount::{combined_value, reconstruct_amount, stark_prime};
use crate::codec::{message_digest, message_digest_of, word_views, PAYLOAD_WORDS};
use crate::error::ReconcileError;
use crate::word::{u64_word, Word};

verus! {

/// The key by which the L2 bridge marks its withdrawal events: `WITHDRAW` read
/// as a big-endian integer.
pub const WITHDRAW_KEY: u64 = 0x5749544844524157;

/// Number of key slots in an event filter.
pub const FILTER_SLOTS: usize = 6;

/// A withdrawal event read from the L2 ledger.
pub struct WithdrawalEvent {
    pub tx_hash: Word,
    pub l1_recipient: Word,
    pub l2_sender: Word,
    pub l1_token: Word,
    pub amount_low: Word,
    pub amount_high: Word,
    pub block_number: u64,
}

impl WithdrawalEvent {
    /// Every field of the event is a 32-byte word.
    pub open spec fn wf(&self) -> bool {
        &&& self.tx_hash.wf()
        &&& self.l1_recipient.wf()
        &&& self.l2_sender.wf()
        &&& self.l1_token.wf()
        &&& self.amount_low.wf()
        &&& self.amount_high.wf()
    }

    /// The payload words of the message that the event sends to L1: the L1
    /// token, the L1 recipient, the L2 sender, then the low and high halves of
    /// the amount.
    pub open spec fn payload(&self) -> Seq<Seq<u8>> {
        seq![
            self.l1_token@,
            self.l1_recipient@,
            self.l2_sender@,
            self.amount_low@,
            self.amount_high@,
        ]
    }

    /// The total amount that the event withdraws.
    pub open spec fn total_amount(&self) -> nat {
        combined_value(self.amount_low.value(), self.amount_high.value())
    }
}

/// What is known of a withdrawal before the L1 registry is asked about it.
pub struct PreparedWithdrawal {
    pub tx_hash: Word,
    pub l2_sender: Word,
    pub l1_recipient: Word,
    pub l1_token: Word,
    pub amount: Word,
    pub digest: Word,
}

/// One row of the reconciliation report.
pub struct ReconciliationRecord {
    pub tx_hash: Word,
    pub timestamp: String,
    pub l2_sender: Word,
    pub l1_recipient: Word,
    pub l1_token: Word,
    pub amount: Word,
    pub pending_messages: Word,
    pub digest: Word,
}

/// The payload words of an event's message, in their order.
pub fn message_payload(event: &WithdrawalEvent) -> (r: Vec<Word>)
    requires
        event.wf(),
    ensures
        word_views(r@) == event.payload(),
        r@.len() == PAYLOAD_WORDS,
        forall|i: int| 0 <= i < r@.len() ==> (#[trigger] r@[i]).wf(),
{
    let mut r: Vec<Word> = Vec::new();
    r.push(event.l1_token.copy());
    r.push(event.l1_recipient.copy());
    r.push(event.l2_sender.copy());
    r.push(event.amount_low.copy());
    r.push(event.amount_high.copy());
    assert(word_views(r@) =~= event.payload());
    r
}

/// Reconstructs an event's amount and computes the digest of the message it
/// sent from the L2 bridge to the L1 bridge. An amount that does not fit a field
/// element gives `AmountOutOfRange`.
pub fn prepare_withdrawal(event: &WithdrawalEvent, l2_bridge: &Word, l1_bridge: &Word) -> (r: Result<
    PreparedWithdrawal,
    ReconcileError,
>)
    requires
        event.wf(),
        l2_bridge.wf(),
        l1_bridge.wf(),
    ensures
        r is Ok <==> event.total_amount() < stark_prime(),
        r matches Err(e) ==> e == ReconcileError::AmountOutOfRange,
        r matches Ok(p) ==> {
            &&& p.tx_hash@ == event.tx_hash@
            &&& p.l2_sender@ == event.l2_sender@
            &&& p.l1_recipient@ == event.l1_recipient@
            &&& p.l1_token@ == event.l1_token@
            &&& p.amount.wf()
            &&& p.amount.value() == event.total_amount()
            &&& p.digest.wf()
            &&& p.digest@ == message_digest_of(l2_bridge@, l1_bridge@, event.payload())
        },
{
    let amount = match reconstruct_amount(&event.amount_low, &event.amount_high) {
        Ok(a) => a,
        Err(e) => {
            return Err(e);
        },
    };
    let payload = message_payload(event);
    let digest = message_digest(l2_bridge, l1_bridge, &payload);
    Ok(
        PreparedWithdrawal {
            tx_hash: event.tx_hash.copy(),
            l2_sender: event.l2_sender.copy(),
            l1_recipient: event.l1_recipient.copy(),
            l1_token: event.l1_token.copy(),
            amount,
            digest,
        },
    )
}

/// The report row of a prepared withdrawal, with the block's timestamp text
/// and the registry's raw pending-message counter, which is kept as it came: a
/// zero counter stands both for a consumed message and for one never
/// registered.
pub fn complete_record(
    prepared: PreparedWithdrawal,
    timestamp: String,
    pending_messages: Word,
) -> (r: ReconciliationRecord)
    ensures
        r.tx_hash == prepared.tx_hash,
        r.timestamp == timestamp,
        r.l2_sender == prepared.l2_sender,
        r.l1_recipient == prepared.l1_recipient,
        r.l1_token == prepared.l1_token,
        r.amount == prepared.amount,
        r.pending_messages == pending_messages,
        r.digest == prepared.digest,
{
    ReconciliationRecord {
        tx_hash: prepared.tx_hash,
        timestamp,
        l2_sender: prepared.l2_sender,
        l1_recipient: prepared.l1_recipient,
        l1_token: prepared.l1_token,
        amount: prepared.amount,
        pending_messages,
        digest: prepared.digest,
    }
}

/// The key filter of the withdrawal event query: six slots, each empty (any
/// key) but the second, which holds the L2 sender when one is given, and the
/// fourth, which holds the withdrawal key.
pub fn withdrawal_key_filter(l2_sender: Option<Word>) -> (r: Vec<Vec<Word>>)
    ensures
        r@.len() == FILTER_SLOTS,
        r@[0]@.len() == 0,
        r@[2]@.len() == 0,
        r@[4]@.len() == 0,
        r@[5]@.len() == 0,
        r@[3]@.len() == 1,
        r@[3]@[0]@ == u64_word(WITHDRAW_KEY),
        match l2_sender {
            Some(s) => r@[1]@.len() == 1 && r@[1]@[0]@ == s@,
            None => r@[1]@.len() == 0,
        },
{
    let sender_slot: Vec<Word> = match l2_sender {
        Some(s) => vec![s],
        None => Vec::new(),
    };
    let key_slot: Vec<Word> = vec![Word::from_u64(WITHDRAW_KEY)];
    let mut r: Vec<Vec<Word>> = Vec::new();
    r.push(Vec::new());
    r.push(sender_slot);
    r.push(Vec::new());
    r.push(key_slot);
    r.push(Vec::new());
    r.push(Vec::new());
    r
}

} // verus!
