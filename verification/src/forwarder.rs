//! The forwarder adapter's bookkeeping: after the external forwarder has
//! accepted or rejected a whole batch, the signature registry is updated and
//! one write-record per transaction is produced for the storage sink. The
//! network send itself happens outside; this logic is verified for every
//! outcome the send can have.

use crate::registry::{SignatureRegistry, TxProps};
use vstd::prelude::*;

verus! {

/// One storage-sink message, emitted per transaction after a forward
/// attempt. The forwarded/processed slot and compute-unit fields are
/// placeholders by design and stay unset.
#[derive(Clone, PartialEq, Eq, Debug)]
pub struct WriteRecord {
    pub signature: String,
    pub recent_slot: i64,
    pub forwarded_slot: i64,
    pub processed_slot: Option<i64>,
    pub cu_consumed: Option<i64>,
    pub cu_requested: Option<i64>,
    pub quic_response: i64,
}

/// The registry contents after registering every signature of a batch as
/// sent at `now`, in batch order.
pub open spec fn insert_all(
    m: Map<Seq<char>, TxProps>,
    sigs: Seq<Seq<char>>,
    now: u64,
) -> Map<Seq<char>, TxProps>
    decreases sigs.len(),
{
    if sigs.len() == 0 {
        m
    } else {
        insert_all(m, sigs.drop_last(), now).insert(
            sigs.last(),
            TxProps { status: None, sent_at: now },
        )
    }
}

/// Registering a batch adds exactly the batch's signatures: each of them is
/// mapped afterwards, with no confirmation status and the batch's send time,
/// and every other signature keeps its previous state.
pub proof fn lemma_insert_all_membership(
    m: Map<Seq<char>, TxProps>,
    sigs: Seq<Seq<char>>,
    now: u64,
)
    ensures
        forall|k: Seq<char>|
            #![trigger insert_all(m, sigs, now).dom().contains(k)]
            insert_all(m, sigs, now).dom().contains(k) == (m.dom().contains(k)
                || sigs.contains(k)),
        forall|k: Seq<char>|
            #![trigger insert_all(m, sigs, now)[k]]
            sigs.contains(k) ==> insert_all(m, sigs, now)[k] == (TxProps {
                status: None,
                sent_at: now,
            }),
        forall|k: Seq<char>|
            #![trigger insert_all(m, sigs, now)[k]]
            !sigs.contains(k) && m.dom().contains(k) ==> insert_all(m, sigs, now)[k] == m[k],
    decreases sigs.len(),
{
    if sigs.len() > 0 {
        lemma_insert_all_membership(m, sigs.drop_last(), now);
        assert(forall|i: int| 0 <= i < sigs.len() - 1 ==> sigs.drop_last()[i] == sigs[i]);
        assert forall|k: Seq<char>| sigs.drop_last().contains(k) implies sigs.contains(k) by {
            let i = choose|i: int| 0 <= i < sigs.drop_last().len() && sigs.drop_last()[i] == k;
            assert(sigs[i] == k);
        }
        assert(sigs[sigs.len() - 1] == sigs.last());
        assert(sigs.contains(sigs.last()));
        assert forall|k: Seq<char>| sigs.contains(k) && k != sigs.last() implies sigs.drop_last().contains(
            k,
        ) by {
            let i = choose|i: int| 0 <= i < sigs.len() && sigs[i] == k;
            assert(sigs.drop_last()[i] == k);
        }
    }
}

/// The transaction dispatcher's forwarding side: owns the registry of
/// signatures it has handed to the external forwarder.
pub struct TxSender {
    /// Transactions forwarded to the network, keyed by signature.
    pub txs_sent: SignatureRegistry,
}

impl TxSender {
    pub fn new() -> (r: Self)
        ensures
            r.txs_sent.contents() == Map::<Seq<char>, TxProps>::empty(),
    {
        TxSender { txs_sent: SignatureRegistry::new() }
    }

    /// Applies the outcome of one batch send at time `now`. On success every
    /// signature of the batch is recorded as sent (status unset); on failure
    /// the registry is left untouched. Either way one write-record per
    /// transaction is produced, carrying response code 1 on success and 0 on
    /// failure and placeholder slot/compute fields. An empty batch changes
    /// nothing and yields no records.
    pub fn record_forward_outcome(
        &mut self,
        sigs_and_slots: &Vec<(String, u64)>,
        send_ok: bool,
        now: u64,
    ) -> (records: Vec<WriteRecord>)
        ensures
            send_ok ==> final(self).txs_sent.contents() == insert_all(
                old(self).txs_sent.contents(),
                sigs_and_slots@.map(|i: int, p: (String, u64)| p.0@),
                now,
            ),
            !send_ok ==> final(self).txs_sent.contents() == old(self).txs_sent.contents(),
            records@.len() == sigs_and_slots@.len(),
            forall|i: int|
                #![trigger records@[i]]
                0 <= i < records@.len() ==> records@[i].signature@ == sigs_and_slots@[i].0@
                    && records@[i].recent_slot == #[verifier::truncate] (sigs_and_slots@[i].1 as i64) && records@[
                    i
                ].forwarded_slot == 0 && records@[i].processed_slot is None && records@[
                    i
                ].cu_consumed is None && records@[i].cu_requested is None && records@[
                    i
                ].quic_response == if send_ok {
                    1int
                } else {
                    0int
                },
    {
        let ghost sig_views = sigs_and_slots@.map(|i: int, p: (String, u64)| p.0@);
        let mut records: Vec<WriteRecord> = Vec::new();
        if send_ok {
            let mut i: usize = 0;
            while i < sigs_and_slots.len()
                invariant
                    0 <= i <= sigs_and_slots@.len(),
                    sig_views == sigs_and_slots@.map(|k: int, p: (String, u64)| p.0@),
                    self.txs_sent.contents() == insert_all(
                        old(self).txs_sent.contents(),
                        sig_views.take(i as int),
                        now,
                    ),
                decreases sigs_and_slots@.len() - i,
            {
                let sig = sigs_and_slots[i].0.clone();
                self.txs_sent.insert(sig, TxProps::new(now));
                proof {
                    assert(sig_views.take(i + 1).drop_last() =~= sig_views.take(i as int));
                    assert(sig_views.take(i + 1).last() == sigs_and_slots@[i as int].0@);
                }
                i = i + 1;
            }
            proof {
                assert(sig_views.take(sig_views.len() as int) =~= sig_views);
            }
        }
        let quic_response: i64 = if send_ok {
            1
        } else {
            0
        };
        let mut i: usize = 0;
        while i < sigs_and_slots.len()
            invariant
                0 <= i <= sigs_and_slots@.len(),
                records@.len() == i,
                quic_response == if send_ok {
                    1int
                } else {
                    0int
                },
                forall|k: int|
                    #![trigger records@[k]]
                    0 <= k < i ==> records@[k].signature@ == sigs_and_slots@[k].0@ && records@[
                        k
                    ].recent_slot == #[verifier::truncate] (sigs_and_slots@[k].1 as i64) && records@[k].forwarded_slot == 0
                        && records@[k].processed_slot is None && records@[k].cu_consumed is None
                        && records@[k].cu_requested is None && records@[k].quic_response == if send_ok {
                        1int
                    } else {
                        0int
                    },
            decreases sigs_and_slots@.len() - i,
        {
            let signature = sigs_and_slots[i].0.clone();
            let recent_slot = #[verifier::truncate] (sigs_and_slots[i].1 as i64);
            records.push(
                WriteRecord {
                    signature,
                    recent_slot,
                    forwarded_slot: 0,
                    processed_slot: None,
                    cu_consumed: None,
                    cu_requested: None,
                    quic_response,
                },
            );
            i = i + 1;
        }
        records
    }
}

} // verus!
