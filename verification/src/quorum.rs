//! Counting the relay accounts that stand behind a move of their reward.

use vstd::prelude::*;
use crate::reward::contains_relay;
use crate::signature::{signature_valid, verify, Signature};
use crate::types::RelayAccountId;

verus! {

/// A proof: a relay account and its signature.
pub type RelayProof = (RelayAccountId, Signature);

/// Whether a proof counts: its relay account is one of `relays` and has signed `message`.
pub open spec fn proof_counts(proof: RelayProof, relays: Seq<RelayAccountId>, message: Seq<u8>) -> bool {
    relays.contains(proof.0) && signature_valid(proof.1, message, proof.0)
}

/// The relay accounts that some proof among `proofs` counts for.
pub open spec fn voters(proofs: Seq<RelayProof>, relays: Seq<RelayAccountId>, message: Seq<u8>) -> Set<
    RelayAccountId,
> {
    Set::new(
        |r: RelayAccountId|
            exists|i: int|
                0 <= i < proofs.len() && (#[trigger] proofs[i]).0 == r && proof_counts(
                    proofs[i],
                    relays,
                    message,
                ),
    )
}

/// One more proof adds its relay account to the voters if it counts, and nothing else.
pub proof fn lemma_voters_step(
    proofs: Seq<RelayProof>,
    n: int,
    relays: Seq<RelayAccountId>,
    message: Seq<u8>,
)
    requires
        0 <= n < proofs.len(),
    ensures
        voters(proofs.take(n + 1), relays, message) == if proof_counts(proofs[n], relays, message) {
            voters(proofs.take(n), relays, message).insert(proofs[n].0)
        } else {
            voters(proofs.take(n), relays, message)
        },
{
    let shorter = proofs.take(n);
    let longer = proofs.take(n + 1);
    let before = voters(shorter, relays, message);
    let after = voters(longer, relays, message);
    let expected = if proof_counts(proofs[n], relays, message) {
        before.insert(proofs[n].0)
    } else {
        before
    };
    assert forall|r: RelayAccountId| after.contains(r) <==> expected.contains(r) by {
        if after.contains(r) {
            let i = choose|i: int|
                0 <= i < longer.len() && (#[trigger] longer[i]).0 == r && proof_counts(
                    longer[i],
                    relays,
                    message,
                );
            if i < n {
                assert(shorter[i].0 == r && proof_counts(shorter[i], relays, message));
            }
        }
        if before.contains(r) {
            let i = choose|i: int|
                0 <= i < shorter.len() && (#[trigger] shorter[i]).0 == r && proof_counts(
                    shorter[i],
                    relays,
                    message,
                );
            assert(longer[i].0 == r && proof_counts(longer[i], relays, message));
        }
        if proof_counts(proofs[n], relays, message) && r == proofs[n].0 {
            assert(longer[n].0 == r && proof_counts(longer[n], relays, message));
        }
    }
    assert(after =~= expected);
}

/// Counts the relay accounts among `relays` that have given a valid proof for
/// `message`, each once, however many proofs it gave.
pub fn count_votes(proofs: &Vec<RelayProof>, relays: &Vec<RelayAccountId>, message: &Vec<u8>) -> (votes:
    usize)
    ensures
        votes == voters(proofs@, relays@, message@).len(),
        voters(proofs@, relays@, message@).finite(),
{
    let mut voted: Vec<RelayAccountId> = Vec::new();
    let mut i: usize = 0;
    assert(voted@.to_set() =~= voters(proofs@.take(0), relays@, message@));
    while i < proofs.len()
        invariant
            i <= proofs.len(),
            voted@.no_duplicates(),
            voted@.to_set() == voters(proofs@.take(i as int), relays@, message@),
        decreases proofs.len() - i,
    {
        let relay: RelayAccountId = proofs[i].0;
        proof {
            lemma_voters_step(proofs@, i as int, relays@, message@);
        }
        if contains_relay(relays, &relay) && verify(&proofs[i].1, message, &relay) {
            if !contains_relay(&voted, &relay) {
                proof {
                    voted@.lemma_push_to_set_commute(relay);
                }
                voted.push(relay);
            } else {
                assert(voted@.to_set().insert(relay) =~= voted@.to_set());
            }
        }
        i = i + 1;
    }
    proof {
        assert(proofs@.take(proofs.len() as int) =~= proofs@);
        voted@.unique_seq_to_set();
        vstd::seq_lib::seq_to_set_is_finite(voted@);
    }
    voted.len()
}

} // verus!
