//! Properties of the ledger that relate several operations or spell out the
//! shape of a batch.
use crate::ledger::{public_batch, LedgerView, TokenView, PUBLIC_BATCH_SIZE};
use vstd::prelude::*;

verus! {

/// A batch `mint` appends exactly `PUBLIC_BATCH_SIZE` records, all owned by
/// the administrator and sharing the image, whose identifiers run without gap
/// from the counter's value before the call; earlier records stay as they were
/// and the counter advances by exactly `PUBLIC_BATCH_SIZE`.
pub proof fn lemma_batch_mint_shape(s: LedgerView, image: Seq<char>)
    ensures
        s.mint_batch(image).registry.len() == s.registry.len() + PUBLIC_BATCH_SIZE,
        s.mint_batch(image).registry.subrange(0, s.registry.len() as int) == s.registry,
        forall|k: int|
            0 <= k < PUBLIC_BATCH_SIZE ==> #[trigger] s.mint_batch(image).registry[s.registry.len()
                + k] == (TokenView { owner: s.admin, token_id: s.next_public_token_id + k, image }),
        s.mint_batch(image).next_public_token_id == s.next_public_token_id + PUBLIC_BATCH_SIZE,
        s.mint_batch(image).admin == s.admin,
        s.mint_batch(image).claimers == s.claimers,
{
    let t = s.mint_batch(image);
    assert(t.registry.subrange(0, s.registry.len() as int) =~= s.registry);
    assert forall|k: int| 0 <= k < PUBLIC_BATCH_SIZE implies #[trigger] t.registry[s.registry.len()
        + k] == (TokenView { owner: s.admin, token_id: s.next_public_token_id + k, image }) by {
        assert(t.registry[s.registry.len() + k] == public_batch(
            s.admin,
            s.next_public_token_id,
            image,
        )[k]);
    }
}

/// Authorizing claimers adds exactly the given identities to the claim set
/// and leaves the registry, the counter and the administrator as they were.
pub proof fn lemma_authorize_adds_exactly(s: LedgerView, accounts: Set<Seq<char>>)
    ensures
        forall|a: Seq<char>|
            #[trigger] s.authorize(accounts).claimers.contains(a) <==> (s.claimers.contains(a)
                || accounts.contains(a)),
        s.authorize(accounts).registry == s.registry,
        s.authorize(accounts).next_public_token_id == s.next_public_token_id,
        s.authorize(accounts).admin == s.admin,
{
}

/// Once the owner of the record at `position` has transferred it to another
/// identity, that identity owns it and the former owner can no longer
/// transfer it.
pub proof fn lemma_transfer_moves_ownership(
    s: LedgerView,
    caller: Seq<char>,
    receiver: Seq<char>,
    position: int,
)
    requires
        s.may_transfer(caller, position),
        receiver != caller,
    ensures
        s.transfer_to(receiver, position).registry[position].owner == receiver,
        !s.transfer_to(receiver, position).may_transfer(caller, position),
        s.transfer_to(receiver, position).may_transfer(receiver, position),
{
}

/// A successful claim appends exactly one record, owned by the claimer, with
/// the counter's value before the call as its identifier and an empty image,
/// and advances the counter by one.
pub proof fn lemma_claim_shape(s: LedgerView, who: Seq<char>)
    ensures
        s.claim_by(who).registry.len() == s.registry.len() + 1,
        s.claim_by(who).registry.subrange(0, s.registry.len() as int) == s.registry,
        s.claim_by(who).registry.last() == (TokenView {
            owner: who,
            token_id: s.next_public_token_id,
            image: Seq::empty(),
        }),
        s.claim_by(who).next_public_token_id == s.next_public_token_id + 1,
{
    assert(s.claim_by(who).registry.subrange(0, s.registry.len() as int) =~= s.registry);
}

} // verus!
