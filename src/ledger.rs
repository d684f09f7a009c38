use near_sdk::AccountId;
use vstd::prelude::*;

verus! {

/// Number of publicly claimable tokens created by one batch `mint`.
pub const PUBLIC_BATCH_SIZE: u64 = 100;

/// One owned item of the ledger.
pub struct NFT {
    pub owner_id: AccountId,
    pub token_id: u64,
    pub image_url: String,
}

/// Mathematical model of a token record.
pub ghost struct TokenView {
    pub owner: Seq<char>,
    pub token_id: int,
    pub image: Seq<char>,
}

impl View for NFT {
    type V = TokenView;

    open spec fn view(&self) -> TokenView {
        TokenView { owner: self.owner_id@, token_id: self.token_id as int, image: self.image_url@ }
    }
}

/// Mathematical model of the whole ledger.
pub ghost struct LedgerView {
    /// Token records, in creation order.
    pub registry: Seq<TokenView>,
    /// The administrator, fixed at construction.
    pub admin: Seq<char>,
    /// Identifier handed to the next publicly claimable token.
    pub next_public_token_id: int,
    /// Identities allowed to claim; the empty set lets anyone claim.
    pub claimers: Set<Seq<char>>,
}

/// Why a `mint` call is aborted.
#[derive(PartialEq, Eq, Structural, Debug, Clone, Copy)]
pub enum MintError {
    /// The caller is not the administrator.
    Unauthorized,
}

/// The token ledger: a registry of records, its administrator, the public
/// identifier counter and the set of identities allowed to claim.
pub struct NFTContract {
    pub nfts: Vec<NFT>,
    pub owner_id: AccountId,
    pub next_public_token_id: u64,
    /// Kept free of duplicates; read as a set.
    pub allowed_claimers: Vec<AccountId>,
}

/// The identities held in a list, as a set.
pub open spec fn account_set(list: Seq<AccountId>) -> Set<Seq<char>> {
    Set::new(|a: Seq<char>| exists|i: int| 0 <= i < list.len() && #[trigger] list[i]@ == a)
}

/// The records that one batch `mint` appends: `PUBLIC_BATCH_SIZE` tokens owned
/// by `admin`, sharing `image`, with identifiers counting up from `first`.
pub open spec fn public_batch(admin: Seq<char>, first: int, image: Seq<char>) -> Seq<TokenView> {
    Seq::new(PUBLIC_BATCH_SIZE as nat, |k: int| TokenView { owner: admin, token_id: first + k, image })
}

impl LedgerView {
    /// The ledger right after construction.
    pub open spec fn initial(admin: Seq<char>) -> LedgerView {
        LedgerView {
            registry: Seq::empty(),
            admin,
            next_public_token_id: 1,
            claimers: Set::empty(),
        }
    }

    /// `mint` with a claim list: the identities join the claim set.
    pub open spec fn authorize(self, accounts: Set<Seq<char>>) -> LedgerView {
        LedgerView { claimers: self.claimers.union(accounts), ..self }
    }

    /// `mint` without a claim list: a public batch owned by the administrator.
    pub open spec fn mint_batch(self, image: Seq<char>) -> LedgerView {
        LedgerView {
            registry: self.registry + public_batch(self.admin, self.next_public_token_id, image),
            next_public_token_id: self.next_public_token_id + PUBLIC_BATCH_SIZE,
            ..self
        }
    }

    /// Whether `who` may claim: the claim set is empty or holds `who`.
    pub open spec fn may_claim(self, who: Seq<char>) -> bool {
        self.claimers == Set::<Seq<char>>::empty() || self.claimers.contains(who)
    }

    /// A successful `claim` by `who`: one record with an empty image.
    pub open spec fn claim_by(self, who: Seq<char>) -> LedgerView {
        LedgerView {
            registry: self.registry.push(
                TokenView { owner: who, token_id: self.next_public_token_id, image: Seq::empty() },
            ),
            next_public_token_id: self.next_public_token_id + 1,
            ..self
        }
    }

    /// Whether `caller` may transfer the record at `position`: it exists and
    /// `caller` owns it.
    pub open spec fn may_transfer(self, caller: Seq<char>, position: int) -> bool {
        0 <= position < self.registry.len() && self.registry[position].owner == caller
    }

    /// The record at `position` passes to `receiver`; nothing else changes.
    pub open spec fn transfer_to(self, receiver: Seq<char>, position: int) -> LedgerView {
        LedgerView {
            registry: self.registry.update(
                position,
                TokenView { owner: receiver, ..self.registry[position] },
            ),
            ..self
        }
    }
}

impl View for NFTContract {
    type V = LedgerView;

    open spec fn view(&self) -> LedgerView {
        LedgerView {
            registry: self.nfts@.map_values(|t: NFT| t@),
            admin: self.owner_id@,
            next_public_token_id: self.next_public_token_id as int,
            claimers: account_set(self.allowed_claimers@),
        }
    }
}

/// Whether `list` holds `who`.
fn holds_account(list: &Vec<AccountId>, who: &AccountId) -> (r: bool)
    ensures
        r == account_set(list@).contains(who@),
{
    let mut i: usize = 0;
    while i < list.len()
        invariant
            i <= list@.len(),
            forall|j: int| 0 <= j < i ==> list@[j]@ != who@,
        decreases list@.len() - i,
    {
        if list[i] == *who {
            assert(list@[i as int]@ == who@);
            return true;
        }
        i = i + 1;
    }
    false
}

impl NFTContract {
    /// Well-formedness: records carry the identifiers 1, 2, ... in creation
    /// order, the counter is one past the last of them, and the claim list
    /// holds no identity twice.
    pub open spec fn wf(&self) -> bool {
        &&& forall|i: int| 0 <= i < self.nfts@.len() ==> #[trigger] self.nfts@[i].token_id == i + 1
        &&& self.next_public_token_id == self.nfts@.len() + 1
        &&& forall|i: int, j: int|
            0 <= i < j < self.allowed_claimers@.len() ==> #[trigger] self.allowed_claimers@[i]@
                != #[trigger] self.allowed_claimers@[j]@
    }

    /// A ledger administered by `owner_id`, with no records, the counter at 1
    /// and an empty claim set.
    pub fn new(owner_id: AccountId) -> (r: Self)
        ensures
            r.wf(),
            r@ == LedgerView::initial(owner_id@),
    {
        let r = NFTContract {
            nfts: Vec::new(),
            owner_id,
            next_public_token_id: 1,
            allowed_claimers: Vec::new(),
        };
        assert(r@.registry =~= Seq::<TokenView>::empty());
        assert(r@.claimers =~= Set::<Seq<char>>::empty());
        r
    }

    /// Administrator-only creation. With a claim list, its identities join
    /// the claim set and no record is made; without one, a public batch of
    /// `PUBLIC_BATCH_SIZE` records owned by the administrator is appended and
    /// the counter advances by as much. `token_id` is not used. Any other
    /// caller is refused with `MintError::Unauthorized` and nothing changes.
    pub fn mint(
        &mut self,
        caller: &AccountId,
        token_id: u64,
        image_url: String,
        allowed_claimers: Option<Vec<AccountId>>,
    ) -> (r: Result<bool, MintError>)
        requires
            old(self).wf(),
            allowed_claimers is None ==> old(self).next_public_token_id + PUBLIC_BATCH_SIZE
                <= u64::MAX,
        ensures
            final(self).wf(),
            caller@ != old(self)@.admin ==> r == Err::<bool, MintError>(MintError::Unauthorized)
                && *final(self) == *old(self),
            caller@ == old(self)@.admin ==> r == Ok::<bool, MintError>(true) && final(self)@ == (
            match allowed_claimers {
                Some(list) => old(self)@.authorize(account_set(list@)),
                None => old(self)@.mint_batch(image_url@),
            }),
    {
        if *caller != self.owner_id {
            return Err(MintError::Unauthorized);
        }
        match allowed_claimers {
            Some(claimers_list) => {
                self.authorize_claimers(&claimers_list);
            },
            None => {
                self.mint_public_batch(&image_url);
            },
        }
        Ok(true)
    }

    /// Adds each identity of `list` to the claim list, skipping those
    /// already there.
    fn authorize_claimers(&mut self, list: &Vec<AccountId>)
        requires
            old(self).wf(),
        ensures
            final(self).wf(),
            final(self)@ == old(self)@.authorize(account_set(list@)),
    {
        let ghost pre = self@;
        let mut i: usize = 0;
        assert(account_set(list@.subrange(0, 0)) =~= Set::<Seq<char>>::empty());
        assert(self@.claimers.union(Set::<Seq<char>>::empty()) =~= self@.claimers);
        while i < list.len()
            invariant
                i <= list@.len(),
                self.wf(),
                self.nfts == old(self).nfts,
                self.owner_id == old(self).owner_id,
                self.next_public_token_id == old(self).next_public_token_id,
                pre == old(self)@,
                self@.claimers =~= pre.claimers.union(account_set(list@.subrange(0, i as int))),
            decreases list@.len() - i,
        {
            let ghost before = self.allowed_claimers@;
            let present = holds_account(&self.allowed_claimers, &list[i]);
            if !present {
                self.allowed_claimers.push(list[i].clone());
            }
            proof {
                let x = list@[i as int]@;
                let old_sub = list@.subrange(0, i as int);
                let new_sub = list@.subrange(0, i + 1);
                assert forall|a: Seq<char>|
                    account_set(new_sub).contains(a) == (account_set(old_sub).contains(a) || a
                        == x) by {
                    if account_set(old_sub).contains(a) {
                        let k = choose|k: int| 0 <= k < old_sub.len() && #[trigger] old_sub[k]@ == a;
                        assert(new_sub[k]@ == a);
                    }
                    if a == x {
                        assert(new_sub[i as int]@ == a);
                    }
                    if account_set(new_sub).contains(a) {
                        let k = choose|k: int| 0 <= k < new_sub.len() && #[trigger] new_sub[k]@ == a;
                        if k < i {
                            assert(old_sub[k]@ == a);
                        }
                    }
                }
                let now = self.allowed_claimers@;
                assert forall|a: Seq<char>|
                    account_set(now).contains(a) == (account_set(before).contains(a) || a
                        == x) by {
                    if account_set(before).contains(a) {
                        let k = choose|k: int| 0 <= k < before.len() && #[trigger] before[k]@ == a;
                        assert(now[k]@ == a);
                    }
                    if a == x && !present {
                        assert(now[before.len() as int]@ == a);
                    }
                    if account_set(now).contains(a) {
                        let k = choose|k: int| 0 <= k < now.len() && #[trigger] now[k]@ == a;
                        if k < before.len() {
                            assert(before[k]@ == a);
                        }
                    }
                }
                if !present {
                    assert forall|k: int| 0 <= k < before.len() implies #[trigger] before[k]@ != x by {
                        if before[k]@ == x {
                            assert(account_set(before).contains(x));
                        }
                    }
                    assert forall|j: int, k: int| 0 <= j < k < now.len() implies #[trigger] now[j]@
                        != #[trigger] now[k]@ by {
                        if k < before.len() {
                            assert(before[j]@ != before[k]@);
                        } else {
                            assert(before[j]@ != x);
                        }
                    }
                }
            }
            i = i + 1;
        }
        assert(list@.subrange(0, list@.len() as int) =~= list@);
    }

    /// Appends `PUBLIC_BATCH_SIZE` records owned by the administrator, all
    /// with `image_url`, numbered from the counter, which advances past them.
    fn mint_public_batch(&mut self, image_url: &String)
        requires
            old(self).wf(),
            old(self).next_public_token_id + PUBLIC_BATCH_SIZE <= u64::MAX,
        ensures
            final(self).wf(),
            final(self)@ == old(self)@.mint_batch(image_url@),
    {
        let ghost pre = self@;
        let mut i: u64 = 0;
        while i < PUBLIC_BATCH_SIZE
            invariant
                i <= PUBLIC_BATCH_SIZE,
                self.wf(),
                self.owner_id == old(self).owner_id,
                self.allowed_claimers == old(self).allowed_claimers,
                pre == old(self)@,
                self.next_public_token_id == pre.next_public_token_id + i,
                pre.next_public_token_id + PUBLIC_BATCH_SIZE <= u64::MAX,
                self@.registry =~= pre.registry + public_batch(pre.admin, pre.next_public_token_id, image_url@).subrange(0, i as int),
            decreases PUBLIC_BATCH_SIZE - i,
        {
            let ghost before = self.nfts@;
            let nft = NFT {
                owner_id: self.owner_id.clone(),
                token_id: self.next_public_token_id,
                image_url: image_url.clone(),
            };
            self.nfts.push(nft);
            self.next_public_token_id = self.next_public_token_id + 1;
            proof {
                let batch = public_batch(pre.admin, pre.next_public_token_id, image_url@);
                assert(self.nfts@.map_values(|t: NFT| t@) =~= before.map_values(|t: NFT| t@).push(
                    nft@,
                ));
                assert(nft@ == batch[i as int]);
                assert(batch.subrange(0, i + 1) =~= batch.subrange(0, i as int).push(batch[i as int]));
                assert(pre.registry + batch.subrange(0, i + 1) =~= (pre.registry + batch.subrange(
                    0,
                    i as int,
                )).push(batch[i as int]));
            }
            i = i + 1;
        }
        assert(public_batch(pre.admin, pre.next_public_token_id, image_url@).subrange(0, PUBLIC_BATCH_SIZE as int)
            =~= public_batch(pre.admin, pre.next_public_token_id, image_url@));
    }

    /// Moves the record at position `token_id` to `receiver_id`. Returns
    /// `false`, changing nothing, when no record stands at that position or
    /// `caller` does not own it; otherwise reassigns its owner and returns
    /// `true`.
    pub fn transfer(&mut self, caller: &AccountId, receiver_id: AccountId, token_id: u64) -> (r:
        bool)
        requires
            old(self).wf(),
        ensures
            final(self).wf(),
            r == old(self)@.may_transfer(caller@, token_id as int),
            r ==> final(self)@ == old(self)@.transfer_to(receiver_id@, token_id as int),
            !r ==> *final(self) == *old(self),
    {
        if token_id >= self.nfts.len() as u64 {
            return false;
        }
        let position = token_id as usize;
        if self.nfts[position].owner_id != *caller {
            return false;
        }
        let ghost before = self.nfts@;
        self.nfts[position].owner_id = receiver_id;
        proof {
            assert forall|i: int| 0 <= i < self.nfts@.len() implies #[trigger] self.nfts@[i].token_id
                == i + 1 by {
                assert(before[i].token_id == i + 1);
            }
            assert(self@.registry =~= old(self)@.transfer_to(receiver_id@, token_id as int).registry);
        }
        true
    }

    /// Lets `caller` take a new public token: allowed when the claim set is
    /// empty or holds `caller`. On success one record owned by `caller`, with
    /// the counter's identifier and an empty image, is appended, the counter
    /// advances by one and the result is `true`; otherwise the result is
    /// `false` and nothing changes.
    pub fn claim(&mut self, caller: &AccountId) -> (r: bool)
        requires
            old(self).wf(),
            old(self).next_public_token_id < u64::MAX,
        ensures
            final(self).wf(),
            r == old(self)@.may_claim(caller@),
            r ==> final(self)@ == old(self)@.claim_by(caller@),
            !r ==> *final(self) == *old(self),
    {
        let open = self.allowed_claimers.len() == 0;
        proof {
            if !open {
                assert(self@.claimers.contains(self.allowed_claimers@[0]@));
            } else {
                assert(self@.claimers =~= Set::<Seq<char>>::empty());
            }
        }
        if open || holds_account(&self.allowed_claimers, caller) {
            let ghost before = self.nfts@;
            let nft = NFT {
                owner_id: caller.clone(),
                token_id: self.next_public_token_id,
                image_url: String::new(),
            };
            self.nfts.push(nft);
            self.next_public_token_id = self.next_public_token_id + 1;
            assert(self.nfts@.map_values(|t: NFT| t@) =~= before.map_values(|t: NFT| t@).push(
                nft@,
            ));
            true
        } else {
            false
        }
    }
}

} // verus!
