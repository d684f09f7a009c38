use near_sdk::test_utils::accounts;
use near_sdk::AccountId;
use nft_ledger::{MintError, NFTContract, PUBLIC_BATCH_SIZE};

fn init_contract(owner_id: AccountId) -> NFTContract {
    NFTContract::new(owner_id)
}

fn account(name: &str) -> AccountId {
    name.to_string()
}

fn snapshot(c: &NFTContract) -> (Vec<(AccountId, u64, String)>, AccountId, u64, Vec<AccountId>) {
    let records = c
        .nfts
        .iter()
        .map(|n| (n.owner_id.clone(), n.token_id, n.image_url.clone()))
        .collect();
    let mut claimers = c.allowed_claimers.clone();
    claimers.sort();
    (records, c.owner_id.clone(), c.next_public_token_id, claimers)
}

#[test]
fn test_mint() {
    let admin = accounts(0).to_string();
    let mut contract = init_contract(admin.clone());

    // A claim list only authorizes claimers: no record is created.
    let allowed_claimers = vec![accounts(1).to_string(), accounts(2).to_string()];
    assert_eq!(
        contract.mint(&admin, 1, "http://example.com/nft1".to_string(), Some(allowed_claimers.clone())),
        Ok(true)
    );
    assert_eq!(contract.nfts.len(), 0);
    assert!(contract.nfts.get(0).is_none());
    assert_eq!(contract.allowed_claimers, allowed_claimers);
    assert_eq!(contract.next_public_token_id, 1);

    // A caller other than the administrator is refused.
    let non_owner = accounts(1).to_string();
    assert_eq!(
        contract.mint(&non_owner, 2, "http://example.com/nft2".to_string(), None),
        Err(MintError::Unauthorized)
    );
    assert_eq!(contract.nfts.len(), 0);
    assert_eq!(contract.next_public_token_id, 1);
}

#[test]
fn test_claim() {
    let admin = accounts(0).to_string();
    let mut contract = init_contract(admin.clone());

    // With an empty claim set anyone may claim.
    let claimer = accounts(3).to_string();
    assert_eq!(contract.claim(&claimer), true);

    // A non-administrator cannot change the claim set.
    let allowed_claimers = vec![accounts(3).to_string()];
    assert_eq!(
        contract.mint(&claimer, 1, "http://example.com/nft1".to_string(), Some(allowed_claimers)),
        Err(MintError::Unauthorized)
    );
    assert!(contract.allowed_claimers.is_empty());
    assert!(contract.claim(&claimer));

    let nft = contract.nfts.get(0).unwrap();
    assert_eq!(nft.owner_id, accounts(3).to_string());
    assert_eq!(nft.token_id, 1);
    assert_eq!(nft.image_url, "");
    let nft = contract.nfts.get(1).unwrap();
    assert_eq!(nft.owner_id, accounts(3).to_string());
    assert_eq!(nft.token_id, 2);
    assert_eq!(nft.image_url, "");
    assert_eq!(contract.next_public_token_id, 3);
}

#[test]
fn new_ledger_is_empty() {
    let c = NFTContract::new(account("admin"));
    assert!(c.nfts.is_empty());
    assert_eq!(c.owner_id, "admin");
    assert_eq!(c.next_public_token_id, 1);
    assert!(c.allowed_claimers.is_empty());
}

#[test]
fn mint_by_other_caller_changes_nothing() {
    let mut c = NFTContract::new(account("admin"));
    c.mint(&account("admin"), 0, "img".to_string(), None).unwrap();
    c.mint(&account("admin"), 0, String::new(), Some(vec![account("x")])).unwrap();
    let before = snapshot(&c);
    assert_eq!(c.mint(&account("mallory"), 7, "a".to_string(), None), Err(MintError::Unauthorized));
    assert_eq!(
        c.mint(&account("mallory"), 7, "a".to_string(), Some(vec![account("m")])),
        Err(MintError::Unauthorized)
    );
    assert_eq!(snapshot(&c), before);
}

#[test]
fn mint_with_claim_list_adds_exactly_those() {
    let mut c = NFTContract::new(account("admin"));
    c.mint(&account("admin"), 0, String::new(), Some(vec![account("a")])).unwrap();
    let r = c.mint(&account("admin"), 5, "ignored".to_string(), Some(vec![account("a"), account("b")]));
    assert_eq!(r, Ok(true));
    let mut claimers = c.allowed_claimers.clone();
    claimers.sort();
    assert_eq!(claimers, vec![account("a"), account("b")]);
    assert!(c.nfts.is_empty());
    assert_eq!(c.next_public_token_id, 1);
}

#[test]
fn mint_with_duplicate_claimers_keeps_one_each() {
    let mut c = NFTContract::new(account("admin"));
    let list = vec![account("a"), account("b"), account("a"), account("b")];
    assert_eq!(c.mint(&account("admin"), 0, String::new(), Some(list)), Ok(true));
    assert_eq!(c.allowed_claimers, vec![account("a"), account("b")]);
}

#[test]
fn mint_with_empty_claim_list_changes_nothing() {
    let mut c = NFTContract::new(account("admin"));
    assert_eq!(c.mint(&account("admin"), 0, "x".to_string(), Some(vec![])), Ok(true));
    assert!(c.allowed_claimers.is_empty());
    assert!(c.nfts.is_empty());
    assert!(c.claim(&account("anyone")));
}

#[test]
fn batch_mint_appends_contiguous_run() {
    let mut c = NFTContract::new(account("admin"));
    assert!(c.claim(&account("early")));
    assert_eq!(c.mint(&account("admin"), 999, "pic".to_string(), None), Ok(true));
    assert_eq!(PUBLIC_BATCH_SIZE, 100);
    assert_eq!(c.nfts.len(), 101);
    assert_eq!(c.next_public_token_id, 102);
    assert_eq!(c.nfts[0].owner_id, "early");
    for (k, n) in c.nfts[1..].iter().enumerate() {
        assert_eq!(n.owner_id, "admin");
        assert_eq!(n.token_id, 2 + k as u64);
        assert_eq!(n.image_url, "pic");
    }
    assert_eq!(c.mint(&account("admin"), 0, "two".to_string(), None), Ok(true));
    assert_eq!(c.nfts.len(), 201);
    assert_eq!(c.nfts[101].token_id, 102);
    assert_eq!(c.nfts[200].token_id, 201);
    assert_eq!(c.nfts[200].image_url, "two");
    assert_eq!(c.next_public_token_id, 202);
}

#[test]
fn claim_refused_for_unlisted_caller() {
    let mut c = NFTContract::new(account("admin"));
    c.mint(&account("admin"), 0, String::new(), Some(vec![account("x")])).unwrap();
    let before = snapshot(&c);
    assert_eq!(c.claim(&account("y")), false);
    assert_eq!(c.claim(&account("admin")), false);
    assert_eq!(snapshot(&c), before);
}

#[test]
fn claim_by_listed_caller_appends_record() {
    let mut c = NFTContract::new(account("admin"));
    c.mint(&account("admin"), 0, String::new(), Some(vec![account("x"), account("z")])).unwrap();
    assert!(c.claim(&account("z")));
    assert!(c.claim(&account("z")));
    assert_eq!(c.nfts.len(), 2);
    assert_eq!(c.nfts[1].owner_id, "z");
    assert_eq!(c.nfts[1].token_id, 2);
    assert_eq!(c.nfts[1].image_url, "");
    assert_eq!(c.next_public_token_id, 3);
    assert_eq!(c.allowed_claimers.len(), 2);
}

#[test]
fn transfer_refused_without_record_or_ownership() {
    let mut c = NFTContract::new(account("admin"));
    assert!(c.claim(&account("alice")));
    let before = snapshot(&c);
    assert_eq!(c.transfer(&account("alice"), account("bob"), 1), false);
    assert_eq!(c.transfer(&account("alice"), account("bob"), u64::MAX), false);
    assert_eq!(c.transfer(&account("bob"), account("bob"), 0), false);
    assert_eq!(snapshot(&c), before);
}

#[test]
fn transfer_by_owner_moves_record_once() {
    let mut c = NFTContract::new(account("admin"));
    c.mint(&account("admin"), 0, "p".to_string(), None).unwrap();
    assert!(c.transfer(&account("admin"), account("bob"), 5));
    assert_eq!(c.nfts[5].owner_id, "bob");
    assert_eq!(c.nfts[5].token_id, 6);
    assert_eq!(c.nfts[5].image_url, "p");
    assert_eq!(c.nfts[4].owner_id, "admin");
    assert_eq!(c.transfer(&account("admin"), account("carol"), 5), false);
    assert_eq!(c.nfts[5].owner_id, "bob");
    assert!(c.transfer(&account("bob"), account("carol"), 5));
    assert_eq!(c.nfts[5].owner_id, "carol");
}

#[test]
fn transfer_to_self_keeps_ownership() {
    let mut c = NFTContract::new(account("admin"));
    assert!(c.claim(&account("alice")));
    assert!(c.transfer(&account("alice"), account("alice"), 0));
    assert!(c.transfer(&account("alice"), account("alice"), 0));
    assert_eq!(c.nfts[0].owner_id, "alice");
}

#[test]
fn batch_then_restricted_claim_scenario() {
    let admin = account("admin");
    let mut c = NFTContract::new(admin.clone());
    assert_eq!(c.mint(&admin, 0, "img".to_string(), None), Ok(true));
    assert_eq!(c.nfts.len(), 100);
    for (i, n) in c.nfts.iter().enumerate() {
        assert_eq!(n.token_id, i as u64 + 1);
        assert_eq!(n.owner_id, "admin");
    }
    assert_eq!(c.mint(&admin, 0, String::new(), Some(vec![account("X")])), Ok(true));
    assert!(c.claim(&account("X")));
    let n = &c.nfts[100];
    assert_eq!(n.token_id, 101);
    assert_eq!(n.owner_id, "X");
    assert_eq!(n.image_url, "");
    assert_eq!(c.claim(&account("Y")), false);
    assert_eq!(c.nfts.len(), 101);
}
