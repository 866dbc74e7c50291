use nft_contract::simple_lib::{
    MintError, NFTContract, NFTMetadataView, NFTView, MIN_MINT_DEPOSIT,
};

fn s(text: &str) -> String {
    text.to_string()
}

fn view(id: &str, owner: &str, title: &str) -> NFTView {
    NFTView {
        token_id: s(id),
        owner_id: s(owner),
        metadata: NFTMetadataView {
            title: s(title),
            description: s("about"),
            media: s("ipfs://m"),
        },
    }
}

fn mint(registry: &mut NFTContract, id: &str, owner: &str, title: &str) {
    registry
        .nft_mint(s(id), s(owner), s(title), s("about"), s("ipfs://m"), MIN_MINT_DEPOSIT)
        .unwrap();
}

#[test]
fn minimum_deposit_is_a_hundredth_of_a_unit() {
    assert_eq!(MIN_MINT_DEPOSIT, 10u128.pow(22));
}

#[test]
fn new_registry_is_empty() {
    let registry = NFTContract::new(s("admin"));
    assert_eq!(registry.owner_id(), "admin");
    assert_eq!(registry.nft_total_supply(), 0);
    assert_eq!(registry.nft_token(s("t1")), None);
    assert_eq!(registry.nft_tokens_for_owner(s("alice")), vec![]);
}

#[test]
fn registry_mint_needs_the_minimum_deposit() {
    let mut registry = NFTContract::new(s("admin"));
    let refused =
        registry.nft_mint(s("t1"), s("alice"), s("T"), s("D"), s("M"), MIN_MINT_DEPOSIT - 1);
    assert_eq!(refused, Err(MintError::InsufficientDeposit));
    assert_eq!(
        registry.nft_mint(s("t0"), s("alice"), s("T"), s("D"), s("M"), 0),
        Err(MintError::InsufficientDeposit)
    );
    assert_eq!(registry.nft_total_supply(), 0);
    assert_eq!(registry.nft_token(s("t1")), None);
    assert_eq!(registry.nft_tokens_for_owner(s("alice")), vec![]);
    assert_eq!(
        registry.nft_mint(s("t1"), s("alice"), s("T"), s("D"), s("M"), MIN_MINT_DEPOSIT),
        Ok(())
    );
    assert_eq!(registry.nft_mint(s("t2"), s("alice"), s("T"), s("D"), s("M"), u128::MAX), Ok(()));
    assert_eq!(registry.nft_total_supply(), 2);
}

#[test]
fn registry_hands_out_what_was_minted() {
    let mut registry = NFTContract::new(s("admin"));
    mint(&mut registry, "t1", "alice", "One");
    mint(&mut registry, "t2", "bob", "Two");
    mint(&mut registry, "t3", "alice", "Three");
    assert_eq!(registry.nft_total_supply(), 3);
    assert_eq!(registry.nft_token(s("t2")), Some(view("t2", "bob", "Two")));
    assert_eq!(registry.nft_token(s("t4")), None);
    assert_eq!(
        registry.nft_tokens_for_owner(s("alice")),
        vec![view("t1", "alice", "One"), view("t3", "alice", "Three")]
    );
    assert_eq!(registry.nft_tokens_for_owner(s("carol")), vec![]);
}

#[test]
fn registry_mint_under_a_taken_identifier_is_refused() {
    let mut registry = NFTContract::new(s("admin"));
    mint(&mut registry, "t1", "alice", "One");
    let again =
        registry.nft_mint(s("t1"), s("bob"), s("Other"), s("x"), s("y"), MIN_MINT_DEPOSIT);
    assert_eq!(again, Err(MintError::DuplicateId));
    let same_owner =
        registry.nft_mint(s("t1"), s("alice"), s("One"), s("about"), s("ipfs://m"), u128::MAX);
    assert_eq!(same_owner, Err(MintError::DuplicateId));
    assert_eq!(registry.nft_total_supply(), 1);
    assert_eq!(registry.nft_token(s("t1")), Some(view("t1", "alice", "One")));
    assert_eq!(registry.nft_tokens_for_owner(s("alice")), vec![view("t1", "alice", "One")]);
    assert_eq!(registry.nft_tokens_for_owner(s("bob")), vec![]);
}

#[test]
fn registry_tests_the_deposit_before_the_identifier() {
    let mut registry = NFTContract::new(s("admin"));
    mint(&mut registry, "t1", "alice", "One");
    let poor = registry.nft_mint(s("t1"), s("bob"), s("T"), s("D"), s("M"), MIN_MINT_DEPOSIT - 1);
    assert_eq!(poor, Err(MintError::InsufficientDeposit));
    assert_eq!(registry.nft_token(s("t1")), Some(view("t1", "alice", "One")));
}

#[test]
fn registry_lists_every_token_for_exactly_its_owner() {
    let mut registry = NFTContract::new(s("admin"));
    mint(&mut registry, "t1", "alice", "One");
    mint(&mut registry, "t2", "bob", "Two");
    mint(&mut registry, "t3", "alice", "Three");
    let _ = registry.nft_mint(s("t2"), s("alice"), s("T"), s("D"), s("M"), MIN_MINT_DEPOSIT);
    let _ = registry.nft_mint(s("t4"), s("carol"), s("T"), s("D"), s("M"), 1);
    for (id, owner) in [("t1", "alice"), ("t2", "bob"), ("t3", "alice")] {
        assert_eq!(registry.nft_token(s(id)).unwrap().owner_id, owner);
        for account in ["alice", "bob", "carol", "admin"] {
            let listed = registry
                .nft_tokens_for_owner(s(account))
                .iter()
                .filter(|t| t.token_id == id)
                .count();
            assert_eq!(listed, if account == owner { 1 } else { 0 });
        }
    }
    assert_eq!(registry.nft_token(s("t4")), None);
    assert_eq!(registry.nft_total_supply(), 3);
}

#[test]
fn registry_error_messages() {
    assert_eq!(MintError::InsufficientDeposit.message(), "Requires at least 0.01 NEAR to mint");
    assert_eq!(MintError::DuplicateId.message(), "Token with ID already exists");
}
