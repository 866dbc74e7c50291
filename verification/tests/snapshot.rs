use nft_contract::cart_store::{line_ids, CartStore};
use nft_contract::owner_index::OwnerIndex;
use nft_contract::simple_lib::{NFTContract, NFTMetadata, RegistrySnapshot, MIN_MINT_DEPOSIT, NFT};
use nft_contract::table::{all_distinct, Table};
use nft_contract::token_table::{ids_of, TokenTable};
use nft_contract::{CartItem, Contract, Snapshot, Token, TokenMetadata};

fn s(text: &str) -> String {
    text.to_string()
}

fn bare() -> TokenMetadata {
    TokenMetadata { title: None, description: None, media: None }
}

fn token(id: &str, owner: &str, price: u128) -> Token {
    Token { token_id: s(id), owner_id: s(owner), metadata: bare(), price }
}

fn sample() -> Snapshot {
    Snapshot {
        owner_id: s("admin"),
        tokens: vec![token("t1", "bob", 100), token("t2", "alice", 5)],
        owner_accounts: vec![s("alice"), s("bob")],
        owner_entries: vec![vec![s("t2")], vec![s("t1")]],
        cart_accounts: vec![s("carol")],
        cart_entries: vec![vec![CartItem { token_id: s("t2"), price: 5 }]],
    }
}

#[test]
fn snapshot_of_a_ledger_holds_its_tables() {
    let mut ledger = Contract::new(s("admin"));
    ledger.nft_mint(s("t1"), s("alice"), bare(), 100).unwrap();
    ledger.nft_mint(s("t2"), s("alice"), bare(), 5).unwrap();
    ledger.add_to_cart(s("carol"), s("t2")).unwrap();
    ledger.buy_nft(s("t1"), s("bob"), 100).unwrap();
    assert_eq!(ledger.into_snapshot(), sample());
}

#[test]
fn snapshot_of_an_empty_ledger() {
    let snapshot = Contract::new(s("admin")).into_snapshot();
    assert_eq!(
        snapshot,
        Snapshot {
            owner_id: s("admin"),
            tokens: vec![],
            owner_accounts: vec![],
            owner_entries: vec![],
            cart_accounts: vec![],
            cart_entries: vec![],
        }
    );
    assert!(Contract::restore(snapshot).is_some());
}

#[test]
fn restore_gives_the_ledger_back() {
    let mut ledger = Contract::restore(sample()).unwrap();
    assert_eq!(ledger.owner_id(), "admin");
    assert_eq!(
        ledger.nft_tokens(None, None),
        vec![token("t1", "bob", 100), token("t2", "alice", 5)]
    );
    assert_eq!(ledger.nft_tokens_for_owner(s("alice")), vec![token("t2", "alice", 5)]);
    assert_eq!(ledger.nft_tokens_for_owner(s("bob")), vec![token("t1", "bob", 100)]);
    assert_eq!(ledger.get_cart(s("carol")), vec![CartItem { token_id: s("t2"), price: 5 }]);
    assert_eq!(ledger.buy_nft(s("t2"), s("bob"), 5).unwrap().receiver_id, "alice");
    let after = ledger.into_snapshot();
    assert_eq!(after.owner_entries, vec![vec![], vec![s("t1"), s("t2")]]);
    let again = Contract::restore(after).unwrap().into_snapshot();
    assert_eq!(again.owner_accounts, vec![s("alice"), s("bob")]);
}

#[test]
fn restore_accepts_an_owner_with_an_empty_entry() {
    let mut snapshot = sample();
    snapshot.owner_accounts.push(s("dave"));
    snapshot.owner_entries.push(vec![]);
    assert!(Contract::restore(snapshot).is_some());
}

#[test]
fn restore_refuses_two_tokens_with_one_identifier() {
    let mut snapshot = sample();
    snapshot.tokens.push(token("t1", "bob", 1));
    assert!(Contract::restore(snapshot).is_none());
}

#[test]
fn restore_refuses_an_account_with_two_entries() {
    let mut snapshot = sample();
    snapshot.owner_accounts.push(s("alice"));
    snapshot.owner_entries.push(vec![]);
    assert!(Contract::restore(snapshot).is_none());
}

#[test]
fn restore_refuses_vectors_of_different_lengths() {
    let mut snapshot = sample();
    snapshot.owner_accounts.push(s("dave"));
    assert!(Contract::restore(snapshot).is_none());
    let mut snapshot = sample();
    snapshot.cart_entries.push(vec![]);
    assert!(Contract::restore(snapshot).is_none());
}

#[test]
fn restore_refuses_a_token_that_is_not_listed() {
    let mut snapshot = sample();
    snapshot.tokens.push(token("t3", "alice", 1));
    assert!(Contract::restore(snapshot).is_none());
    let mut snapshot = sample();
    snapshot.tokens.push(token("t3", "dave", 1));
    assert!(Contract::restore(snapshot).is_none());
}

#[test]
fn restore_refuses_a_listed_identifier_without_token() {
    let mut snapshot = sample();
    snapshot.owner_entries[0].push(s("t9"));
    assert!(Contract::restore(snapshot).is_none());
}

#[test]
fn restore_refuses_a_token_listed_for_another_account() {
    let mut snapshot = sample();
    snapshot.owner_entries[0].push(s("t1"));
    assert!(Contract::restore(snapshot).is_none());
    let mut snapshot = sample();
    snapshot.owner_entries = vec![vec![s("t1")], vec![s("t2")]];
    assert!(Contract::restore(snapshot).is_none());
}

#[test]
fn restore_refuses_an_identifier_listed_twice() {
    let mut snapshot = sample();
    snapshot.owner_entries[1].push(s("t1"));
    assert!(Contract::restore(snapshot).is_none());
}

#[test]
fn restore_refuses_a_cart_with_two_lines_for_one_token() {
    let mut snapshot = sample();
    snapshot.cart_entries[0].push(CartItem { token_id: s("t2"), price: 6 });
    assert!(Contract::restore(snapshot).is_none());
}

#[test]
fn restore_refuses_an_account_with_two_carts() {
    let mut snapshot = sample();
    snapshot.cart_accounts.push(s("carol"));
    snapshot.cart_entries.push(vec![]);
    assert!(Contract::restore(snapshot).is_none());
}

#[test]
fn restore_keeps_a_cart_line_for_a_token_that_is_unknown() {
    let mut snapshot = sample();
    snapshot.cart_entries[0].push(CartItem { token_id: s("gone"), price: 6 });
    let ledger = Contract::restore(snapshot).unwrap();
    assert_eq!(ledger.get_cart(s("carol")).len(), 2);
}

#[test]
fn distinctness_check() {
    assert!(all_distinct(&vec![]));
    assert!(all_distinct(&vec![s("a")]));
    assert!(all_distinct(&vec![s("a"), s("b"), s("c")]));
    assert!(!all_distinct(&vec![s("a"), s("b"), s("a")]));
    assert!(!all_distinct(&vec![s("b"), s("a"), s("a")]));
}

#[test]
fn table_from_parts_and_back() {
    let table = Table::from_parts(vec![s("a"), s("b")], vec![1u8, 2u8]).unwrap();
    assert_eq!(table.find(&s("b")), Some(1));
    assert_eq!(table.into_parts(), (vec![s("a"), s("b")], vec![1u8, 2u8]));
    assert!(Table::from_parts(vec![s("a"), s("a")], vec![1u8, 2u8]).is_none());
    assert!(Table::from_parts(vec![s("a")], vec![1u8, 2u8]).is_none());
}

#[test]
fn tables_from_parts_and_back() {
    let tokens = vec![token("t1", "bob", 100), token("t2", "alice", 5)];
    assert_eq!(ids_of(&tokens), vec![s("t1"), s("t2")]);
    let table = TokenTable::from_tokens(tokens).unwrap();
    assert!(TokenTable::from_tokens(vec![token("t1", "a", 1), token("t1", "b", 2)]).is_none());
    let accounts = vec![s("alice"), s("bob")];
    let index =
        OwnerIndex::from_parts(accounts.clone(), vec![vec![s("t2")], vec![s("t1")]]).unwrap();
    assert!(index.mirrors_tokens(&table));
    let other =
        OwnerIndex::from_parts(accounts.clone(), vec![vec![s("t1")], vec![s("t2")]]).unwrap();
    assert!(!other.mirrors_tokens(&table));
    assert!(!OwnerIndex::new().mirrors_tokens(&table));
    assert!(OwnerIndex::new().mirrors_tokens(&TokenTable::new()));
    assert_eq!(index.into_parts(), (accounts, vec![vec![s("t2")], vec![s("t1")]]));
    assert_eq!(table.into_tokens(), vec![token("t1", "bob", 100), token("t2", "alice", 5)]);
    let lines =
        vec![CartItem { token_id: s("x"), price: 1 }, CartItem { token_id: s("y"), price: 2 }];
    assert_eq!(line_ids(&lines), vec![s("x"), s("y")]);
    let store = CartStore::from_parts(vec![s("carol")], vec![lines]).unwrap();
    assert_eq!(store.get_items(&s("carol")).len(), 2);
    assert_eq!(store.into_parts().0, vec![s("carol")]);
}

fn nft(owner: &str, title: &str) -> NFT {
    NFT {
        owner_id: s(owner),
        metadata: NFTMetadata { title: s(title), description: s("about"), media: s("ipfs://m") },
    }
}

fn registry_sample() -> RegistrySnapshot {
    RegistrySnapshot {
        owner_id: s("admin"),
        token_ids: vec![s("t1"), s("t2"), s("t3")],
        nfts: vec![nft("alice", "One"), nft("alice", "Two"), nft("bob", "Three")],
        owner_accounts: vec![s("alice"), s("bob")],
        owner_entries: vec![vec![s("t1"), s("t2")], vec![s("t3")]],
    }
}

#[test]
fn registry_snapshot_and_back() {
    let mut registry = NFTContract::new(s("admin"));
    let mints = [("t1", "alice", "One"), ("t2", "alice", "Two"), ("t3", "bob", "Three")];
    for (id, owner, title) in mints {
        registry
            .nft_mint(s(id), s(owner), s(title), s("about"), s("ipfs://m"), MIN_MINT_DEPOSIT)
            .unwrap();
    }
    assert_eq!(registry.into_snapshot(), registry_sample());
    let restored = NFTContract::restore(registry_sample()).unwrap();
    assert_eq!(restored.nft_total_supply(), 3);
    assert_eq!(restored.nft_token(s("t3")).unwrap().owner_id, "bob");
    assert_eq!(restored.nft_tokens_for_owner(s("alice")).len(), 2);
    assert_eq!(restored.nft_tokens_for_owner(s("bob")).len(), 1);
    assert_eq!(restored.owner_id(), "admin");
}

#[test]
fn registry_restore_refuses_what_is_not_well_formed() {
    let mut snapshot = registry_sample();
    snapshot.token_ids[1] = s("t1");
    assert!(NFTContract::restore(snapshot).is_none());
    let mut snapshot = registry_sample();
    snapshot.nfts.pop();
    assert!(NFTContract::restore(snapshot).is_none());
    let mut snapshot = registry_sample();
    snapshot.owner_accounts[1] = s("alice");
    assert!(NFTContract::restore(snapshot).is_none());
    let mut snapshot = registry_sample();
    snapshot.owner_entries.pop();
    assert!(NFTContract::restore(snapshot).is_none());
    let mut snapshot = registry_sample();
    snapshot.owner_entries[1].push(s("t9"));
    assert!(NFTContract::restore(snapshot).is_none());
}

#[test]
fn registry_restore_refuses_an_index_that_does_not_mirror_the_tokens() {
    let mut listed_twice = registry_sample();
    listed_twice.owner_entries[1].push(s("t3"));
    assert!(NFTContract::restore(listed_twice).is_none());
    let mut listed_for_another = registry_sample();
    listed_for_another.owner_entries[1].push(s("t1"));
    assert!(NFTContract::restore(listed_for_another).is_none());
    let mut wrong_owner = registry_sample();
    wrong_owner.owner_entries = vec![vec![s("t3"), s("t2")], vec![s("t1")]];
    assert!(NFTContract::restore(wrong_owner).is_none());
    let mut not_listed = registry_sample();
    not_listed.owner_entries[0].pop();
    assert!(NFTContract::restore(not_listed).is_none());
    let mut no_entry = registry_sample();
    no_entry.token_ids.push(s("t4"));
    no_entry.nfts.push(nft("carol", "Four"));
    assert!(NFTContract::restore(no_entry).is_none());
    let mut empty_entry = registry_sample();
    empty_entry.owner_accounts.push(s("carol"));
    empty_entry.owner_entries.push(vec![]);
    assert!(NFTContract::restore(empty_entry).is_some());
}
