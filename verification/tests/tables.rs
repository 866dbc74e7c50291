use nft_contract::cart_store::{first_line, CartItem, CartStore};
use nft_contract::error::LedgerError;
use nft_contract::owner_index::{first_position, OwnerIndex};
use nft_contract::table::Table;
use nft_contract::token::{clone_optional_string, Token, TokenMetadata};
use nft_contract::token_table::TokenTable;

fn s(text: &str) -> String {
    text.to_string()
}

fn bare() -> TokenMetadata {
    TokenMetadata { title: None, description: None, media: None }
}

#[test]
fn table_insert_appends_new_keys_in_order() {
    let mut table: Table<u32> = Table::new();
    assert_eq!(table.len(), 0);
    table.insert(s("b"), 2);
    table.insert(s("a"), 1);
    table.insert(s("c"), 3);
    assert_eq!(table.len(), 3);
    assert_eq!(table.find(&s("b")), Some(0));
    assert_eq!(table.find(&s("a")), Some(1));
    assert_eq!(table.find(&s("c")), Some(2));
    assert_eq!(table.find(&s("d")), None);
    assert_eq!(table.key_at(1), "a");
    assert_eq!(*table.value_at(1), 1);
}

#[test]
fn table_insert_replaces_in_place() {
    let mut table: Table<u32> = Table::new();
    table.insert(s("b"), 2);
    table.insert(s("a"), 1);
    table.insert(s("b"), 20);
    assert_eq!(table.len(), 2);
    assert_eq!(table.find(&s("b")), Some(0));
    assert_eq!(*table.value_at(0), 20);
    assert_eq!(*table.value_at(1), 1);
    table.set_value(1, 10);
    assert_eq!(*table.value_at(1), 10);
    table.append(s("z"), 26);
    assert_eq!(table.find(&s("z")), Some(2));
}

#[test]
fn token_table_mint_get_and_list() {
    let mut table = TokenTable::new();
    let minted = table.mint(s("t1"), s("alice"), bare(), 5).unwrap();
    assert_eq!(
        minted,
        Token { token_id: s("t1"), owner_id: s("alice"), metadata: bare(), price: 5 }
    );
    table.mint(s("t2"), s("bob"), bare(), 6).unwrap();
    assert_eq!(table.mint(s("t1"), s("bob"), bare(), 7), Err(LedgerError::DuplicateId));
    assert_eq!(table.len(), 2);
    assert_eq!(table.position(&s("t2")), Some(1));
    assert_eq!(table.position(&s("t3")), None);
    assert_eq!(table.token_at(1).owner_id, "bob");
    assert_eq!(table.get(&s("t1")), Some(minted));
    assert_eq!(table.get(&s("t3")), None);
    assert_eq!(table.ids(), vec![s("t1"), s("t2")]);
    assert_eq!(table.list(1, None).len(), 1);
    assert_eq!(table.list(1, None)[0].token_id, "t2");
    assert_eq!(table.list(0, Some(1))[0].token_id, "t1");
    assert_eq!(table.list(2, Some(1)), vec![]);
    assert_eq!(table.list(u64::MAX, Some(u64::MAX)), vec![]);
}

#[test]
fn owner_index_add_creates_and_appends() {
    let mut index = OwnerIndex::new();
    assert_eq!(index.list(&s("alice")), Vec::<String>::new());
    index.add(s("alice"), s("t1"));
    index.add(s("bob"), s("t2"));
    index.add(s("alice"), s("t3"));
    assert_eq!(index.list(&s("alice")), vec![s("t1"), s("t3")]);
    assert_eq!(index.list(&s("bob")), vec![s("t2")]);
    assert_eq!(index.list(&s("carol")), Vec::<String>::new());
}

#[test]
fn owner_index_does_not_deduplicate() {
    let mut index = OwnerIndex::new();
    index.add(s("alice"), s("t1"));
    index.add(s("alice"), s("t2"));
    index.add(s("alice"), s("t1"));
    assert_eq!(index.list(&s("alice")), vec![s("t1"), s("t2"), s("t1")]);
}

#[test]
fn owner_index_remove_takes_the_first_match() {
    let mut index = OwnerIndex::new();
    index.add(s("alice"), s("t1"));
    index.add(s("alice"), s("t2"));
    index.add(s("alice"), s("t1"));
    index.remove(&s("alice"), &s("t1"));
    assert_eq!(index.list(&s("alice")), vec![s("t2"), s("t1")]);
    index.remove(&s("alice"), &s("t1"));
    assert_eq!(index.list(&s("alice")), vec![s("t2")]);
}

#[test]
fn owner_index_remove_of_a_non_member_is_silent() {
    let mut index = OwnerIndex::new();
    index.remove(&s("alice"), &s("t1"));
    assert_eq!(index.list(&s("alice")), Vec::<String>::new());
    index.add(s("alice"), s("t1"));
    index.remove(&s("alice"), &s("t9"));
    index.remove(&s("bob"), &s("t1"));
    assert_eq!(index.list(&s("alice")), vec![s("t1")]);
    index.remove(&s("alice"), &s("t1"));
    assert_eq!(index.list(&s("alice")), Vec::<String>::new());
    index.add(s("alice"), s("t2"));
    assert_eq!(index.list(&s("alice")), vec![s("t2")]);
}

#[test]
fn first_position_finds_the_earliest() {
    let ids = vec![s("a"), s("b"), s("a")];
    assert_eq!(first_position(&ids, &s("a")), Some(0));
    assert_eq!(first_position(&ids, &s("b")), Some(1));
    assert_eq!(first_position(&ids, &s("c")), None);
    assert_eq!(first_position(&Vec::new(), &s("a")), None);
}

#[test]
fn first_line_finds_the_earliest() {
    let items = vec![
        CartItem { token_id: s("a"), price: 1 },
        CartItem { token_id: s("b"), price: 2 },
        CartItem { token_id: s("a"), price: 3 },
    ];
    assert_eq!(first_line(&items, &s("a")), Some(0));
    assert_eq!(first_line(&items, &s("b")), Some(1));
    assert_eq!(first_line(&items, &s("c")), None);
}

#[test]
fn cart_store_snapshots_the_price_of_its_token_table() {
    let mut cheap = TokenTable::new();
    cheap.mint(s("x"), s("alice"), bare(), 10).unwrap();
    let mut dear = TokenTable::new();
    dear.mint(s("x"), s("alice"), bare(), 99).unwrap();
    dear.mint(s("y"), s("alice"), bare(), 5).unwrap();
    let mut store = CartStore::new();
    assert_eq!(store.add_item(&cheap, s("bob"), s("x")), Ok(()));
    assert_eq!(store.add_item(&dear, s("bob"), s("x")), Ok(()));
    assert_eq!(store.add_item(&dear, s("bob"), s("y")), Ok(()));
    assert_eq!(store.add_item(&cheap, s("bob"), s("y")), Err(LedgerError::TokenNotFound));
    assert_eq!(
        store.get_items(&s("bob")),
        vec![CartItem { token_id: s("x"), price: 10 }, CartItem { token_id: s("y"), price: 5 }]
    );
    store.remove_item(&s("bob"), &s("x"));
    assert_eq!(store.add_item(&dear, s("bob"), s("x")), Ok(()));
    assert_eq!(
        store.get_items(&s("bob")),
        vec![CartItem { token_id: s("y"), price: 5 }, CartItem { token_id: s("x"), price: 99 }]
    );
    assert_eq!(store.get_items(&s("carol")), vec![]);
}

#[test]
fn optional_strings_are_copied() {
    assert_eq!(clone_optional_string(&Some(s("abc"))), Some(s("abc")));
    assert_eq!(clone_optional_string(&None), None);
}
