//! Per-account carts of purchase intents.
//!
//! A cart line records a token's price as it was when the line was added.
//! Carts know nothing of ownership or of later price changes: a line stays
//! as it is until it is removed.

use crate::error::LedgerError;
use crate::table::{all_distinct, map_of, Table};
use crate::token_table::{has_token, lookup, TokenTable};
use vstd::prelude::*;

verus! {

/// A line of a cart: a token and the price it had when the line was added.
#[derive(Debug, PartialEq, Eq)]
pub struct CartItem {
    pub token_id: String,
    pub price: u128,
}

/// What a [`CartItem`] holds, as plain mathematical values.
pub struct CartItemView {
    pub token_id: Seq<char>,
    pub price: u128,
}

impl View for CartItem {
    type V = CartItemView;

    open spec fn view(&self) -> CartItemView {
        CartItemView { token_id: self.token_id@, price: self.price }
    }
}

impl DeepView for CartItem {
    type V = CartItemView;

    open spec fn deep_view(&self) -> CartItemView {
        self@
    }
}

impl Clone for CartItem {
    fn clone(&self) -> (res: Self)
        ensures
            res == *self,
    {
        CartItem { token_id: self.token_id.clone(), price: self.price }
    }
}

/// The token identifiers of the lines of a cart, in the same order.
pub open spec fn cart_ids(items: Seq<CartItemView>) -> Seq<Seq<char>> {
    Seq::new(items.len(), |i: int| items[i].token_id)
}

/// The lines that `carts` holds for `account`: its cart, or nothing if the
/// account has none.
pub open spec fn items_of(carts: Map<Seq<char>, Seq<CartItemView>>, account: Seq<char>) -> Seq<
    CartItemView,
> {
    if carts.contains_key(account) {
        carts[account]
    } else {
        Seq::empty()
    }
}

/// `carts` after `item` was added for `account`. If the account's cart has a
/// line for the same token already, nothing changes.
pub open spec fn with_item(
    carts: Map<Seq<char>, Seq<CartItemView>>,
    account: Seq<char>,
    item: CartItemView,
) -> Map<Seq<char>, Seq<CartItemView>> {
    if cart_ids(items_of(carts, account)).contains(item.token_id) {
        carts
    } else {
        carts.insert(account, items_of(carts, account).push(item))
    }
}

/// `items` without its first line for `token_id`; unchanged if it has none.
pub open spec fn drop_item(items: Seq<CartItemView>, token_id: Seq<char>) -> Seq<CartItemView> {
    match cart_ids(items).index_of_first(token_id) {
        Some(i) => items.remove(i),
        None => items,
    }
}

/// `carts` after the line for `token_id` left the cart of `account`. The
/// account keeps its cart, even if it is empty then; an account without a
/// cart gets none.
pub open spec fn without_item(
    carts: Map<Seq<char>, Seq<CartItemView>>,
    account: Seq<char>,
    token_id: Seq<char>,
) -> Map<Seq<char>, Seq<CartItemView>> {
    if carts.contains_key(account) {
        carts.insert(account, drop_item(carts[account], token_id))
    } else {
        carts
    }
}

/// No cart has two lines for the same token.
pub open spec fn deduplicated(carts: Map<Seq<char>, Seq<CartItemView>>) -> bool {
    forall|account: Seq<char>| #[trigger]
        carts.contains_key(account) ==> cart_ids(carts[account]).no_duplicates()
}

/// Adding a line keeps every cart free of duplicates.
pub proof fn lemma_with_item_deduplicated(
    carts: Map<Seq<char>, Seq<CartItemView>>,
    account: Seq<char>,
    item: CartItemView,
)
    requires
        deduplicated(carts),
    ensures
        deduplicated(with_item(carts, account, item)),
{
    let items = items_of(carts, account);
    if !cart_ids(items).contains(item.token_id) {
        assert(cart_ids(items.push(item)) =~= cart_ids(items).push(item.token_id));
        assert(carts.contains_key(account) ==> cart_ids(carts[account]).no_duplicates());
        assert(cart_ids(items).no_duplicates());
        let after = with_item(carts, account, item);
        assert forall|a: Seq<char>| #[trigger] after.contains_key(a) implies cart_ids(
            after[a],
        ).no_duplicates() by {
            if a != account {
                assert(carts.contains_key(a));
            }
        }
    }
}

/// Removing a line keeps every cart free of duplicates.
pub proof fn lemma_without_item_deduplicated(
    carts: Map<Seq<char>, Seq<CartItemView>>,
    account: Seq<char>,
    token_id: Seq<char>,
)
    requires
        deduplicated(carts),
    ensures
        deduplicated(without_item(carts, account, token_id)),
        !cart_ids(items_of(without_item(carts, account, token_id), account)).contains(token_id),
{
    if carts.contains_key(account) {
        let items = carts[account];
        let ids = cart_ids(items);
        ids.index_of_first_ensures(token_id);
        let kept = drop_item(items, token_id);
        match ids.index_of_first(token_id) {
            Some(i) => {
                assert(cart_ids(kept) =~= ids.remove(i));
                assert forall|j: int| 0 <= j < ids.remove(i).len() implies ids.remove(i)[j]
                    != token_id by {
                    if j < i {
                        assert(ids.remove(i)[j] == ids[j]);
                    } else {
                        assert(ids.remove(i)[j] == ids[j + 1]);
                    }
                }
            },
            None => {},
        }
        let after = without_item(carts, account, token_id);
        assert forall|a: Seq<char>| #[trigger] after.contains_key(a) implies cart_ids(
            after[a],
        ).no_duplicates() by {
            if a != account {
                assert(carts.contains_key(a));
            }
        }
    }
}

/// Looks for the first line of `items` for the token `token_id`.
pub fn first_line(items: &Vec<CartItem>, token_id: &String) -> (found: Option<usize>)
    ensures
        match found {
            Some(i) => {
                &&& i < items.len()
                &&& items.deep_view()[i as int].token_id == token_id@
                &&& cart_ids(items.deep_view()).contains(token_id@)
                &&& cart_ids(items.deep_view()).index_of_first(token_id@) == Some(i as int)
            },
            None => !cart_ids(items.deep_view()).contains(token_id@),
        },
{
    let mut i: usize = 0;
    while i < items.len()
        invariant
            i <= items.len(),
            forall|j: int| 0 <= j < i ==> cart_ids(items.deep_view())[j] != token_id@,
        decreases items.len() - i,
    {
        if items[i].token_id == *token_id {
            proof {
                assert(cart_ids(items.deep_view())[i as int] == token_id@);
                cart_ids(items.deep_view()).index_of_first_ensures(token_id@);
            }
            return Some(i);
        }
        i += 1;
    }
    None
}

/// The token identifiers of the lines `items`, in the same order.
pub fn line_ids(items: &Vec<CartItem>) -> (ids: Vec<String>)
    ensures
        ids.deep_view() == cart_ids(items.deep_view()),
{
    let mut ids: Vec<String> = Vec::new();
    let mut i: usize = 0;
    while i < items.len()
        invariant
            i <= items.len(),
            ids.deep_view() == cart_ids(items.deep_view()).subrange(0, i as int),
        decreases items.len() - i,
    {
        let ghost before = ids.deep_view();
        ids.push(items[i].token_id.clone());
        assert(ids.deep_view() =~= before.push(items.deep_view()[i as int].token_id));
        i += 1;
        assert(ids.deep_view() =~= cart_ids(items.deep_view()).subrange(0, i as int));
    }
    assert(cart_ids(items.deep_view()).subrange(0, i as int) =~= cart_ids(items.deep_view()));
    ids
}

/// For each account that ever added a line, its cart.
pub struct CartStore {
    carts: Table<Vec<CartItem>>,
}

impl View for CartStore {
    type V = Map<Seq<char>, Seq<CartItemView>>;

    closed spec fn view(&self) -> Map<Seq<char>, Seq<CartItemView>> {
        self.carts.as_map().map_values(|items: Vec<CartItem>| items.deep_view())
    }
}

impl CartStore {
    /// No account has two carts.
    pub closed spec fn one_cart_each(&self) -> bool {
        self.carts.wf()
    }

    /// No account has two carts and no cart has two lines for one token.
    pub open spec fn wf(&self) -> bool {
        &&& self.one_cart_each()
        &&& deduplicated(self@)
    }

    pub fn new() -> (store: Self)
        ensures
            store.wf(),
            store@ == Map::<Seq<char>, Seq<CartItemView>>::empty(),
    {
        let store = CartStore { carts: Table::new() };
        assert(store@ =~= Map::<Seq<char>, Seq<CartItemView>>::empty());
        store
    }

    /// Adds a line for `token_id`, at the price that `tokens` gives it now,
    /// to the cart of `account_id`. A cart that has a line for the token
    /// already stays as it is. Fails with `TokenNotFound`, and changes
    /// nothing, if `tokens` has no such token.
    pub fn add_item(&mut self, tokens: &TokenTable, account_id: String, token_id: String) -> (res:
        Result<(), LedgerError>)
        requires
            old(self).wf(),
            tokens.wf(),
        ensures
            final(self).wf(),
            match res {
                Ok(_) => {
                    &&& has_token(tokens@, token_id@)
                    &&& final(self)@ == with_item(
                        old(self)@,
                        account_id@,
                        CartItemView {
                            token_id: token_id@,
                            price: lookup(tokens@, token_id@).unwrap().price,
                        },
                    )
                },
                Err(e) => {
                    &&& e == LedgerError::TokenNotFound
                    &&& !has_token(tokens@, token_id@)
                    &&& *final(self) == *old(self)
                },
            },
    {
        let price = match tokens.position(&token_id) {
            Some(p) => tokens.token_at(p).price,
            None => {
                return Err(LedgerError::TokenNotFound);
            },
        };
        let ghost item = CartItemView { token_id: token_id@, price };
        proof {
            lemma_with_item_deduplicated(self@, account_id@, item);
        }
        match self.carts.find(&account_id) {
            Some(i) => {
                proof {
                    self.carts.lemma_index_of_key(i as int);
                }
                if first_line(self.carts.value_at(i), &token_id).is_none() {
                    let mut items = self.carts.value_at(i).clone();
                    assert(items@ =~= self.carts.values()[i as int]@);
                    items.push(CartItem { token_id, price });
                    assert(items.deep_view() =~= items_of(old(self)@, account_id@).push(item));
                    self.carts.set_value(i, items);
                }
            },
            None => {
                let mut items = Vec::new();
                items.push(CartItem { token_id, price });
                assert(items.deep_view() =~= items_of(old(self)@, account_id@).push(item));
                assert(cart_ids(items_of(old(self)@, account_id@)) =~= Seq::<Seq<char>>::empty());
                self.carts.append(account_id, items);
            },
        }
        assert(self@ =~= with_item(old(self)@, account_id@, item));
        Ok(())
    }

    /// Takes the line for `token_id` out of the cart of `account_id`.
    /// Nothing happens if the account has no cart or the cart has no such
    /// line.
    pub fn remove_item(&mut self, account_id: &String, token_id: &String)
        requires
            old(self).wf(),
        ensures
            final(self).wf(),
            final(self)@ == without_item(old(self)@, account_id@, token_id@),
    {
        proof {
            lemma_without_item_deduplicated(self@, account_id@, token_id@);
        }
        match self.carts.find(account_id) {
            Some(i) => {
                proof {
                    self.carts.lemma_index_of_key(i as int);
                }
                match first_line(self.carts.value_at(i), token_id) {
                    Some(j) => {
                        let mut items = self.carts.value_at(i).clone();
                        assert(items@ =~= self.carts.values()[i as int]@);
                        items.remove(j);
                        assert(items.deep_view() =~= drop_item(old(self)@[account_id@], token_id@));
                        self.carts.set_value(i, items);
                    },
                    None => {
                        proof {
                            cart_ids(self@[account_id@]).index_of_first_ensures(token_id@);
                        }
                    },
                }
            },
            None => {},
        }
        assert(self@ =~= without_item(old(self)@, account_id@, token_id@));
    }

    /// Copies of the lines in the cart of `account_id`; none if the account
    /// has no cart.
    pub fn get_items(&self, account_id: &String) -> (items: Vec<CartItem>)
        requires
            self.wf(),
        ensures
            items.deep_view() == items_of(self@, account_id@),
    {
        match self.carts.find(account_id) {
            Some(i) => {
                let items = self.carts.value_at(i).clone();
                proof {
                    self.carts.lemma_index_of_key(i as int);
                    assert(items@ =~= self.carts.values()[i as int]@);
                    assert(items.deep_view() =~= items_of(self@, account_id@));
                }
                items
            },
            None => {
                let items = Vec::new();
                assert(items.deep_view() =~= items_of(self@, account_id@));
                items
            },
        }
    }

    /// The store with the given accounts and, position by position, their
    /// carts, or `None` if there are not as many accounts as carts, an
    /// account occurs twice, or a cart has two lines for one token.
    pub fn from_parts(accounts: Vec<String>, carts: Vec<Vec<CartItem>>) -> (res: Option<Self>)
        ensures
            match res {
                Some(store) => {
                    &&& accounts.len() == carts.len()
                    &&& accounts.deep_view().no_duplicates()
                    &&& store.wf()
                    &&& store@ == map_of(accounts.deep_view(), carts.deep_view())
                },
                None => !(accounts.len() == carts.len() && accounts.deep_view().no_duplicates()
                    && deduplicated(map_of(accounts.deep_view(), carts.deep_view()))),
            },
    {
        let store = match Table::from_parts(accounts, carts) {
            Some(table) => CartStore { carts: table },
            None => {
                return None;
            },
        };
        assert(store@ =~= map_of(accounts.deep_view(), carts.deep_view()));
        let mut i: usize = 0;
        while i < store.carts.len()
            invariant
                store.one_cart_each(),
                accounts.len() == carts.len(),
                accounts.deep_view().no_duplicates(),
                store@ == map_of(accounts.deep_view(), carts.deep_view()),
                i <= store.carts.keys().len(),
                forall|a: int|
                    0 <= a < i ==> cart_ids(
                        (#[trigger] store.carts.values()[a]).deep_view(),
                    ).no_duplicates(),
            decreases store.carts.keys().len() - i,
        {
            let ids = line_ids(store.carts.value_at(i));
            if !all_distinct(&ids) {
                proof {
                    store.carts.lemma_index_of_key(i as int);
                    assert(store@.contains_key(store.carts.keys()[i as int]));
                }
                return None;
            }
            i += 1;
        }
        proof {
            assert forall|account: Seq<char>| #[trigger]
                store@.contains_key(account) implies cart_ids(store@[account]).no_duplicates() by {
                let a = store.carts.keys().index_of(account);
                store.carts.lemma_index_of_key(a);
            }
        }
        Some(store)
    }

    /// The accounts that have a cart and, position by position, their
    /// carts.
    pub fn into_parts(self) -> (parts: (Vec<String>, Vec<Vec<CartItem>>))
        requires
            self.wf(),
        ensures
            parts.0.len() == parts.1.len(),
            parts.0.deep_view().no_duplicates(),
            map_of(parts.0.deep_view(), parts.1.deep_view()) == self@,
    {
        let parts = self.carts.into_parts();
        assert(map_of(parts.0.deep_view(), parts.1.deep_view()) =~= self@);
        parts
    }
}

} // verus!
