//! The ledger as a mathematical value, the operations on it, and the laws
//! that they obey.

use crate::cart_store::{
    deduplicated, items_of, lemma_with_item_deduplicated, lemma_without_item_deduplicated,
    with_item, without_item, CartItemView,
};
use crate::error::LedgerError;
use crate::owner_index::{listed, lists, mirrors, with_added, with_removed};
use crate::seq_facts::{lemma_push_fresh, lemma_remove_value_distinct};
use crate::token::TokenView;
use crate::token_table::{
    distinct_ids, has_token, lemma_lookup, lemma_position_of, lookup, position_of, token_ids,
    with_owner,
};
use vstd::prelude::*;

verus! {

/// A payment that the ledger owes: `amount` is to reach `receiver_id`.
pub struct TransferView {
    pub receiver_id: Seq<char>,
    pub amount: u128,
}

/// The state of a ledger.
#[verifier::ext_equal]
pub struct ContractView {
    /// The account that set the ledger up.
    pub owner_id: Seq<char>,
    /// Every token, in the order of minting.
    pub tokens: Seq<TokenView>,
    /// For each account with an entry, the identifiers listed for it.
    pub owners: Map<Seq<char>, Seq<Seq<char>>>,
    /// For each account with a cart, its lines.
    pub carts: Map<Seq<char>, Seq<CartItemView>>,
}

/// One call of a mutating operation, with everything that the call is given.
pub enum Operation {
    Mint { token: TokenView },
    Purchase { token_id: Seq<char>, buyer_id: Seq<char>, attached: u128 },
    AddToCart { account_id: Seq<char>, token_id: Seq<char> },
    RemoveFromCart { account_id: Seq<char>, token_id: Seq<char> },
}

impl ContractView {
    /// The ledger that `owner_id` has just set up: no token, no entry, no
    /// cart.
    pub open spec fn empty(owner_id: Seq<char>) -> ContractView {
        ContractView {
            owner_id,
            tokens: Seq::empty(),
            owners: Map::empty(),
            carts: Map::empty(),
        }
    }

    pub open spec fn has_token(self, token_id: Seq<char>) -> bool {
        has_token(self.tokens, token_id)
    }

    /// The token `token_id`, if it was minted.
    pub open spec fn token(self, token_id: Seq<char>) -> Option<TokenView> {
        lookup(self.tokens, token_id)
    }

    /// The identifiers that the owner index lists for `account`.
    pub open spec fn owned_by(self, account: Seq<char>) -> Seq<Seq<char>> {
        listed(self.owners, account)
    }

    /// The owner index lists `token_id` for `account`.
    pub open spec fn lists(self, account: Seq<char>, token_id: Seq<char>) -> bool {
        lists(self.owners, account, token_id)
    }

    /// The lines in the cart of `account`.
    pub open spec fn cart_of(self, account: Seq<char>) -> Seq<CartItemView> {
        items_of(self.carts, account)
    }

    /// The tokens that the owner index lists for `account`, in its order.
    pub open spec fn tokens_of(self, account: Seq<char>) -> Seq<TokenView> {
        let ids = self.owned_by(account);
        Seq::new(ids.len(), |i: int| self.token(ids[i]).unwrap())
    }

    /// The owner index mirrors the token table: an account's entry lists an
    /// identifier if and only if a token has that identifier and that
    /// account owns it, and no entry lists an identifier twice.
    pub open spec fn index_mirrors_tokens(self) -> bool {
        mirrors(self.tokens, self.owners)
    }

    /// What holds of a ledger at all times: identifiers are unique, the
    /// owner index mirrors the token table, and no cart has two lines for
    /// one token.
    pub open spec fn wf(self) -> bool {
        &&& distinct_ids(self.tokens)
        &&& self.index_mirrors_tokens()
        &&& deduplicated(self.carts)
    }

    /// Why a mint of `token_id` is refused, if it is.
    pub open spec fn mint_refusal(self, token_id: Seq<char>) -> Option<LedgerError> {
        if self.has_token(token_id) {
            Some(LedgerError::DuplicateId)
        } else {
            None
        }
    }

    /// The ledger after `token` was minted: the token stands last in the
    /// table and its identifier last in its owner's entry.
    pub open spec fn minted(self, token: TokenView) -> ContractView {
        ContractView {
            tokens: self.tokens.push(token),
            owners: with_added(self.owners, token.owner_id, token.token_id),
            ..self
        }
    }

    /// Why a purchase of `token_id` by `buyer_id`, with `attached` escrowed,
    /// is refused, if it is. The checks are made in this order and the first
    /// that fails decides.
    pub open spec fn purchase_refusal(
        self,
        token_id: Seq<char>,
        buyer_id: Seq<char>,
        attached: u128,
    ) -> Option<LedgerError> {
        match self.token(token_id) {
            None => Some(LedgerError::TokenNotFound),
            Some(token) => {
                if token.owner_id == buyer_id {
                    Some(LedgerError::SelfPurchase)
                } else if attached < token.price {
                    Some(LedgerError::InsufficientPayment)
                } else {
                    None
                }
            },
        }
    }

    /// The payment that a purchase of `token_id` owes: the token's price, to
    /// the account that owns it before the purchase.
    pub open spec fn payment(self, token_id: Seq<char>) -> TransferView {
        let token = self.token(token_id).unwrap();
        TransferView { receiver_id: token.owner_id, amount: token.price }
    }

    /// The ledger after `buyer_id` bought `token_id`: the token names the
    /// buyer as its owner, its identifier has left the seller's entry and
    /// stands last in the buyer's.
    pub open spec fn purchased(self, token_id: Seq<char>, buyer_id: Seq<char>) -> ContractView {
        let seller_id = self.token(token_id).unwrap().owner_id;
        ContractView {
            tokens: with_owner(self.tokens, token_id, buyer_id),
            owners: with_added(with_removed(self.owners, seller_id, token_id), buyer_id, token_id),
            ..self
        }
    }

    /// The ledger after `account` put `token_id`, which was minted, into its
    /// cart at the token's present price.
    pub open spec fn with_cart_item(self, account: Seq<char>, token_id: Seq<char>) -> ContractView {
        let item = CartItemView { token_id, price: self.token(token_id).unwrap().price };
        ContractView { carts: with_item(self.carts, account, item), ..self }
    }

    /// The ledger after `account` took `token_id` out of its cart.
    pub open spec fn without_cart_item(
        self,
        account: Seq<char>,
        token_id: Seq<char>,
    ) -> ContractView {
        ContractView { carts: without_item(self.carts, account, token_id), ..self }
    }

    /// The ledger after one call. A call that is refused changes nothing.
    pub open spec fn step(self, op: Operation) -> ContractView {
        match op {
            Operation::Mint { token } => {
                if self.mint_refusal(token.token_id) is None {
                    self.minted(token)
                } else {
                    self
                }
            },
            Operation::Purchase { token_id, buyer_id, attached } => {
                if self.purchase_refusal(token_id, buyer_id, attached) is None {
                    self.purchased(token_id, buyer_id)
                } else {
                    self
                }
            },
            Operation::AddToCart { account_id, token_id } => {
                if self.has_token(token_id) {
                    self.with_cart_item(account_id, token_id)
                } else {
                    self
                }
            },
            Operation::RemoveFromCart { account_id, token_id } => {
                self.without_cart_item(account_id, token_id)
            },
        }
    }

    /// The ledger after the calls `ops`, made in this order.
    pub open spec fn after(self, ops: Seq<Operation>) -> ContractView
        decreases ops.len(),
    {
        if ops.len() == 0 {
            self
        } else {
            self.after(ops.drop_last()).step(ops.last())
        }
    }
}

/// Minting a fresh identifier finds the new token under it and every other
/// token where it was.
pub proof fn lemma_lookup_after_push(tokens: Seq<TokenView>, token: TokenView, token_id: Seq<char>)
    requires
        distinct_ids(tokens),
        !has_token(tokens, token.token_id),
    ensures
        distinct_ids(tokens.push(token)),
        lookup(tokens.push(token), token_id) == if token_id == token.token_id {
            Some(token)
        } else {
            lookup(tokens, token_id)
        },
{
    let after = tokens.push(token);
    assert(token_ids(after) =~= token_ids(tokens).push(token.token_id));
    lemma_push_fresh(token_ids(tokens), token.token_id);
    if token_id == token.token_id {
        lemma_position_of(after, tokens.len() as int);
    } else if has_token(tokens, token_id) {
        lemma_lookup(tokens, token_id);
        let i = position_of(tokens, token_id);
        assert(after[i] == tokens[i]);
        lemma_position_of(after, i);
    }
}

/// Handing a token to a new owner keeps every identifier in place, finds the
/// token under its identifier with the new owner, and every other token as
/// it was.
pub proof fn lemma_lookup_with_owner(
    tokens: Seq<TokenView>,
    moved: Seq<char>,
    new_owner: Seq<char>,
    token_id: Seq<char>,
)
    requires
        distinct_ids(tokens),
        has_token(tokens, moved),
    ensures
        token_ids(with_owner(tokens, moved, new_owner)) == token_ids(tokens),
        lookup(with_owner(tokens, moved, new_owner), token_id) == if token_id == moved {
            Some(TokenView { owner_id: new_owner, ..lookup(tokens, moved).unwrap() })
        } else {
            lookup(tokens, token_id)
        },
{
    let after = with_owner(tokens, moved, new_owner);
    lemma_lookup(tokens, moved);
    let k = position_of(tokens, moved);
    assert(token_ids(after) =~= token_ids(tokens));
    if has_token(tokens, token_id) {
        lemma_lookup(tokens, token_id);
        let i = position_of(tokens, token_id);
        lemma_position_of(tokens, i);
        lemma_position_of(tokens, k);
    }
}

/// A mint that is not refused leaves the ledger well-formed.
pub proof fn lemma_minted_wf(s: ContractView, token: TokenView)
    requires
        s.wf(),
        s.mint_refusal(token.token_id) is None,
    ensures
        s.minted(token).wf(),
{
    let after = s.minted(token);
    let owner = token.owner_id;
    let id = token.token_id;
    let before_list = s.owned_by(owner);
    assert(!lists(s.owners, owner, id));
    assert(s.owners.contains_key(owner) ==> s.owners[owner].no_duplicates());
    lemma_push_fresh(before_list, id);
    assert forall|account: Seq<char>| #[trigger]
        after.owners.contains_key(account) implies after.owners[account].no_duplicates() by {
        if account != owner {
            assert(s.owners.contains_key(account));
        }
    }
    assert forall|account: Seq<char>, token_id: Seq<char>| #[trigger]
        lists(after.owners, account, token_id) <==> (lookup(after.tokens, token_id) matches Some(
            t,
        ) && t.owner_id == account) by {
        lemma_lookup_after_push(s.tokens, token, token_id);
        assert(lists(s.owners, account, token_id) <==> (lookup(s.tokens, token_id) matches Some(t)
            && t.owner_id == account));
        if account != owner {
            assert(after.owned_by(account) == s.owned_by(account));
        }
    }
    lemma_lookup_after_push(s.tokens, token, id);
}

/// A purchase that is not refused leaves the ledger well-formed.
pub proof fn lemma_purchased_wf(
    s: ContractView,
    token_id: Seq<char>,
    buyer_id: Seq<char>,
    attached: u128,
)
    requires
        s.wf(),
        s.purchase_refusal(token_id, buyer_id, attached) is None,
    ensures
        s.purchased(token_id, buyer_id).wf(),
{
    let after = s.purchased(token_id, buyer_id);
    let seller_id = lookup(s.tokens, token_id).unwrap().owner_id;
    let removed = with_removed(s.owners, seller_id, token_id);
    assert(lists(s.owners, seller_id, token_id));
    assert(!lists(s.owners, buyer_id, token_id));
    assert(s.owners.contains_key(seller_id));
    assert(s.owners[seller_id].no_duplicates());
    assert(s.owners.contains_key(buyer_id) ==> s.owners[buyer_id].no_duplicates());
    lemma_remove_value_distinct(s.owners[seller_id], token_id);
    assert(listed(removed, buyer_id) == s.owned_by(buyer_id));
    lemma_push_fresh(s.owned_by(buyer_id), token_id);
    lemma_lookup_with_owner(s.tokens, token_id, buyer_id, token_id);
    assert forall|account: Seq<char>| #[trigger]
        after.owners.contains_key(account) implies after.owners[account].no_duplicates() by {
        if account != buyer_id && account != seller_id {
            assert(s.owners.contains_key(account));
        }
    }
    assert forall|account: Seq<char>, id: Seq<char>| #[trigger]
        lists(after.owners, account, id) <==> (lookup(after.tokens, id) matches Some(t)
            && t.owner_id == account) by {
        lemma_lookup_with_owner(s.tokens, token_id, buyer_id, id);
        assert(lists(s.owners, account, id) <==> (lookup(s.tokens, id) matches Some(t)
            && t.owner_id == account));
        if account == buyer_id {
        } else if account == seller_id {
            assert(after.owned_by(account) == s.owners[seller_id].remove_value(token_id));
        } else {
            assert(after.owned_by(account) == s.owned_by(account));
        }
    }
}

/// Putting a token into a cart leaves the ledger well-formed and touches
/// neither the token table nor the owner index.
pub proof fn lemma_with_cart_item_wf(s: ContractView, account: Seq<char>, token_id: Seq<char>)
    requires
        s.wf(),
    ensures
        s.with_cart_item(account, token_id).wf(),
        s.with_cart_item(account, token_id).tokens == s.tokens,
        s.with_cart_item(account, token_id).owners == s.owners,
{
    lemma_with_item_deduplicated(
        s.carts,
        account,
        CartItemView { token_id, price: lookup(s.tokens, token_id).unwrap().price },
    );
}

/// Taking a token out of a cart leaves the ledger well-formed and touches
/// neither the token table nor the owner index.
pub proof fn lemma_without_cart_item_wf(s: ContractView, account: Seq<char>, token_id: Seq<char>)
    requires
        s.wf(),
    ensures
        s.without_cart_item(account, token_id).wf(),
        s.without_cart_item(account, token_id).tokens == s.tokens,
        s.without_cart_item(account, token_id).owners == s.owners,
{
    lemma_without_item_deduplicated(s.carts, account, token_id);
}

} // verus!
