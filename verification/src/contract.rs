//! The ledger itself: the token table, the owner index and the cart store
//! behind one value, with the operations that change them together.

use crate::cart_store::{CartItem, CartStore};
use crate::error::LedgerError;
use crate::model::{
    lemma_minted_wf, lemma_purchased_wf, lemma_with_cart_item_wf, lemma_without_cart_item_wf,
    ContractView, Operation, TransferView,
};
use crate::owner_index::OwnerIndex;
use crate::snapshot::Snapshot;
use crate::token::{Token, TokenMetadata, TokenMetadataView, TokenView};
use crate::token_table::{page, token_ids, TokenTable};
use vstd::prelude::*;

verus! {

/// A payment that a purchase owes to the seller. The ledger only says what
/// is owed; sending it is the host's part.
#[derive(Debug, PartialEq, Eq)]
pub struct Transfer {
    pub receiver_id: String,
    pub amount: u128,
}

impl View for Transfer {
    type V = TransferView;

    open spec fn view(&self) -> TransferView {
        TransferView { receiver_id: self.receiver_id@, amount: self.amount }
    }
}

/// The title under which a token is shown: its own, or a placeholder if it
/// was minted without one.
pub open spec fn display_title(metadata: TokenMetadataView) -> Seq<char> {
    match metadata.title {
        Some(title) => title,
        None => "Untitled"@,
    }
}

/// The ledger.
pub struct Contract {
    owner_id: String,
    tokens_by_id: TokenTable,
    tokens_by_owner: OwnerIndex,
    carts: CartStore,
}

impl View for Contract {
    type V = ContractView;

    closed spec fn view(&self) -> ContractView {
        ContractView {
            owner_id: self.owner_id@,
            tokens: self.tokens_by_id@,
            owners: self.tokens_by_owner@,
            carts: self.carts@,
        }
    }
}

impl Contract {
    /// No account has two entries in the owner index or two carts.
    pub closed spec fn one_entry_each(&self) -> bool {
        &&& self.tokens_by_owner.wf()
        &&& self.carts.one_cart_each()
    }

    /// The ledger is well-formed: above all, its owner index mirrors its
    /// token table.
    pub open spec fn wf(&self) -> bool {
        &&& self.one_entry_each()
        &&& self@.wf()
    }

    /// Sets up an empty ledger for `owner_id`.
    pub fn new(owner_id: String) -> (contract: Self)
        ensures
            contract.wf(),
            contract@ == ContractView::empty(owner_id@),
    {
        Contract {
            owner_id,
            tokens_by_id: TokenTable::new(),
            tokens_by_owner: OwnerIndex::new(),
            carts: CartStore::new(),
        }
    }

    /// The ledger that `snapshot` describes, or `None` if the snapshot is
    /// not valid.
    pub fn restore(snapshot: Snapshot) -> (res: Option<Self>)
        ensures
            match res {
                Some(contract) => {
                    &&& snapshot.valid()
                    &&& contract.wf()
                    &&& contract@ == snapshot.ledger()
                },
                None => !snapshot.valid(),
            },
    {
        let tokens_by_id = match TokenTable::from_tokens(snapshot.tokens) {
            Some(table) => table,
            None => {
                return None;
            },
        };
        let tokens_by_owner = match OwnerIndex::from_parts(
            snapshot.owner_accounts,
            snapshot.owner_entries,
        ) {
            Some(index) => index,
            None => {
                return None;
            },
        };
        if !tokens_by_owner.mirrors_tokens(&tokens_by_id) {
            return None;
        }
        let carts = match CartStore::from_parts(snapshot.cart_accounts, snapshot.cart_entries) {
            Some(store) => store,
            None => {
                return None;
            },
        };
        let contract = Contract {
            owner_id: snapshot.owner_id,
            tokens_by_id,
            tokens_by_owner,
            carts,
        };
        Some(contract)
    }

    /// Everything that the ledger holds, as plain values. Restoring the
    /// snapshot gives a ledger in the same state.
    pub fn into_snapshot(self) -> (snapshot: Snapshot)
        requires
            self.wf(),
        ensures
            snapshot.valid(),
            snapshot.ledger() == self@,
    {
        let tokens = self.tokens_by_id.into_tokens();
        let owners = self.tokens_by_owner.into_parts();
        let carts = self.carts.into_parts();
        Snapshot {
            owner_id: self.owner_id,
            tokens,
            owner_accounts: owners.0,
            owner_entries: owners.1,
            cart_accounts: carts.0,
            cart_entries: carts.1,
        }
    }

    /// The account that set the ledger up.
    pub fn owner_id(&self) -> (owner_id: &String)
        ensures
            owner_id@ == self@.owner_id,
    {
        &self.owner_id
    }

    /// Mints a token for `token_owner_id` and returns it. Fails with
    /// `DuplicateId`, and changes nothing, if the identifier is taken.
    pub fn nft_mint(
        &mut self,
        token_id: String,
        token_owner_id: String,
        token_metadata: TokenMetadata,
        price: u128,
    ) -> (res: Result<Token, LedgerError>)
        requires
            old(self).wf(),
        ensures
            final(self).wf(),
            final(self)@ == old(self)@.step(
                Operation::Mint {
                    token: TokenView {
                        token_id: token_id@,
                        owner_id: token_owner_id@,
                        metadata: token_metadata@,
                        price,
                    },
                },
            ),
            match res {
                Ok(token) => {
                    &&& old(self)@.mint_refusal(token_id@) is None
                    &&& token@ == (TokenView {
                        token_id: token_id@,
                        owner_id: token_owner_id@,
                        metadata: token_metadata@,
                        price,
                    })
                    &&& final(self)@ == old(self)@.minted(token@)
                },
                Err(e) => {
                    &&& old(self)@.mint_refusal(token_id@) == Some(e)
                    &&& *final(self) == *old(self)
                },
            },
    {
        let token = match self.tokens_by_id.mint(token_id, token_owner_id, token_metadata, price) {
            Ok(token) => token,
            Err(e) => {
                return Err(e);
            },
        };
        proof {
            lemma_minted_wf(old(self)@, token@);
        }
        self.tokens_by_owner.add(token.owner_id.clone(), token.token_id.clone());
        Ok(token)
    }

    /// Sells the token `token_id` to `buyer_id`, who attached
    /// `attached_deposit` to the call, and returns the payment owed to the
    /// seller: exactly the token's price. The token must exist
    /// (`TokenNotFound`), the buyer must not own it (`SelfPurchase`), and the
    /// value attached must cover the price (`InsufficientPayment`); the
    /// first of these that fails is reported and nothing is changed.
    pub fn buy_nft(&mut self, token_id: String, buyer_id: String, attached_deposit: u128) -> (res:
        Result<Transfer, LedgerError>)
        requires
            old(self).wf(),
        ensures
            final(self).wf(),
            final(self)@ == old(self)@.step(
                Operation::Purchase {
                    token_id: token_id@,
                    buyer_id: buyer_id@,
                    attached: attached_deposit,
                },
            ),
            match res {
                Ok(transfer) => {
                    &&& old(self)@.purchase_refusal(token_id@, buyer_id@, attached_deposit) is None
                    &&& transfer@ == old(self)@.payment(token_id@)
                    &&& final(self)@ == old(self)@.purchased(token_id@, buyer_id@)
                },
                Err(e) => {
                    &&& old(self)@.purchase_refusal(token_id@, buyer_id@, attached_deposit) == Some(
                        e,
                    )
                    &&& *final(self) == *old(self)
                },
            },
    {
        let (seller_id, price) = match self.tokens_by_id.position(&token_id) {
            Some(i) => {
                let token = self.tokens_by_id.token_at(i);
                (token.owner_id.clone(), token.price)
            },
            None => {
                return Err(LedgerError::TokenNotFound);
            },
        };
        if buyer_id == seller_id {
            return Err(LedgerError::SelfPurchase);
        }
        if attached_deposit < price {
            return Err(LedgerError::InsufficientPayment);
        }
        proof {
            lemma_purchased_wf(self@, token_id@, buyer_id@, attached_deposit);
        }
        self.tokens_by_id.set_owner(&token_id, buyer_id.clone());
        self.tokens_by_owner.remove(&seller_id, &token_id);
        self.tokens_by_owner.add(buyer_id, token_id);
        Ok(Transfer { receiver_id: seller_id, amount: price })
    }

    /// Puts the token `token_id` into the cart of `account_id` at its
    /// present price. A cart that has a line for the token already stays as
    /// it is. Fails with `TokenNotFound`, and changes nothing, if there is
    /// no such token.
    pub fn add_to_cart(&mut self, account_id: String, token_id: String) -> (res: Result<
        (),
        LedgerError,
    >)
        requires
            old(self).wf(),
        ensures
            final(self).wf(),
            final(self)@ == old(self)@.step(
                Operation::AddToCart { account_id: account_id@, token_id: token_id@ },
            ),
            match res {
                Ok(_) => {
                    &&& old(self)@.has_token(token_id@)
                    &&& final(self)@ == old(self)@.with_cart_item(account_id@, token_id@)
                },
                Err(e) => {
                    &&& e == LedgerError::TokenNotFound
                    &&& !old(self)@.has_token(token_id@)
                    &&& *final(self) == *old(self)
                },
            },
    {
        proof {
            lemma_with_cart_item_wf(self@, account_id@, token_id@);
        }
        self.carts.add_item(&self.tokens_by_id, account_id, token_id)
    }

    /// Takes the token `token_id` out of the cart of `account_id`. Nothing
    /// happens if the cart has no line for it.
    pub fn remove_from_cart(&mut self, account_id: String, token_id: String)
        requires
            old(self).wf(),
        ensures
            final(self).wf(),
            final(self)@ == old(self)@.without_cart_item(account_id@, token_id@),
            final(self)@ == old(self)@.step(
                Operation::RemoveFromCart { account_id: account_id@, token_id: token_id@ },
            ),
    {
        proof {
            lemma_without_cart_item_wf(self@, account_id@, token_id@);
        }
        self.carts.remove_item(&account_id, &token_id);
    }

    /// The lines in the cart of `account_id`.
    pub fn get_cart(&self, account_id: String) -> (items: Vec<CartItem>)
        requires
            self.wf(),
        ensures
            items.deep_view() == self@.cart_of(account_id@),
    {
        self.carts.get_items(&account_id)
    }

    /// The token `token_id`, or `None` if it was never minted.
    pub fn nft_token(&self, token_id: String) -> (res: Option<Token>)
        requires
            self.wf(),
        ensures
            res.deep_view() == self@.token(token_id@),
    {
        self.tokens_by_id.get(&token_id)
    }

    /// The tokens in the order of minting, starting at position `from_index`
    /// (the first, if none is given) and at most `limit` of them (all that
    /// remain, if none is given).
    pub fn nft_tokens(&self, from_index: Option<u64>, limit: Option<u64>) -> (tokens: Vec<Token>)
        ensures
            tokens.deep_view() == page(
                self@.tokens,
                match from_index {
                    Some(n) => n as nat,
                    None => 0,
                },
                match limit {
                    Some(n) => Some(n as nat),
                    None => None,
                },
            ),
    {
        let offset: u64 = match from_index {
            Some(n) => n,
            None => 0,
        };
        self.tokens_by_id.list(offset, limit)
    }

    /// The tokens that `account_id` owns, in the order in which it came to
    /// own them.
    pub fn nft_tokens_for_owner(&self, account_id: String) -> (tokens: Vec<Token>)
        requires
            self.wf(),
        ensures
            tokens.deep_view() == self@.tokens_of(account_id@),
            forall|i: int|
                0 <= i < tokens.len() ==> (#[trigger] tokens.deep_view()[i]).owner_id
                    == account_id@,
    {
        let ids = self.tokens_by_owner.list(&account_id);
        let mut tokens: Vec<Token> = Vec::new();
        let mut i: usize = 0;
        while i < ids.len()
            invariant
                self.wf(),
                i <= ids.len(),
                ids.deep_view() == self@.owned_by(account_id@),
                tokens.deep_view() == self@.tokens_of(account_id@).subrange(0, i as int),
            decreases ids.len() - i,
        {
            let ghost before = tokens.deep_view();
            proof {
                assert(ids.deep_view()[i as int] == ids[i as int]@);
                assert(self@.lists(account_id@, ids[i as int]@));
            }
            match self.tokens_by_id.position(&ids[i]) {
                Some(p) => {
                    tokens.push(self.tokens_by_id.token_at(p).clone());
                },
                None => {},
            }
            assert(tokens.deep_view() =~= before.push(self@.tokens_of(account_id@)[i as int]));
            i += 1;
            assert(tokens.deep_view() =~= self@.tokens_of(account_id@).subrange(0, i as int));
        }
        proof {
            let all = self@.tokens_of(account_id@);
            assert(all.subrange(0, i as int) =~= all);
            assert forall|k: int| 0 <= k < tokens.len() implies (#[trigger] tokens.deep_view()[
                k
            ]).owner_id == account_id@ by {
                assert(self@.lists(account_id@, self@.owned_by(account_id@)[k]));
            }
        }
        tokens
    }

    /// The identifiers of all tokens, in the order of minting.
    pub fn get_all_listed_nfts(&self) -> (ids: Vec<String>)
        ensures
            ids.deep_view() == token_ids(self@.tokens),
    {
        self.tokens_by_id.ids()
    }

    /// The price of the token `token_id`, or `None` if there is no such
    /// token.
    pub fn get_nft_price(&self, token_id: String) -> (price: Option<u128>)
        requires
            self.wf(),
        ensures
            price == match self@.token(token_id@) {
                Some(token) => Some(token.price),
                None => None,
            },
    {
        match self.tokens_by_id.position(&token_id) {
            Some(i) => Some(self.tokens_by_id.token_at(i).price),
            None => None,
        }
    }

    /// Owner, display title and price of the token `token_id`, or `None` if
    /// there is no such token.
    pub fn get_nft_listing(&self, token_id: String) -> (listing: Option<(String, String, u128)>)
        requires
            self.wf(),
        ensures
            match listing {
                Some(found) => {
                    &&& self@.token(token_id@) matches Some(token)
                    &&& found.0@ == token.owner_id
                    &&& found.1@ == display_title(token.metadata)
                    &&& found.2 == token.price
                },
                None => self@.token(token_id@) is None,
            },
    {
        match self.tokens_by_id.position(&token_id) {
            Some(i) => {
                let token = self.tokens_by_id.token_at(i);
                let title = match &token.metadata.title {
                    Some(title) => title.clone(),
                    None => "Untitled".to_owned(),
                };
                Some((token.owner_id.clone(), title, token.price))
            },
            None => None,
        }
    }
}

} // verus!
