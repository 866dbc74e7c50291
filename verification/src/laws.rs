//! Laws of the ledger: what holds of every state that a ledger can reach and
//! of every pair of calls.

use crate::cart_store::{cart_ids, lemma_without_item_deduplicated, CartItemView};
use crate::error::LedgerError;
use crate::model::{
    lemma_lookup_with_owner, lemma_minted_wf, lemma_purchased_wf, lemma_with_cart_item_wf,
    lemma_without_cart_item_wf, ContractView, Operation, TransferView,
};
use crate::owner_index::lists;
use crate::seq_facts::lemma_push_members;
use crate::token::TokenView;
use crate::token_table::{lemma_lookup, lemma_position_of, lookup, token_ids};
use vstd::prelude::*;

verus! {

/// One call, whatever it is and whether or not it is refused, leaves a
/// well-formed ledger well-formed.
pub proof fn lemma_step_wf(s: ContractView, op: Operation)
    requires
        s.wf(),
    ensures
        s.step(op).wf(),
{
    match op {
        Operation::Mint { token } => {
            if s.mint_refusal(token.token_id) is None {
                lemma_minted_wf(s, token);
            }
        },
        Operation::Purchase { token_id, buyer_id, attached } => {
            if s.purchase_refusal(token_id, buyer_id, attached) is None {
                lemma_purchased_wf(s, token_id, buyer_id, attached);
            }
        },
        Operation::AddToCart { account_id, token_id } => {
            lemma_with_cart_item_wf(s, account_id, token_id);
        },
        Operation::RemoveFromCart { account_id, token_id } => {
            lemma_without_cart_item_wf(s, account_id, token_id);
        },
    }
}

/// After any sequence of calls on a ledger that started empty, the ledger is
/// well-formed. As every prefix of a sequence of calls is one too, this
/// holds at every point of every history.
pub proof fn lemma_every_history_wf(owner_id: Seq<char>, ops: Seq<Operation>)
    ensures
        ContractView::empty(owner_id).after(ops).wf(),
    decreases ops.len(),
{
    let start = ContractView::empty(owner_id);
    if ops.len() == 0 {
        assert forall|account: Seq<char>, token_id: Seq<char>| #[trigger]
            lists(start.owners, account, token_id) <==> (lookup(
                start.tokens,
                token_id,
            ) matches Some(t) && t.owner_id == account) by {}
    } else {
        lemma_every_history_wf(owner_id, ops.drop_last());
        lemma_step_wf(start.after(ops.drop_last()), ops.last());
    }
}

/// No call destroys or renames a token or changes its description or its
/// price: after the call every token stands where it stood, and only a
/// purchase may have given it another owner.
pub proof fn lemma_step_keeps_tokens(s: ContractView, op: Operation, i: int)
    requires
        s.wf(),
        0 <= i < s.tokens.len(),
    ensures
        s.tokens.len() <= s.step(op).tokens.len(),
        s.step(op).tokens[i].token_id == s.tokens[i].token_id,
        s.step(op).tokens[i].metadata == s.tokens[i].metadata,
        s.step(op).tokens[i].price == s.tokens[i].price,
        !(op is Purchase) ==> s.step(op).tokens[i] == s.tokens[i],
{
    match op {
        Operation::Purchase { token_id, buyer_id, attached } => {
            if s.purchase_refusal(token_id, buyer_id, attached) is None {
                lemma_lookup(s.tokens, token_id);
            }
        },
        _ => {},
    }
}

/// In a well-formed ledger every token is listed in the entry of its owner,
/// once, and in the entry of no other account.
pub proof fn lemma_token_listed_once(s: ContractView, i: int)
    requires
        s.wf(),
        0 <= i < s.tokens.len(),
    ensures
        s.owners.contains_key(s.tokens[i].owner_id),
        s.owners[s.tokens[i].owner_id].contains(s.tokens[i].token_id),
        s.owners[s.tokens[i].owner_id].no_duplicates(),
        forall|account: Seq<char>|
            s.owners.contains_key(account) && #[trigger] s.owners[account].contains(
                s.tokens[i].token_id,
            ) ==> account == s.tokens[i].owner_id,
{
    let token = s.tokens[i];
    lemma_position_of(s.tokens, i);
    assert(s.lists(token.owner_id, token.token_id));
    assert forall|account: Seq<char>|
        s.owners.contains_key(account) && #[trigger] s.owners[account].contains(
            token.token_id,
        ) implies account == token.owner_id by {
        assert(s.lists(account, token.token_id));
    }
}

/// In a well-formed ledger every identifier that an entry lists belongs to a
/// token, and the entry's account owns that token.
pub proof fn lemma_listed_token_exists(s: ContractView, account: Seq<char>, j: int)
    requires
        s.wf(),
        0 <= j < s.owned_by(account).len(),
    ensures
        s.token(s.owned_by(account)[j]) matches Some(token) && token.owner_id == account,
{
    assert(s.lists(account, s.owned_by(account)[j]));
}

/// After every history, each token is listed in its owner's entry, once, and
/// nowhere else.
pub proof fn lemma_every_history_mirrors(owner_id: Seq<char>, ops: Seq<Operation>, i: int)
    requires
        0 <= i < ContractView::empty(owner_id).after(ops).tokens.len(),
    ensures
        ({
            let s = ContractView::empty(owner_id).after(ops);
            let token = s.tokens[i];
            &&& s.owners.contains_key(token.owner_id)
            &&& s.owners[token.owner_id].contains(token.token_id)
            &&& s.owners[token.owner_id].no_duplicates()
            &&& forall|account: Seq<char>|
                s.owners.contains_key(account) && #[trigger] s.owners[account].contains(
                    token.token_id,
                ) ==> account == token.owner_id
        }),
{
    lemma_every_history_wf(owner_id, ops);
    lemma_token_listed_once(ContractView::empty(owner_id).after(ops), i);
}

/// Minting an identifier a second time is refused as a duplicate and changes
/// nothing, whatever else the second call gives.
pub proof fn lemma_second_mint_refused(s: ContractView, first: TokenView, second: TokenView)
    requires
        first.token_id == second.token_id,
    ensures
        s.step(Operation::Mint { token: first }).mint_refusal(second.token_id) == Some(
            LedgerError::DuplicateId,
        ),
        s.step(Operation::Mint { token: first }).step(Operation::Mint { token: second }) == s.step(
            Operation::Mint { token: first },
        ),
{
    if s.mint_refusal(first.token_id) is None {
        let after = s.minted(first);
        assert(token_ids(after.tokens)[s.tokens.len() as int] == first.token_id);
    }
}

/// A purchase of a token that was never minted is refused as not found and
/// changes nothing.
pub proof fn lemma_purchase_unknown(
    s: ContractView,
    token_id: Seq<char>,
    buyer_id: Seq<char>,
    attached: u128,
)
    requires
        !s.has_token(token_id),
    ensures
        s.purchase_refusal(token_id, buyer_id, attached) == Some(LedgerError::TokenNotFound),
        s.step(Operation::Purchase { token_id, buyer_id, attached }) == s,
{
}

/// A purchase by the token's owner is refused as a self-purchase and changes
/// nothing.
pub proof fn lemma_purchase_own(
    s: ContractView,
    token_id: Seq<char>,
    buyer_id: Seq<char>,
    attached: u128,
)
    requires
        s.token(token_id) matches Some(token) && token.owner_id == buyer_id,
    ensures
        s.purchase_refusal(token_id, buyer_id, attached) == Some(LedgerError::SelfPurchase),
        s.step(Operation::Purchase { token_id, buyer_id, attached }) == s,
{
}

/// A purchase by another account that attaches less than the price is
/// refused as underpaid and changes nothing.
pub proof fn lemma_purchase_underpaid(
    s: ContractView,
    token_id: Seq<char>,
    buyer_id: Seq<char>,
    attached: u128,
)
    requires
        s.token(token_id) matches Some(token) && token.owner_id != buyer_id && attached
            < token.price,
    ensures
        s.purchase_refusal(token_id, buyer_id, attached) == Some(LedgerError::InsufficientPayment),
        s.step(Operation::Purchase { token_id, buyer_id, attached }) == s,
{
}

/// A purchase that is not refused moves the identifier out of the seller's
/// entry and into the buyer's, makes the buyer the token's owner and changes
/// nothing else of the token, and owes the seller the price, not what was
/// attached.
pub proof fn lemma_purchase_moves_token(
    s: ContractView,
    token_id: Seq<char>,
    buyer_id: Seq<char>,
    attached: u128,
)
    requires
        s.wf(),
        s.purchase_refusal(token_id, buyer_id, attached) is None,
    ensures
        ({
            let before = s.token(token_id).unwrap();
            let after = s.purchased(token_id, buyer_id);
            &&& s.lists(before.owner_id, token_id)
            &&& !after.lists(before.owner_id, token_id)
            &&& after.lists(buyer_id, token_id)
            &&& after.token(token_id) == Some(TokenView { owner_id: buyer_id, ..before })
            &&& after.tokens.len() == s.tokens.len()
            &&& s.payment(token_id) == (TransferView {
                receiver_id: before.owner_id,
                amount: before.price,
            })
        }),
{
    let before = s.token(token_id).unwrap();
    let after = s.purchased(token_id, buyer_id);
    lemma_purchased_wf(s, token_id, buyer_id, attached);
    lemma_lookup_with_owner(s.tokens, token_id, buyer_id, token_id);
    lemma_lookup(s.tokens, token_id);
    assert(s.lists(before.owner_id, token_id));
    assert(after.lists(buyer_id, token_id) <==> (after.token(token_id) matches Some(t) && t.owner_id
        == buyer_id));
    assert(after.lists(before.owner_id, token_id) <==> (after.token(token_id) matches Some(t)
        && t.owner_id == before.owner_id));
}

/// Putting a token into a cart twice is the same as putting it there once,
/// and the cart then has exactly one line for it.
pub proof fn lemma_add_to_cart_idempotent(s: ContractView, account: Seq<char>, token_id: Seq<char>)
    requires
        s.wf(),
        s.has_token(token_id),
    ensures
        s.with_cart_item(account, token_id).with_cart_item(account, token_id) == s.with_cart_item(
            account,
            token_id,
        ),
        cart_ids(s.with_cart_item(account, token_id).cart_of(account)).contains(token_id),
        cart_ids(s.with_cart_item(account, token_id).cart_of(account)).no_duplicates(),
{
    let once = s.with_cart_item(account, token_id);
    let item = CartItemView { token_id, price: s.token(token_id).unwrap().price };
    let lines = s.cart_of(account);
    lemma_with_cart_item_wf(s, account, token_id);
    if !cart_ids(lines).contains(token_id) {
        assert(cart_ids(lines.push(item)) =~= cart_ids(lines).push(token_id));
        lemma_push_members(cart_ids(lines), token_id);
    }
    assert(once.carts.contains_key(account) ==> cart_ids(once.carts[account]).no_duplicates());
    assert(cart_ids(once.cart_of(account)).contains(token_id));
}

/// Taking a token out of a cart that has no line for it changes nothing.
pub proof fn lemma_remove_from_cart_absent(s: ContractView, account: Seq<char>, token_id: Seq<char>)
    requires
        !cart_ids(s.cart_of(account)).contains(token_id),
    ensures
        s.without_cart_item(account, token_id) == s,
{
    if s.carts.contains_key(account) {
        cart_ids(s.carts[account]).index_of_first_ensures(token_id);
    }
    assert(s.without_cart_item(account, token_id).carts =~= s.carts);
}

/// After a token was taken out of a cart, the cart has no line for it.
pub proof fn lemma_remove_from_cart_removes(
    s: ContractView,
    account: Seq<char>,
    token_id: Seq<char>,
)
    requires
        s.wf(),
    ensures
        !cart_ids(s.without_cart_item(account, token_id).cart_of(account)).contains(token_id),
{
    lemma_without_item_deduplicated(s.carts, account, token_id);
}

} // verus!
