//! The authoritative table of tokens, in the order in which they were minted.

use crate::error::LedgerError;
use crate::table::all_distinct;
use crate::token::{Token, TokenMetadata, TokenView};
use vstd::prelude::*;

verus! {

/// The identifiers of `tokens`, in the same order.
pub open spec fn token_ids(tokens: Seq<TokenView>) -> Seq<Seq<char>> {
    Seq::new(tokens.len(), |i: int| tokens[i].token_id)
}

/// Some token of `tokens` has the identifier `token_id`.
pub open spec fn has_token(tokens: Seq<TokenView>, token_id: Seq<char>) -> bool {
    token_ids(tokens).contains(token_id)
}

/// Where the token with the identifier `token_id` stands in `tokens`.
pub open spec fn position_of(tokens: Seq<TokenView>, token_id: Seq<char>) -> int {
    token_ids(tokens).index_of(token_id)
}

/// The token with the identifier `token_id`, if there is one.
pub open spec fn lookup(tokens: Seq<TokenView>, token_id: Seq<char>) -> Option<TokenView> {
    if has_token(tokens, token_id) {
        Some(tokens[position_of(tokens, token_id)])
    } else {
        None
    }
}

/// No two tokens share an identifier.
pub open spec fn distinct_ids(tokens: Seq<TokenView>) -> bool {
    token_ids(tokens).no_duplicates()
}

/// `tokens` with the token `token_id` handed to `new_owner`; unchanged if
/// there is no such token.
pub open spec fn with_owner(
    tokens: Seq<TokenView>,
    token_id: Seq<char>,
    new_owner: Seq<char>,
) -> Seq<TokenView> {
    if has_token(tokens, token_id) {
        let i = position_of(tokens, token_id);
        tokens.update(i, TokenView { owner_id: new_owner, ..tokens[i] })
    } else {
        tokens
    }
}

/// The tokens from position `offset` on, at most `limit` of them where a
/// limit is given. An offset past the end gives nothing.
pub open spec fn page(tokens: Seq<TokenView>, offset: nat, limit: Option<nat>) -> Seq<TokenView> {
    let start = if offset < tokens.len() {
        offset as int
    } else {
        tokens.len() as int
    };
    let end = match limit {
        Some(n) if start + n < tokens.len() => start + n,
        _ => tokens.len() as int,
    };
    tokens.subrange(start, end)
}

/// Among distinct identifiers, the token at position `i` is the one that its
/// identifier finds.
pub proof fn lemma_position_of(tokens: Seq<TokenView>, i: int)
    requires
        distinct_ids(tokens),
        0 <= i < tokens.len(),
    ensures
        has_token(tokens, tokens[i].token_id),
        position_of(tokens, tokens[i].token_id) == i,
        lookup(tokens, tokens[i].token_id) == Some(tokens[i]),
{
    assert(token_ids(tokens)[i] == tokens[i].token_id);
}

/// A token that is found stands at a valid position and has the identifier
/// that was asked for.
pub proof fn lemma_lookup(tokens: Seq<TokenView>, token_id: Seq<char>)
    requires
        has_token(tokens, token_id),
    ensures
        0 <= position_of(tokens, token_id) < tokens.len(),
        tokens[position_of(tokens, token_id)].token_id == token_id,
{
}

/// The identifiers of `tokens`, in the same order.
pub fn ids_of(tokens: &Vec<Token>) -> (ids: Vec<String>)
    ensures
        ids.deep_view() == token_ids(tokens.deep_view()),
{
    let mut ids: Vec<String> = Vec::new();
    let mut i: usize = 0;
    while i < tokens.len()
        invariant
            i <= tokens.len(),
            ids.deep_view() == token_ids(tokens.deep_view()).subrange(0, i as int),
        decreases tokens.len() - i,
    {
        let ghost before = ids.deep_view();
        ids.push(tokens[i].token_id.clone());
        assert(ids.deep_view() =~= before.push(tokens.deep_view()[i as int].token_id));
        i += 1;
        assert(ids.deep_view() =~= token_ids(tokens.deep_view()).subrange(0, i as int));
    }
    assert(token_ids(tokens.deep_view()).subrange(0, i as int) =~= token_ids(tokens.deep_view()));
    ids
}

/// The token table: every token ever minted, oldest first.
pub struct TokenTable {
    tokens: Vec<Token>,
}

impl View for TokenTable {
    type V = Seq<TokenView>;

    closed spec fn view(&self) -> Seq<TokenView> {
        self.tokens.deep_view()
    }
}

impl TokenTable {
    /// No two tokens of the table share an identifier.
    pub open spec fn wf(&self) -> bool {
        distinct_ids(self@)
    }

    pub fn new() -> (table: Self)
        ensures
            table.wf(),
            table@ == Seq::<TokenView>::empty(),
    {
        let table = TokenTable { tokens: Vec::new() };
        assert(table@ =~= Seq::<TokenView>::empty());
        table
    }

    /// The number of tokens.
    pub fn len(&self) -> (n: usize)
        ensures
            n == self@.len(),
    {
        self.tokens.len()
    }

    /// The first position at which a token `token_id` stands, which in a
    /// well-formed table is the only one, or `None` if there is none.
    pub fn position(&self, token_id: &String) -> (found: Option<usize>)
        ensures
            match found {
                Some(i) => {
                    &&& has_token(self@, token_id@)
                    &&& i < self@.len()
                    &&& self@[i as int].token_id == token_id@
                    &&& forall|j: int| 0 <= j < i ==> self@[j].token_id != token_id@
                    &&& self.wf() ==> position_of(self@, token_id@) == i
                },
                None => !has_token(self@, token_id@),
            },
    {
        let mut i: usize = 0;
        while i < self.tokens.len()
            invariant
                i <= self.tokens.len(),
                forall|j: int| 0 <= j < i ==> token_ids(self@)[j] != token_id@,
                forall|j: int| 0 <= j < i ==> self@[j].token_id != token_id@,
            decreases self.tokens.len() - i,
        {
            if self.tokens[i].token_id == *token_id {
                proof {
                    assert(token_ids(self@)[i as int] == token_id@);
                    if self.wf() {
                        lemma_position_of(self@, i as int);
                    }
                }
                return Some(i);
            }
            i += 1;
        }
        None
    }

    /// The token at position `i`.
    pub fn token_at(&self, i: usize) -> (token: &Token)
        requires
            i < self@.len(),
        ensures
            token@ == self@[i as int],
    {
        &self.tokens[i]
    }

    /// Inserts a new token at the end of the table and returns it. Fails
    /// with `DuplicateId`, and changes nothing, if the identifier is taken.
    pub fn mint(
        &mut self,
        token_id: String,
        owner_id: String,
        metadata: TokenMetadata,
        price: u128,
    ) -> (res: Result<Token, LedgerError>)
        requires
            old(self).wf(),
        ensures
            final(self).wf(),
            match res {
                Ok(token) => {
                    &&& !has_token(old(self)@, token_id@)
                    &&& token@ == (TokenView {
                        token_id: token_id@,
                        owner_id: owner_id@,
                        metadata: metadata@,
                        price,
                    })
                    &&& final(self)@ == old(self)@.push(token@)
                },
                Err(e) => {
                    &&& e == LedgerError::DuplicateId
                    &&& has_token(old(self)@, token_id@)
                    &&& *final(self) == *old(self)
                },
            },
    {
        if self.position(&token_id).is_some() {
            return Err(LedgerError::DuplicateId);
        }
        let token = Token { token_id, owner_id, metadata, price };
        self.tokens.push(token.clone());
        proof {
            assert(self@ =~= old(self)@.push(token@));
            assert(token_ids(self@) =~= token_ids(old(self)@).push(token_id@));
        }
        Ok(token)
    }

    /// A copy of the token `token_id`, or `None` if the table has no such
    /// token.
    pub fn get(&self, token_id: &String) -> (res: Option<Token>)
        requires
            self.wf(),
        ensures
            res.deep_view() == lookup(self@, token_id@),
    {
        match self.position(token_id) {
            Some(i) => Some(self.tokens[i].clone()),
            None => None,
        }
    }

    /// Hands the token `token_id`, which the caller has found in the table,
    /// to `new_owner_id`.
    pub(crate) fn set_owner(&mut self, token_id: &String, new_owner_id: String)
        requires
            old(self).wf(),
            has_token(old(self)@, token_id@),
        ensures
            final(self).wf(),
            final(self)@ == with_owner(old(self)@, token_id@, new_owner_id@),
    {
        match self.position(token_id) {
            Some(i) => {
                let token = Token {
                    token_id: self.tokens[i].token_id.clone(),
                    owner_id: new_owner_id,
                    metadata: self.tokens[i].metadata.clone(),
                    price: self.tokens[i].price,
                };
                self.tokens.set(i, token);
                proof {
                    assert(self@ =~= with_owner(old(self)@, token_id@, new_owner_id@));
                    assert(token_ids(self@) =~= token_ids(old(self)@));
                }
            },
            None => {},
        }
    }

    /// Copies of the tokens from position `offset` on, oldest first, at most
    /// `limit` of them where a limit is given.
    pub fn list(&self, offset: u64, limit: Option<u64>) -> (tokens: Vec<Token>)
        ensures
            tokens.deep_view() == page(
                self@,
                offset as nat,
                match limit {
                    Some(n) => Some(n as nat),
                    None => None,
                },
            ),
    {
        let len = self.tokens.len();
        let start: usize = if offset < len as u64 {
            offset as usize
        } else {
            len
        };
        let end: usize = match limit {
            Some(n) => if n < (len - start) as u64 {
                start + n as usize
            } else {
                len
            },
            None => len,
        };
        let mut tokens: Vec<Token> = Vec::new();
        let mut i: usize = start;
        while i < end
            invariant
                start <= i <= end <= self.tokens.len(),
                tokens.deep_view() == self@.subrange(start as int, i as int),
            decreases end - i,
        {
            let ghost before = tokens.deep_view();
            tokens.push(self.tokens[i].clone());
            assert(tokens.deep_view() =~= before.push(self@[i as int]));
            i += 1;
            assert(tokens.deep_view() =~= self@.subrange(start as int, i as int));
        }
        tokens
    }

    /// The identifiers of all tokens, oldest first.
    pub fn ids(&self) -> (ids: Vec<String>)
        ensures
            ids.deep_view() == token_ids(self@),
    {
        ids_of(&self.tokens)
    }

    /// The table that holds `tokens` in this order, or `None` if two of
    /// them share an identifier.
    pub fn from_tokens(tokens: Vec<Token>) -> (res: Option<Self>)
        ensures
            match res {
                Some(table) => table.wf() && table@ == tokens.deep_view(),
                None => !distinct_ids(tokens.deep_view()),
            },
    {
        let ids = ids_of(&tokens);
        if !all_distinct(&ids) {
            return None;
        }
        Some(TokenTable { tokens })
    }

    /// The tokens of the table, oldest first.
    pub fn into_tokens(self) -> (tokens: Vec<Token>)
        ensures
            tokens.deep_view() == self@,
    {
        self.tokens
    }
}

} // verus!
