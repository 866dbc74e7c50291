//! The inverted index from an account to the identifiers of the tokens that
//! it owns.
//!
//! The index keeps whatever it is told: it does not look at the token table,
//! and adding an identifier twice lists it twice. Keeping it in step with the
//! token table is the ledger's task.

use crate::table::{all_distinct, map_of, Table};
use crate::token::TokenView;
use crate::token_table::{lemma_lookup, lemma_position_of, lookup, position_of, TokenTable};
use vstd::prelude::*;

verus! {

/// The identifiers that `index` lists for `owner`: its entry, or nothing if
/// the account has no entry.
pub open spec fn listed(index: Map<Seq<char>, Seq<Seq<char>>>, owner: Seq<char>) -> Seq<Seq<char>> {
    if index.contains_key(owner) {
        index[owner]
    } else {
        Seq::empty()
    }
}

/// `index` lists `token_id` for `owner`.
pub open spec fn lists(
    index: Map<Seq<char>, Seq<Seq<char>>>,
    owner: Seq<char>,
    token_id: Seq<char>,
) -> bool {
    listed(index, owner).contains(token_id)
}

/// `index` mirrors `tokens`: an account's entry lists an identifier if and
/// only if a token has that identifier and that account owns it, and no
/// entry lists an identifier twice.
pub open spec fn mirrors(tokens: Seq<TokenView>, index: Map<Seq<char>, Seq<Seq<char>>>) -> bool {
    &&& forall|owner: Seq<char>| #[trigger]
        index.contains_key(owner) ==> index[owner].no_duplicates()
    &&& forall|owner: Seq<char>, token_id: Seq<char>| #[trigger]
        lists(index, owner, token_id) <==> (lookup(tokens, token_id) matches Some(t) && t.owner_id
            == owner)
}

/// The entry `ids` of `owner` is in order with `tokens`: it lists nothing
/// twice, and only tokens that `owner` owns.
pub open spec fn entry_in_order(
    tokens: Seq<TokenView>,
    owner: Seq<char>,
    ids: Seq<Seq<char>>,
) -> bool {
    &&& ids.no_duplicates()
    &&& forall|j: int|
        0 <= j < ids.len() ==> (lookup(tokens, #[trigger] ids[j]) matches Some(t) && t.owner_id
            == owner)
}

/// `index` after `token_id` was appended to the entry of `owner`.
pub open spec fn with_added(
    index: Map<Seq<char>, Seq<Seq<char>>>,
    owner: Seq<char>,
    token_id: Seq<char>,
) -> Map<Seq<char>, Seq<Seq<char>>> {
    index.insert(owner, listed(index, owner).push(token_id))
}

/// `index` after the first occurrence of `token_id` left the entry of
/// `owner`. An account without an entry, or an entry without the identifier,
/// leaves the index as it is.
pub open spec fn with_removed(
    index: Map<Seq<char>, Seq<Seq<char>>>,
    owner: Seq<char>,
    token_id: Seq<char>,
) -> Map<Seq<char>, Seq<Seq<char>>> {
    if index.contains_key(owner) {
        index.insert(owner, index[owner].remove_value(token_id))
    } else {
        index
    }
}

/// Removing an identifier that an entry does not hold changes nothing.
pub proof fn lemma_remove_absent(
    index: Map<Seq<char>, Seq<Seq<char>>>,
    owner: Seq<char>,
    token_id: Seq<char>,
)
    requires
        !listed(index, owner).contains(token_id),
    ensures
        with_removed(index, owner, token_id) == index,
{
    if index.contains_key(owner) {
        index[owner].index_of_first_ensures(token_id);
    }
    assert(with_removed(index, owner, token_id) =~= index);
}

/// Looks for the first occurrence of `token_id` in `ids`.
pub fn first_position(ids: &Vec<String>, token_id: &String) -> (found: Option<usize>)
    ensures
        match found {
            Some(i) => {
                &&& i < ids.len()
                &&& ids.deep_view()[i as int] == token_id@
                &&& ids.deep_view().contains(token_id@)
                &&& ids.deep_view().index_of_first(token_id@) == Some(i as int)
            },
            None => !ids.deep_view().contains(token_id@),
        },
{
    let mut i: usize = 0;
    while i < ids.len()
        invariant
            i <= ids.len(),
            forall|j: int| 0 <= j < i ==> ids.deep_view()[j] != token_id@,
        decreases ids.len() - i,
    {
        if ids[i] == *token_id {
            proof {
                assert(ids.deep_view()[i as int] == token_id@);
                ids.deep_view().index_of_first_ensures(token_id@);
            }
            return Some(i);
        }
        i += 1;
    }
    None
}

/// For each account, the identifiers of its tokens in the order in which it
/// came to own them.
pub struct OwnerIndex {
    entries: Table<Vec<String>>,
}

impl View for OwnerIndex {
    type V = Map<Seq<char>, Seq<Seq<char>>>;

    closed spec fn view(&self) -> Map<Seq<char>, Seq<Seq<char>>> {
        self.entries.as_map().map_values(|ids: Vec<String>| ids.deep_view())
    }
}

impl OwnerIndex {
    /// No account has two entries.
    pub closed spec fn wf(&self) -> bool {
        self.entries.wf()
    }

    pub fn new() -> (index: Self)
        ensures
            index.wf(),
            index@ == Map::<Seq<char>, Seq<Seq<char>>>::empty(),
    {
        let index = OwnerIndex { entries: Table::new() };
        assert(index@ =~= Map::<Seq<char>, Seq<Seq<char>>>::empty());
        index
    }

    /// Appends `token_id` to the entry of `owner_id`, which is created if the
    /// account has none.
    pub fn add(&mut self, owner_id: String, token_id: String)
        requires
            old(self).wf(),
        ensures
            final(self).wf(),
            final(self)@ == with_added(old(self)@, owner_id@, token_id@),
    {
        match self.entries.find(&owner_id) {
            Some(i) => {
                let mut ids = self.entries.value_at(i).clone();
                proof {
                    self.entries.lemma_index_of_key(i as int);
                    assert(ids@ =~= self.entries.values()[i as int]@);
                }
                ids.push(token_id);
                assert(ids.deep_view() =~= listed(old(self)@, owner_id@).push(token_id@));
                self.entries.set_value(i, ids);
            },
            None => {
                let mut ids = Vec::new();
                ids.push(token_id);
                assert(ids.deep_view() =~= listed(old(self)@, owner_id@).push(token_id@));
                self.entries.append(owner_id, ids);
            },
        }
        assert(self@ =~= with_added(old(self)@, owner_id@, token_id@));
    }

    /// Takes the first occurrence of `token_id` out of the entry of
    /// `owner_id`. Nothing happens if the account has no entry or the entry
    /// does not hold the identifier.
    pub fn remove(&mut self, owner_id: &String, token_id: &String)
        requires
            old(self).wf(),
        ensures
            final(self).wf(),
            final(self)@ == with_removed(old(self)@, owner_id@, token_id@),
    {
        match self.entries.find(owner_id) {
            Some(i) => {
                proof {
                    self.entries.lemma_index_of_key(i as int);
                }
                match first_position(self.entries.value_at(i), token_id) {
                    Some(j) => {
                        let mut ids = self.entries.value_at(i).clone();
                        assert(ids@ =~= self.entries.values()[i as int]@);
                        ids.remove(j);
                        assert(ids.deep_view() =~= old(self)@[owner_id@].remove_value(token_id@));
                        self.entries.set_value(i, ids);
                        assert(self@ =~= with_removed(old(self)@, owner_id@, token_id@));
                    },
                    None => {
                        proof {
                            lemma_remove_absent(self@, owner_id@, token_id@);
                        }
                    },
                }
            },
            None => {},
        }
    }

    /// The identifiers listed for `owner_id`; none if the account has no
    /// entry.
    pub fn list(&self, owner_id: &String) -> (ids: Vec<String>)
        requires
            self.wf(),
        ensures
            ids.deep_view() == listed(self@, owner_id@),
    {
        match self.entries.find(owner_id) {
            Some(i) => {
                let ids = self.entries.value_at(i).clone();
                proof {
                    self.entries.lemma_index_of_key(i as int);
                    assert(ids@ =~= self.entries.values()[i as int]@);
                    assert(ids.deep_view() =~= listed(self@, owner_id@));
                }
                ids
            },
            None => {
                let ids = Vec::new();
                assert(ids.deep_view() =~= listed(self@, owner_id@));
                ids
            },
        }
    }

    /// The index with the given accounts and, position by position, their
    /// entries, or `None` if there are not as many accounts as entries or an
    /// account occurs twice.
    pub fn from_parts(accounts: Vec<String>, entries: Vec<Vec<String>>) -> (res: Option<Self>)
        ensures
            match res {
                Some(index) => {
                    &&& accounts.len() == entries.len()
                    &&& accounts.deep_view().no_duplicates()
                    &&& index.wf()
                    &&& index@ == map_of(accounts.deep_view(), entries.deep_view())
                },
                None => !(accounts.len() == entries.len() && accounts.deep_view().no_duplicates()),
            },
    {
        match Table::from_parts(accounts, entries) {
            Some(table) => {
                let index = OwnerIndex { entries: table };
                assert(index@ =~= map_of(accounts.deep_view(), entries.deep_view()));
                Some(index)
            },
            None => None,
        }
    }

    /// The accounts that have an entry and, position by position, their
    /// entries.
    pub fn into_parts(self) -> (parts: (Vec<String>, Vec<Vec<String>>))
        requires
            self.wf(),
        ensures
            parts.0.len() == parts.1.len(),
            parts.0.deep_view().no_duplicates(),
            map_of(parts.0.deep_view(), parts.1.deep_view()) == self@,
    {
        let parts = self.entries.into_parts();
        assert(map_of(parts.0.deep_view(), parts.1.deep_view()) =~= self@);
        parts
    }

    /// Whether the entry at position `i` is in order with `tokens`.
    fn entry_in_order(&self, tokens: &TokenTable, i: usize) -> (ok: bool)
        requires
            self.wf(),
            tokens.wf(),
            i < self.entries.keys().len(),
        ensures
            ok == entry_in_order(
                tokens@,
                self.entries.keys()[i as int],
                self.entries.values()[i as int].deep_view(),
            ),
    {
        let owner = self.entries.key_at(i);
        let ids = self.entries.value_at(i);
        if !all_distinct(ids) {
            return false;
        }
        let mut j: usize = 0;
        while j < ids.len()
            invariant
                tokens.wf(),
                self.wf(),
                i < self.entries.keys().len(),
                *ids == self.entries.values()[i as int],
                owner@ == self.entries.keys()[i as int],
                j <= ids.len(),
                forall|k: int|
                    0 <= k < j ==> (lookup(tokens@, #[trigger] ids.deep_view()[k]) matches Some(t)
                        && t.owner_id == owner@),
            decreases ids.len() - j,
        {
            assert(ids.deep_view()[j as int] == ids[j as int]@);
            match tokens.position(&ids[j]) {
                Some(p) => {
                    if !(tokens.token_at(p).owner_id == *owner) {
                        return false;
                    }
                },
                None => {
                    return false;
                },
            }
            j += 1;
        }
        true
    }

    /// Whether the index lists the token at position `p` of `tokens` for
    /// the token's owner.
    fn lists_token(&self, tokens: &TokenTable, p: usize) -> (ok: bool)
        requires
            self.wf(),
            p < tokens@.len(),
        ensures
            ok == lists(self@, tokens@[p as int].owner_id, tokens@[p as int].token_id),
    {
        let token = tokens.token_at(p);
        match self.entries.find(&token.owner_id) {
            Some(i) => {
                proof {
                    self.entries.lemma_index_of_key(i as int);
                }
                first_position(self.entries.value_at(i), &token.token_id).is_some()
            },
            None => false,
        }
    }

    /// Whether the index mirrors `tokens`.
    pub fn mirrors_tokens(&self, tokens: &TokenTable) -> (ok: bool)
        requires
            self.wf(),
            tokens.wf(),
        ensures
            ok == mirrors(tokens@, self@),
    {
        let mut i: usize = 0;
        while i < self.entries.len()
            invariant
                self.wf(),
                tokens.wf(),
                i <= self.entries.keys().len(),
                forall|a: int|
                    0 <= a < i ==> entry_in_order(
                        tokens@,
                        #[trigger] self.entries.keys()[a],
                        self.entries.values()[a].deep_view(),
                    ),
            decreases self.entries.keys().len() - i,
        {
            if !self.entry_in_order(tokens, i) {
                proof {
                    let owner = self.entries.keys()[i as int];
                    let ids = self.entries.values()[i as int].deep_view();
                    self.entries.lemma_index_of_key(i as int);
                    assert(self@.contains_key(owner) && self@[owner] == ids);
                    if mirrors(tokens@, self@) {
                        assert forall|j: int| 0 <= j < ids.len() implies (lookup(
                            tokens@,
                            #[trigger] ids[j],
                        ) matches Some(t) && t.owner_id == owner) by {
                            assert(lists(self@, owner, ids[j]));
                        }
                    }
                }
                return false;
            }
            i += 1;
        }
        let mut p: usize = 0;
        while p < tokens.len()
            invariant
                self.wf(),
                tokens.wf(),
                p <= tokens@.len(),
                forall|q: int|
                    0 <= q < p ==> lists(
                        self@,
                        (#[trigger] tokens@[q]).owner_id,
                        tokens@[q].token_id,
                    ),
            decreases tokens@.len() - p,
        {
            if !self.lists_token(tokens, p) {
                proof {
                    lemma_position_of(tokens@, p as int);
                }
                return false;
            }
            p += 1;
        }
        proof {
            assert forall|owner: Seq<char>| #[trigger]
                self@.contains_key(owner) implies self@[owner].no_duplicates() by {
                let a = self.entries.keys().index_of(owner);
                self.entries.lemma_index_of_key(a);
            }
            assert forall|owner: Seq<char>, token_id: Seq<char>| #[trigger]
                lists(self@, owner, token_id) <==> (lookup(tokens@, token_id) matches Some(t)
                    && t.owner_id == owner) by {
                if lists(self@, owner, token_id) {
                    let a = self.entries.keys().index_of(owner);
                    self.entries.lemma_index_of_key(a);
                    let ids = self.entries.values()[a].deep_view();
                    let j = ids.index_of(token_id);
                    assert(ids[j] == token_id);
                }
                if lookup(tokens@, token_id) matches Some(t) && t.owner_id == owner {
                    lemma_lookup(tokens@, token_id);
                    let q = position_of(tokens@, token_id);
                    assert(lists(self@, tokens@[q].owner_id, tokens@[q].token_id));
                }
            }
        }
        true
    }
}

} // verus!
