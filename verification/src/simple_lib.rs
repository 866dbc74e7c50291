//! A plain registry: tokens with a title, a description and a media
//! reference, minted against a minimum deposit, without prices or sales.
//!
//! As in the ledger, an identifier is minted once, and the owner index
//! mirrors the stored tokens at all times.

use crate::owner_index::{first_position, listed, lists, with_added, OwnerIndex};
use crate::seq_facts::lemma_push_fresh;
use crate::table::{all_distinct, map_of, Table};
use vstd::prelude::*;

verus! {

/// The smallest deposit that a mint accepts.
pub const MIN_MINT_DEPOSIT: u128 = 10000000000000000000000;

/// Why the registry refused a mint.
#[derive(Debug, Clone, Copy, PartialEq, Eq, Structural)]
pub enum MintError {
    /// Less than [`MIN_MINT_DEPOSIT`] was attached to the call.
    InsufficientDeposit,
    /// A token is stored under the identifier already.
    DuplicateId,
}

impl MintError {
    /// A sentence for the caller that says what went wrong.
    pub fn message(&self) -> (text: &'static str)
        ensures
            text@ == match *self {
                MintError::InsufficientDeposit => "Requires at least 0.01 NEAR to mint"@,
                MintError::DuplicateId => "Token with ID already exists"@,
            },
    {
        match self {
            MintError::InsufficientDeposit => "Requires at least 0.01 NEAR to mint",
            MintError::DuplicateId => "Token with ID already exists",
        }
    }
}

/// The three descriptive texts of a token, as sequences of characters.
pub struct MetadataText {
    pub title: Seq<char>,
    pub description: Seq<char>,
    pub media: Seq<char>,
}

/// Descriptive fields of a token, as the registry stores them.
#[derive(Debug, PartialEq, Eq)]
pub struct NFTMetadata {
    pub title: String,
    pub description: String,
    pub media: String,
}

impl View for NFTMetadata {
    type V = MetadataText;

    open spec fn view(&self) -> MetadataText {
        MetadataText { title: self.title@, description: self.description@, media: self.media@ }
    }
}

/// A token as the registry stores it under its identifier.
#[derive(Debug, PartialEq, Eq)]
pub struct NFT {
    pub owner_id: String,
    pub metadata: NFTMetadata,
}

/// What an [`NFT`] holds, as plain mathematical values.
pub struct NFTRecord {
    pub owner_id: Seq<char>,
    pub metadata: MetadataText,
}

impl View for NFT {
    type V = NFTRecord;

    open spec fn view(&self) -> NFTRecord {
        NFTRecord { owner_id: self.owner_id@, metadata: self.metadata@ }
    }
}

impl DeepView for NFT {
    type V = NFTRecord;

    open spec fn deep_view(&self) -> NFTRecord {
        self@
    }
}

/// Descriptive fields of a token, as the registry hands them out.
#[derive(Debug, PartialEq, Eq)]
pub struct NFTMetadataView {
    pub title: String,
    pub description: String,
    pub media: String,
}

impl View for NFTMetadataView {
    type V = MetadataText;

    open spec fn view(&self) -> MetadataText {
        MetadataText { title: self.title@, description: self.description@, media: self.media@ }
    }
}

/// A token as the registry hands it out: the stored token together with its
/// identifier.
#[derive(Debug, PartialEq, Eq)]
pub struct NFTView {
    pub token_id: String,
    pub owner_id: String,
    pub metadata: NFTMetadataView,
}

/// What an [`NFTView`] holds, as plain mathematical values.
pub struct NFTListing {
    pub token_id: Seq<char>,
    pub owner_id: Seq<char>,
    pub metadata: MetadataText,
}

impl View for NFTView {
    type V = NFTListing;

    open spec fn view(&self) -> NFTListing {
        NFTListing { token_id: self.token_id@, owner_id: self.owner_id@, metadata: self.metadata@ }
    }
}

impl DeepView for NFTView {
    type V = NFTListing;

    open spec fn deep_view(&self) -> NFTListing {
        self@
    }
}

/// `index` mirrors `nfts`: an account's entry lists an identifier if and only
/// if a token is stored under that identifier and that account owns it, and
/// no entry lists an identifier twice.
pub open spec fn mirrors_records(
    nfts: Map<Seq<char>, NFTRecord>,
    index: Map<Seq<char>, Seq<Seq<char>>>,
) -> bool {
    &&& forall|account: Seq<char>| #[trigger]
        index.contains_key(account) ==> index[account].no_duplicates()
    &&& forall|account: Seq<char>, token_id: Seq<char>| #[trigger]
        lists(index, account, token_id) <==> (nfts.contains_key(token_id)
            && nfts[token_id].owner_id == account)
}

/// The entry `ids` of `account` is in order with `nfts`: it lists nothing
/// twice, and only stored tokens that `account` owns.
pub open spec fn entry_matches(
    nfts: Map<Seq<char>, NFTRecord>,
    account: Seq<char>,
    ids: Seq<Seq<char>>,
) -> bool {
    &&& ids.no_duplicates()
    &&& forall|j: int|
        0 <= j < ids.len() ==> nfts.contains_key(#[trigger] ids[j]) && nfts[ids[j]].owner_id
            == account
}

/// The state of a registry.
#[verifier::ext_equal]
pub struct NFTContractView {
    /// The account that set the registry up.
    pub owner_id: Seq<char>,
    /// The token stored under each identifier.
    pub nfts: Map<Seq<char>, NFTRecord>,
    /// For each account with an entry, the identifiers listed for it.
    pub owner_to_token_ids: Map<Seq<char>, Seq<Seq<char>>>,
}

impl NFTContractView {
    /// The registry that `owner_id` has just set up.
    pub open spec fn empty(owner_id: Seq<char>) -> NFTContractView {
        NFTContractView { owner_id, nfts: Map::empty(), owner_to_token_ids: Map::empty() }
    }

    /// The token `token_id` as it is handed out, if the registry stores one.
    pub open spec fn listing(self, token_id: Seq<char>) -> Option<NFTListing> {
        if self.nfts.contains_key(token_id) {
            Some(
                NFTListing {
                    token_id,
                    owner_id: self.nfts[token_id].owner_id,
                    metadata: self.nfts[token_id].metadata,
                },
            )
        } else {
            None
        }
    }

    /// The identifiers listed for `account`.
    pub open spec fn owned_by(self, account: Seq<char>) -> Seq<Seq<char>> {
        listed(self.owner_to_token_ids, account)
    }

    /// The tokens listed for `account`, in the order of its entry.
    pub open spec fn listings_of(self, account: Seq<char>) -> Seq<NFTListing> {
        let ids = self.owned_by(account);
        Seq::new(ids.len(), |i: int| self.listing(ids[i]).unwrap())
    }

    /// What holds of a registry at all times: there are finitely many
    /// tokens, and the owner index mirrors them.
    pub open spec fn wf(self) -> bool {
        &&& self.nfts.dom().finite()
        &&& mirrors_records(self.nfts, self.owner_to_token_ids)
    }

    /// Why a mint of `token_id` with `attached` escrowed is refused, if it
    /// is. The deposit is tested first.
    pub open spec fn mint_refusal(self, token_id: Seq<char>, attached: u128) -> Option<MintError> {
        if attached < MIN_MINT_DEPOSIT {
            Some(MintError::InsufficientDeposit)
        } else if self.nfts.contains_key(token_id) {
            Some(MintError::DuplicateId)
        } else {
            None
        }
    }

    /// The registry after `token_id`, which was free, was minted for the
    /// owner of `nft`: the token is stored under the identifier, and the
    /// identifier stands last in the owner's entry.
    pub open spec fn minted(self, token_id: Seq<char>, nft: NFTRecord) -> NFTContractView {
        NFTContractView {
            nfts: self.nfts.insert(token_id, nft),
            owner_to_token_ids: with_added(self.owner_to_token_ids, nft.owner_id, token_id),
            ..self
        }
    }

    /// The registry after one call of mint. A call that is refused changes
    /// nothing.
    pub open spec fn after_mint(
        self,
        token_id: Seq<char>,
        nft: NFTRecord,
        attached: u128,
    ) -> NFTContractView {
        if self.mint_refusal(token_id, attached) is None {
            self.minted(token_id, nft)
        } else {
            self
        }
    }

    /// The registry after the calls of mint `mints`, made in this order;
    /// each is an identifier, the token to store and the deposit attached.
    pub open spec fn after(self, mints: Seq<(Seq<char>, NFTRecord, u128)>) -> NFTContractView
        decreases mints.len(),
    {
        if mints.len() == 0 {
            self
        } else {
            let last = mints.last();
            self.after(mints.drop_last()).after_mint(last.0, last.1, last.2)
        }
    }
}

/// A mint that is not refused leaves the registry well-formed.
pub proof fn lemma_minted_wf(s: NFTContractView, token_id: Seq<char>, nft: NFTRecord)
    requires
        s.wf(),
        !s.nfts.contains_key(token_id),
    ensures
        s.minted(token_id, nft).wf(),
{
    let after = s.minted(token_id, nft);
    let owner = nft.owner_id;
    let index = s.owner_to_token_ids;
    let grown = after.owner_to_token_ids;
    assert(!lists(index, owner, token_id));
    assert(index.contains_key(owner) ==> index[owner].no_duplicates());
    lemma_push_fresh(s.owned_by(owner), token_id);
    assert forall|account: Seq<char>| #[trigger]
        grown.contains_key(account) implies grown[account].no_duplicates() by {
        if account != owner {
            assert(index.contains_key(account));
        }
    }
    assert forall|account: Seq<char>, id: Seq<char>| #[trigger]
        lists(grown, account, id) <==> (after.nfts.contains_key(id) && after.nfts[id].owner_id
            == account) by {
        assert(lists(index, account, id) <==> (s.nfts.contains_key(id) && s.nfts[id].owner_id
            == account));
        if account != owner {
            assert(after.owned_by(account) == s.owned_by(account));
        }
    }
}

/// One call of mint, refused or not, leaves a well-formed registry
/// well-formed.
pub proof fn lemma_after_mint_wf(
    s: NFTContractView,
    token_id: Seq<char>,
    nft: NFTRecord,
    attached: u128,
)
    requires
        s.wf(),
    ensures
        s.after_mint(token_id, nft, attached).wf(),
{
    if s.mint_refusal(token_id, attached) is None {
        lemma_minted_wf(s, token_id, nft);
    }
}

/// After any sequence of calls of mint on a registry that started empty,
/// the registry is well-formed. As every prefix of a sequence of calls is
/// one too, this holds at every point of every history.
pub proof fn lemma_every_history_wf(owner_id: Seq<char>, mints: Seq<(Seq<char>, NFTRecord, u128)>)
    ensures
        NFTContractView::empty(owner_id).after(mints).wf(),
    decreases mints.len(),
{
    let start = NFTContractView::empty(owner_id);
    if mints.len() == 0 {
        assert forall|account: Seq<char>, id: Seq<char>| #[trigger]
            lists(start.owner_to_token_ids, account, id) <==> (start.nfts.contains_key(id)
                && start.nfts[id].owner_id == account) by {}
    } else {
        let last = mints.last();
        lemma_every_history_wf(owner_id, mints.drop_last());
        lemma_after_mint_wf(start.after(mints.drop_last()), last.0, last.1, last.2);
    }
}

/// In a well-formed registry every stored token is listed in the entry of
/// its owner, once, and in the entry of no other account.
pub proof fn lemma_token_listed_once(s: NFTContractView, token_id: Seq<char>)
    requires
        s.wf(),
        s.nfts.contains_key(token_id),
    ensures
        s.owner_to_token_ids.contains_key(s.nfts[token_id].owner_id),
        s.owner_to_token_ids[s.nfts[token_id].owner_id].contains(token_id),
        s.owner_to_token_ids[s.nfts[token_id].owner_id].no_duplicates(),
        forall|account: Seq<char>|
            s.owner_to_token_ids.contains_key(account)
                && #[trigger] s.owner_to_token_ids[account].contains(token_id) ==> account
                == s.nfts[token_id].owner_id,
{
    let owner = s.nfts[token_id].owner_id;
    let index = s.owner_to_token_ids;
    assert(lists(index, owner, token_id));
    assert forall|account: Seq<char>|
        index.contains_key(account) && #[trigger] index[account].contains(
            token_id,
        ) implies account == owner by {
        assert(lists(index, account, token_id));
    }
}

/// Once an identifier was minted, minting it again is refused, as a
/// duplicate where the deposit suffices, and changes nothing, whatever else
/// the second call gives.
pub proof fn lemma_second_mint_refused(
    s: NFTContractView,
    token_id: Seq<char>,
    first: NFTRecord,
    first_attached: u128,
    second: NFTRecord,
    second_attached: u128,
)
    requires
        first_attached >= MIN_MINT_DEPOSIT,
    ensures
        ({
            let once = s.after_mint(token_id, first, first_attached);
            &&& once.nfts.contains_key(token_id)
            &&& once.mint_refusal(token_id, second_attached) == Some(
                if second_attached < MIN_MINT_DEPOSIT {
                    MintError::InsufficientDeposit
                } else {
                    MintError::DuplicateId
                },
            )
            &&& once.after_mint(token_id, second, second_attached) == once
        }),
{
}

/// Everything that a registry holds, as plain values. The identifiers and
/// their tokens stand position by position in two vectors, and so do the
/// accounts of the owner index and their entries.
#[derive(Debug, PartialEq, Eq)]
pub struct RegistrySnapshot {
    pub owner_id: String,
    pub token_ids: Vec<String>,
    pub nfts: Vec<NFT>,
    pub owner_accounts: Vec<String>,
    pub owner_entries: Vec<Vec<String>>,
}

impl RegistrySnapshot {
    /// The state that the snapshot describes.
    pub open spec fn registry(&self) -> NFTContractView {
        NFTContractView {
            owner_id: self.owner_id@,
            nfts: map_of(self.token_ids.deep_view(), self.nfts.deep_view()),
            owner_to_token_ids: map_of(
                self.owner_accounts.deep_view(),
                self.owner_entries.deep_view(),
            ),
        }
    }

    /// The snapshot describes a well-formed registry: each identifier has
    /// one token, each account one entry at most, and the state is
    /// well-formed.
    pub open spec fn valid(&self) -> bool {
        &&& self.token_ids.len() == self.nfts.len()
        &&& self.token_ids.deep_view().no_duplicates()
        &&& self.owner_accounts.len() == self.owner_entries.len()
        &&& self.owner_accounts.deep_view().no_duplicates()
        &&& self.registry().wf()
    }
}

/// The tokens of `nfts`, as a map from identifiers to records.
pub open spec fn records(nfts: &Table<NFT>) -> Map<Seq<char>, NFTRecord> {
    nfts.as_map().map_values(|nft: NFT| nft@)
}

/// Whether the entry `ids` of `account` is in order with `nfts`.
fn entry_in_order(nfts: &Table<NFT>, account: &String, ids: &Vec<String>) -> (ok: bool)
    requires
        nfts.wf(),
    ensures
        ok == entry_matches(records(nfts), account@, ids.deep_view()),
{
    if !all_distinct(ids) {
        return false;
    }
    let mut j: usize = 0;
    while j < ids.len()
        invariant
            nfts.wf(),
            j <= ids.len(),
            forall|k: int|
                0 <= k < j ==> records(nfts).contains_key(#[trigger] ids.deep_view()[k])
                    && records(nfts)[ids.deep_view()[k]].owner_id == account@,
        decreases ids.len() - j,
    {
        assert(ids.deep_view()[j as int] == ids[j as int]@);
        match nfts.find(&ids[j]) {
            Some(p) => {
                proof {
                    nfts.lemma_index_of_key(p as int);
                }
                if !(nfts.value_at(p).owner_id == *account) {
                    return false;
                }
            },
            None => {
                return false;
            },
        }
        j += 1;
    }
    true
}

/// The registry.
pub struct NFTContract {
    owner_id: String,
    nfts: Table<NFT>,
    owner_to_token_ids: OwnerIndex,
}

impl View for NFTContract {
    type V = NFTContractView;

    closed spec fn view(&self) -> NFTContractView {
        NFTContractView {
            owner_id: self.owner_id@,
            nfts: records(&self.nfts),
            owner_to_token_ids: self.owner_to_token_ids@,
        }
    }
}

impl NFTContract {
    /// No identifier is stored twice and no account has two entries.
    pub closed spec fn one_entry_each(&self) -> bool {
        &&& self.nfts.wf()
        &&& self.owner_to_token_ids.wf()
    }

    /// The registry is well-formed.
    pub open spec fn wf(&self) -> bool {
        &&& self.one_entry_each()
        &&& self@.wf()
    }

    /// Sets up an empty registry for `owner_id`.
    pub fn new(owner_id: String) -> (contract: Self)
        ensures
            contract.wf(),
            contract@ == NFTContractView::empty(owner_id@),
    {
        let contract = NFTContract {
            owner_id,
            nfts: Table::new(),
            owner_to_token_ids: OwnerIndex::new(),
        };
        assert(contract@.nfts =~= Map::<Seq<char>, NFTRecord>::empty());
        contract
    }

    /// The registry that `snapshot` describes, or `None` if the snapshot is
    /// not valid.
    pub fn restore(snapshot: RegistrySnapshot) -> (res: Option<Self>)
        ensures
            match res {
                Some(contract) => {
                    &&& snapshot.valid()
                    &&& contract.wf()
                    &&& contract@ == snapshot.registry()
                },
                None => !snapshot.valid(),
            },
    {
        let nfts = match Table::from_parts(snapshot.token_ids, snapshot.nfts) {
            Some(table) => table,
            None => {
                return None;
            },
        };
        if snapshot.owner_accounts.len() != snapshot.owner_entries.len() || !all_distinct(
            &snapshot.owner_accounts,
        ) {
            return None;
        }
        let ghost accounts = snapshot.owner_accounts.deep_view();
        let ghost entries = snapshot.owner_entries.deep_view();
        let ghost described = snapshot.registry();
        assert(records(&nfts) =~= described.nfts);
        let mut a: usize = 0;
        while a < snapshot.owner_entries.len()
            invariant
                nfts.wf(),
                a <= snapshot.owner_entries.len(),
                accounts == snapshot.owner_accounts.deep_view(),
                entries == snapshot.owner_entries.deep_view(),
                accounts.len() == entries.len(),
                accounts.no_duplicates(),
                described == snapshot.registry(),
                records(&nfts) == described.nfts,
                forall|b: int|
                    0 <= b < a ==> entry_matches(
                        described.nfts,
                        accounts[b],
                        #[trigger] entries[b],
                    ),
            decreases snapshot.owner_entries.len() - a,
        {
            assert(entries[a as int] == snapshot.owner_entries[a as int].deep_view());
            assert(accounts[a as int] == snapshot.owner_accounts[a as int]@);
            if !entry_in_order(&nfts, &snapshot.owner_accounts[a], &snapshot.owner_entries[a]) {
                proof {
                    let account = accounts[a as int];
                    let ids = entries[a as int];
                    assert(accounts.index_of(account) == a);
                    assert(described.owner_to_token_ids.contains_key(account));
                    assert(described.owner_to_token_ids[account] == ids);
                    if described.wf() {
                        assert forall|j: int|
                            0 <= j < ids.len() implies described.nfts.contains_key(
                            #[trigger] ids[j],
                        ) && described.nfts[ids[j]].owner_id == account by {
                            assert(lists(described.owner_to_token_ids, account, ids[j]));
                        }
                    }
                }
                return None;
            }
            a += 1;
        }
        let owner_to_token_ids = match OwnerIndex::from_parts(
            snapshot.owner_accounts,
            snapshot.owner_entries,
        ) {
            Some(index) => index,
            None => {
                return None;
            },
        };
        let mut p: usize = 0;
        while p < nfts.len()
            invariant
                nfts.wf(),
                owner_to_token_ids.wf(),
                owner_to_token_ids@ == described.owner_to_token_ids,
                records(&nfts) == described.nfts,
                described == snapshot.registry(),
                p <= nfts.keys().len(),
                forall|q: int|
                    0 <= q < p ==> lists(
                        described.owner_to_token_ids,
                        nfts.values()[q]@.owner_id,
                        #[trigger] nfts.keys()[q],
                    ),
            decreases nfts.keys().len() - p,
        {
            proof {
                nfts.lemma_index_of_key(p as int);
            }
            let ids = owner_to_token_ids.list(&nfts.value_at(p).owner_id);
            if first_position(&ids, nfts.key_at(p)).is_none() {
                proof {
                    let id = nfts.keys()[p as int];
                    let owner = nfts.values()[p as int]@.owner_id;
                    assert(described.nfts.contains_key(id));
                    assert(described.nfts[id].owner_id == owner);
                    assert(!lists(described.owner_to_token_ids, owner, id));
                }
                return None;
            }
            p += 1;
        }
        let contract = NFTContract { owner_id: snapshot.owner_id, nfts, owner_to_token_ids };
        proof {
            contract.nfts.lemma_size();
            assert(contract@.nfts.dom() =~= contract.nfts.as_map().dom());
            let index = described.owner_to_token_ids;
            assert forall|account: Seq<char>| #[trigger]
                index.contains_key(account) implies index[account].no_duplicates() by {
                let b = accounts.index_of(account);
                assert(index[account] == entries[b]);
            }
            assert forall|account: Seq<char>, id: Seq<char>| #[trigger]
                lists(index, account, id) <==> (described.nfts.contains_key(id)
                    && described.nfts[id].owner_id == account) by {
                if lists(index, account, id) {
                    let b = accounts.index_of(account);
                    assert(index[account] == entries[b]);
                    let j = entries[b].index_of(id);
                    assert(entries[b][j] == id);
                }
                if described.nfts.contains_key(id) && described.nfts[id].owner_id == account {
                    let q = contract.nfts.keys().index_of(id);
                    contract.nfts.lemma_index_of_key(q);
                }
            }
        }
        Some(contract)
    }

    /// Everything that the registry holds, as plain values. Restoring the
    /// snapshot gives a registry in the same state.
    pub fn into_snapshot(self) -> (snapshot: RegistrySnapshot)
        requires
            self.wf(),
        ensures
            snapshot.valid(),
            snapshot.registry() == self@,
    {
        let nfts = self.nfts.into_parts();
        let owners = self.owner_to_token_ids.into_parts();
        let snapshot = RegistrySnapshot {
            owner_id: self.owner_id,
            token_ids: nfts.0,
            nfts: nfts.1,
            owner_accounts: owners.0,
            owner_entries: owners.1,
        };
        assert(snapshot.registry().nfts =~= self@.nfts);
        proof {
            self.nfts.lemma_size();
        }
        snapshot
    }

    /// The account that set the registry up.
    pub fn owner_id(&self) -> (owner_id: &String)
        ensures
            owner_id@ == self@.owner_id,
    {
        &self.owner_id
    }

    /// Stores a token under `token_id` for `receiver_id`. Fails with
    /// `InsufficientDeposit` if less than [`MIN_MINT_DEPOSIT`] was attached
    /// to the call, and otherwise with `DuplicateId` if a token is stored
    /// under the identifier already; a call that fails changes nothing.
    pub fn nft_mint(
        &mut self,
        token_id: String,
        receiver_id: String,
        title: String,
        description: String,
        media: String,
        attached_deposit: u128,
    ) -> (res: Result<(), MintError>)
        requires
            old(self).wf(),
        ensures
            final(self).wf(),
            final(self)@ == old(self)@.after_mint(
                token_id@,
                NFTRecord {
                    owner_id: receiver_id@,
                    metadata: MetadataText {
                        title: title@,
                        description: description@,
                        media: media@,
                    },
                },
                attached_deposit,
            ),
            match res {
                Ok(_) => {
                    &&& attached_deposit >= MIN_MINT_DEPOSIT
                    &&& !old(self)@.nfts.contains_key(token_id@)
                    &&& final(self)@ == old(self)@.minted(
                        token_id@,
                        NFTRecord {
                            owner_id: receiver_id@,
                            metadata: MetadataText {
                                title: title@,
                                description: description@,
                                media: media@,
                            },
                        },
                    )
                },
                Err(e) => {
                    &&& *final(self) == *old(self)
                    &&& attached_deposit < MIN_MINT_DEPOSIT ==> e == MintError::InsufficientDeposit
                    &&& attached_deposit >= MIN_MINT_DEPOSIT ==> e == MintError::DuplicateId
                        && old(self)@.nfts.contains_key(token_id@)
                },
            },
    {
        if attached_deposit < MIN_MINT_DEPOSIT {
            return Err(MintError::InsufficientDeposit);
        }
        if self.nfts.find(&token_id).is_some() {
            return Err(MintError::DuplicateId);
        }
        let nft = NFT {
            owner_id: receiver_id.clone(),
            metadata: NFTMetadata { title, description, media },
        };
        proof {
            lemma_minted_wf(self@, token_id@, nft@);
            self.nfts.lemma_size();
        }
        let id = token_id.clone();
        self.nfts.append(token_id, nft);
        self.owner_to_token_ids.add(receiver_id, id);
        proof {
            assert(self@.nfts =~= old(self)@.nfts.insert(id@, nft@));
        }
        Ok(())
    }

    /// The token stored under `token_id`, with its identifier, or `None` if
    /// there is none.
    pub fn nft_token(&self, token_id: String) -> (res: Option<NFTView>)
        requires
            self.wf(),
        ensures
            res.deep_view() == self@.listing(token_id@),
    {
        match self.nfts.find(&token_id) {
            Some(i) => {
                proof {
                    self.nfts.lemma_index_of_key(i as int);
                }
                let nft = self.nfts.value_at(i);
                Some(
                    NFTView {
                        token_id,
                        owner_id: nft.owner_id.clone(),
                        metadata: NFTMetadataView {
                            title: nft.metadata.title.clone(),
                            description: nft.metadata.description.clone(),
                            media: nft.metadata.media.clone(),
                        },
                    },
                )
            },
            None => None,
        }
    }

    /// The tokens that `account_id` owns, in the order in which they were
    /// minted for it.
    pub fn nft_tokens_for_owner(&self, account_id: String) -> (tokens: Vec<NFTView>)
        requires
            self.wf(),
        ensures
            tokens.deep_view() == self@.listings_of(account_id@),
            forall|i: int|
                0 <= i < tokens.len() ==> (#[trigger] tokens.deep_view()[i]).owner_id
                    == account_id@,
    {
        let ids = self.owner_to_token_ids.list(&account_id);
        let mut tokens: Vec<NFTView> = Vec::new();
        let mut i: usize = 0;
        while i < ids.len()
            invariant
                self.wf(),
                i <= ids.len(),
                ids.deep_view() == self@.owned_by(account_id@),
                tokens.deep_view() == self@.listings_of(account_id@).subrange(0, i as int),
            decreases ids.len() - i,
        {
            let ghost before = tokens.deep_view();
            proof {
                assert(ids.deep_view()[i as int] == ids[i as int]@);
                assert(lists(self@.owner_to_token_ids, account_id@, ids[i as int]@));
            }
            match self.nft_token(ids[i].clone()) {
                Some(token) => {
                    tokens.push(token);
                },
                None => {},
            }
            assert(tokens.deep_view() =~= before.push(self@.listings_of(account_id@)[i as int]));
            i += 1;
            assert(tokens.deep_view() =~= self@.listings_of(account_id@).subrange(0, i as int));
        }
        proof {
            let all = self@.listings_of(account_id@);
            assert(all.subrange(0, i as int) =~= all);
            assert forall|k: int| 0 <= k < tokens.len() implies (#[trigger] tokens.deep_view()[
                k
            ]).owner_id == account_id@ by {
                assert(lists(
                    self@.owner_to_token_ids,
                    account_id@,
                    self@.owned_by(account_id@)[k],
                ));
            }
        }
        tokens
    }

    /// The number of tokens.
    pub fn nft_total_supply(&self) -> (supply: u64)
        requires
            self.wf(),
        ensures
            supply == self@.nfts.dom().len(),
    {
        proof {
            self.nfts.lemma_size();
            assert(self@.nfts.dom() =~= self.nfts.as_map().dom());
        }
        self.nfts.len() as u64
    }
}

} // verus!
