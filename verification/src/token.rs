//! Token records and their mathematical views.

use vstd::prelude::*;

verus! {

/// Copies an optional string.
pub fn clone_optional_string(s: &Option<String>) -> (res: Option<String>)
    ensures
        res == *s,
{
    match s {
        Some(text) => Some(text.clone()),
        None => None,
    }
}

/// Descriptive fields of a token. Each is optional and uninterpreted.
#[derive(Debug, PartialEq, Eq)]
pub struct TokenMetadata {
    pub title: Option<String>,
    pub description: Option<String>,
    pub media: Option<String>,
}

/// What a [`TokenMetadata`] holds, as sequences of characters.
pub struct TokenMetadataView {
    pub title: Option<Seq<char>>,
    pub description: Option<Seq<char>>,
    pub media: Option<Seq<char>>,
}

impl View for TokenMetadata {
    type V = TokenMetadataView;

    open spec fn view(&self) -> TokenMetadataView {
        TokenMetadataView {
            title: self.title.deep_view(),
            description: self.description.deep_view(),
            media: self.media.deep_view(),
        }
    }
}

impl Clone for TokenMetadata {
    fn clone(&self) -> (res: Self)
        ensures
            res == *self,
    {
        TokenMetadata {
            title: clone_optional_string(&self.title),
            description: clone_optional_string(&self.description),
            media: clone_optional_string(&self.media),
        }
    }
}

/// A uniquely identified asset: who owns it, how it is described and what it
/// costs, in the smallest unit of value.
#[derive(Debug, PartialEq, Eq)]
pub struct Token {
    pub token_id: String,
    pub owner_id: String,
    pub metadata: TokenMetadata,
    pub price: u128,
}

/// What a [`Token`] holds, as plain mathematical values.
pub struct TokenView {
    pub token_id: Seq<char>,
    pub owner_id: Seq<char>,
    pub metadata: TokenMetadataView,
    pub price: u128,
}

impl View for Token {
    type V = TokenView;

    open spec fn view(&self) -> TokenView {
        TokenView {
            token_id: self.token_id@,
            owner_id: self.owner_id@,
            metadata: self.metadata@,
            price: self.price,
        }
    }
}

impl DeepView for Token {
    type V = TokenView;

    open spec fn deep_view(&self) -> TokenView {
        self@
    }
}

impl Clone for Token {
    fn clone(&self) -> (res: Self)
        ensures
            res == *self,
    {
        Token {
            token_id: self.token_id.clone(),
            owner_id: self.owner_id.clone(),
            metadata: self.metadata.clone(),
            price: self.price,
        }
    }
}

} // verus!
