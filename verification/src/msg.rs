//! The read requests the registry answers, the shapes of its answers, and the
//! failures a query can end in.
//!
//! Wire framing of these values (their binary or JSON encoding) is the
//! surrounding host's work; the registry takes and returns plain values.

use vstd::prelude::*;
use crate::state::Approval;

verus! {

/// A read request. `include_expired` defaults to `false` when absent;
/// `start_after` is an exclusive lower bound; `limit` is clamped by the
/// pagination engine.
pub enum QueryMsg {
    Minter {},
    ContractInfo {},
    BaseUri {},
    NumTokens {},
    NftInfo { token_id: String },
    OwnerOf { token_id: String, include_expired: Option<bool> },
    AllNftInfo { token_id: String, include_expired: Option<bool> },
    Approval { token_id: String, spender: String, include_expired: Option<bool> },
    Approvals { token_id: String, include_expired: Option<bool> },
    AllOperators {
        owner: String,
        include_expired: Option<bool>,
        start_after: Option<String>,
        limit: Option<u32>,
    },
    Tokens { owner: String, start_after: Option<String>, limit: Option<u32> },
    AllTokens { start_after: Option<String>, limit: Option<u32> },
}

/// How a query fails. Every failure is terminal for the one query that
/// produced it; the engine is read-only, so an identical retry is safe.
#[derive(Clone, Copy, PartialEq, Eq, Structural, Debug)]
pub enum QueryError {
    /// The item, approval or operator grant is absent, or excluded by the
    /// expiration filter.
    NotFound,
}

#[derive(Clone, Debug, PartialEq, Eq)]
pub struct ContractInfoResponse {
    pub name: String,
    pub symbol: String,
}

#[derive(Clone, Debug, PartialEq, Eq)]
pub struct MinterResponse {
    pub minter: String,
}

#[derive(Clone, Copy, PartialEq, Eq, Structural, Debug)]
pub struct NumTokensResponse {
    pub count: u64,
}

/// An item's externally visible locator and its opaque payload, borrowed from
/// the snapshot.
#[derive(Clone, Debug, PartialEq, Eq)]
pub struct NftInfoResponse<'a, T> {
    pub token_uri: Option<String>,
    pub extension: &'a T,
}

#[derive(Clone, Debug, PartialEq, Eq)]
pub struct OwnerOfResponse {
    pub owner: String,
    pub approvals: Vec<Approval>,
}

#[derive(Clone, Debug, PartialEq, Eq)]
pub struct AllNftInfoResponse<'a, T> {
    pub access: OwnerOfResponse,
    pub info: NftInfoResponse<'a, T>,
}

#[derive(Clone, Debug, PartialEq, Eq)]
pub struct ApprovalResponse {
    pub approval: Approval,
}

#[derive(Clone, Debug, PartialEq, Eq)]
pub struct ApprovalsResponse {
    pub approvals: Vec<Approval>,
}

#[derive(Clone, Debug, PartialEq, Eq)]
pub struct OperatorResponse {
    pub approval: Approval,
}

#[derive(Clone, Debug, PartialEq, Eq)]
pub struct OperatorsResponse {
    pub operators: Vec<Approval>,
}

#[derive(Clone, Debug, PartialEq, Eq)]
pub struct TokensResponse {
    pub tokens: Vec<String>,
}

/// One answer per request shape of [`QueryMsg`].
pub enum QueryAnswer<'a, T> {
    Minter(MinterResponse),
    ContractInfo(ContractInfoResponse),
    BaseUri(Option<String>),
    NumTokens(NumTokensResponse),
    NftInfo(NftInfoResponse<'a, T>),
    OwnerOf(OwnerOfResponse),
    AllNftInfo(AllNftInfoResponse<'a, T>),
    Approval(ApprovalResponse),
    Approvals(ApprovalsResponse),
    Operators(OperatorsResponse),
    Tokens(TokensResponse),
}

} // verus!
