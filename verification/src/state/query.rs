//! The registry's read surface.
//!
//! Every operation is a pure function of the snapshot, the block the query
//! runs at, and the request: it mutates nothing, and its contract pins the
//! answer, so repeating a query against an unchanged snapshot returns the
//! same answer. Absent items, absent grants, and grants excluded by the
//! expiration filter all surface as [`QueryError::NotFound`].

use vstd::prelude::*;
use vstd::string::{StrSliceExecFns, StringExecFns};
use crate::expiration::{spec_is_expired, BlockInfo};
use crate::msg::{
    AllNftInfoResponse, ApprovalResponse, ApprovalsResponse, ContractInfoResponse, MinterResponse,
    NftInfoResponse, NumTokensResponse, OperatorResponse, OperatorsResponse, OwnerOfResponse,
    QueryAnswer, QueryError, QueryMsg, TokensResponse,
};
use crate::order::{str_eq, str_lt};
use crate::pagination::{
    effective_limit, key_after, lemma_selected_concat, lemma_selected_first, lemma_selected_none,
    lemma_selected_push, selected, spec_effective_limit, take_page, view_opt,
};
use super::{
    find_grant, find_token, lemma_find_grant_at, lemma_find_token_at, Approval, Cw721Contract,
    OperatorGrant, TokenInfo,
};

verus! {

/// Admits an approval that has not expired, or any approval when expired
/// ones are asked for.
pub open spec fn approval_keep(block: BlockInfo, include_expired: bool) -> spec_fn(Approval) -> bool {
    |a: Approval| include_expired || !spec_is_expired(a.expires, block)
}

/// Each approval stands for itself in a filtered list.
pub open spec fn approval_self() -> spec_fn(Approval) -> Approval {
    |a: Approval| a
}

/// An item's approval list after the expiration filter.
pub open spec fn approvals_kept(s: Seq<Approval>, block: BlockInfo, include_expired: bool) -> Seq<
    Approval,
> {
    selected(s, approval_keep(block, include_expired), approval_self())
}

/// Admits the approvals of one spender that the expiration filter lets
/// through.
pub open spec fn approval_for(
    spender: Seq<char>,
    block: BlockInfo,
    include_expired: bool,
) -> spec_fn(Approval) -> bool {
    |a: Approval| a.spender@ == spender && (include_expired || !spec_is_expired(a.expires, block))
}

/// Admits an item of `owner` above the exclusive bound.
pub open spec fn token_page_pred<T>(owner: Seq<char>, after: Option<Seq<char>>) -> spec_fn(
    (String, TokenInfo<T>),
) -> bool {
    |e: (String, TokenInfo<T>)| e.1.owner@ == owner && key_after(e.0@, after)
}

/// Admits any item above the exclusive bound.
pub open spec fn all_page_pred<T>(after: Option<Seq<char>>) -> spec_fn(
    (String, TokenInfo<T>),
) -> bool {
    |e: (String, TokenInfo<T>)| key_after(e.0@, after)
}

/// A listed item contributes its identifier.
pub open spec fn token_id_of<T>() -> spec_fn((String, TokenInfo<T>)) -> String {
    |e: (String, TokenInfo<T>)| e.0
}

/// Admits a grant of `owner` above the exclusive bound that the expiration
/// filter lets through; filtering happens while walking, before the page
/// limit, so an excluded grant never consumes a page slot.
pub open spec fn operator_page_pred(
    owner: Seq<char>,
    after: Option<Seq<char>>,
    block: BlockInfo,
    include_expired: bool,
) -> spec_fn(OperatorGrant) -> bool {
    |g: OperatorGrant| g.owner@ == owner && key_after(g.operator@, after) && (include_expired
        || !spec_is_expired(g.expires, block))
}

/// A listed grant is reported as an approval of its operator.
pub open spec fn grant_approval() -> spec_fn(OperatorGrant) -> Approval {
    |g: OperatorGrant| Approval { spender: g.operator, expires: g.expires }
}

/// The page `Tokens(owner, start_after, limit)` answers with.
pub open spec fn spec_tokens_page<T>(
    st: Cw721Contract<T>,
    owner: Seq<char>,
    after: Option<Seq<char>>,
    limit: Option<u32>,
) -> Seq<String> {
    take_page(
        selected(st.spec_tokens(), token_page_pred(owner, after), token_id_of()),
        spec_effective_limit(limit),
    )
}

/// The page `AllTokens(start_after, limit)` answers with.
pub open spec fn spec_all_tokens_page<T>(
    st: Cw721Contract<T>,
    after: Option<Seq<char>>,
    limit: Option<u32>,
) -> Seq<String> {
    take_page(
        selected(st.spec_tokens(), all_page_pred(after), token_id_of()),
        spec_effective_limit(limit),
    )
}

/// The page `AllOperators(owner, …)` answers with.
pub open spec fn spec_operators_page<T>(
    st: Cw721Contract<T>,
    owner: Seq<char>,
    after: Option<Seq<char>>,
    block: BlockInfo,
    include_expired: bool,
    limit: Option<u32>,
) -> Seq<Approval> {
    take_page(
        selected(
            st.spec_operators(),
            operator_page_pred(owner, after, block, include_expired),
            grant_approval(),
        ),
        spec_effective_limit(limit),
    )
}

/// What a successful `NftInfo` answer holds: the item exists, its payload is
/// handed through untouched, and its locator is the committed base URI with
/// the identifier appended — the bare identifier under an absent base URI.
pub open spec fn nft_info_ok<'a, T>(
    st: Cw721Contract<T>,
    id: Seq<char>,
    resp: NftInfoResponse<'a, T>,
) -> bool {
    &&& find_token(st.spec_tokens(), id) is Some
    &&& *resp.extension == find_token(st.spec_tokens(), id)->0.extension
    &&& resp.token_uri is Some
    &&& resp.token_uri->0@ == st.spec_base_seq() + id
}

/// What a successful `OwnerOf` answer holds: the stored owner, and the
/// stored approvals after the expiration filter.
pub open spec fn owner_of_ok<T>(
    st: Cw721Contract<T>,
    block: BlockInfo,
    id: Seq<char>,
    include_expired: bool,
    resp: OwnerOfResponse,
) -> bool {
    &&& find_token(st.spec_tokens(), id) is Some
    &&& resp.owner == find_token(st.spec_tokens(), id)->0.owner
    &&& resp.approvals@ == approvals_kept(
        find_token(st.spec_tokens(), id)->0.approvals@,
        block,
        include_expired,
    )
}

/// How `Approval(token_id, spender, …)` answers: the first stored approval
/// of that spender the filter admits, `NotFound` when the item is absent or
/// no admitted approval remains.
pub open spec fn approval_post<T>(
    st: Cw721Contract<T>,
    block: BlockInfo,
    id: Seq<char>,
    spender: Seq<char>,
    include_expired: bool,
    r: Result<ApprovalResponse, QueryError>,
) -> bool {
    match find_token(st.spec_tokens(), id) {
        None => r == Result::<ApprovalResponse, QueryError>::Err(QueryError::NotFound),
        Some(t) => {
            let hits = selected(
                t.approvals@,
                approval_for(spender, block, include_expired),
                approval_self(),
            );
            if hits.len() > 0 {
                r matches Ok(resp) && resp.approval == hits[0]
            } else {
                r == Result::<ApprovalResponse, QueryError>::Err(QueryError::NotFound)
            }
        },
    }
}

/// How `Operator(owner, operator, …)` answers: the grant for the pair when
/// present and admitted by the filter — a grant expired at the queried block
/// counts as absent — else `NotFound`.
pub open spec fn operator_post<T>(
    st: Cw721Contract<T>,
    block: BlockInfo,
    owner: Seq<char>,
    operator: String,
    include_expired: bool,
    r: Result<OperatorResponse, QueryError>,
) -> bool {
    match find_grant(st.spec_operators(), owner, operator@) {
        Some(exp) => if include_expired || !spec_is_expired(exp, block) {
            r matches Ok(resp) && resp.approval == Approval { spender: operator, expires: exp }
        } else {
            r == Result::<OperatorResponse, QueryError>::Err(QueryError::NotFound)
        },
        None => r == Result::<OperatorResponse, QueryError>::Err(QueryError::NotFound),
    }
}

impl<T> Cw721Contract<T> {
    /// The collection's name and symbol.
    pub fn contract_info(&self) -> (r: ContractInfoResponse)
        ensures
            r.name == self.spec_name(),
            r.symbol == self.spec_symbol(),
    {
        ContractInfoResponse { name: self.name.clone(), symbol: self.symbol.clone() }
    }

    /// The minter account identifier.
    pub fn minter(&self) -> (r: MinterResponse)
        ensures
            r.minter == self.spec_minter(),
    {
        MinterResponse { minter: self.minter.clone() }
    }

    /// The committed base URI, absent when none was set.
    pub fn base_uri(&self) -> (r: Option<String>)
        ensures
            r == self.spec_base_uri(),
    {
        match &self.base_uri {
            Some(u) => Some(u.clone()),
            None => None,
        }
    }

    /// How many items the registry holds.
    pub fn num_tokens(&self) -> (r: NumTokensResponse)
        ensures
            r.count == self.spec_tokens().len(),
    {
        NumTokensResponse { count: self.tokens.len() as u64 }
    }

    /// The locator of item `token_id`: base URI with the identifier
    /// appended; an absent or empty base URI yields the bare identifier.
    fn locator(&self, token_id: &str) -> (r: String)
        ensures
            r@ == self.spec_base_seq() + token_id@,
    {
        let mut uri = match &self.base_uri {
            Some(u) => u.clone(),
            None => String::new(),
        };
        uri.append(token_id);
        uri
    }

    /// An item's locator and payload; `NotFound` when the item is absent.
    pub fn nft_info<'a>(&'a self, token_id: String) -> (r: Result<
        NftInfoResponse<'a, T>,
        QueryError,
    >)
        ensures
            match r {
                Ok(resp) => nft_info_ok(*self, token_id@, resp),
                Err(e) => {
                    &&& e == QueryError::NotFound
                    &&& find_token(self.spec_tokens(), token_id@) is None
                },
            },
    {
        match find_token_index(&self.tokens, token_id.as_str()) {
            None => Err(QueryError::NotFound),
            Some(i) => {
                let uri = self.locator(token_id.as_str());
                Ok(
                    NftInfoResponse {
                        token_uri: Some(uri),
                        extension: &self.tokens[i].1.extension,
                    },
                )
            },
        }
    }

    /// An item's owner and filtered approvals; `NotFound` when the item is
    /// absent.
    pub fn owner_of(&self, env: &BlockInfo, token_id: String, include_expired: bool) -> (r: Result<
        OwnerOfResponse,
        QueryError,
    >)
        ensures
            match r {
                Ok(resp) => owner_of_ok(*self, *env, token_id@, include_expired, resp),
                Err(e) => {
                    &&& e == QueryError::NotFound
                    &&& find_token(self.spec_tokens(), token_id@) is None
                },
            },
    {
        match find_token_index(&self.tokens, token_id.as_str()) {
            None => Err(QueryError::NotFound),
            Some(i) => {
                let info = &self.tokens[i].1;
                Ok(
                    OwnerOfResponse {
                        owner: info.owner.clone(),
                        approvals: humanize_approvals(env, info, include_expired),
                    },
                )
            },
        }
    }

    /// An item's owner, filtered approvals, locator and payload in one
    /// answer; `NotFound` when the item is absent.
    pub fn all_nft_info<'a>(
        &'a self,
        env: &BlockInfo,
        token_id: String,
        include_expired: bool,
    ) -> (r: Result<AllNftInfoResponse<'a, T>, QueryError>)
        ensures
            match r {
                Ok(resp) => {
                    &&& owner_of_ok(*self, *env, token_id@, include_expired, resp.access)
                    &&& nft_info_ok(*self, token_id@, resp.info)
                },
                Err(e) => {
                    &&& e == QueryError::NotFound
                    &&& find_token(self.spec_tokens(), token_id@) is None
                },
            },
    {
        match find_token_index(&self.tokens, token_id.as_str()) {
            None => Err(QueryError::NotFound),
            Some(i) => {
                let uri = self.locator(token_id.as_str());
                let info = &self.tokens[i].1;
                Ok(
                    AllNftInfoResponse {
                        access: OwnerOfResponse {
                            owner: info.owner.clone(),
                            approvals: humanize_approvals(env, info, include_expired),
                        },
                        info: NftInfoResponse {
                            token_uri: Some(uri),
                            extension: &info.extension,
                        },
                    },
                )
            },
        }
    }

    /// An item's whole filtered approval list; `NotFound` when the item is
    /// absent. An empty list is a valid answer.
    pub fn approvals(&self, env: &BlockInfo, token_id: String, include_expired: bool) -> (r: Result<
        ApprovalsResponse,
        QueryError,
    >)
        ensures
            match r {
                Ok(resp) => {
                    &&& find_token(self.spec_tokens(), token_id@) is Some
                    &&& resp.approvals@ == approvals_kept(
                        find_token(self.spec_tokens(), token_id@)->0.approvals@,
                        *env,
                        include_expired,
                    )
                },
                Err(e) => {
                    &&& e == QueryError::NotFound
                    &&& find_token(self.spec_tokens(), token_id@) is None
                },
            },
    {
        match find_token_index(&self.tokens, token_id.as_str()) {
            None => Err(QueryError::NotFound),
            Some(i) => Ok(
                ApprovalsResponse {
                    approvals: humanize_approvals(env, &self.tokens[i].1, include_expired),
                },
            ),
        }
    }

    /// The one approval of `spender` on an item that the filter admits;
    /// `NotFound` when the item is absent, the spender holds none, or the
    /// only match has expired and expired entries were not asked for. A
    /// stored list is not expected to repeat a spender; should it, the first
    /// match answers.
    #[verifier::loop_isolation(false)]
    pub fn approval(
        &self,
        env: &BlockInfo,
        token_id: String,
        spender: String,
        include_expired: bool,
    ) -> (r: Result<ApprovalResponse, QueryError>)
        ensures
            approval_post(*self, *env, token_id@, spender@, include_expired, r),
    {
        let ghost pred = approval_for(spender@, *env, include_expired);
        match find_token_index(&self.tokens, token_id.as_str()) {
            None => Err(QueryError::NotFound),
            Some(ti) => {
                let approvals = &self.tokens[ti].1.approvals;
                let n = approvals.len();
                let mut i: usize = 0;
                loop
                    invariant
                        i <= n,
                        n == approvals@.len(),
                        forall|j: int| 0 <= j < i ==> !pred(approvals@[j]),
                    decreases n - i,
                {
                    if i == n {
                        proof {
                            lemma_selected_none(approvals@, pred, approval_self());
                        }
                        return Err(QueryError::NotFound);
                    }
                    let a = &approvals[i];
                    if str_eq(a.spender.as_str(), spender.as_str()) && (include_expired
                        || !a.expires.is_expired(env)) {
                        proof {
                            lemma_selected_first(approvals@, pred, approval_self(), i as int);
                        }
                        return Ok(ApprovalResponse { approval: humanize_approval(a) });
                    }
                    i = i + 1;
                }
            },
        }
    }

    /// The grant making `operator` act for `owner` across all items, when
    /// present and admitted by the filter; a grant whose expiration equals
    /// the queried block's height or time is already expired.
    pub fn operator(
        &self,
        env: &BlockInfo,
        owner: String,
        operator: String,
        include_expired: bool,
    ) -> (r: Result<OperatorResponse, QueryError>)
        ensures
            operator_post(*self, *env, owner@, operator, include_expired, r),
    {
        match find_grant_index(&self.operators, owner.as_str(), operator.as_str()) {
            None => Err(QueryError::NotFound),
            Some(i) => {
                let expires = self.operators[i].expires;
                if !include_expired && expires.is_expired(env) {
                    return Err(QueryError::NotFound);
                }
                Ok(OperatorResponse { approval: Approval { spender: operator, expires } })
            },
        }
    }

    /// The grants of `owner`, ascending by operator, filtered before the
    /// page limit is applied.
    #[verifier::loop_isolation(false)]
    pub fn operators(
        &self,
        env: &BlockInfo,
        owner: String,
        include_expired: bool,
        start_after: Option<String>,
        limit: Option<u32>,
    ) -> (r: OperatorsResponse)
        ensures
            r.operators@ == spec_operators_page(
                *self,
                owner@,
                view_opt(start_after),
                *env,
                include_expired,
                limit,
            ),
    {
        let ghost pred = operator_page_pred(owner@, view_opt(start_after), *env, include_expired);
        let ghost f = grant_approval();
        let ghost s = self.operators@;
        let lim = effective_limit(limit) as usize;
        let n = self.operators.len();
        let mut out: Vec<Approval> = Vec::new();
        let mut i: usize = 0;
        loop
            invariant
                i <= n,
                n == s.len(),
                s == self.operators@,
                lim == spec_effective_limit(limit),
                out@ == selected(s.take(i as int), pred, f),
                out@.len() <= lim,
            decreases n - i,
        {
            if out.len() == lim || i == n {
                proof {
                    lemma_page_done(s, pred, f, i as int, lim as nat);
                }
                return OperatorsResponse { operators: out };
            }
            let g = &self.operators[i];
            proof {
                lemma_selected_push(s.take(i as int), s[i as int], pred, f);
                assert(s.take(i as int + 1) =~= s.take(i as int).push(s[i as int]));
            }
            let in_page = str_eq(g.owner.as_str(), owner.as_str()) && (match &start_after {
                Some(x) => str_lt(x.as_str(), g.operator.as_str()),
                None => true,
            }) && (include_expired || !g.expires.is_expired(env));
            if in_page {
                out.push(Approval { spender: g.operator.clone(), expires: g.expires });
            }
            i = i + 1;
        }
    }

    /// The items of `owner`, ascending by identifier, from the exclusive
    /// bound up to the page limit.
    #[verifier::loop_isolation(false)]
    pub fn tokens(&self, owner: String, start_after: Option<String>, limit: Option<u32>) -> (r:
        TokensResponse)
        ensures
            r.tokens@ == spec_tokens_page(*self, owner@, view_opt(start_after), limit),
    {
        let ghost pred = token_page_pred(owner@, view_opt(start_after));
        let ghost f = token_id_of::<T>();
        let ghost s = self.tokens@;
        let lim = effective_limit(limit) as usize;
        let n = self.tokens.len();
        let mut out: Vec<String> = Vec::new();
        let mut i: usize = 0;
        loop
            invariant
                i <= n,
                n == s.len(),
                s == self.tokens@,
                lim == spec_effective_limit(limit),
                out@ == selected(s.take(i as int), pred, f),
                out@.len() <= lim,
            decreases n - i,
        {
            if out.len() == lim || i == n {
                proof {
                    lemma_page_done(s, pred, f, i as int, lim as nat);
                }
                return TokensResponse { tokens: out };
            }
            let e = &self.tokens[i];
            proof {
                lemma_selected_push(s.take(i as int), s[i as int], pred, f);
                assert(s.take(i as int + 1) =~= s.take(i as int).push(s[i as int]));
            }
            let in_page = str_eq(e.1.owner.as_str(), owner.as_str()) && (match &start_after {
                Some(x) => str_lt(x.as_str(), e.0.as_str()),
                None => true,
            });
            if in_page {
                out.push(e.0.clone());
            }
            i = i + 1;
        }
    }

    /// All items, ascending by identifier, from the exclusive bound up to
    /// the page limit.
    #[verifier::loop_isolation(false)]
    pub fn all_tokens(&self, start_after: Option<String>, limit: Option<u32>) -> (r:
        TokensResponse)
        ensures
            r.tokens@ == spec_all_tokens_page(*self, view_opt(start_after), limit),
    {
        let ghost pred = all_page_pred::<T>(view_opt(start_after));
        let ghost f = token_id_of::<T>();
        let ghost s = self.tokens@;
        let lim = effective_limit(limit) as usize;
        let n = self.tokens.len();
        let mut out: Vec<String> = Vec::new();
        let mut i: usize = 0;
        loop
            invariant
                i <= n,
                n == s.len(),
                s == self.tokens@,
                lim == spec_effective_limit(limit),
                out@ == selected(s.take(i as int), pred, f),
                out@.len() <= lim,
            decreases n - i,
        {
            if out.len() == lim || i == n {
                proof {
                    lemma_page_done(s, pred, f, i as int, lim as nat);
                }
                return TokensResponse { tokens: out };
            }
            let e = &self.tokens[i];
            proof {
                lemma_selected_push(s.take(i as int), s[i as int], pred, f);
                assert(s.take(i as int + 1) =~= s.take(i as int).push(s[i as int]));
            }
            let in_page = match &start_after {
                Some(x) => str_lt(x.as_str(), e.0.as_str()),
                None => true,
            };
            if in_page {
                out.push(e.0.clone());
            }
            i = i + 1;
        }
    }
}

/// Reading an absent `include_expired` flag as `false`.
pub open spec fn spec_include_expired(flag: Option<bool>) -> bool {
    flag == Some(true)
}

/// What the one dispatch entry point answers for each request: the arm's
/// answer shape wrapping what the arm's own operation is bound to return.
pub open spec fn spec_query_post<'a, T>(
    st: Cw721Contract<T>,
    block: BlockInfo,
    msg: QueryMsg,
    r: Result<QueryAnswer<'a, T>, QueryError>,
) -> bool {
    match msg {
        QueryMsg::Minter {} => r matches Ok(QueryAnswer::Minter(m)) && m.minter
            == st.spec_minter(),
        QueryMsg::ContractInfo {} => r matches Ok(QueryAnswer::ContractInfo(c)) && c.name
            == st.spec_name() && c.symbol == st.spec_symbol(),
        QueryMsg::BaseUri {} => r matches Ok(QueryAnswer::BaseUri(b)) && b == st.spec_base_uri(),
        QueryMsg::NumTokens {} => r matches Ok(QueryAnswer::NumTokens(n)) && n.count
            == st.spec_tokens().len(),
        QueryMsg::NftInfo { token_id } => match r {
            Ok(a) => a matches QueryAnswer::NftInfo(resp) && nft_info_ok(st, token_id@, resp),
            Err(e) => e == QueryError::NotFound && find_token(st.spec_tokens(), token_id@)
                is None,
        },
        QueryMsg::OwnerOf { token_id, include_expired } => match r {
            Ok(a) => a matches QueryAnswer::OwnerOf(resp) && owner_of_ok(
                st,
                block,
                token_id@,
                spec_include_expired(include_expired),
                resp,
            ),
            Err(e) => e == QueryError::NotFound && find_token(st.spec_tokens(), token_id@)
                is None,
        },
        QueryMsg::AllNftInfo { token_id, include_expired } => match r {
            Ok(a) => a matches QueryAnswer::AllNftInfo(resp) && owner_of_ok(
                st,
                block,
                token_id@,
                spec_include_expired(include_expired),
                resp.access,
            ) && nft_info_ok(st, token_id@, resp.info),
            Err(e) => e == QueryError::NotFound && find_token(st.spec_tokens(), token_id@)
                is None,
        },
        QueryMsg::Approval { token_id, spender, include_expired } => match r {
            Ok(a) => a matches QueryAnswer::Approval(resp) && approval_post(
                st,
                block,
                token_id@,
                spender@,
                spec_include_expired(include_expired),
                Result::<ApprovalResponse, QueryError>::Ok(resp),
            ),
            Err(e) => approval_post(
                st,
                block,
                token_id@,
                spender@,
                spec_include_expired(include_expired),
                Result::<ApprovalResponse, QueryError>::Err(e),
            ),
        },
        QueryMsg::Approvals { token_id, include_expired } => match r {
            Ok(a) => a matches QueryAnswer::Approvals(resp) && find_token(
                st.spec_tokens(),
                token_id@,
            ) is Some && resp.approvals@ == approvals_kept(
                find_token(st.spec_tokens(), token_id@)->0.approvals@,
                block,
                spec_include_expired(include_expired),
            ),
            Err(e) => e == QueryError::NotFound && find_token(st.spec_tokens(), token_id@)
                is None,
        },
        QueryMsg::AllOperators { owner, include_expired, start_after, limit } => r matches Ok(
            QueryAnswer::Operators(resp),
        ) && resp.operators@ == spec_operators_page(
            st,
            owner@,
            view_opt(start_after),
            block,
            spec_include_expired(include_expired),
            limit,
        ),
        QueryMsg::Tokens { owner, start_after, limit } => r matches Ok(
            QueryAnswer::Tokens(resp),
        ) && resp.tokens@ == spec_tokens_page(st, owner@, view_opt(start_after), limit),
        QueryMsg::AllTokens { start_after, limit } => r matches Ok(QueryAnswer::Tokens(resp))
            && resp.tokens@ == spec_all_tokens_page(st, view_opt(start_after), limit),
    }
}

impl<T> Cw721Contract<T> {
    /// Route one read request to its operation. Deterministic: the contract
    /// binds the answer to the snapshot, the block and the request alone, so
    /// an identical query against an unchanged snapshot answers identically.
    pub fn query<'a>(&'a self, env: &BlockInfo, msg: QueryMsg) -> (r: Result<
        QueryAnswer<'a, T>,
        QueryError,
    >)
        ensures
            spec_query_post(*self, *env, msg, r),
    {
        match msg {
            QueryMsg::Minter {} => Ok(QueryAnswer::Minter(self.minter())),
            QueryMsg::ContractInfo {} => Ok(QueryAnswer::ContractInfo(self.contract_info())),
            QueryMsg::BaseUri {} => Ok(QueryAnswer::BaseUri(self.base_uri())),
            QueryMsg::NumTokens {} => Ok(QueryAnswer::NumTokens(self.num_tokens())),
            QueryMsg::NftInfo { token_id } => match self.nft_info(token_id) {
                Ok(resp) => Ok(QueryAnswer::NftInfo(resp)),
                Err(e) => Err(e),
            },
            QueryMsg::OwnerOf { token_id, include_expired } => match self.owner_of(
                env,
                token_id,
                unwrap_or_false(include_expired),
            ) {
                Ok(resp) => Ok(QueryAnswer::OwnerOf(resp)),
                Err(e) => Err(e),
            },
            QueryMsg::AllNftInfo { token_id, include_expired } => match self.all_nft_info(
                env,
                token_id,
                unwrap_or_false(include_expired),
            ) {
                Ok(resp) => Ok(QueryAnswer::AllNftInfo(resp)),
                Err(e) => Err(e),
            },
            QueryMsg::Approval { token_id, spender, include_expired } => match self.approval(
                env,
                token_id,
                spender,
                unwrap_or_false(include_expired),
            ) {
                Ok(resp) => Ok(QueryAnswer::Approval(resp)),
                Err(e) => Err(e),
            },
            QueryMsg::Approvals { token_id, include_expired } => match self.approvals(
                env,
                token_id,
                unwrap_or_false(include_expired),
            ) {
                Ok(resp) => Ok(QueryAnswer::Approvals(resp)),
                Err(e) => Err(e),
            },
            QueryMsg::AllOperators { owner, include_expired, start_after, limit } => Ok(
                QueryAnswer::Operators(
                    self.operators(
                        env,
                        owner,
                        unwrap_or_false(include_expired),
                        start_after,
                        limit,
                    ),
                ),
            ),
            QueryMsg::Tokens { owner, start_after, limit } => Ok(
                QueryAnswer::Tokens(self.tokens(owner, start_after, limit)),
            ),
            QueryMsg::AllTokens { start_after, limit } => Ok(
                QueryAnswer::Tokens(self.all_tokens(start_after, limit)),
            ),
        }
    }
}

/// An absent `include_expired` flag reads as `false`.
fn unwrap_or_false(flag: Option<bool>) -> (b: bool)
    ensures
        b == spec_include_expired(flag),
{
    match flag {
        Some(b) => b,
        None => false,
    }
}

/// A walk that saw `i` entries and holds a full page, or saw the whole
/// store, holds exactly the page of the whole store.
proof fn lemma_page_done<A, B>(
    s: Seq<A>,
    pred: spec_fn(A) -> bool,
    f: spec_fn(A) -> B,
    i: int,
    lim: nat,
)
    requires
        0 <= i <= s.len(),
        selected(s.take(i), pred, f).len() <= lim,
        selected(s.take(i), pred, f).len() == lim || i == s.len(),
    ensures
        take_page(selected(s, pred, f), lim) == selected(s.take(i), pred, f),
{
    lemma_selected_concat(s.take(i), s.skip(i), pred, f);
    assert(s.take(i) + s.skip(i) =~= s);
    let part = selected(s.take(i), pred, f);
    let whole = selected(s, pred, f);
    if i == s.len() && part.len() < lim {
        assert(s.take(i) =~= s);
        assert(take_page(whole, lim) == whole);
    } else {
        assert(part.len() == lim || whole == part);
        if part.len() == lim {
            assert(take_page(whole, lim) =~= part);
        } else {
            assert(take_page(whole, lim) =~= part);
        }
    }
}

/// The index holding identifier `token_id`, when the item store has it.
fn find_token_index<T>(tokens: &Vec<(String, TokenInfo<T>)>, token_id: &str) -> (r: Option<usize>)
    ensures
        match r {
            Some(i) => {
                &&& i < tokens@.len()
                &&& tokens@[i as int].0@ == token_id@
                &&& find_token(tokens@, token_id@) == Some(tokens@[i as int].1)
            },
            None => find_token(tokens@, token_id@) is None,
        },
{
    let n = tokens.len();
    let mut i: usize = 0;
    loop
        invariant
            i <= n,
            n == tokens@.len(),
            forall|j: int| 0 <= j < i ==> tokens@[j].0@ != token_id@,
        decreases n - i,
    {
        if i == n {
            proof {
                lemma_find_token_at(tokens@, token_id@, i as int);
            }
            return None;
        }
        if str_eq(tokens[i].0.as_str(), token_id) {
            proof {
                lemma_find_token_at(tokens@, token_id@, i as int);
            }
            return Some(i);
        }
        i = i + 1;
    }
}

/// The index holding the grant for (`owner`, `operator`), when the operator
/// index has it.
fn find_grant_index(grants: &Vec<OperatorGrant>, owner: &str, operator: &str) -> (r: Option<usize>)
    ensures
        match r {
            Some(i) => {
                &&& i < grants@.len()
                &&& grants@[i as int].owner@ == owner@
                &&& grants@[i as int].operator@ == operator@
                &&& find_grant(grants@, owner@, operator@) == Some(grants@[i as int].expires)
            },
            None => find_grant(grants@, owner@, operator@) is None,
        },
{
    let n = grants.len();
    let mut i: usize = 0;
    loop
        invariant
            i <= n,
            n == grants@.len(),
            forall|j: int|
                0 <= j < i ==> !(grants@[j].owner@ == owner@ && grants@[j].operator@ == operator@),
        decreases n - i,
    {
        if i == n {
            proof {
                lemma_find_grant_at(grants@, owner@, operator@, i as int);
            }
            return None;
        }
        let g = &grants[i];
        if str_eq(g.owner.as_str(), owner) && str_eq(g.operator.as_str(), operator) {
            proof {
                lemma_find_grant_at(grants@, owner@, operator@, i as int);
            }
            return Some(i);
        }
        i = i + 1;
    }
}

/// One filtered approval, reported as stored.
pub fn humanize_approval(a: &Approval) -> (r: Approval)
    ensures
        r == *a,
{
    Approval { spender: a.spender.clone(), expires: a.expires }
}

/// An item's approvals after the expiration filter, in stored order.
#[verifier::loop_isolation(false)]
pub fn humanize_approvals<T>(block: &BlockInfo, info: &TokenInfo<T>, include_expired: bool) -> (r:
    Vec<Approval>)
    ensures
        r@ == approvals_kept(info.approvals@, *block, include_expired),
{
    let ghost pred = approval_keep(*block, include_expired);
    let ghost f = approval_self();
    let n = info.approvals.len();
    let mut out: Vec<Approval> = Vec::new();
    let mut i: usize = 0;
    loop
        invariant
            i <= n,
            n == info.approvals@.len(),
            out@ == selected(info.approvals@.take(i as int), pred, f),
        decreases n - i,
    {
        if i == n {
            proof {
                assert(info.approvals@.take(i as int) =~= info.approvals@);
            }
            return out;
        }
        let a = &info.approvals[i];
        proof {
            lemma_selected_push(
                info.approvals@.take(i as int),
                info.approvals@[i as int],
                pred,
                f,
            );
            assert(info.approvals@.take(i as int + 1) =~= info.approvals@.take(
                i as int,
            ).push(info.approvals@[i as int]));
        }
        if include_expired || !a.expires.is_expired(block) {
            out.push(humanize_approval(a));
        }
        i = i + 1;
    }
}

} // verus!
