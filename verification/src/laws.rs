//! The guarantees a client may lean on across calls, stated and proved over
//! the same spec functions the query contracts use.
//!
//! The pagination laws are stated over any sorted item store, which is what
//! the snapshot's invariant gives every reachable [`crate::state::Cw721Contract`].

use vstd::prelude::*;
use crate::order::{lemma_lex_lt_irreflexive, lemma_lex_lt_transitive, lex_lt};
use crate::pagination::{
    lemma_selected_complete, lemma_selected_witness, selected, spec_effective_limit, take_page,
    DEFAULT_LIMIT, MAX_LIMIT,
};
use crate::expiration::BlockInfo;
use crate::msg::{NftInfoResponse, QueryAnswer, QueryError, QueryMsg};
use crate::state::{
    find_token, grant_lt, grants_sorted, tokens_sorted, Approval, Cw721Contract, OperatorGrant,
    TokenInfo,
};
use crate::state::query::{
    grant_approval, operator_page_pred, spec_query_post, token_id_of, token_page_pred,
};

verus! {

/// The effective page limit is the requested one clamped to [`MAX_LIMIT`],
/// and an absent request reads as [`DEFAULT_LIMIT`].
pub proof fn lemma_effective_limit(limit: Option<u32>)
    ensures
        limit is Some ==> spec_effective_limit(limit) == if limit->0 < MAX_LIMIT {
            limit->0 as nat
        } else {
            MAX_LIMIT as nat
        },
        limit is None ==> spec_effective_limit(limit) == DEFAULT_LIMIT as nat,
{
}

/// The identifiers a selection draws from a sorted item store are strictly
/// ascending: every page is ascending and free of duplicates.
pub proof fn lemma_selected_ids_sorted<T>(
    s: Seq<(String, TokenInfo<T>)>,
    pred: spec_fn((String, TokenInfo<T>)) -> bool,
)
    requires
        tokens_sorted(s),
    ensures
        forall|i: int, j: int|
            0 <= i < j < selected(s, pred, token_id_of::<T>()).len() ==> lex_lt(
                selected(s, pred, token_id_of::<T>())[i]@,
                selected(s, pred, token_id_of::<T>())[j]@,
            ),
    decreases s.len(),
{
    let f = token_id_of::<T>();
    let sel = selected(s, pred, f);
    if s.len() > 0 {
        let init = selected(s.drop_last(), pred, f);
        assert(tokens_sorted(s.drop_last()));
        lemma_selected_ids_sorted(s.drop_last(), pred);
        if pred(s.last()) {
            assert forall|i: int| 0 <= i < init.len() implies lex_lt(init[i]@, s.last().0@) by {
                lemma_selected_witness(s.drop_last(), pred, f, i);
                let j = choose|j: int|
                    0 <= j < s.drop_last().len() && pred(s.drop_last()[j]) && init[i] == f(
                        s.drop_last()[j],
                    );
                assert(lex_lt(s[j].0@, s.last().0@));
            }
        }
        assert forall|i: int, j: int| 0 <= i < j < sel.len() implies lex_lt(
            sel[i]@,
            sel[j]@,
        ) by {
            if j < init.len() {
            } else {
                assert(sel[j] == f(s.last()));
            }
        }
    }
}

/// The exclusive bound: a page for bound `after` never contains `after`
/// itself — every returned identifier lies strictly above it — and a
/// non-empty page starts at the smallest identifier of the owner above the
/// bound.
pub proof fn lemma_after_exclusive<T>(
    s: Seq<(String, TokenInfo<T>)>,
    owner: Seq<char>,
    after: Seq<char>,
    limit: Option<u32>,
)
    requires
        tokens_sorted(s),
    ensures
        forall|k: int|
            0 <= k < spec_page(s, owner, Some(after), limit).len() ==> lex_lt(
                after,
                #[trigger] spec_page(s, owner, Some(after), limit)[k]@,
            ),
        spec_page(s, owner, Some(after), limit).len() > 0 ==> forall|j: int|
            0 <= j < s.len() && (#[trigger] s[j]).1.owner@ == owner && lex_lt(after, s[j].0@)
                ==> !lex_lt(s[j].0@, spec_page(s, owner, Some(after), limit)[0]@),
{
    let pred = token_page_pred::<T>(owner, Some(after));
    let f = token_id_of::<T>();
    let sel = selected(s, pred, f);
    let page = spec_page(s, owner, Some(after), limit);
    lemma_selected_ids_sorted(s, pred);
    assert forall|k: int| 0 <= k < page.len() implies lex_lt(after, page[k]@) by {
        assert(page[k] == sel[k]);
        lemma_selected_witness(s, pred, f, k);
    }
    if page.len() > 0 {
        assert forall|j: int|
            0 <= j < s.len() && (#[trigger] s[j]).1.owner@ == owner && lex_lt(after, s[j].0@)
                implies !lex_lt(s[j].0@, page[0]@) by {
            lemma_selected_complete(s, pred, f, j);
            let k = choose|k: int| 0 <= k < sel.len() && sel[k] == f(s[j]);
            assert(page[0] == sel[0]);
            if lex_lt(s[j].0@, page[0]@) {
                if k == 0 {
                    lemma_lex_lt_irreflexive(sel[0]@);
                } else {
                    lemma_lex_lt_transitive(sel[0]@, sel[k]@, sel[0]@);
                    lemma_lex_lt_irreflexive(sel[0]@);
                }
            }
        }
    }
}

/// The spenders a grant selection draws from a sorted operator index, for
/// one owner, are strictly ascending: operator pages are ascending and free
/// of duplicates.
pub proof fn lemma_selected_spenders_sorted(
    s: Seq<OperatorGrant>,
    owner: Seq<char>,
    after: Option<Seq<char>>,
    block: BlockInfo,
    include_expired: bool,
)
    requires
        grants_sorted(s),
    ensures
        forall|i: int, j: int|
            0 <= i < j < selected(
                s,
                operator_page_pred(owner, after, block, include_expired),
                grant_approval(),
            ).len() ==> lex_lt(
                selected(
                    s,
                    operator_page_pred(owner, after, block, include_expired),
                    grant_approval(),
                )[i].spender@,
                selected(
                    s,
                    operator_page_pred(owner, after, block, include_expired),
                    grant_approval(),
                )[j].spender@,
            ),
    decreases s.len(),
{
    let pred = operator_page_pred(owner, after, block, include_expired);
    let f = grant_approval();
    let sel = selected(s, pred, f);
    if s.len() > 0 {
        let init = selected(s.drop_last(), pred, f);
        assert(grants_sorted(s.drop_last()));
        lemma_selected_spenders_sorted(s.drop_last(), owner, after, block, include_expired);
        if pred(s.last()) {
            assert forall|i: int| 0 <= i < init.len() implies lex_lt(
                init[i].spender@,
                s.last().operator@,
            ) by {
                lemma_selected_witness(s.drop_last(), pred, f, i);
                let j = choose|j: int|
                    0 <= j < s.drop_last().len() && pred(s.drop_last()[j]) && init[i] == f(
                        s.drop_last()[j],
                    );
                assert(grant_lt(s[j], s.last()));
                lemma_lex_lt_irreflexive(owner);
            }
        }
        assert forall|i: int, j: int| 0 <= i < j < sel.len() implies lex_lt(
            sel[i].spender@,
            sel[j].spender@,
        ) by {
            if j < init.len() {
            } else {
                assert(sel[j] == f(s.last()));
            }
        }
    }
}

/// The exclusive bound holds for operator pages just as for item pages: a
/// page for bound `after` never lists `after`, and a non-empty page starts
/// at the owner's smallest admitted operator above the bound.
pub proof fn lemma_operators_after_exclusive(
    s: Seq<OperatorGrant>,
    owner: Seq<char>,
    after: Seq<char>,
    block: BlockInfo,
    include_expired: bool,
    limit: Option<u32>,
)
    requires
        grants_sorted(s),
    ensures
        forall|k: int|
            0 <= k < spec_operator_page(s, owner, Some(after), block, include_expired, limit).len()
                ==> lex_lt(
                after,
                #[trigger] spec_operator_page(
                    s,
                    owner,
                    Some(after),
                    block,
                    include_expired,
                    limit,
                )[k].spender@,
            ),
        spec_operator_page(s, owner, Some(after), block, include_expired, limit).len() > 0
            ==> forall|j: int|
            0 <= j < s.len() && operator_page_pred(owner, Some(after), block, include_expired)(
                #[trigger] s[j],
            ) ==> !lex_lt(
                s[j].operator@,
                spec_operator_page(s, owner, Some(after), block, include_expired, limit)[0].spender@,
            ),
{
    let pred = operator_page_pred(owner, Some(after), block, include_expired);
    let f = grant_approval();
    let sel = selected(s, pred, f);
    let page = spec_operator_page(s, owner, Some(after), block, include_expired, limit);
    lemma_selected_spenders_sorted(s, owner, Some(after), block, include_expired);
    assert forall|k: int| 0 <= k < page.len() implies lex_lt(after, page[k].spender@) by {
        assert(page[k] == sel[k]);
        lemma_selected_witness(s, pred, f, k);
    }
    if page.len() > 0 {
        assert forall|j: int|
            0 <= j < s.len() && pred(#[trigger] s[j]) implies !lex_lt(
                s[j].operator@,
                page[0].spender@,
            ) by {
            lemma_selected_complete(s, pred, f, j);
            let k = choose|k: int| 0 <= k < sel.len() && sel[k] == f(s[j]);
            assert(page[0] == sel[0]);
            if lex_lt(s[j].operator@, page[0].spender@) {
                if k == 0 {
                    lemma_lex_lt_irreflexive(sel[0].spender@);
                } else {
                    lemma_lex_lt_transitive(sel[0].spender@, sel[k].spender@, sel[0].spender@);
                    lemma_lex_lt_irreflexive(sel[0].spender@);
                }
            }
        }
    }
}

/// The page `AllOperators` computes over a raw operator-index value.
pub open spec fn spec_operator_page(
    s: Seq<OperatorGrant>,
    owner: Seq<char>,
    after: Option<Seq<char>>,
    block: BlockInfo,
    include_expired: bool,
    limit: Option<u32>,
) -> Seq<Approval> {
    take_page(
        selected(s, operator_page_pred(owner, after, block, include_expired), grant_approval()),
        spec_effective_limit(limit),
    )
}

/// The page `Tokens` computes over a raw store value; on a snapshot it is
/// what [`spec_tokens_page`] says of `spec_tokens()`.
pub open spec fn spec_page<T>(
    s: Seq<(String, TokenInfo<T>)>,
    owner: Seq<char>,
    after: Option<Seq<char>>,
    limit: Option<u32>,
) -> Seq<String> {
    take_page(selected(s, token_page_pred(owner, after), token_id_of()), spec_effective_limit(limit))
}

/// Whether the full enumeration for `owner` above bound `after` reaches
/// identifier `id`.
pub open spec fn enumerated<T>(
    s: Seq<(String, TokenInfo<T>)>,
    owner: Seq<char>,
    after: Option<Seq<char>>,
    id: Seq<char>,
) -> bool {
    exists|k: int|
        0 <= k < selected(s, token_page_pred::<T>(owner, after), token_id_of::<T>()).len()
            && (#[trigger] selected(s, token_page_pred::<T>(owner, after), token_id_of::<T>())[k])@
            == id
}

/// Exhaustive pagination loses nothing and repeats nothing. A page shorter
/// than the effective limit already listed everything above its bound; a
/// full page, continued with its last identifier as the new bound, reaches
/// exactly the identifiers above the old bound that it did not list. With
/// [`lemma_selected_ids_sorted`] and [`lemma_owner_enumeration_exact`], any
/// limit sequence therefore walks exactly the owner's items, ascending,
/// each once.
pub proof fn lemma_pagination_step<T>(
    s: Seq<(String, TokenInfo<T>)>,
    owner: Seq<char>,
    after: Option<Seq<char>>,
    limit: Option<u32>,
    id: Seq<char>,
)
    requires
        tokens_sorted(s),
    ensures
        spec_page(s, owner, after, limit).len() < spec_effective_limit(limit) ==> spec_page(
            s,
            owner,
            after,
            limit,
        ) == selected(s, token_page_pred::<T>(owner, after), token_id_of::<T>()),
        spec_page(s, owner, after, limit).len() == spec_effective_limit(limit)
            && spec_effective_limit(limit) > 0 ==> {
            let last = spec_page(s, owner, after, limit).last()@;
            enumerated(s, owner, Some(last), id) <==> (enumerated(s, owner, after, id) && lex_lt(
                last,
                id,
            ))
        },
{
    let pred = token_page_pred::<T>(owner, after);
    let f = token_id_of::<T>();
    let sel = selected(s, pred, f);
    let page = spec_page(s, owner, after, limit);
    let eff = spec_effective_limit(limit);
    lemma_selected_ids_sorted(s, pred);
    if page.len() == eff && eff > 0 {
        let n = eff as int;
        let last = page.last()@;
        assert(page[n - 1] == sel[n - 1]);
        let predl = token_page_pred::<T>(owner, Some(last));
        let sell = selected(s, predl, f);
        lemma_selected_witness(s, pred, f, n - 1);
        let jl = choose|j: int| 0 <= j < s.len() && pred(s[j]) && sel[n - 1] == f(s[j]);
        if enumerated(s, owner, Some(last), id) {
            let k = choose|k: int| 0 <= k < sell.len() && (#[trigger] sell[k])@ == id;
            lemma_selected_witness(s, predl, f, k);
            let j = choose|j: int| 0 <= j < s.len() && predl(s[j]) && sell[k] == f(s[j]);
            assert(lex_lt(last, id));
            match after {
                None => {},
                Some(x) => {
                    lemma_lex_lt_transitive(x, last, s[j].0@);
                },
            }
            assert(pred(s[j]));
            lemma_selected_complete(s, pred, f, j);
            let m = choose|m: int| 0 <= m < sel.len() && sel[m] == f(s[j]);
            assert(enumerated(s, owner, after, id));
        }
        if enumerated(s, owner, after, id) && lex_lt(last, id) {
            let m = choose|m: int| 0 <= m < sel.len() && (#[trigger] sel[m])@ == id;
            lemma_selected_witness(s, pred, f, m);
            let j = choose|j: int| 0 <= j < s.len() && pred(s[j]) && sel[m] == f(s[j]);
            assert(predl(s[j]));
            lemma_selected_complete(s, predl, f, j);
            let k = choose|k: int| 0 <= k < sell.len() && sell[k] == f(s[j]);
            assert(sell[k]@ == id);
            assert(enumerated(s, owner, Some(last), id));
        }
    }
}

/// A store entry found under `id` settles `find_token` there, a sorted store
/// holding no entry twice.
proof fn lemma_find_token_unique<T>(s: Seq<(String, TokenInfo<T>)>, j: int)
    requires
        tokens_sorted(s),
        0 <= j < s.len(),
    ensures
        find_token(s, s[j].0@) == Some(s[j].1),
{
    assert forall|l: int| 0 <= l < j implies s[l].0@ != s[j].0@ by {
        if s[l].0@ == s[j].0@ {
            lemma_lex_lt_irreflexive(s[j].0@);
        }
    }
    crate::state::lemma_find_token_at(s, s[j].0@, j);
}

/// A present `find_token` answer comes from some store index.
proof fn lemma_find_token_witness<T>(s: Seq<(String, TokenInfo<T>)>, id: Seq<char>)
    requires
        find_token(s, id) is Some,
    ensures
        exists|i: int|
            0 <= i < s.len() && (#[trigger] s[i]).0@ == id && find_token(s, id) == Some(s[i].1),
    decreases s.len(),
{
    if s[0].0@ == id {
    } else {
        lemma_find_token_witness(s.skip(1), id);
        let i = choose|i: int|
            0 <= i < s.skip(1).len() && (#[trigger] s.skip(1)[i]).0@ == id && find_token(
                s.skip(1),
                id,
            ) == Some(s.skip(1)[i].1);
        assert(s[i + 1] == s.skip(1)[i]);
    }
}

/// Exhaustive enumeration is exact: an identifier appears in the full,
/// unbounded enumeration for `owner` exactly when the item store holds an
/// item with that identifier whose owner field is `owner`.
pub proof fn lemma_owner_enumeration_exact<T>(
    s: Seq<(String, TokenInfo<T>)>,
    owner: Seq<char>,
    id: Seq<char>,
)
    requires
        tokens_sorted(s),
    ensures
        (exists|k: int|
            0 <= k < selected(s, token_page_pred::<T>(owner, None), token_id_of::<T>()).len()
                && (#[trigger] selected(
                s,
                token_page_pred::<T>(owner, None),
                token_id_of::<T>(),
            )[k])@ == id) <==> (find_token(s, id) is Some && find_token(s, id)->0.owner@
            == owner),
{
    let pred = token_page_pred::<T>(owner, None);
    let f = token_id_of::<T>();
    let sel = selected(s, pred, f);
    if exists|k: int| 0 <= k < sel.len() && (#[trigger] sel[k])@ == id {
        let k = choose|k: int| 0 <= k < sel.len() && (#[trigger] sel[k])@ == id;
        lemma_selected_witness(s, pred, f, k);
        let j = choose|j: int| 0 <= j < s.len() && pred(s[j]) && sel[k] == f(s[j]);
        lemma_find_token_unique(s, j);
    }
    if find_token(s, id) is Some && find_token(s, id)->0.owner@ == owner {
        lemma_find_token_witness(s, id);
        let i = choose|i: int|
            0 <= i < s.len() && (#[trigger] s[i]).0@ == id && find_token(s, id) == Some(s[i].1);
        lemma_selected_complete(s, pred, f, i);
        let k = choose|k: int| 0 <= k < sel.len() && sel[k] == f(s[i]);
        assert(sel[k]@ == id);
    }
}

/// Two item-info answers that present the same locator and the same payload.
pub open spec fn nft_info_agree<'a, 'b, T>(
    i1: NftInfoResponse<'a, T>,
    i2: NftInfoResponse<'b, T>,
) -> bool {
    &&& i1.token_uri is Some
    &&& i2.token_uri is Some
    &&& i1.token_uri->0@ == i2.token_uri->0@
    &&& *i1.extension == *i2.extension
}

/// Two query answers a client cannot tell apart: the same outcome, and in
/// every answer shape the same observable content.
pub open spec fn answers_agree<'a, 'b, T>(
    r1: Result<QueryAnswer<'a, T>, QueryError>,
    r2: Result<QueryAnswer<'b, T>, QueryError>,
) -> bool {
    match (r1, r2) {
        (Ok(a1), Ok(a2)) => match (a1, a2) {
            (QueryAnswer::Minter(x1), QueryAnswer::Minter(x2)) => x1.minter == x2.minter,
            (QueryAnswer::ContractInfo(x1), QueryAnswer::ContractInfo(x2)) => x1.name == x2.name
                && x1.symbol == x2.symbol,
            (QueryAnswer::BaseUri(b1), QueryAnswer::BaseUri(b2)) => b1 == b2,
            (QueryAnswer::NumTokens(n1), QueryAnswer::NumTokens(n2)) => n1.count == n2.count,
            (QueryAnswer::NftInfo(i1), QueryAnswer::NftInfo(i2)) => nft_info_agree(i1, i2),
            (QueryAnswer::OwnerOf(o1), QueryAnswer::OwnerOf(o2)) => o1.owner == o2.owner
                && o1.approvals@ == o2.approvals@,
            (QueryAnswer::AllNftInfo(x1), QueryAnswer::AllNftInfo(x2)) => x1.access.owner
                == x2.access.owner && x1.access.approvals@ == x2.access.approvals@
                && nft_info_agree(x1.info, x2.info),
            (QueryAnswer::Approval(x1), QueryAnswer::Approval(x2)) => x1.approval == x2.approval,
            (QueryAnswer::Approvals(x1), QueryAnswer::Approvals(x2)) => x1.approvals@
                == x2.approvals@,
            (QueryAnswer::Operators(x1), QueryAnswer::Operators(x2)) => x1.operators@
                == x2.operators@,
            (QueryAnswer::Tokens(x1), QueryAnswer::Tokens(x2)) => x1.tokens@ == x2.tokens@,
            _ => false,
        },
        (Err(e1), Err(e2)) => e1 == e2,
        _ => false,
    }
}

/// Idempotence: two runs of the same query against the same snapshot and
/// block answer identically in everything a client can observe. Each
/// operation's contract pins its answer to the inputs, so any two results
/// meeting the dispatch contract agree.
pub proof fn lemma_query_idempotent<'a, 'b, T>(
    st: Cw721Contract<T>,
    block: BlockInfo,
    msg: QueryMsg,
    r1: Result<QueryAnswer<'a, T>, QueryError>,
    r2: Result<QueryAnswer<'b, T>, QueryError>,
)
    requires
        spec_query_post(st, block, msg, r1),
        spec_query_post(st, block, msg, r2),
    ensures
        answers_agree(r1, r2),
{
}

} // verus!
