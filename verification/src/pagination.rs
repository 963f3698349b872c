//! The pagination engine: one bound-and-limit policy shared by every list
//! query.
//!
//! A list query walks its store in ascending key order, keeps the entries a
//! selection predicate admits — the exclusive `start_after` bound and any
//! expiration filter are part of the predicate, so excluded entries never
//! consume a page slot — and stops after the effective limit. The effective
//! limit is the requested one clamped to [`MAX_LIMIT`], or [`DEFAULT_LIMIT`]
//! when none was requested.

use vstd::prelude::*;
use crate::order::lex_lt;

verus! {

/// The limit used when the caller supplies none.
pub const DEFAULT_LIMIT: u32 = 10;

/// The largest limit a caller can obtain; larger requests are clamped, never
/// rejected.
pub const MAX_LIMIT: u32 = 30;

/// The number of entries a page may hold: `min(requested, MAX_LIMIT)`, with
/// an absent request reading as `DEFAULT_LIMIT`.
pub open spec fn spec_effective_limit(limit: Option<u32>) -> nat {
    let requested = match limit {
        Some(l) => l,
        None => DEFAULT_LIMIT,
    };
    if requested < MAX_LIMIT {
        requested as nat
    } else {
        MAX_LIMIT as nat
    }
}

/// Executable form of [`spec_effective_limit`].
pub fn effective_limit(limit: Option<u32>) -> (l: u32)
    ensures
        l as nat == spec_effective_limit(limit),
        l <= MAX_LIMIT,
{
    let requested = match limit {
        Some(l) => l,
        None => DEFAULT_LIMIT,
    };
    if requested < MAX_LIMIT {
        requested
    } else {
        MAX_LIMIT
    }
}

/// The view of an optional bound string.
pub open spec fn view_opt(s: Option<String>) -> Option<Seq<char>> {
    match s {
        Some(x) => Some(x@),
        None => None,
    }
}

/// Whether key `k` lies strictly above the exclusive bound `after`. An absent
/// bound admits every key.
pub open spec fn key_after(k: Seq<char>, after: Option<Seq<char>>) -> bool {
    match after {
        Some(x) => lex_lt(x, k),
        None => true,
    }
}

/// The entries of `s` that `pred` admits, in order, each mapped through `f`.
/// This is the sequence a list query draws its page from.
pub open spec fn selected<A, B>(s: Seq<A>, pred: spec_fn(A) -> bool, f: spec_fn(A) -> B) -> Seq<B>
    decreases s.len(),
{
    if s.len() == 0 {
        Seq::empty()
    } else {
        let init = selected(s.drop_last(), pred, f);
        if pred(s.last()) {
            init.push(f(s.last()))
        } else {
            init
        }
    }
}

/// The first `lim` entries of `s`, or all of `s` where it is shorter: the
/// page a list query returns.
pub open spec fn take_page<B>(s: Seq<B>, lim: nat) -> Seq<B> {
    if lim <= s.len() {
        s.take(lim as int)
    } else {
        s
    }
}

/// Selection distributes over concatenation. This is what lets a walk that
/// stopped early stand for a page of the whole store: the part not walked
/// only appends entries.
pub proof fn lemma_selected_concat<A, B>(
    a: Seq<A>,
    b: Seq<A>,
    pred: spec_fn(A) -> bool,
    f: spec_fn(A) -> B,
)
    ensures
        selected(a + b, pred, f) == selected(a, pred, f) + selected(b, pred, f),
    decreases b.len(),
{
    if b.len() == 0 {
        assert(a + b =~= a);
        assert(selected(a, pred, f) + selected(b, pred, f) =~= selected(a, pred, f));
    } else {
        lemma_selected_concat(a, b.drop_last(), pred, f);
        assert((a + b).drop_last() =~= a + b.drop_last());
        assert((a + b).last() == b.last());
        if pred(b.last()) {
            assert((selected(a, pred, f) + selected(b.drop_last(), pred, f)).push(f(b.last()))
                =~= selected(a, pred, f) + selected(b.drop_last(), pred, f).push(f(b.last())));
        }
    }
}

/// Walking one more entry extends the selection by that entry or leaves it as
/// it was.
pub proof fn lemma_selected_push<A, B>(
    s: Seq<A>,
    x: A,
    pred: spec_fn(A) -> bool,
    f: spec_fn(A) -> B,
)
    ensures
        selected(s.push(x), pred, f) == (if pred(x) {
            selected(s, pred, f).push(f(x))
        } else {
            selected(s, pred, f)
        }),
{
    assert(s.push(x).drop_last() =~= s);
    assert(s.push(x).last() == x);
}

/// A store with no admitted entry selects nothing.
pub proof fn lemma_selected_none<A, B>(s: Seq<A>, pred: spec_fn(A) -> bool, f: spec_fn(A) -> B)
    requires
        forall|j: int| 0 <= j < s.len() ==> !pred(s[j]),
    ensures
        selected(s, pred, f).len() == 0,
    decreases s.len(),
{
    if s.len() > 0 {
        lemma_selected_none(s.drop_last(), pred, f);
    }
}

/// The first admitted entry of the store heads the selection.
pub proof fn lemma_selected_first<A, B>(
    s: Seq<A>,
    pred: spec_fn(A) -> bool,
    f: spec_fn(A) -> B,
    i: int,
)
    requires
        0 <= i < s.len(),
        pred(s[i]),
        forall|j: int| 0 <= j < i ==> !pred(s[j]),
    ensures
        selected(s, pred, f).len() > 0,
        selected(s, pred, f)[0] == f(s[i]),
{
    lemma_selected_none(s.take(i), pred, f);
    lemma_selected_push(s.take(i), s[i], pred, f);
    assert(s.take(i + 1) =~= s.take(i).push(s[i]));
    lemma_selected_concat(s.take(i + 1), s.skip(i + 1), pred, f);
    assert(s.take(i + 1) + s.skip(i + 1) =~= s);
}

/// Every entry of a selection satisfies the predicate and comes from the
/// store: entry `i` of the result is `f` of some store entry admitted by
/// `pred`, and store order is kept.
pub proof fn lemma_selected_witness<A, B>(
    s: Seq<A>,
    pred: spec_fn(A) -> bool,
    f: spec_fn(A) -> B,
    i: int,
)
    requires
        0 <= i < selected(s, pred, f).len(),
    ensures
        exists|j: int|
            0 <= j < s.len() && pred(s[j]) && selected(s, pred, f)[i] == f(s[j]),
    decreases s.len(),
{
    if s.len() > 0 {
        let init = selected(s.drop_last(), pred, f);
        if i < init.len() {
            lemma_selected_witness(s.drop_last(), pred, f, i);
            let j = choose|j: int|
                0 <= j < s.drop_last().len() && pred(s.drop_last()[j]) && init[i] == f(
                    s.drop_last()[j],
                );
            assert(s[j] == s.drop_last()[j]);
        } else {
            assert(pred(s.last()) && selected(s, pred, f)[i] == f(s.last()));
            assert(s[s.len() - 1] == s.last());
        }
    }
}

/// An admitted store entry appears in the selection.
pub proof fn lemma_selected_complete<A, B>(
    s: Seq<A>,
    pred: spec_fn(A) -> bool,
    f: spec_fn(A) -> B,
    j: int,
)
    requires
        0 <= j < s.len(),
        pred(s[j]),
    ensures
        selected(s, pred, f).contains(f(s[j])),
    decreases s.len(),
{
    let init = selected(s.drop_last(), pred, f);
    if j == s.len() - 1 {
        assert(selected(s, pred, f)[init.len() as int] == f(s[j]));
    } else {
        lemma_selected_complete(s.drop_last(), pred, f, j);
        let i = choose|i: int| 0 <= i < init.len() && init[i] == f(s[j]);
        assert(selected(s, pred, f)[i] == f(s[j]));
    }
}

} // verus!
