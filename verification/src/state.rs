//! The committed registry snapshot a query runs against.
//!
//! [`Cw721Contract`] holds the registry metadata, the item store and the
//! operator index of one consistent snapshot. Both stores are kept in
//! strictly ascending key order — the item store by item identifier, the
//! operator index by (owner, operator) — which is the order every list query
//! enumerates them in. Mutation of durable state is the surrounding layer's
//! business; the builders here stand for its committed effect and keep the
//! ordering invariant, so that a query can rely on it without asking.

pub mod query;

use vstd::prelude::*;
use crate::expiration::Expiration;
use crate::order::{
    lex_lt, lemma_lex_lt_asymmetric, lemma_lex_lt_connected, lemma_lex_lt_irreflexive,
    lemma_lex_lt_transitive, str_eq, str_lt,
};

verus! {

/// A per-item grant: `spender` may act on the one item this entry is attached
/// to, until `expires`.
#[derive(Clone, Debug, PartialEq, Eq)]
pub struct Approval {
    pub spender: String,
    pub expires: Expiration,
}

/// One item record: its owner, its per-item approvals, and an opaque payload
/// the registry never inspects.
#[derive(Clone, Debug, PartialEq, Eq)]
pub struct TokenInfo<T> {
    pub owner: String,
    pub approvals: Vec<Approval>,
    pub extension: T,
}

/// One operator-index entry: `operator` may act on all of `owner`'s items
/// until `expires`.
#[derive(Clone, Debug, PartialEq, Eq)]
pub struct OperatorGrant {
    pub owner: String,
    pub operator: String,
    pub expires: Expiration,
}

/// The item store's order: strictly ascending item identifiers.
pub open spec fn tokens_sorted<T>(s: Seq<(String, TokenInfo<T>)>) -> bool {
    forall|i: int, j: int| 0 <= i < j < s.len() ==> lex_lt(s[i].0@, s[j].0@)
}

/// The operator index's key order: by owner, then by operator.
pub open spec fn grant_lt(a: OperatorGrant, b: OperatorGrant) -> bool {
    lex_lt(a.owner@, b.owner@) || (a.owner@ == b.owner@ && lex_lt(a.operator@, b.operator@))
}

/// The operator index's order: strictly ascending (owner, operator) keys.
pub open spec fn grants_sorted(s: Seq<OperatorGrant>) -> bool {
    forall|i: int, j: int| 0 <= i < j < s.len() ==> grant_lt(s[i], s[j])
}

/// The item stored under identifier `id`: the first record whose identifier
/// reads as `id`, absent when none does.
pub open spec fn find_token<T>(s: Seq<(String, TokenInfo<T>)>, id: Seq<char>) -> Option<
    TokenInfo<T>,
>
    decreases s.len(),
{
    if s.len() == 0 {
        None
    } else if s[0].0@ == id {
        Some(s[0].1)
    } else {
        find_token(s.skip(1), id)
    }
}

/// The expiration stored for the pair (`owner`, `operator`), absent when the
/// operator index has no such entry.
pub open spec fn find_grant(s: Seq<OperatorGrant>, owner: Seq<char>, operator: Seq<char>) -> Option<
    Expiration,
>
    decreases s.len(),
{
    if s.len() == 0 {
        None
    } else if s[0].owner@ == owner && s[0].operator@ == operator {
        Some(s[0].expires)
    } else {
        find_grant(s.skip(1), owner, operator)
    }
}

/// A scan that saw no match up to `i` settles `find_token` at `i`.
pub proof fn lemma_find_token_at<T>(s: Seq<(String, TokenInfo<T>)>, id: Seq<char>, i: int)
    requires
        0 <= i <= s.len(),
        forall|j: int| 0 <= j < i ==> s[j].0@ != id,
    ensures
        i == s.len() ==> find_token(s, id) is None,
        i < s.len() && s[i].0@ == id ==> find_token(s, id) == Some(s[i].1),
    decreases i,
{
    if i > 0 {
        lemma_find_token_at(s.skip(1), id, i - 1);
        assert(forall|j: int| 0 <= j < i - 1 ==> s.skip(1)[j] == s[j + 1]);
    }
}

/// A scan that saw no match up to `i` settles `find_grant` at `i`.
pub proof fn lemma_find_grant_at(s: Seq<OperatorGrant>, owner: Seq<char>, operator: Seq<char>, i: int)
    requires
        0 <= i <= s.len(),
        forall|j: int| 0 <= j < i ==> !(s[j].owner@ == owner && s[j].operator@ == operator),
    ensures
        i == s.len() ==> find_grant(s, owner, operator) is None,
        i < s.len() && s[i].owner@ == owner && s[i].operator@ == operator ==> find_grant(
            s,
            owner,
            operator,
        ) == Some(s[i].expires),
    decreases i,
{
    if i > 0 {
        lemma_find_grant_at(s.skip(1), owner, operator, i - 1);
        assert(forall|j: int| 0 <= j < i - 1 ==> s.skip(1)[j] == s[j + 1]);
    }
}

/// The item store after committing a record under `id`: an existing record
/// with that identifier is replaced in place, a new one enters at its sorted
/// position.
pub open spec fn spec_insert_token<T>(
    s: Seq<(String, TokenInfo<T>)>,
    id: String,
    info: TokenInfo<T>,
) -> Seq<(String, TokenInfo<T>)>
    decreases s.len(),
{
    if s.len() == 0 {
        seq![(id, info)]
    } else if lex_lt(id@, s[0].0@) {
        seq![(id, info)] + s
    } else if id@ == s[0].0@ {
        seq![(id, info)] + s.skip(1)
    } else {
        seq![s[0]] + spec_insert_token(s.skip(1), id, info)
    }
}

/// The operator index after committing a grant: the entry for the same
/// (owner, operator) pair is overwritten, a new pair enters at its sorted
/// position.
pub open spec fn spec_insert_grant(s: Seq<OperatorGrant>, g: OperatorGrant) -> Seq<OperatorGrant>
    decreases s.len(),
{
    if s.len() == 0 {
        seq![g]
    } else if grant_lt(g, s[0]) {
        seq![g] + s
    } else if g.owner@ == s[0].owner@ && g.operator@ == s[0].operator@ {
        seq![g] + s.skip(1)
    } else {
        seq![s[0]] + spec_insert_grant(s.skip(1), g)
    }
}

/// Committing a record stores it under its identifier and touches no other
/// identifier's record: what [`spec_insert_token`] leaves behind reads back
/// exactly as written.
pub proof fn lemma_insert_token_find<T>(
    s: Seq<(String, TokenInfo<T>)>,
    id: String,
    info: TokenInfo<T>,
    other: Seq<char>,
)
    ensures
        find_token(spec_insert_token(s, id, info), id@) == Some(info),
        other != id@ ==> find_token(spec_insert_token(s, id, info), other) == find_token(s, other),
    decreases s.len(),
{
    let t = spec_insert_token(s, id, info);
    if s.len() == 0 {
        assert(t[0] == (id, info));
        assert(t.skip(1) =~= Seq::<(String, TokenInfo<T>)>::empty());
        if other != id@ {
            assert(find_token(t, other) == find_token(t.skip(1), other));
        }
    } else if lex_lt(id@, s[0].0@) {
        assert(t[0] == (id, info));
        assert(t.skip(1) =~= s);
        if other != id@ {
            assert(find_token(t, other) == find_token(t.skip(1), other));
        }
    } else if id@ == s[0].0@ {
        assert(t[0] == (id, info));
        assert(t.skip(1) =~= s.skip(1));
        if other != id@ {
            assert(find_token(t, other) == find_token(t.skip(1), other));
            assert(find_token(s, other) == find_token(s.skip(1), other));
        }
    } else {
        lemma_insert_token_find(s.skip(1), id, info, other);
        assert(t[0] == s[0]);
        assert(t.skip(1) =~= spec_insert_token(s.skip(1), id, info));
        if other != id@ && s[0].0@ != other {
            assert(find_token(t, other) == find_token(t.skip(1), other));
            assert(find_token(s, other) == find_token(s.skip(1), other));
        }
    }
}

/// Committing a grant stores it under its (owner, operator) key and touches
/// no other pair's grant.
pub proof fn lemma_insert_grant_find(
    s: Seq<OperatorGrant>,
    g: OperatorGrant,
    owner: Seq<char>,
    operator: Seq<char>,
)
    ensures
        find_grant(spec_insert_grant(s, g), g.owner@, g.operator@) == Some(g.expires),
        !(owner == g.owner@ && operator == g.operator@) ==> find_grant(
            spec_insert_grant(s, g),
            owner,
            operator,
        ) == find_grant(s, owner, operator),
    decreases s.len(),
{
    let t = spec_insert_grant(s, g);
    let miss = !(owner == g.owner@ && operator == g.operator@);
    if s.len() == 0 {
        assert(t[0] == g);
        assert(t.skip(1) =~= Seq::<OperatorGrant>::empty());
        if miss {
            assert(find_grant(t, owner, operator) == find_grant(t.skip(1), owner, operator));
        }
    } else if grant_lt(g, s[0]) {
        assert(t[0] == g);
        assert(t.skip(1) =~= s);
        if miss {
            assert(find_grant(t, owner, operator) == find_grant(t.skip(1), owner, operator));
        }
    } else if g.owner@ == s[0].owner@ && g.operator@ == s[0].operator@ {
        assert(t[0] == g);
        assert(t.skip(1) =~= s.skip(1));
        if miss {
            assert(find_grant(t, owner, operator) == find_grant(t.skip(1), owner, operator));
            assert(find_grant(s, owner, operator) == find_grant(s.skip(1), owner, operator));
        }
    } else {
        lemma_insert_grant_find(s.skip(1), g, owner, operator);
        assert(t[0] == s[0]);
        assert(t.skip(1) =~= spec_insert_grant(s.skip(1), g));
        if miss && !(s[0].owner@ == owner && s[0].operator@ == operator) {
            assert(find_grant(t, owner, operator) == find_grant(t.skip(1), owner, operator));
            assert(find_grant(s, owner, operator) == find_grant(s.skip(1), owner, operator));
        }
    }
}

/// A committed registry snapshot. Queries observe it as of one logical
/// instant; nothing here mutates while a query runs.
pub struct Cw721Contract<T> {
    name: String,
    symbol: String,
    minter: String,
    base_uri: Option<String>,
    tokens: Vec<(String, TokenInfo<T>)>,
    operators: Vec<OperatorGrant>,
}

impl<T> Cw721Contract<T> {
    /// Both stores stay strictly sorted by key at all times.
    #[verifier::type_invariant]
    spec fn wf(self) -> bool {
        tokens_sorted(self.tokens@) && grants_sorted(self.operators@)
    }

    /// The item store, ascending by item identifier.
    pub closed spec fn spec_tokens(self) -> Seq<(String, TokenInfo<T>)> {
        self.tokens@
    }

    /// The operator index, ascending by (owner, operator).
    pub closed spec fn spec_operators(self) -> Seq<OperatorGrant> {
        self.operators@
    }

    /// The collection name.
    pub closed spec fn spec_name(self) -> String {
        self.name
    }

    /// The collection symbol.
    pub closed spec fn spec_symbol(self) -> String {
        self.symbol
    }

    /// The minter account identifier.
    pub closed spec fn spec_minter(self) -> String {
        self.minter
    }

    /// The committed base URI, absent until one is set.
    pub closed spec fn spec_base_uri(self) -> Option<String> {
        self.base_uri
    }

    /// The prefix every locator starts with: the base URI, or nothing.
    pub open spec fn spec_base_seq(self) -> Seq<char> {
        match self.spec_base_uri() {
            Some(u) => u@,
            None => Seq::empty(),
        }
    }

    /// A fresh registry with the given metadata and empty stores.
    pub fn new(name: String, symbol: String, minter: String) -> (st: Self)
        ensures
            st.spec_name() == name,
            st.spec_symbol() == symbol,
            st.spec_minter() == minter,
            st.spec_base_uri() is None,
            st.spec_tokens() == Seq::<(String, TokenInfo<T>)>::empty(),
            st.spec_operators() == Seq::<OperatorGrant>::empty(),
    {
        Cw721Contract {
            name,
            symbol,
            minter,
            base_uri: None,
            tokens: Vec::new(),
            operators: Vec::new(),
        }
    }

    /// Commit a base URI; later locators derive from it.
    pub fn set_base_uri(&mut self, base_uri: String)
        ensures
            final(self).spec_base_uri() == Some(base_uri),
            final(self).spec_name() == old(self).spec_name(),
            final(self).spec_symbol() == old(self).spec_symbol(),
            final(self).spec_minter() == old(self).spec_minter(),
            final(self).spec_tokens() == old(self).spec_tokens(),
            final(self).spec_operators() == old(self).spec_operators(),
    {
        proof {
            use_type_invariant(&*self);
        }
        self.base_uri = Some(base_uri);
    }

    /// Commit an item record, as the (out-of-scope) mint, transfer, approve
    /// or revoke path would: a record under the same identifier is replaced,
    /// a new identifier enters at its sorted place.
    pub fn insert_token(&mut self, token_id: String, info: TokenInfo<T>)
        ensures
            final(self).spec_tokens() == spec_insert_token(
                old(self).spec_tokens(),
                token_id,
                info,
            ),
            final(self).spec_operators() == old(self).spec_operators(),
            final(self).spec_name() == old(self).spec_name(),
            final(self).spec_symbol() == old(self).spec_symbol(),
            final(self).spec_minter() == old(self).spec_minter(),
            final(self).spec_base_uri() == old(self).spec_base_uri(),
    {
        proof {
            use_type_invariant(&*self);
        }
        let ghost s = self.tokens@;
        let ghost x = (token_id, info);
        let mut toks: Vec<(String, TokenInfo<T>)> = Vec::new();
        core::mem::swap(&mut toks, &mut self.tokens);
        let pos = token_insert_pos(&toks, token_id.as_str());
        proof {
            lemma_spec_insert_token_at(s, token_id, info, pos as int);
        }
        if pos < toks.len() && str_eq(toks[pos].0.as_str(), token_id.as_str()) {
            toks.remove(pos);
            toks.insert(pos, (token_id, info));
            proof {
                assert(toks@ =~= s.update(pos as int, x));
                assert forall|i: int, j: int| 0 <= i < j < toks@.len() implies lex_lt(
                    toks@[i].0@,
                    toks@[j].0@,
                ) by {
                    assert(toks@[i] == if i == pos { x } else { s[i] });
                    assert(toks@[j] == if j == pos { x } else { s[j] });
                }
            }
        } else {
            proof {
                if pos < s.len() {
                    if !lex_lt(x.0@, s[pos as int].0@) {
                        lemma_lex_lt_connected(x.0@, s[pos as int].0@);
                    }
                }
                lemma_tokens_sorted_after_insert(s, x, pos as int);
            }
            toks.insert(pos, (token_id, info));
        }
        core::mem::swap(&mut toks, &mut self.tokens);
    }

    /// Commit an operator grant, as the (out-of-scope) approve-all path
    /// would: a grant for the same (owner, operator) pair is overwritten.
    pub fn insert_operator(&mut self, owner: String, operator: String, expires: Expiration)
        ensures
            final(self).spec_operators() == spec_insert_grant(
                old(self).spec_operators(),
                OperatorGrant { owner, operator, expires },
            ),
            final(self).spec_tokens() == old(self).spec_tokens(),
            final(self).spec_name() == old(self).spec_name(),
            final(self).spec_symbol() == old(self).spec_symbol(),
            final(self).spec_minter() == old(self).spec_minter(),
            final(self).spec_base_uri() == old(self).spec_base_uri(),
    {
        proof {
            use_type_invariant(&*self);
        }
        let g = OperatorGrant { owner, operator, expires };
        let ghost gv = g;
        let ghost s = self.operators@;
        let mut ops: Vec<OperatorGrant> = Vec::new();
        core::mem::swap(&mut ops, &mut self.operators);
        let pos = grant_insert_pos(&ops, &g);
        proof {
            lemma_spec_insert_grant_at(s, g, pos as int);
        }
        let same = if pos < ops.len() {
            let e = &ops[pos];
            str_eq(e.owner.as_str(), g.owner.as_str()) && str_eq(
                e.operator.as_str(),
                g.operator.as_str(),
            )
        } else {
            false
        };
        if same {
            ops.remove(pos);
            ops.insert(pos, g);
            proof {
                assert(ops@ =~= s.update(pos as int, gv));
                assert forall|i: int, j: int| 0 <= i < j < ops@.len() implies grant_lt(
                    ops@[i],
                    ops@[j],
                ) by {
                    assert(ops@[i] == if i == pos { gv } else { s[i] });
                    assert(ops@[j] == if j == pos { gv } else { s[j] });
                    assert(gv.owner@ == s[pos as int].owner@);
                    assert(gv.operator@ == s[pos as int].operator@);
                    if i == pos {
                        assert(grant_lt(s[pos as int], s[j]));
                    } else if j == pos {
                        assert(grant_lt(s[i], s[pos as int]));
                    } else {
                        assert(grant_lt(s[i], s[j]));
                    }
                }
            }
        } else {
            proof {
                if pos < s.len() {
                    if !grant_lt(gv, s[pos as int]) {
                        lemma_grant_lt_connected(gv, s[pos as int]);
                    }
                }
                lemma_grants_sorted_after_insert(s, gv, pos as int);
            }
            ops.insert(pos, g);
        }
        core::mem::swap(&mut ops, &mut self.operators);
    }
}

/// The sorted position for identifier `id`: the first index whose key does
/// not come before `id`.
fn token_insert_pos<T>(tokens: &Vec<(String, TokenInfo<T>)>, id: &str) -> (pos: usize)
    ensures
        pos <= tokens@.len(),
        forall|j: int| 0 <= j < pos ==> lex_lt(tokens@[j].0@, id@),
        pos < tokens@.len() ==> !lex_lt(tokens@[pos as int].0@, id@),
{
    let n = tokens.len();
    let mut pos: usize = 0;
    loop
        invariant
            pos <= n,
            n == tokens@.len(),
            forall|j: int| 0 <= j < pos ==> lex_lt(tokens@[j].0@, id@),
        decreases n - pos,
    {
        if pos == n {
            return pos;
        }
        if !str_lt(tokens[pos].0.as_str(), id) {
            return pos;
        }
        pos = pos + 1;
    }
}

/// The sorted position for grant key `g`: the first index whose key does not
/// come before it.
fn grant_insert_pos(grants: &Vec<OperatorGrant>, g: &OperatorGrant) -> (pos: usize)
    ensures
        pos <= grants@.len(),
        forall|j: int| 0 <= j < pos ==> grant_lt(grants@[j], *g),
        pos < grants@.len() ==> !grant_lt(grants@[pos as int], *g),
{
    let n = grants.len();
    let mut pos: usize = 0;
    loop
        invariant
            pos <= n,
            n == grants@.len(),
            forall|j: int| 0 <= j < pos ==> grant_lt(grants@[j], *g),
        decreases n - pos,
    {
        if pos == n {
            return pos;
        }
        let e = &grants[pos];
        let before = str_lt(e.owner.as_str(), g.owner.as_str()) || (str_eq(
            e.owner.as_str(),
            g.owner.as_str(),
        ) && str_lt(e.operator.as_str(), g.operator.as_str()));
        if !before {
            return pos;
        }
        pos = pos + 1;
    }
}

/// Inserting at the scan's position is what [`spec_insert_token`] describes.
proof fn lemma_spec_insert_token_at<T>(
    s: Seq<(String, TokenInfo<T>)>,
    id: String,
    info: TokenInfo<T>,
    pos: int,
)
    requires
        tokens_sorted(s),
        0 <= pos <= s.len(),
        forall|j: int| 0 <= j < pos ==> lex_lt(s[j].0@, id@),
        pos < s.len() ==> !lex_lt(s[pos].0@, id@),
    ensures
        pos < s.len() && s[pos].0@ == id@ ==> spec_insert_token(s, id, info) == s.update(
            pos,
            (id, info),
        ),
        !(pos < s.len() && s[pos].0@ == id@) ==> spec_insert_token(s, id, info) == s.insert(
            pos,
            (id, info),
        ),
    decreases s.len(),
{
    if s.len() == 0 {
        assert(spec_insert_token(s, id, info) =~= s.insert(0, (id, info)));
    } else if pos == 0 {
        if s[0].0@ == id@ {
            lemma_lex_lt_irreflexive(id@);
            assert(spec_insert_token(s, id, info) =~= s.update(0, (id, info)));
        } else {
            if !lex_lt(id@, s[0].0@) {
                lemma_lex_lt_connected(id@, s[0].0@);
            }
            assert(spec_insert_token(s, id, info) =~= s.insert(0, (id, info)));
        }
    } else {
        lemma_lex_lt_asymmetric(s[0].0@, id@);
        lemma_lex_lt_irreflexive(s[0].0@);
        assert(forall|j: int| 0 <= j < pos - 1 ==> s.skip(1)[j] == s[j + 1]);
        assert(pos - 1 < s.skip(1).len() ==> s.skip(1)[pos - 1] == s[pos]);
        lemma_spec_insert_token_at(s.skip(1), id, info, pos - 1);
        if pos < s.len() && s[pos].0@ == id@ {
            assert(spec_insert_token(s, id, info) =~= s.update(pos, (id, info)));
        } else {
            assert(spec_insert_token(s, id, info) =~= s.insert(pos, (id, info)));
        }
    }
}

/// Inserting at the scan's position is what [`spec_insert_grant`] describes.
proof fn lemma_spec_insert_grant_at(s: Seq<OperatorGrant>, g: OperatorGrant, pos: int)
    requires
        grants_sorted(s),
        0 <= pos <= s.len(),
        forall|j: int| 0 <= j < pos ==> grant_lt(s[j], g),
        pos < s.len() ==> !grant_lt(s[pos], g),
    ensures
        pos < s.len() && s[pos].owner@ == g.owner@ && s[pos].operator@ == g.operator@
            ==> spec_insert_grant(s, g) == s.update(pos, g),
        !(pos < s.len() && s[pos].owner@ == g.owner@ && s[pos].operator@ == g.operator@)
            ==> spec_insert_grant(s, g) == s.insert(pos, g),
    decreases s.len(),
{
    if s.len() == 0 {
        assert(spec_insert_grant(s, g) =~= s.insert(0, g));
    } else if pos == 0 {
        if s[0].owner@ == g.owner@ && s[0].operator@ == g.operator@ {
            lemma_grant_lt_irreflexive_keys(g, s[0]);
            assert(spec_insert_grant(s, g) =~= s.update(0, g));
        } else {
            if !grant_lt(g, s[0]) {
                lemma_grant_lt_connected(g, s[0]);
            }
            assert(spec_insert_grant(s, g) =~= s.insert(0, g));
        }
    } else {
        lemma_grant_lt_asymmetric(s[0], g);
        if g.owner@ == s[0].owner@ && g.operator@ == s[0].operator@ {
            lemma_grant_lt_irreflexive_keys(g, s[0]);
        }
        assert(forall|j: int| 0 <= j < pos - 1 ==> s.skip(1)[j] == s[j + 1]);
        assert(pos - 1 < s.skip(1).len() ==> s.skip(1)[pos - 1] == s[pos]);
        lemma_spec_insert_grant_at(s.skip(1), g, pos - 1);
        if pos < s.len() && s[pos].owner@ == g.owner@ && s[pos].operator@ == g.operator@ {
            assert(spec_insert_grant(s, g) =~= s.update(pos, g));
        } else {
            assert(spec_insert_grant(s, g) =~= s.insert(pos, g));
        }
    }
}

/// The grant order never relates two grants with the same key.
proof fn lemma_grant_lt_irreflexive_keys(a: OperatorGrant, b: OperatorGrant)
    requires
        a.owner@ == b.owner@,
        a.operator@ == b.operator@,
    ensures
        !grant_lt(a, b),
        !grant_lt(b, a),
{
    lemma_lex_lt_irreflexive(a.owner@);
    lemma_lex_lt_irreflexive(a.operator@);
}

/// The grant order is transitive.
proof fn lemma_grant_lt_transitive(a: OperatorGrant, b: OperatorGrant, c: OperatorGrant)
    requires
        grant_lt(a, b),
        grant_lt(b, c),
    ensures
        grant_lt(a, c),
{
    if lex_lt(a.owner@, b.owner@) && lex_lt(b.owner@, c.owner@) {
        lemma_lex_lt_transitive(a.owner@, b.owner@, c.owner@);
    } else if a.owner@ == b.owner@ && b.owner@ == c.owner@ {
        lemma_lex_lt_transitive(a.operator@, b.operator@, c.operator@);
    }
}

/// At most one direction of the grant order holds.
proof fn lemma_grant_lt_asymmetric(a: OperatorGrant, b: OperatorGrant)
    requires
        grant_lt(a, b),
    ensures
        !grant_lt(b, a),
{
    if grant_lt(b, a) {
        lemma_grant_lt_transitive(a, b, a);
        lemma_lex_lt_irreflexive(a.owner@);
        lemma_lex_lt_irreflexive(a.operator@);
    }
}

/// Two grants that the order does not separate share their key.
proof fn lemma_grant_lt_connected(a: OperatorGrant, b: OperatorGrant)
    requires
        !grant_lt(a, b),
        !grant_lt(b, a),
    ensures
        a.owner@ == b.owner@,
        a.operator@ == b.operator@,
{
    if a.owner@ != b.owner@ {
        lemma_lex_lt_connected(a.owner@, b.owner@);
    }
    if a.operator@ != b.operator@ {
        lemma_lex_lt_connected(a.operator@, b.operator@);
    }
}

/// A sorted store stays sorted when a key enters at its scan position.
proof fn lemma_tokens_sorted_after_insert<T>(
    s: Seq<(String, TokenInfo<T>)>,
    x: (String, TokenInfo<T>),
    pos: int,
)
    requires
        tokens_sorted(s),
        0 <= pos <= s.len(),
        forall|j: int| 0 <= j < pos ==> lex_lt(s[j].0@, x.0@),
        pos < s.len() ==> lex_lt(x.0@, s[pos].0@),
    ensures
        tokens_sorted(s.insert(pos, x)),
{
    let t = s.insert(pos, x);
    assert forall|i: int, j: int| 0 <= i < j < t.len() implies lex_lt(t[i].0@, t[j].0@) by {
        assert(t[i] == if i < pos { s[i] } else if i == pos { x } else { s[i - 1] });
        assert(t[j] == if j < pos { s[j] } else if j == pos { x } else { s[j - 1] });
        if i == pos && j > pos {
            if j - 1 > pos {
                lemma_lex_lt_transitive(x.0@, s[pos].0@, s[j - 1].0@);
            }
        } else if i < pos && j > pos {
            if i == j - 1 {
                lemma_lex_lt_transitive(s[i].0@, x.0@, s[j - 1].0@);
            }
        }
    }
}

/// A sorted operator index stays sorted when a grant enters at its scan
/// position.
proof fn lemma_grants_sorted_after_insert(s: Seq<OperatorGrant>, g: OperatorGrant, pos: int)
    requires
        grants_sorted(s),
        0 <= pos <= s.len(),
        forall|j: int| 0 <= j < pos ==> grant_lt(s[j], g),
        pos < s.len() ==> grant_lt(g, s[pos]),
    ensures
        grants_sorted(s.insert(pos, g)),
{
    let t = s.insert(pos, g);
    assert forall|i: int, j: int| 0 <= i < j < t.len() implies grant_lt(t[i], t[j]) by {
        assert(t[i] == if i < pos { s[i] } else if i == pos { g } else { s[i - 1] });
        assert(t[j] == if j < pos { s[j] } else if j == pos { g } else { s[j - 1] });
        if i == pos && j > pos {
            if j - 1 > pos {
                lemma_grant_lt_transitive(g, s[pos], s[j - 1]);
            }
        } else if i < pos && j == pos {
        } else if i < pos && j > pos {
            if i == j - 1 {
                lemma_grant_lt_transitive(s[i], g, s[j - 1]);
            }
        }
    }
}

} // verus!
