//! Proof support: pinning a `choose`-based lookup to a concrete witness
//! index, and how `staked_count` moves under the sequence operations the
//! handlers perform.
use vstd::prelude::*;

use crate::error::ContractError;
use crate::state::{
    id_le,
    has_owner, has_token, owner_index, owners_unique, staked_count, token_index, token_of,
    tokens_unique, ContractView, OwnerView, Status, TokenView,
};
use crate::transitions::claim_error;
use vstd::multiset::Multiset;

verus! {

/// Under unique identifiers, looking a token up by the identifier of entry
/// `i` finds exactly entry `i`.
pub proof fn lemma_token_lookup(toks: Seq<TokenView>, i: int)
    requires
        tokens_unique(toks),
        0 <= i < toks.len(),
    ensures
        has_token(toks, toks[i].token_id),
        token_index(toks, toks[i].token_id) == i,
        token_of(toks, toks[i].token_id) == toks[i],
{
    assert(has_token(toks, toks[i].token_id));
    let j = token_index(toks, toks[i].token_id);
    assert(0 <= j < toks.len() && toks[j].token_id == toks[i].token_id);
}

/// Under unique owners, looking an index entry up by the address of entry
/// `i` finds exactly entry `i`.
pub proof fn lemma_owner_lookup(owned: Seq<OwnerView>, i: int)
    requires
        owners_unique(owned),
        0 <= i < owned.len(),
    ensures
        has_owner(owned, owned[i].owner),
        owner_index(owned, owned[i].owner) == i,
{
    assert(has_owner(owned, owned[i].owner));
    let j = owner_index(owned, owned[i].owner);
    assert(0 <= j < owned.len() && owned[j].owner == owned[i].owner);
}

/// At most every entry is staked.
pub proof fn lemma_staked_count_le(toks: Seq<TokenView>)
    ensures
        staked_count(toks) <= toks.len(),
    decreases toks.len(),
{
    if toks.len() > 0 {
        lemma_staked_count_le(toks.drop_last());
    }
}

/// Appending an entry adds one to the count exactly when it is staked.
pub proof fn lemma_staked_count_push(toks: Seq<TokenView>, t: TokenView)
    ensures
        staked_count(toks.push(t)) == staked_count(toks) + (if t.status is Staked {
            1int
        } else {
            0int
        }),
{
    assert(toks.push(t).drop_last() =~= toks);
    assert(toks.push(t).last() == t);
}

/// Replacing entry `i` adjusts the count by the difference of the two
/// statuses.
pub proof fn lemma_staked_count_update(toks: Seq<TokenView>, i: int, t: TokenView)
    requires
        0 <= i < toks.len(),
    ensures
        staked_count(toks.update(i, t)) == staked_count(toks) - (if toks[i].status is Staked {
            1int
        } else {
            0int
        }) + (if t.status is Staked {
            1int
        } else {
            0int
        }),
    decreases toks.len(),
{
    if i == toks.len() - 1 {
        assert(toks.update(i, t).drop_last() =~= toks.drop_last());
        assert(toks.update(i, t).last() == t);
    } else {
        assert(toks.update(i, t).drop_last() =~= toks.drop_last().update(i, t));
        assert(toks.update(i, t).last() == toks.last());
        lemma_staked_count_update(toks.drop_last(), i, t);
    }
}

/// Removing entry `i` subtracts one from the count exactly when it was
/// staked.
pub proof fn lemma_staked_count_remove(toks: Seq<TokenView>, i: int)
    requires
        0 <= i < toks.len(),
    ensures
        staked_count(toks.remove(i)) == staked_count(toks) - (if toks[i].status is Staked {
            1int
        } else {
            0int
        }),
    decreases toks.len(),
{
    if i == toks.len() - 1 {
        assert(toks.remove(i) =~= toks.drop_last());
    } else {
        assert(toks.remove(i).drop_last() =~= toks.drop_last().remove(i));
        assert(toks.remove(i).last() == toks.last());
        lemma_staked_count_remove(toks.drop_last(), i);
    }
}

/// A staked entry makes the count positive.
pub proof fn lemma_staked_count_pos(toks: Seq<TokenView>, i: int)
    requires
        0 <= i < toks.len(),
        toks[i].status is Staked,
    ensures
        staked_count(toks) >= 1,
{
    lemma_staked_count_remove(toks, i);
}

/// Two ledgers with entrywise equal statuses have the same count.
pub proof fn lemma_staked_count_same_status(a: Seq<TokenView>, b: Seq<TokenView>)
    requires
        a.len() == b.len(),
        forall|i: int| 0 <= i < a.len() ==> a[i].status == b[i].status,
    ensures
        staked_count(a) == staked_count(b),
    decreases a.len(),
{
    if a.len() > 0 {
        lemma_staked_count_same_status(a.drop_last(), b.drop_last());
    }
}

/// The identifier order is total: of any two identifiers, one is at or
/// before the other.
pub proof fn lemma_id_le_total(a: Seq<char>, b: Seq<char>)
    ensures
        id_le(a, b) || id_le(b, a),
    decreases a.len(),
{
    if a.len() > 0 && b.len() > 0 {
        if a[0] == b[0] {
            lemma_id_le_total(a.drop_first(), b.drop_first());
        }
    }
}

/// The identifier order is transitive.
pub proof fn lemma_id_le_trans(a: Seq<char>, b: Seq<char>, c: Seq<char>)
    requires
        id_le(a, b),
        id_le(b, c),
    ensures
        id_le(a, c),
    decreases a.len(),
{
    if a.len() > 0 && b.len() > 0 && c.len() > 0 && a[0] == b[0] && b[0] == c[0] {
        lemma_id_le_trans(a.drop_first(), b.drop_first(), c.drop_first());
    }
}

/// Inserting an element anywhere in a sequence adds exactly that element to
/// its multiset.
pub proof fn lemma_to_multiset_insert<A>(s: Seq<A>, i: int, v: A)
    requires
        0 <= i <= s.len(),
    ensures
        s.insert(i, v).to_multiset() =~= s.to_multiset().insert(v),
{
    broadcast use vstd::seq_lib::group_to_multiset_ensures;
    broadcast use vstd::multiset::group_multiset_axioms;

    assert(s.insert(i, v) =~= s.take(i) + (seq![v] + s.skip(i)));
    assert(s =~= s.take(i) + s.skip(i));
    vstd::seq_lib::lemma_multiset_commutative(s.take(i), seq![v] + s.skip(i));
    vstd::seq_lib::lemma_multiset_commutative(seq![v], s.skip(i));
    vstd::seq_lib::lemma_multiset_commutative(s.take(i), s.skip(i));
    assert(seq![v] =~= Seq::<A>::empty().push(v));
    assert(Seq::<A>::empty().to_multiset() =~= Multiset::<A>::empty());
    assert(seq![v].to_multiset() =~= Multiset::<A>::empty().insert(v));
}

/// A sequence with the same multiset as a duplicate-free sequence is itself
/// duplicate-free.
pub proof fn lemma_multiset_keeps_distinct<A>(r: Seq<A>, s: Seq<A>)
    requires
        r.to_multiset() == s.to_multiset(),
        forall|a: int, b: int| 0 <= a < s.len() && 0 <= b < s.len() && a != b ==> s[a] != s[b],
    ensures
        forall|a: int, b: int| 0 <= a < r.len() && 0 <= b < r.len() && a != b ==> r[a] != r[b],
{
    broadcast use vstd::seq_lib::group_to_multiset_ensures;
    broadcast use vstd::multiset::group_multiset_axioms;

    assert forall|a: int, b: int|
        0 <= a < r.len() && 0 <= b < r.len() && a != b implies r[a] != r[b] by {
        if r[a] == r[b] {
            let i = if a < b {
                a
            } else {
                b
            };
            let j = if a < b {
                b
            } else {
                a
            };
            // The element sits at two positions, so its count is at least 2.
            assert(r.contains(r[i])) by {
                assert(r[i] == r[i]);
            }
            assert(r.remove(i).to_multiset() =~= r.to_multiset().remove(r[i]));
            assert(r.remove(i)[j - 1] == r[j]);
            assert(r.remove(i).contains(r[j]));
            assert(r.remove(i).to_multiset().count(r[i]) > 0);
            assert(r.to_multiset().count(r[i]) >= 2);
            // In the duplicate-free sequence its count is at most 1.
            assert(s.to_multiset().count(r[i]) >= 2);
            assert(s.contains(r[i]));
            let w = choose|w: int| 0 <= w < s.len() && s[w] == r[i];
            assert(s.remove(w).to_multiset() =~= s.to_multiset().remove(s[w]));
            assert(s.remove(w).to_multiset().count(r[i]) >= 1);
            assert(s.remove(w).contains(r[i]));
            let w2 = choose|w2: int| 0 <= w2 < s.remove(w).len() && s.remove(w)[w2] == r[i];
            let w3 = if w2 < w {
                w2
            } else {
                w2 + 1
            };
            assert(s[w3] == r[i] && w3 != w);
        }
    }
}

/// A list with the same records as a ledger with unique identifiers carries
/// each identifier at most once.
pub proof fn lemma_multiset_keeps_ids_unique(r: Seq<TokenView>, toks: Seq<TokenView>)
    requires
        r.to_multiset() == toks.to_multiset(),
        tokens_unique(toks),
    ensures
        tokens_unique(r),
{
    broadcast use vstd::seq_lib::group_to_multiset_ensures;

    lemma_multiset_keeps_distinct(r, toks);
    assert forall|a: int, b: int|
        0 <= a < r.len() && 0 <= b < r.len() && a != b implies r[a].token_id != r[b].token_id by {
        if r[a].token_id == r[b].token_id {
            assert(r.contains(r[a])) by {
                assert(r[a] == r[a]);
            }
            assert(r.contains(r[b])) by {
                assert(r[b] == r[b]);
            }
            assert(r.to_multiset().count(r[a]) > 0);
            assert(r.to_multiset().count(r[b]) > 0);
            assert(toks.to_multiset().count(r[a]) > 0);
            assert(toks.to_multiset().count(r[b]) > 0);
            assert(toks.contains(r[a]));
            assert(toks.contains(r[b]));
            let wa = choose|w: int| 0 <= w < toks.len() && toks[w] == r[a];
            let wb = choose|w: int| 0 <= w < toks.len() && toks[w] == r[b];
            assert(wa == wb);
        }
    }
}

/// A command that changes neither the identifiers, the owners, the statuses,
/// the counter, nor the owner index keeps the state well-formed.
pub proof fn lemma_wf_same_structure(pre: ContractView, post: ContractView)
    requires
        pre.wf(),
        post.state.total_staked == pre.state.total_staked,
        post.owned == pre.owned,
        post.tokens.len() == pre.tokens.len(),
        forall|m: int|
            0 <= m < pre.tokens.len() ==> #[trigger] post.tokens[m].token_id
                == pre.tokens[m].token_id && post.tokens[m].owner == pre.tokens[m].owner
                && post.tokens[m].status == pre.tokens[m].status,
    ensures
        post.wf(),
{
    lemma_staked_count_same_status(pre.tokens, post.tokens);
    assert(crate::state::listed_ids_live(post)) by {
        assert forall|o: int, i: int|
            0 <= o < post.owned.len() && 0 <= i < post.owned[o].token_ids.len() implies {
            &&& has_token(post.tokens, post.owned[o].token_ids[i])
            &&& token_of(post.tokens, post.owned[o].token_ids[i]).owner == post.owned[o].owner
        } by {
            let x = post.owned[o].token_ids[i];
            assert(has_token(pre.tokens, x));
            let t0 = token_index(pre.tokens, x);
            assert(0 <= t0 < pre.tokens.len() && pre.tokens[t0].token_id == x);
            lemma_token_lookup(post.tokens, t0);
        }
    }
}

/// Scanning a claim batch whose first `k` identifiers are valid: the first
/// error, if any, lies at or after position `k`.
pub proof fn lemma_claim_error_skip(
    toks: Seq<TokenView>,
    sender: Seq<char>,
    ids: Seq<Seq<char>>,
    k: int,
)
    requires
        0 <= k <= ids.len(),
        forall|q: int|
            0 <= q < k ==> has_token(toks, #[trigger] ids[q]) && token_of(toks, ids[q]).owner
                == sender,
    ensures
        claim_error(toks, sender, ids) == claim_error(toks, sender, ids.skip(k)),
    decreases k,
{
    if k > 0 {
        assert(ids.skip(0) =~= ids);
        lemma_claim_error_skip(toks, sender, ids, k - 1);
        let rest = ids.skip(k - 1);
        assert(rest[0] == ids[k - 1]);
        assert(rest.drop_first() =~= ids.skip(k));
    } else {
        assert(ids.skip(0) =~= ids);
    }
}

/// A batch that is valid throughout scans to no error.
pub proof fn lemma_claim_error_none(toks: Seq<TokenView>, sender: Seq<char>, ids: Seq<Seq<char>>)
    requires
        forall|q: int|
            0 <= q < ids.len() ==> has_token(toks, #[trigger] ids[q]) && token_of(
                toks,
                ids[q],
            ).owner == sender,
    ensures
        claim_error(toks, sender, ids) == None::<ContractError>,
{
    lemma_claim_error_skip(toks, sender, ids, ids.len() as int);
    assert(ids.skip(ids.len() as int).len() == 0);
}

} // verus!
