//! The mathematical model shared by the index-based graphs: edges as
//! (source, target) pairs in insertion order, and the intrusive chains that
//! thread each node's edges newest first.
use vstd::prelude::*;

verus! {

/// The end of an edge that a chain follows: its source for outbound chains,
/// its target for inbound ones.
pub open spec fn end_of(e: (nat, nat), outbound: bool) -> nat {
    if outbound {
        e.0
    } else {
        e.1
    }
}

/// Indices of the edges whose chosen end is `n`, most recently inserted first.
pub open spec fn incident(es: Seq<(nat, nat)>, n: nat, outbound: bool) -> Seq<nat>
    decreases es.len(),
{
    if es.len() == 0 {
        Seq::empty()
    } else {
        let k = es.len() - 1;
        let rest = incident(es.take(k), n, outbound);
        if end_of(es[k], outbound) == n {
            seq![k as nat] + rest
        } else {
            rest
        }
    }
}

/// The most recently inserted edge whose chosen end is `n`, if any.
pub open spec fn newest(es: Seq<(nat, nat)>, n: nat, outbound: bool) -> Option<nat>
    decreases es.len(),
{
    if es.len() == 0 {
        None
    } else {
        let k = es.len() - 1;
        if end_of(es[k], outbound) == n {
            Some(k as nat)
        } else {
            newest(es.take(k), n, outbound)
        }
    }
}

/// What a walk along a chain yields from a cursor on.
pub open spec fn walk(es: Seq<(nat, nat)>, cursor: Option<nat>, outbound: bool) -> Seq<nat> {
    match cursor {
        None => Seq::empty(),
        Some(e) => seq![e] + incident(es.take(e as int), end_of(es[e as int], outbound), outbound),
    }
}

/// Each edge's link continues the chain of its chosen end.
pub open spec fn links_ok(es: Seq<(nat, nat)>, next: Seq<Option<nat>>, outbound: bool) -> bool {
    &&& next.len() == es.len()
    &&& forall|i: int|
        0 <= i < es.len() ==> #[trigger] next[i] == newest(es.take(i), end_of(es[i], outbound), outbound)
}

/// Each node's head starts the chain of its edges.
pub open spec fn heads_ok(es: Seq<(nat, nat)>, heads: Seq<Option<nat>>, outbound: bool) -> bool {
    forall|n: int| 0 <= n < heads.len() ==> #[trigger] heads[n] == newest(es, n as nat, outbound)
}

/// Every edge joins two nodes below `count`.
pub open spec fn ends_below(es: Seq<(nat, nat)>, count: nat) -> bool {
    forall|i: int| 0 <= i < es.len() ==> (#[trigger] es[i]).0 < count && es[i].1 < count
}

/// The newest edge of a node is one of its edges, and the chain goes on from it.
pub proof fn lemma_newest_starts_chain(es: Seq<(nat, nat)>, n: nat, outbound: bool)
    ensures
        incident(es, n, outbound) == walk(es, newest(es, n, outbound), outbound),
        newest(es, n, outbound) matches Some(e) ==> e < es.len() && end_of(es[e as int], outbound) == n,
    decreases es.len(),
{
    if es.len() > 0 {
        let k = es.len() - 1;
        let pre = es.take(k);
        lemma_newest_starts_chain(pre, n, outbound);
        if end_of(es[k], outbound) != n {
            if let Some(e) = newest(pre, n, outbound) {
                assert(pre.take(e as int) =~= es.take(e as int));
                assert(pre[e as int] == es[e as int]);
            }
        }
    }
}

/// Adding an edge puts it at the front of the chains of its ends.
pub proof fn lemma_push(es: Seq<(nat, nat)>, x: (nat, nat), n: nat, outbound: bool)
    ensures
        incident(es.push(x), n, outbound) == (if end_of(x, outbound) == n {
            seq![es.len()] + incident(es, n, outbound)
        } else {
            incident(es, n, outbound)
        }),
        newest(es.push(x), n, outbound) == (if end_of(x, outbound) == n {
            Some(es.len())
        } else {
            newest(es, n, outbound)
        }),
{
    assert(es.push(x).take(es.len() as int) =~= es);
}

/// After an edge is added, the links of the earlier edges still hold.
pub proof fn lemma_links_push(es: Seq<(nat, nat)>, next: Seq<Option<nat>>, x: (nat, nat), outbound: bool)
    requires
        links_ok(es, next, outbound),
    ensures
        links_ok(es.push(x), next.push(newest(es, end_of(x, outbound), outbound)), outbound),
{
    let es2 = es.push(x);
    let next2 = next.push(newest(es, end_of(x, outbound), outbound));
    assert forall|i: int| 0 <= i < es2.len() implies #[trigger] next2[i] == newest(
        es2.take(i),
        end_of(es2[i], outbound),
        outbound,
    ) by {
        if i < es.len() {
            assert(es2.take(i) =~= es.take(i));
        } else {
            assert(es2.take(i) =~= es);
        }
    }
}

/// A node has no more edges than the graph.
pub proof fn lemma_incident_len(es: Seq<(nat, nat)>, n: nat, outbound: bool)
    ensures
        incident(es, n, outbound).len() <= es.len(),
    decreases es.len(),
{
    if es.len() > 0 {
        lemma_incident_len(es.take(es.len() - 1), n, outbound);
    }
}

/// One step of a walk: the link of the edge under the cursor leads to the rest
/// of the chain.
pub proof fn lemma_walk_step(es: Seq<(nat, nat)>, next: Seq<Option<nat>>, e: nat, outbound: bool)
    requires
        links_ok(es, next, outbound),
        e < es.len(),
    ensures
        walk(es, Some(e), outbound) == seq![e] + walk(es, next[e as int], outbound),
        next[e as int] matches Some(f) ==> f < e && end_of(es[f as int], outbound) == end_of(es[e as int], outbound),
{
    let pre = es.take(e as int);
    let m = end_of(es[e as int], outbound);
    lemma_newest_starts_chain(pre, m, outbound);
    if let Some(f) = next[e as int] {
        assert(pre.take(f as int) =~= es.take(f as int));
        assert(pre[f as int] == es[f as int]);
    }
}

/// A walk yields no more edges than there are.
pub proof fn lemma_walk_len(es: Seq<(nat, nat)>, cursor: Option<nat>, outbound: bool)
    requires
        cursor matches Some(e) ==> e < es.len(),
    ensures
        walk(es, cursor, outbound).len() <= es.len(),
{
    if let Some(e) = cursor {
        lemma_incident_len(es.take(e as int), end_of(es[e as int], outbound), outbound);
    }
}

/// Edges added one after another with the same end come out of its chain in
/// the reverse of the order they were added, ahead of the older ones.
pub proof fn lemma_chain_reverse(es: Seq<(nat, nat)>, extra: Seq<(nat, nat)>, n: nat, outbound: bool)
    requires
        forall|j: int| 0 <= j < extra.len() ==> end_of(#[trigger] extra[j], outbound) == n,
    ensures
        incident(es + extra, n, outbound) == Seq::new(extra.len(), |j: int| (es.len() + extra.len() - 1 - j) as nat)
            + incident(es, n, outbound),
    decreases extra.len(),
{
    if extra.len() == 0 {
        assert(es + extra =~= es);
        assert(Seq::new(0, |j: int| (es.len() + extra.len() - 1 - j) as nat) =~= Seq::<nat>::empty());
        assert(incident(es + extra, n, outbound) =~= Seq::<nat>::empty() + incident(es, n, outbound));
    } else {
        let k = extra.len() - 1;
        let pre = extra.take(k);
        lemma_chain_reverse(es, pre, n, outbound);
        assert(es + extra =~= (es + pre).push(extra[k]));
        lemma_push(es + pre, extra[k], n, outbound);
        let f = |j: int| (es.len() + extra.len() - 1 - j) as nat;
        let g = |j: int| (es.len() + pre.len() - 1 - j) as nat;
        assert(Seq::new(extra.len(), f) =~= seq![(es.len() + k) as nat] + Seq::new(pre.len(), g));
    }
}

/// A node added with empty chains leaves every head right.
pub proof fn lemma_heads_fresh(es: Seq<(nat, nat)>, heads: Seq<Option<nat>>, outbound: bool)
    requires
        heads_ok(es, heads, outbound),
        ends_below(es, heads.len()),
    ensures
        heads_ok(es, heads.push(None), outbound),
{
    let after = heads.push(None);
    assert forall|n: int| 0 <= n < after.len() implies #[trigger] after[n] == newest(es, n as nat, outbound) by {
        if n == heads.len() {
            lemma_newest_starts_chain(es, n as nat, outbound);
            if let Some(e) = newest(es, n as nat, outbound) {
                assert(es[e as int].0 < n && es[e as int].1 < n);
            }
        } else {
            assert(heads[n] == newest(es, n as nat, outbound));
        }
    }
}

/// An added edge becomes the head of the chain of its end; other heads stay.
pub proof fn lemma_heads_push(es: Seq<(nat, nat)>, x: (nat, nat), heads: Seq<Option<nat>>, outbound: bool)
    requires
        heads_ok(es, heads, outbound),
        end_of(x, outbound) < heads.len(),
    ensures
        heads_ok(es.push(x), heads.update(end_of(x, outbound) as int, Some(es.len())), outbound),
{
    let after = heads.update(end_of(x, outbound) as int, Some(es.len()));
    assert forall|n: int| 0 <= n < after.len() implies #[trigger] after[n] == newest(es.push(x), n as nat, outbound) by {
        lemma_push(es, x, n as nat, outbound);
        if n != end_of(x, outbound) {
            assert(heads[n] == newest(es, n as nat, outbound));
        }
    }
}

/// A node above every edge's ends has no edges.
pub proof fn lemma_incident_absent(es: Seq<(nat, nat)>, n: nat, outbound: bool)
    requires
        ends_below(es, n),
    ensures
        incident(es, n, outbound) == Seq::<nat>::empty(),
    decreases es.len(),
{
    if es.len() > 0 {
        let pre = es.take(es.len() - 1);
        assert(ends_below(pre, n)) by {
            assert forall|i: int| 0 <= i < pre.len() implies (#[trigger] pre[i]).0 < n && pre[i].1 < n by {
                assert(pre[i] == es[i]);
            }
        }
        lemma_incident_absent(pre, n, outbound);
        assert(es[es.len() - 1].0 < n && es[es.len() - 1].1 < n);
    }
}

/// Each edge in a node's chain is an edge of the graph with that node at
/// the chosen end.
pub proof fn lemma_incident_members(es: Seq<(nat, nat)>, n: nat, outbound: bool)
    ensures
        forall|j: int|
            0 <= j < incident(es, n, outbound).len() ==> #[trigger] incident(es, n, outbound)[j] < es.len()
                && end_of(es[incident(es, n, outbound)[j] as int], outbound) == n,
    decreases es.len(),
{
    if es.len() > 0 {
        let k = es.len() - 1;
        let pre = es.take(k);
        lemma_incident_members(pre, n, outbound);
        let s = incident(es, n, outbound);
        assert forall|j: int| 0 <= j < s.len() implies #[trigger] s[j] < es.len() && end_of(es[s[j] as int], outbound) == n by {
            if end_of(es[k], outbound) == n {
                if j > 0 {
                    assert(s[j] == incident(pre, n, outbound)[j - 1]);
                    assert(pre[s[j] as int] == es[s[j] as int]);
                }
            } else {
                assert(s[j] == incident(pre, n, outbound)[j]);
                assert(pre[s[j] as int] == es[s[j] as int]);
            }
        }
    }
}

} // verus!
