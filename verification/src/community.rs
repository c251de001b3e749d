//! Partition bookkeeping for hierarchical community detection.
//!
//! Detection works level by level on ever coarser graphs. A partition
//! gives each node of the working graph a community id; the chain maps
//! each working node back to the nodes of the original graph it stands
//! for. These functions follow partitions through the chain, renumber
//! them, and emit the communities of every level in a stable order.

use vstd::prelude::*;

use crate::text::{decimal, decimal_string};
use vstd::string::StringExecFns;

verus! {

broadcast use vstd::seq_lib::group_to_multiset_ensures;

/// One community of one level; `members` are indices of original nodes.
#[derive(Debug, Clone, PartialEq, Eq)]
pub struct DetectedCommunity {
    pub level: u32,
    /// `c-{level}-{seq}`, `seq` being the community's place in its
    /// level's order.
    pub local_id: String,
    pub members: Vec<usize>,
}

/// Why detection could not run.
#[derive(Debug, Clone, Copy, PartialEq, Eq)]
pub enum DetectionError {
    /// The graph has no nodes.
    EmptyGraph,
}

impl DetectionError {
    /// The error's message.
    pub fn message(&self) -> (r: &'static str)
        ensures
            r@ == "community detection input graph is empty"@,
    {
        "community detection input graph is empty"
    }
}

// ---------------------------------------------------------------------------
// Following the chain
// ---------------------------------------------------------------------------

/// The last working node before `k` that stands for original node `o`.
pub open spec fn last_owner(chain: Seq<Vec<usize>>, k: int, o: usize) -> Option<int>
    decreases k,
{
    if k <= 0 {
        None
    } else if chain[k - 1]@.contains(o) {
        Some(k - 1)
    } else {
        last_owner(chain, k - 1, o)
    }
}

/// Every original node the chain names for the partition's nodes is
/// below `n`.
pub open spec fn chain_within(partition: Seq<usize>, chain: Seq<Vec<usize>>, n: usize) -> bool {
    &&& partition.len() <= chain.len()
    &&& forall|c: int, k: int| 0 <= c < partition.len() && 0 <= k < chain[c]@.len() ==> #[trigger] chain[c]@[k] < n
}

/// Each original node's community: that of the last working node
/// standing for it, or 0 when none does.
pub fn project_to_original(partition: &[usize], current_to_original: &[Vec<usize>], original_count: usize) -> (r: Vec<usize>)
    requires
        chain_within(partition@, current_to_original@, original_count),
    ensures
        r@.len() == original_count,
        forall|o: int|
            0 <= o < original_count ==> #[trigger] r@[o] == match last_owner(
                current_to_original@,
                partition@.len() as int,
                o as usize,
            ) {
                Some(c) => partition@[c],
                None => 0,
            },
{
    let ghost chain = current_to_original@;
    let mut assignments: Vec<usize> = Vec::new();
    let mut x: usize = 0;
    while x < original_count
        invariant
            x <= original_count,
            assignments@.len() == x,
            forall|o: int| 0 <= o < x ==> assignments@[o] == 0,
        decreases original_count - x,
    {
        assignments.push(0);
        x = x + 1;
    }
    let mut c: usize = 0;
    while c < partition.len()
        invariant
            c <= partition@.len(),
            chain == current_to_original@,
            chain_within(partition@, chain, original_count),
            assignments@.len() == original_count,
            forall|o: int|
                0 <= o < original_count ==> #[trigger] assignments@[o] == match last_owner(chain, c as int, o as usize) {
                    Some(w) => partition@[w],
                    None => 0,
                },
        decreases partition@.len() - c,
    {
        let members = &current_to_original[c];
        let ghost before = assignments@;
        let mut k: usize = 0;
        while k < members.len()
            invariant
                c < partition@.len(),
                k <= members@.len(),
                chain == current_to_original@,
                *members == chain[c as int],
                chain_within(partition@, chain, original_count),
                assignments@.len() == original_count,
                forall|o: int|
                    0 <= o < original_count ==> #[trigger] assignments@[o] == if members@.take(k as int).contains(
                        o as usize,
                    ) {
                        partition@[c as int]
                    } else {
                        before[o]
                    },
            decreases members@.len() - k,
        {
            let o = members[k];
            assert(chain[c as int]@[k as int] < original_count);
            assignments[o] = partition[c];
            let ghost t1 = members@.take(k + 1);
            let ghost t0 = members@.take(k as int);
            assert forall|p: int| 0 <= p < original_count implies #[trigger] assignments@[p] == if t1.contains(
                p as usize,
            ) {
                partition@[c as int]
            } else {
                before[p]
            } by {
                if t1.contains(p as usize) && p != o {
                    let j = choose|j: int| 0 <= j < t1.len() && #[trigger] t1[j] == p as usize;
                    assert(t0[j] == p as usize);
                }
                if t0.contains(p as usize) {
                    let j = choose|j: int| 0 <= j < t0.len() && #[trigger] t0[j] == p as usize;
                    assert(t1[j] == p as usize);
                }
                if p == o {
                    assert(t1[k as int] == o);
                }
            }
            k = k + 1;
        }
        assert(members@.take(members@.len() as int) =~= members@);
        c = c + 1;
    }
    assignments
}

/// The original nodes aggregate node `a` stands for: those of each
/// working node refined into `a`, in working-node order.
pub open spec fn gathered(refined: Seq<usize>, chain: Seq<Vec<usize>>, a: usize, k: int) -> Seq<usize>
    decreases k,
{
    if k <= 0 {
        Seq::empty()
    } else {
        gathered(refined, chain, a, k - 1) + if refined[k - 1] == a {
            chain[k - 1]@
        } else {
            Seq::empty()
        }
    }
}

/// For each aggregate node, the original nodes it stands for.
pub fn chain_membership(refined: &[usize], current_to_original: &[Vec<usize>], aggregate_node_count: usize) -> (r: Vec<Vec<usize>>)
    requires
        refined@.len() <= current_to_original@.len(),
        forall|c: int| 0 <= c < refined@.len() ==> #[trigger] refined@[c] < aggregate_node_count,
    ensures
        r@.len() == aggregate_node_count,
        forall|a: int|
            0 <= a < aggregate_node_count ==> (#[trigger] r@[a])@ == gathered(
                refined@,
                current_to_original@,
                a as usize,
                refined@.len() as int,
            ),
{
    let ghost chain = current_to_original@;
    let mut next: Vec<Vec<usize>> = Vec::new();
    let mut x: usize = 0;
    while x < aggregate_node_count
        invariant
            x <= aggregate_node_count,
            next@.len() == x,
            forall|a: int| 0 <= a < x ==> (#[trigger] next@[a])@ == Seq::<usize>::empty(),
        decreases aggregate_node_count - x,
    {
        next.push(Vec::new());
        x = x + 1;
    }
    let mut c: usize = 0;
    while c < refined.len()
        invariant
            c <= refined@.len(),
            chain == current_to_original@,
            refined@.len() <= chain.len(),
            forall|w: int| 0 <= w < refined@.len() ==> #[trigger] refined@[w] < aggregate_node_count,
            next@.len() == aggregate_node_count,
            forall|a: int|
                0 <= a < aggregate_node_count ==> (#[trigger] next@[a])@ == gathered(refined@, chain, a as usize, c as int),
        decreases refined@.len() - c,
    {
        let agg = refined[c];
        let mut group = crate::model::replace_at(&mut next, agg, Vec::new());
        let ghost start = group@;
        let members = &current_to_original[c];
        let mut k: usize = 0;
        while k < members.len()
            invariant
                k <= members@.len(),
                group@ == start + members@.take(k as int),
            decreases members@.len() - k,
        {
            group.push(members[k]);
            assert(members@.take(k + 1) =~= members@.take(k as int).push(members@[k as int]));
            assert(group@ =~= start + members@.take(k + 1));
            k = k + 1;
        }
        assert(members@.take(members@.len() as int) =~= members@);
        crate::model::replace_at(&mut next, agg, group);
        assert forall|a: int| 0 <= a < aggregate_node_count implies (#[trigger] next@[a])@ == gathered(
            refined@,
            chain,
            a as usize,
            c + 1,
        ) by {
            if a == agg as int {
                assert(gathered(refined@, chain, a as usize, c + 1) == gathered(refined@, chain, a as usize, c as int)
                    + chain[c as int]@);
            } else {
                assert(gathered(refined@, chain, a as usize, c + 1) =~= gathered(
                    refined@,
                    chain,
                    a as usize,
                    c as int,
                ));
            }
        }
        c = c + 1;
    }
    next
}

// ---------------------------------------------------------------------------
// Renumbering
// ---------------------------------------------------------------------------

/// The distinct community ids in order of first appearance.
pub open spec fn first_appearance(s: Seq<usize>) -> Seq<usize>
    decreases s.len(),
{
    if s.len() == 0 {
        Seq::empty()
    } else {
        let f = first_appearance(s.drop_last());
        if f.contains(s.last()) {
            f
        } else {
            f.push(s.last())
        }
    }
}

/// Whether every node is its own community: there are exactly `n`
/// distinct community ids.
pub fn is_singleton_partition(partition: &[usize], n: usize) -> (r: bool)
    ensures
        r == (partition@.to_set().len() == n),
{
    broadcast use vstd::seq_lib::seq_to_set_is_finite;
    broadcast use vstd::set::axiom_set_insert_len;

    let mut count: usize = 0;
    let mut i: usize = 0;
    assert(partition@.take(0).to_set() =~= Set::<usize>::empty());
    while i < partition.len()
        invariant
            i <= partition@.len(),
            count == partition@.take(i as int).to_set().len(),
            count <= i,
        decreases partition@.len() - i,
    {
        let x = partition[i];
        let mut seen = false;
        let mut j: usize = 0;
        while j < i
            invariant
                j <= i,
                i < partition@.len(),
                x == partition@[i as int],
                seen == partition@.take(j as int).contains(x),
            decreases i - j,
        {
            if partition[j] == x {
                assert(partition@.take(j + 1)[j as int] == x);
                seen = true;
            }
            proof {
                let t0 = partition@.take(j as int);
                let t1 = partition@.take(j + 1);
                if t0.contains(x) {
                    let w = choose|w: int| 0 <= w < t0.len() && #[trigger] t0[w] == x;
                    assert(t1[w] == x);
                }
                if t1.contains(x) && partition@[j as int] != x {
                    let w = choose|w: int| 0 <= w < t1.len() && #[trigger] t1[w] == x;
                    assert(t0[w] == x);
                }
            }
            j = j + 1;
        }
        assert(partition@.take(i + 1).to_set() =~= partition@.take(i as int).to_set().insert(x)) by {
            let t0 = partition@.take(i as int);
            let t1 = partition@.take(i + 1);
            assert forall|y: usize| #[trigger] t1.contains(y) == (t0.contains(y) || y == x) by {
                if t1.contains(y) && y != x {
                    let w = choose|w: int| 0 <= w < t1.len() && #[trigger] t1[w] == y;
                    assert(t0[w] == y);
                }
                if t0.contains(y) {
                    let w = choose|w: int| 0 <= w < t0.len() && #[trigger] t0[w] == y;
                    assert(t1[w] == y);
                }
                if y == x {
                    assert(t1[i as int] == y);
                }
            }
        }
        assert(partition@.take(i as int).to_set().contains(x) == seen);
        if !seen {
            count = count + 1;
        }
        i = i + 1;
    }
    assert(partition@.take(partition@.len() as int) =~= partition@);
    count == n
}

/// Facts about [`first_appearance`]: it lists each id of `s` once.
pub proof fn lemma_first_appearance(s: Seq<usize>)
    ensures
        first_appearance(s).no_duplicates(),
        forall|x: usize| #[trigger] first_appearance(s).contains(x) == s.contains(x),
    decreases s.len(),
{
    if s.len() > 0 {
        let p = s.drop_last();
        lemma_first_appearance(p);
        assert forall|x: usize| #[trigger] s.contains(x) == (p.contains(x) || x == s.last()) by {
            if s.contains(x) && x != s.last() {
                let k = choose|k: int| 0 <= k < s.len() && s[k] == x;
                assert(p[k] == x);
            }
            if p.contains(x) {
                let k = choose|k: int| 0 <= k < p.len() && p[k] == x;
                assert(s[k] == x);
            }
            if x == s.last() {
                assert(s[s.len() - 1] == x);
            }
        }
        let f = first_appearance(p);
        if !f.contains(s.last()) {
            assert forall|x: usize| #[trigger] f.push(s.last()).contains(x) == (f.contains(x) || x == s.last()) by {
                if f.push(s.last()).contains(x) && x != s.last() {
                    let k = choose|k: int| 0 <= k < f.len() + 1 && f.push(s.last())[k] == x;
                    assert(f[k] == x);
                }
                if f.contains(x) {
                    let k = choose|k: int| 0 <= k < f.len() && f[k] == x;
                    assert(f.push(s.last())[k] == x);
                }
                if x == s.last() {
                    assert(f.push(s.last())[f.len() as int] == x);
                }
            }
        }
    }
}

/// Community ids renumbered densely by first appearance: a node's new
/// id is the place of its old id in [`first_appearance`].
pub fn densify_partition(partition: &[usize]) -> (r: Vec<usize>)
    ensures
        r@.len() == partition@.len(),
        first_appearance(partition@).no_duplicates(),
        forall|i: int|
            0 <= i < partition@.len() ==> (#[trigger] r@[i]) < first_appearance(partition@).len()
                && first_appearance(partition@)[r@[i] as int] == partition@[i],
        forall|i: int, j: int|
            0 <= i < partition@.len() && 0 <= j < partition@.len() ==> ((#[trigger] r@[i] == #[trigger] r@[j])
                <==> partition@[i] == partition@[j]),
{
    let mut seen: Vec<usize> = Vec::new();
    let mut dense: Vec<usize> = Vec::new();
    let mut i: usize = 0;
    assert(partition@.take(0) =~= Seq::<usize>::empty());
    while i < partition.len()
        invariant
            i <= partition@.len(),
            seen@ == first_appearance(partition@.take(i as int)),
            seen@.len() <= i,
            dense@.len() == i,
            forall|k: int| 0 <= k < i ==> (#[trigger] dense@[k]) < seen@.len() && seen@[dense@[k] as int] == partition@[k],
        decreases partition@.len() - i,
    {
        let x = partition[i];
        assert(partition@.take(i + 1).drop_last() =~= partition@.take(i as int));
        assert(partition@.take(i + 1).last() == x);
        let mut j: usize = 0;
        while j < seen.len() && seen[j] != x
            invariant
                j <= seen@.len(),
                forall|w: int| 0 <= w < j ==> seen@[w] != x,
            decreases seen@.len() - j,
        {
            j = j + 1;
        }
        let ghost before = seen@;
        if j < seen.len() {
            assert(before.contains(x));
            dense.push(j);
        } else {
            assert(!before.contains(x));
            dense.push(seen.len());
            seen.push(x);
        }
        i = i + 1;
    }
    assert(partition@.take(partition@.len() as int) =~= partition@);
    proof {
        lemma_first_appearance(partition@);
        let f = first_appearance(partition@);
        assert forall|i: int, j: int|
            0 <= i < partition@.len() && 0 <= j < partition@.len() implies ((#[trigger] dense@[i]
                == #[trigger] dense@[j]) <==> partition@[i] == partition@[j]) by {
            if partition@[i] == partition@[j] && dense@[i] != dense@[j] {
                assert(f[dense@[i] as int] == f[dense@[j] as int]);
            }
        }
    }
    dense
}

// ---------------------------------------------------------------------------
// Emission
// ---------------------------------------------------------------------------

/// The nodes in community `v`, ascending.
pub open spec fn members_of(a: Seq<usize>, v: usize) -> Seq<usize>
    decreases a.len(),
{
    if a.len() == 0 {
        Seq::empty()
    } else {
        members_of(a.drop_last(), v) + if a.last() == v {
            seq![(a.len() - 1) as usize]
        } else {
            Seq::empty()
        }
    }
}

/// Members of each community.
pub open spec fn group_of(a: Seq<usize>) -> spec_fn(usize) -> Seq<usize> {
    |v: usize| members_of(a, v)
}

/// The communities of a level, as member lists, in order of first
/// appearance.
pub open spec fn community_groups(a: Seq<usize>) -> Seq<Seq<usize>> {
    first_appearance(a).map_values(group_of(a))
}

/// Emission order: larger communities first, then the one with the
/// lower first member.
pub open spec fn group_before(g: Seq<usize>, h: Seq<usize>) -> bool {
    g.len() > h.len() || (g.len() == h.len() && g.len() > 0 && g[0] < h[0])
}

/// `gs` holds the communities of a level, each once, in emission order.
pub open spec fn in_emission_order(a: Seq<usize>, gs: Seq<Seq<usize>>) -> bool {
    &&& gs.to_multiset() == community_groups(a).to_multiset()
    &&& forall|i: int, j: int| 0 <= i < j < gs.len() ==> group_before(#[trigger] gs[i], #[trigger] gs[j])
}

/// The id of community number `seq` of level `level`.
pub open spec fn community_id(level: int, seq: int) -> Seq<char> {
    "c-"@ + decimal(level as nat) + "-"@ + decimal(seq as nat)
}

/// The member lists of vectors of members.
pub open spec fn member_lists(gs: Seq<Vec<usize>>) -> Seq<Seq<usize>> {
    gs.map_values(|g: Vec<usize>| g@)
}

/// Members of emitted communities.
pub open spec fn members_fn() -> spec_fn(DetectedCommunity) -> Seq<usize> {
    |d: DetectedCommunity| d.members@
}

/// `out` is the emission of one level: its communities in emission
/// order, numbered from zero.
pub open spec fn emits_level(out: Seq<DetectedCommunity>, level: usize, a: Seq<usize>) -> bool {
    &&& out.len() == first_appearance(a).len()
    &&& forall|k: int|
        0 <= k < out.len() ==> (#[trigger] out[k]).level == level as u32 && out[k].local_id@ == community_id(
            level as int,
            k,
        )
    &&& in_emission_order(a, out.map_values(members_fn()))
}

/// Where each level starts in the emission of all levels.
pub open spec fn level_offset(levels: Seq<Vec<usize>>, l: int) -> int
    decreases l,
{
    if l <= 0 {
        0
    } else {
        level_offset(levels, l - 1) + first_appearance(levels[l - 1]@).len()
    }
}

/// Level offsets never decrease.
proof fn lemma_level_offset_monotone(levels: Seq<Vec<usize>>, m: int, n: int)
    requires
        0 <= m <= n,
    ensures
        0 <= level_offset(levels, m) <= level_offset(levels, n),
    decreases n,
{
    if m < n {
        lemma_level_offset_monotone(levels, m, n - 1);
    } else if n > 0 {
        lemma_level_offset_monotone(levels, n - 1, n - 1);
    }
}

/// Members of a community lie in the level and belong to it.
pub proof fn lemma_members_of(a: Seq<usize>, v: usize)
    requires
        a.len() <= usize::MAX,
    ensures
        forall|k: int|
            0 <= k < members_of(a, v).len() ==> (#[trigger] members_of(a, v)[k]) < a.len() && a[members_of(a, v)[k] as int]
                == v,
        a.contains(v) ==> members_of(a, v).len() > 0,
    decreases a.len(),
{
    if a.len() > 0 {
        let p = a.drop_last();
        lemma_members_of(p, v);
        let m = members_of(a, v);
        let mp = members_of(p, v);
        if a.last() == v {
            assert(m =~= mp.push((a.len() - 1) as usize));
        } else {
            assert(m =~= mp);
        }
        assert forall|k: int| 0 <= k < m.len() implies (#[trigger] m[k]) < a.len() && a[m[k] as int] == v by {
            if k < mp.len() {
                assert(m[k] == mp[k]);
                assert(a[mp[k] as int] == p[mp[k] as int]);
            } else {
                assert(a.last() == v);
                assert(m[k] == (a.len() - 1) as usize);
            }
        }
        if a.contains(v) && a.last() != v {
            let k = choose|k: int| 0 <= k < a.len() && a[k] == v;
            assert(p[k] == v);
        }
    }
}

/// Two different communities of a level are ordered one way or the
/// other.
proof fn lemma_groups_ordered(a: Seq<usize>, w1: int, w2: int)
    requires
        a.len() <= usize::MAX,
        0 <= w1 < first_appearance(a).len(),
        0 <= w2 < first_appearance(a).len(),
        w1 != w2,
    ensures
        group_before(community_groups(a)[w1], community_groups(a)[w2]) || group_before(
            community_groups(a)[w2],
            community_groups(a)[w1],
        ),
        community_groups(a)[w1].len() > 0,
{
    lemma_first_appearance(a);
    let f = first_appearance(a);
    let v1 = f[w1];
    let v2 = f[w2];
    assert(f.contains(v1) && f.contains(v2));
    lemma_members_of(a, v1);
    lemma_members_of(a, v2);
    let g1 = members_of(a, v1);
    let g2 = members_of(a, v2);
    assert(community_groups(a)[w1] == g1);
    assert(community_groups(a)[w2] == g2);
    assert(v1 != v2);
    if g1.len() == g2.len() {
        assert(a[g1[0] as int] == v1);
        assert(a[g2[0] as int] == v2);
    }
}

fn distinct_values(a: &Vec<usize>) -> (r: Vec<usize>)
    ensures
        r@ == first_appearance(a@),
{
    let mut seen: Vec<usize> = Vec::new();
    let mut i: usize = 0;
    assert(a@.take(0) =~= Seq::<usize>::empty());
    while i < a.len()
        invariant
            i <= a@.len(),
            seen@ == first_appearance(a@.take(i as int)),
        decreases a@.len() - i,
    {
        let x = a[i];
        assert(a@.take(i + 1).drop_last() =~= a@.take(i as int));
        assert(a@.take(i + 1).last() == x);
        let mut j: usize = 0;
        while j < seen.len() && seen[j] != x
            invariant
                j <= seen@.len(),
                forall|w: int| 0 <= w < j ==> seen@[w] != x,
            decreases seen@.len() - j,
        {
            j = j + 1;
        }
        if j == seen.len() {
            seen.push(x);
        }
        i = i + 1;
    }
    assert(a@.take(a@.len() as int) =~= a@);
    seen
}

fn members_in(a: &Vec<usize>, v: usize) -> (r: Vec<usize>)
    ensures
        r@ == members_of(a@, v),
{
    let mut out: Vec<usize> = Vec::new();
    let mut i: usize = 0;
    assert(a@.take(0) =~= Seq::<usize>::empty());
    while i < a.len()
        invariant
            i <= a@.len(),
            out@ == members_of(a@.take(i as int), v),
        decreases a@.len() - i,
    {
        assert(a@.take(i + 1).drop_last() =~= a@.take(i as int));
        assert(a@.take(i + 1).last() == a@[i as int]);
        if a[i] == v {
            out.push(i);
        }
        assert(out@ =~= members_of(a@.take(i + 1), v));
        i = i + 1;
    }
    assert(a@.take(a@.len() as int) =~= a@);
    out
}

fn comes_before(g: &Vec<usize>, h: &Vec<usize>) -> (r: bool)
    ensures
        r == group_before(g@, h@),
{
    g.len() > h.len() || (g.len() == h.len() && g.len() > 0 && g[0] < h[0])
}

/// The communities of one level, in emission order, numbered from zero.
pub fn emit_level(level_idx: usize, assignments: &Vec<usize>) -> (r: Vec<DetectedCommunity>)
    ensures
        emits_level(r@, level_idx, assignments@),
{
    let ghost a = assignments@;
    let ghost all = community_groups(a);
    let n = assignments.len();
    let values = distinct_values(assignments);
    proof {
        lemma_first_appearance(a);
    }
    let mut groups: Vec<Vec<usize>> = Vec::new();
    let mut i: usize = 0;
    assert(all.subrange(0, 0) =~= Seq::<Seq<usize>>::empty());
    while i < values.len()
        invariant
            i <= values@.len(),
            a == assignments@,
            a.len() == n,
            all == community_groups(a),
            values@ == first_appearance(a),
            all.len() == values@.len(),
            member_lists(groups@).to_multiset() == all.subrange(0, i as int).to_multiset(),
            forall|p: int, q: int| 0 <= p < q < groups@.len() ==> group_before(#[trigger] groups@[p]@, #[trigger] groups@[q]@),
            forall|p: int|
                0 <= p < groups@.len() ==> exists|w: int| 0 <= w < i && (#[trigger] groups@[p])@ == all[w],
        decreases values@.len() - i,
    {
        let g = members_in(assignments, values[i]);
        assert(g@ == all[i as int]);
        let ghost s = member_lists(groups@);
        let mut j: usize = 0;
        while j < groups.len() && !comes_before(&g, &groups[j])
            invariant
                j <= groups@.len(),
                forall|p: int| 0 <= p < j ==> !group_before(g@, (#[trigger] groups@[p])@),
            decreases groups@.len() - j,
        {
            j = j + 1;
        }
        let ghost old_groups = groups@;
        groups.insert(j, g);
        proof {
            let s2 = member_lists(groups@);
            assert(s2 =~= s.insert(j as int, g@));
            crate::model::lemma_insert_multiset(s, j as int, g@);
            assert(all.subrange(0, i + 1) =~= all.subrange(0, i as int).push(all[i as int]));
            // every earlier group is a different community from `g`
            assert forall|p: int| 0 <= p < old_groups.len() implies group_before(
                (#[trigger] old_groups[p])@,
                g@,
            ) || group_before(g@, old_groups[p]@) by {
                let w = choose|w: int| 0 <= w < i && old_groups[p]@ == all[w];
                lemma_groups_ordered(a, w, i as int);
            }
            assert forall|p: int, q: int| 0 <= p < q < groups@.len() implies group_before(
                #[trigger] groups@[p]@,
                #[trigger] groups@[q]@,
            ) by {
                if q < j {
                    assert(groups@[p] == old_groups[p] && groups@[q] == old_groups[q]);
                } else if q == j {
                    assert(groups@[p] == old_groups[p]);
                    assert(!group_before(g@, old_groups[p]@));
                } else if p == j {
                    assert(groups@[q] == old_groups[q - 1]);
                    assert(group_before(g@, old_groups[j as int]@));
                    if q - 1 > j {
                        assert(group_before(old_groups[j as int]@, old_groups[q - 1]@));
                    }
                } else if p < j {
                    assert(groups@[p] == old_groups[p] && groups@[q] == old_groups[q - 1]);
                } else {
                    assert(groups@[p] == old_groups[p - 1] && groups@[q] == old_groups[q - 1]);
                }
            }
            assert forall|p: int| 0 <= p < groups@.len() implies exists|w: int|
                0 <= w < i + 1 && (#[trigger] groups@[p])@ == all[w] by {
                if p < j {
                    assert(groups@[p] == old_groups[p]);
                } else if p == j {
                    assert(groups@[p]@ == all[i as int]);
                } else {
                    assert(groups@[p] == old_groups[p - 1]);
                }
            }
        }
        i = i + 1;
    }
    assert(all.subrange(0, values@.len() as int) =~= all);
    let ghost sorted = member_lists(groups@);
    let total = groups.len();
    assert(sorted.len() == all.len()) by {
        assert(sorted.to_multiset().len() == sorted.len());
        assert(all.to_multiset().len() == all.len());
    }
    assert forall|p: int, q: int| 0 <= p < q < sorted.len() implies group_before(
        #[trigger] sorted[p],
        #[trigger] sorted[q],
    ) by {
        assert(sorted[p] == groups@[p]@ && sorted[q] == groups@[q]@);
    }
    #[verifier::truncate]
    let level = level_idx as u32;
    let prefix = decimal_string(level_idx as u64);
    let mut out: Vec<DetectedCommunity> = Vec::new();
    let mut k: usize = 0;
    while groups.len() > 0
        invariant
            k + groups@.len() == sorted.len(),
            sorted.len() == total,
            member_lists(groups@) == sorted.subrange(k as int, sorted.len() as int),
            out@.len() == k,
            prefix@ == decimal(level_idx as nat),
            level == level_idx as u32,
            forall|p: int|
                0 <= p < k ==> (#[trigger] out@[p]).level == level && out@[p].local_id@ == community_id(
                    level_idx as int,
                    p,
                ) && out@[p].members@ == sorted[p],
        decreases groups@.len(),
    {
        let ghost rest = groups@;
        let members = groups.remove(0);
        assert(members@ == sorted[k as int]) by {
            assert(member_lists(rest)[0] == rest[0]@);
            assert(sorted.subrange(k as int, sorted.len() as int)[0] == sorted[k as int]);
        }
        assert forall|x: int| 0 <= x < groups@.len() implies member_lists(groups@)[x] == sorted.subrange(
            k + 1,
            sorted.len() as int,
        )[x] by {
            assert(groups@[x] == rest[x + 1]);
            assert(member_lists(rest)[x + 1] == rest[x + 1]@);
            assert(sorted.subrange(k as int, sorted.len() as int)[x + 1] == sorted[k + 1 + x]);
        }
        assert(member_lists(groups@) =~= sorted.subrange(k + 1, sorted.len() as int));
        let mut local_id = String::from_str("c-");
        local_id.append(prefix.as_str());
        local_id.append("-");
        let seq = decimal_string(k as u64);
        local_id.append(seq.as_str());
        out.push(DetectedCommunity { level, local_id, members });
        k = k + 1;
    }
    assert(out@.map_values(members_fn()) =~= sorted);
    assert(out@.len() == first_appearance(a).len());
    assert(in_emission_order(a, sorted));
    out
}

/// The communities of every level, level by level, each level's in
/// emission order and numbered from zero.
pub fn emit_communities(levels: &[Vec<usize>]) -> (r: Vec<DetectedCommunity>)
    ensures
        r@.len() == level_offset(levels@, levels@.len() as int),
        forall|l: int|
            0 <= l < levels@.len() ==> emits_level(
                #[trigger] r@.subrange(level_offset(levels@, l), level_offset(levels@, l + 1)),
                l as usize,
                levels@[l]@,
            ),
{
    let mut emitted: Vec<DetectedCommunity> = Vec::new();
    let mut l: usize = 0;
    while l < levels.len()
        invariant
            l <= levels@.len(),
            emitted@.len() == level_offset(levels@, l as int),
            forall|m: int|
                0 <= m < l ==> emits_level(
                    #[trigger] emitted@.subrange(level_offset(levels@, m), level_offset(levels@, m + 1)),
                    m as usize,
                    levels@[m]@,
                ),
        decreases levels@.len() - l,
    {
        let ghost before = emitted@;
        let mut level_out = emit_level(l, &levels[l]);
        let ghost mine = level_out@;
        emitted.append(&mut level_out);
        proof {
            assert(emitted@ == before + mine);
            assert(emitted@.subrange(level_offset(levels@, l as int), level_offset(levels@, l + 1)) =~= mine);
            lemma_level_offset_monotone(levels@, l as int, l as int);
            assert forall|m: int| 0 <= m < l implies emits_level(
                #[trigger] emitted@.subrange(level_offset(levels@, m), level_offset(levels@, m + 1)),
                m as usize,
                levels@[m]@,
            ) by {
                lemma_level_offset_monotone(levels@, m, m + 1);
                lemma_level_offset_monotone(levels@, m + 1, l as int);
                assert(emitted@.subrange(level_offset(levels@, m), level_offset(levels@, m + 1)) =~= before.subrange(
                    level_offset(levels@, m),
                    level_offset(levels@, m + 1),
                ));
            }
        }
        l = l + 1;
    }
    emitted
}

} // verus!
