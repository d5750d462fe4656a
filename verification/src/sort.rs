//! The ordering policy for register/cluster siblings: an optional
//! partition of registers before clusters (or the reverse) and an
//! optional sort key — by address offset ascending or descending, or by
//! name. The sort is stable: entries that compare equal keep their source
//! order.

use vstd::prelude::*;

use vstd::multiset::Multiset;

use crate::config::{RegistersOrClustersFirst, Sorting};
use crate::model::{rc_name, rc_offset, RegisterCluster};
use crate::strutil::{lemma_lex_le_total, lemma_lex_le_trans, lex_le, str_le};

verus! {

/// Whether `a` sorts at or before `b` under one sort key. A total
/// preorder: entries may tie.
pub open spec fn rc_le(a: RegisterCluster, b: RegisterCluster, s: Sorting) -> bool {
    match s {
        Sorting::Offset => rc_offset(a) <= rc_offset(b),
        Sorting::OffsetReversed => rc_offset(a) >= rc_offset(b),
        Sorting::Name => lex_le(rc_name(a), rc_name(b)),
    }
}

/// Any two entries are comparable.
pub proof fn lemma_rc_le_total(a: RegisterCluster, b: RegisterCluster, s: Sorting)
    ensures
        rc_le(a, b, s) || rc_le(b, a, s),
{
    if s is Name {
        lemma_lex_le_total(rc_name(a), rc_name(b));
    }
}

/// The order is transitive.
pub proof fn lemma_rc_le_trans(
    a: RegisterCluster,
    b: RegisterCluster,
    c: RegisterCluster,
    s: Sorting,
)
    requires
        rc_le(a, b, s),
        rc_le(b, c, s),
    ensures
        rc_le(a, c, s),
{
    if s is Name {
        lemma_lex_le_trans(rc_name(a), rc_name(b), rc_name(c));
    }
}

/// Whether a sequence is sorted under one sort key.
pub open spec fn sorted_by(t: Seq<RegisterCluster>, s: Sorting) -> bool {
    forall|i: int, j: int| 0 <= i < j < t.len() ==> rc_le(#[trigger] t[i], #[trigger] t[j], s)
}

/// `x` inserted into `t` directly before the first entry that does not
/// sort at or before `x`: on a sorted `t` this places `x` after every
/// entry that ties with it.
pub open spec fn spec_insert(
    x: RegisterCluster,
    t: Seq<RegisterCluster>,
    s: Sorting,
) -> Seq<RegisterCluster>
    decreases t.len(),
{
    if t.len() == 0 {
        seq![x]
    } else if !rc_le(t[0], x, s) {
        seq![x] + t
    } else {
        seq![t[0]] + spec_insert(x, t.drop_first(), s)
    }
}

/// The stable sort of `q` under one sort key, by insertion from the left:
/// the unique permutation of `q` that is sorted and keeps tied entries in
/// source order.
pub open spec fn spec_sort_by(q: Seq<RegisterCluster>, s: Sorting) -> Seq<RegisterCluster>
    decreases q.len(),
{
    if q.len() == 0 {
        Seq::empty()
    } else {
        spec_insert(q.last(), spec_sort_by(q.drop_last(), s), s)
    }
}

/// Where `spec_insert` places `x` in `t`, and what the result looks like:
/// `x` stands at the returned position, everything before it sorts at or
/// before `x`, and the entry just after it (if any) does not.
proof fn lemma_insert_pos(x: RegisterCluster, t: Seq<RegisterCluster>, s: Sorting) -> (j: int)
    ensures
        0 <= j <= t.len(),
        forall|k: int| 0 <= k < j ==> rc_le(#[trigger] t[k], x, s),
        j < t.len() ==> !rc_le(t[j], x, s),
        spec_insert(x, t, s) == t.take(j) + seq![x] + t.skip(j),
    decreases t.len(),
{
    if t.len() == 0 {
        assert(spec_insert(x, t, s) =~= t.take(0) + seq![x] + t.skip(0));
        0
    } else if !rc_le(t[0], x, s) {
        assert(spec_insert(x, t, s) =~= t.take(0) + seq![x] + t.skip(0));
        0
    } else {
        let j1 = lemma_insert_pos(x, t.drop_first(), s);
        assert(t.drop_first().take(j1) =~= t.take(j1 + 1).drop_first());
        assert(t.drop_first().skip(j1) =~= t.skip(j1 + 1));
        assert(spec_insert(x, t, s) =~= t.take(j1 + 1) + seq![x] + t.skip(j1 + 1));
        assert forall|k: int| 0 <= k < j1 + 1 implies rc_le(#[trigger] t[k], x, s) by {
            if k == 0 {
                assert(rc_le(t[0], x, s));
            } else {
                assert(t.drop_first()[k - 1] == t[k]);
                assert(rc_le(t.drop_first()[k - 1], x, s));
            }
        }
        j1 + 1
    }
}

/// Inserting into a sorted sequence keeps it sorted.
proof fn lemma_insert_sorted(x: RegisterCluster, t: Seq<RegisterCluster>, s: Sorting)
    requires
        sorted_by(t, s),
    ensures
        sorted_by(spec_insert(x, t, s), s),
{
    let p = lemma_insert_pos(x, t, s);
    let r = spec_insert(x, t, s);
    assert(r.len() == t.len() + 1);
    assert forall|i: int, j: int| 0 <= i < j < r.len() implies rc_le(
        #[trigger] r[i],
        #[trigger] r[j],
        s,
    ) by {
        if i < p {
            assert(r[i] == t[i]);
            if j < p {
                assert(r[j] == t[j]);
            } else if j == p {
                assert(r[j] == x);
                assert(rc_le(t[i], x, s));
            } else {
                assert(r[j] == t[j - 1]);
                assert(rc_le(t[i], t[j - 1], s));
            }
        } else if i == p {
            assert(r[i] == x);
            assert(j > p);
            assert(r[j] == t[j - 1]);
            assert(!rc_le(t[p], x, s));
            lemma_rc_le_total(t[p], x, s);
            assert(rc_le(x, t[p], s));
            if j - 1 > p {
                assert(rc_le(t[p], t[j - 1], s));
                lemma_rc_le_trans(x, t[p], t[j - 1], s);
            }
        } else {
            assert(r[i] == t[i - 1]);
            assert(r[j] == t[j - 1]);
            assert(rc_le(t[i - 1], t[j - 1], s));
        }
    }
}

/// The stable sort always yields a sorted sequence.
pub proof fn lemma_sort_by_sorted(q: Seq<RegisterCluster>, s: Sorting)
    ensures
        sorted_by(spec_sort_by(q, s), s),
    decreases q.len(),
{
    if q.len() != 0 {
        lemma_sort_by_sorted(q.drop_last(), s);
        lemma_insert_sorted(q.last(), spec_sort_by(q.drop_last(), s), s);
    }
}

/// Every element of a filtered sequence comes from the sequence.
proof fn lemma_filter_subset<A>(t: Seq<A>, p: spec_fn(A) -> bool)
    ensures
        forall|e: A| #[trigger] t.filter(p).contains(e) ==> t.contains(e),
    decreases t.len(),
{
    reveal(Seq::filter);
    if t.len() != 0 {
        lemma_filter_subset(t.drop_last(), p);
        assert forall|e: A| #[trigger] t.filter(p).contains(e) implies t.contains(e) by {
            if t.drop_last().filter(p).contains(e) {
                assert(t.drop_last().contains(e));
                let w = choose|w: int|
                    0 <= w < t.drop_last().len() && t.drop_last()[w] == e;
                assert(t[w] == e);
            } else {
                assert(e == t.last());
                assert(t[t.len() - 1] == e);
            }
        }
    }
}

/// Inserting an entry of a tied class appends it to that class's
/// subsequence; inserting any other entry leaves the class's subsequence
/// unchanged. `p` selects one class of mutually tied entries.
proof fn lemma_insert_filter(
    x: RegisterCluster,
    t: Seq<RegisterCluster>,
    s: Sorting,
    p: spec_fn(RegisterCluster) -> bool,
)
    requires
        sorted_by(t, s),
        forall|a: RegisterCluster, b: RegisterCluster|
            #[trigger] p(a) && #[trigger] p(b) ==> rc_le(a, b, s) && rc_le(b, a, s),
    ensures
        spec_insert(x, t, s).filter(p) == (if p(x) {
            t.filter(p).push(x)
        } else {
            t.filter(p)
        }),
{
    broadcast use vstd::seq_lib::group_filter_ensures;

    let j = lemma_insert_pos(x, t, s);
    let r = spec_insert(x, t, s);
    assert(t =~= t.take(j) + t.skip(j));
    Seq::filter_distributes_over_add(t.take(j), seq![x] + t.skip(j), p);
    Seq::filter_distributes_over_add(seq![x], t.skip(j), p);
    Seq::filter_distributes_over_add(t.take(j), t.skip(j), p);
    reveal(Seq::filter);
    assert(seq![x].drop_last() =~= Seq::<RegisterCluster>::empty());
    assert(seq![x].last() == x);
    assert(Seq::<RegisterCluster>::empty().push(x) =~= seq![x]);
    assert(Seq::<RegisterCluster>::empty().filter(p) == Seq::<RegisterCluster>::empty());
    assert(seq![x].filter(p) == (if p(x) {
        seq![x]
    } else {
        Seq::<RegisterCluster>::empty()
    }));
    if p(x) {
        // No entry of the class stands at or past the insertion point:
        // such an entry would tie with `x`, yet everything from the
        // insertion point on sorts strictly after `x`.
        assert(t.skip(j).filter(p) =~= Seq::<RegisterCluster>::empty()) by {
            if t.skip(j).filter(p).len() > 0 {
                let e = t.skip(j).filter(p)[0];
                assert(p(e));
                lemma_filter_subset(t.skip(j), p);
                assert(t.skip(j).filter(p).contains(e)) by {
                    assert(t.skip(j).filter(p)[0] == e);
                }
                assert(t.skip(j).contains(e));
                let w = choose|w: int| 0 <= w < t.skip(j).len() && t.skip(j)[w] == e;
                assert(t[j + w] == e);
                assert(rc_le(e, x, s));
                if w > 0 {
                    assert(rc_le(t[j], t[j + w], s));
                    lemma_rc_le_trans(t[j], e, x, s);
                }
                assert(rc_le(t[j], x, s));
                assert(false);
            }
        }
        assert(r.filter(p) =~= t.filter(p).push(x));
    } else {
        assert(r.filter(p) =~= t.filter(p));
    }
}

/// Stability of the sort: for any class of mutually tied entries, the
/// sorted sequence holds that class's entries in exactly the order the
/// source held them.
pub proof fn lemma_sort_by_stable(
    q: Seq<RegisterCluster>,
    s: Sorting,
    p: spec_fn(RegisterCluster) -> bool,
)
    requires
        forall|a: RegisterCluster, b: RegisterCluster|
            #[trigger] p(a) && #[trigger] p(b) ==> rc_le(a, b, s) && rc_le(b, a, s),
    ensures
        spec_sort_by(q, s).filter(p) == q.filter(p),
    decreases q.len(),
{
    if q.len() != 0 {
        lemma_sort_by_stable(q.drop_last(), s, p);
        lemma_sort_by_sorted(q.drop_last(), s);
        lemma_insert_filter(q.last(), spec_sort_by(q.drop_last(), s), s, p);
        reveal(Seq::filter);
    }
}

/// The sort permutes its input: nothing is lost, nothing is added.
pub proof fn lemma_sort_by_multiset(q: Seq<RegisterCluster>, s: Sorting)
    ensures
        spec_sort_by(q, s).to_multiset() == q.to_multiset(),
    decreases q.len(),
{
    broadcast use vstd::seq_lib::group_to_multiset_ensures;
    broadcast use vstd::multiset::group_multiset_axioms;

    if q.len() != 0 {
        lemma_sort_by_multiset(q.drop_last(), s);
        let x = q.last();
        let t = spec_sort_by(q.drop_last(), s);
        let j = lemma_insert_pos(x, t, s);
        assert(t =~= t.take(j) + t.skip(j));
        vstd::seq_lib::lemma_multiset_commutative(t.take(j), t.skip(j));
        vstd::seq_lib::lemma_multiset_commutative(t.take(j), seq![x] + t.skip(j));
        vstd::seq_lib::lemma_multiset_commutative(seq![x], t.skip(j));
        assert(q =~= q.drop_last().push(x));
        assert(q.to_multiset() =~= q.drop_last().to_multiset().insert(x));
        assert(seq![x] =~= Seq::<RegisterCluster>::empty().push(x));
        assert(seq![x].to_multiset() =~= Multiset::empty().insert(x));
        assert(t.take(j) + seq![x] + t.skip(j) =~= t.take(j) + (seq![x] + t.skip(j)));
        assert(spec_insert(x, t, s).to_multiset() =~= t.take(j).to_multiset().add(
            seq![x].to_multiset().add(t.skip(j).to_multiset()),
        ));
        assert(t.to_multiset() =~= t.take(j).to_multiset().add(t.skip(j).to_multiset()));
        assert(spec_insert(x, t, s).to_multiset() =~= q.to_multiset());
    }
}

/// Whether `a` sorts at or before `b`, executably.
fn rc_le_exec(a: &RegisterCluster, b: &RegisterCluster, s: Sorting) -> (r: bool)
    ensures
        r == rc_le(*a, *b, s),
{
    match s {
        Sorting::Offset => a.address_offset() <= b.address_offset(),
        Sorting::OffsetReversed => a.address_offset() >= b.address_offset(),
        Sorting::Name => str_le(a.name(), b.name()),
    }
}

/// The values behind a sequence of references.
pub open spec fn derefs(s: Seq<&RegisterCluster>) -> Seq<RegisterCluster> {
    s.map_values(|r: &RegisterCluster| *r)
}

/// Sorts the entries under the given key, stably; no key leaves the
/// order untouched.
pub fn sort_register_cluster(refs: &mut Vec<&RegisterCluster>, sorting: Option<Sorting>)
    ensures
        match sorting {
            None => final(refs)@ == old(refs)@,
            Some(s) => derefs(final(refs)@) == spec_sort_by(derefs(old(refs)@), s),
        },
{
    let sorting = match sorting {
        None => {
            return ;
        },
        Some(s) => s,
    };
    let ghost q = derefs(refs@);
    let n = refs.len();
    let mut out: Vec<&RegisterCluster> = Vec::new();
    let mut i: usize = 0;
    proof {
        assert(q.take(0) =~= Seq::<RegisterCluster>::empty());
        assert(derefs(out@) =~= spec_sort_by(q.take(0), sorting));
    }
    while i < n
        invariant
            i <= n,
            n == refs@.len(),
            q == derefs(refs@),
            out@.len() == i,
            derefs(out@) == spec_sort_by(q.take(i as int), sorting),
        decreases n - i,
    {
        let x = refs[i];
        let ghost t = derefs(out@);
        let mut j: usize = 0;
        while j < out.len() && rc_le_exec(out[j], x, sorting)
            invariant
                j <= out@.len(),
                t == derefs(out@),
                x == refs[i as int],
                forall|k: int| 0 <= k < j ==> rc_le(#[trigger] t[k], *x, sorting),
            decreases out@.len() - j,
        {
            j += 1;
        }
        out.insert(j, x);
        proof {
            let jj = lemma_insert_pos(*x, t, sorting);
            assert(jj == j) by {
                if jj < j {
                    assert(rc_le(t[jj], *x, sorting));
                } else if j < jj {
                    assert(rc_le(t[j as int], *x, sorting));
                }
            }
            assert(derefs(out@) =~= t.take(j as int) + seq![*x] + t.skip(j as int));
            assert(q.take(i + 1).drop_last() =~= q.take(i as int));
            assert(q.take(i + 1).last() == *x);
            assert(derefs(out@) == spec_sort_by(q.take(i + 1), sorting));
        }
        i += 1;
    }
    proof {
        assert(q.take(n as int) =~= q);
    }
    *refs = out;
}

/// The register entries of a collection, in source order.
pub open spec fn registers_of(q: Seq<RegisterCluster>) -> Seq<RegisterCluster> {
    q.filter(|rc: RegisterCluster| rc is Register)
}

/// The cluster entries of a collection, in source order.
pub open spec fn clusters_of(q: Seq<RegisterCluster>) -> Seq<RegisterCluster> {
    q.filter(|rc: RegisterCluster| rc is Cluster)
}

/// A collection under an optional sort key.
pub open spec fn apply_sort(q: Seq<RegisterCluster>, sorting: Option<Sorting>) -> Seq<
    RegisterCluster,
> {
    match sorting {
        None => q,
        Some(s) => spec_sort_by(q, s),
    }
}

/// The sibling order the policy prescribes: with a partition directive,
/// registers and clusters are split (each keeping source order), sorted
/// independently, and concatenated in the configured order; with only a
/// sort key the whole collection is sorted interleaved; with neither the
/// source order stands.
pub open spec fn spec_order(
    q: Seq<RegisterCluster>,
    first: Option<RegistersOrClustersFirst>,
    sorting: Option<Sorting>,
) -> Seq<RegisterCluster> {
    match first {
        Some(RegistersOrClustersFirst::Registers) => apply_sort(registers_of(q), sorting)
            + apply_sort(clusters_of(q), sorting),
        Some(RegistersOrClustersFirst::Clusters) => apply_sort(clusters_of(q), sorting)
            + apply_sort(registers_of(q), sorting),
        None => apply_sort(q, sorting),
    }
}

/// Collects references to the register entries, in source order.
fn collect_registers<'a>(entries: &'a Vec<RegisterCluster>) -> (r: Vec<&'a RegisterCluster>)
    ensures
        derefs(r@) == registers_of(entries@),
{
    let mut out: Vec<&RegisterCluster> = Vec::new();
    let n = entries.len();
    let mut i: usize = 0;
    proof {
        reveal(Seq::filter);
        assert(entries@.take(0) =~= Seq::<RegisterCluster>::empty());
        assert(derefs(out@) =~= registers_of(entries@.take(0)));
    }
    while i < n
        invariant
            i <= n,
            n == entries@.len(),
            derefs(out@) == registers_of(entries@.take(i as int)),
        decreases n - i,
    {
        let ghost prev = derefs(out@);
        proof {
            reveal(Seq::filter);
            assert(entries@.take(i + 1).drop_last() =~= entries@.take(i as int));
            assert(entries@.take(i + 1).last() == entries@[i as int]);
        }
        match &entries[i] {
            RegisterCluster::Register(_) => {
                out.push(&entries[i]);
                proof {
                    assert(derefs(out@) =~= prev.push(entries@[i as int]));
                    assert(derefs(out@) =~= registers_of(entries@.take(i + 1)));
                }
            },
            RegisterCluster::Cluster(_) => {
                proof {
                    assert(derefs(out@) =~= registers_of(entries@.take(i + 1)));
                }
            },
        }
        i += 1;
    }
    proof {
        assert(entries@.take(n as int) =~= entries@);
    }
    out
}

/// Collects references to the cluster entries, in source order.
fn collect_clusters<'a>(entries: &'a Vec<RegisterCluster>) -> (r: Vec<&'a RegisterCluster>)
    ensures
        derefs(r@) == clusters_of(entries@),
{
    let mut out: Vec<&RegisterCluster> = Vec::new();
    let n = entries.len();
    let mut i: usize = 0;
    proof {
        reveal(Seq::filter);
        assert(entries@.take(0) =~= Seq::<RegisterCluster>::empty());
        assert(derefs(out@) =~= clusters_of(entries@.take(0)));
    }
    while i < n
        invariant
            i <= n,
            n == entries@.len(),
            derefs(out@) == clusters_of(entries@.take(i as int)),
        decreases n - i,
    {
        let ghost prev = derefs(out@);
        proof {
            reveal(Seq::filter);
            assert(entries@.take(i + 1).drop_last() =~= entries@.take(i as int));
            assert(entries@.take(i + 1).last() == entries@[i as int]);
        }
        match &entries[i] {
            RegisterCluster::Cluster(_) => {
                out.push(&entries[i]);
                proof {
                    assert(derefs(out@) =~= prev.push(entries@[i as int]));
                    assert(derefs(out@) =~= clusters_of(entries@.take(i + 1)));
                }
            },
            RegisterCluster::Register(_) => {
                proof {
                    assert(derefs(out@) =~= clusters_of(entries@.take(i + 1)));
                }
            },
        }
        i += 1;
    }
    proof {
        assert(entries@.take(n as int) =~= entries@);
    }
    out
}

/// Orders a register/cluster collection as the two directives prescribe,
/// returning references into the collection.
pub fn order_register_clusters<'a>(
    entries: &'a Vec<RegisterCluster>,
    first: Option<RegistersOrClustersFirst>,
    sorting: Option<Sorting>,
) -> (r: Vec<&'a RegisterCluster>)
    ensures
        derefs(r@) == spec_order(entries@, first, sorting),
{
    match first {
        Some(f) => {
            let mut regs = collect_registers(entries);
            sort_register_cluster(&mut regs, sorting);
            let mut cls = collect_clusters(entries);
            sort_register_cluster(&mut cls, sorting);
            let ghost regs_sorted = derefs(regs@);
            let ghost cls_sorted = derefs(cls@);
            proof {
                if sorting is None {
                    assert(regs_sorted =~= apply_sort(registers_of(entries@), sorting));
                    assert(cls_sorted =~= apply_sort(clusters_of(entries@), sorting));
                }
            }
            let mut out = match f {
                RegistersOrClustersFirst::Registers => {
                    let mut out = regs;
                    out.append(&mut cls);
                    out
                },
                RegistersOrClustersFirst::Clusters => {
                    let mut out = cls;
                    out.append(&mut regs);
                    out
                },
            };
            proof {
                assert(derefs(out@) =~= spec_order(entries@, first, sorting));
            }
            out
        },
        None => {
            let mut out: Vec<&RegisterCluster> = Vec::new();
            let n = entries.len();
            let mut i: usize = 0;
            proof {
                assert(derefs(out@) =~= entries@.take(0));
            }
            while i < n
                invariant
                    i <= n,
                    n == entries@.len(),
                    derefs(out@) == entries@.take(i as int),
                decreases n - i,
            {
                let ghost prev = derefs(out@);
                out.push(&entries[i]);
                proof {
                    assert(derefs(out@) =~= prev.push(entries@[i as int]));
                    assert(derefs(out@) =~= entries@.take(i + 1));
                }
                i += 1;
            }
            proof {
                assert(entries@.take(n as int) =~= entries@);
            }
            sort_register_cluster(&mut out, sorting);
            proof {
                if sorting is None {
                    assert(derefs(out@) =~= apply_sort(entries@, sorting));
                }
            }
            out
        },
    }
}

} // verus!
