//! Coalescing of a page map into sections.
//!
//! A page map is a list of `(address, size)` entries. Entries in the reserved
//! high half of the address space are dropped, the rest are put in address
//! order and every run of exactly adjacent entries becomes one section.
use vstd::prelude::*;
use vstd::relations::sorted_by;
use vstd::seq_lib::group_to_multiset_ensures;

verus! {

/// One page map entry or one section: `(address, size)`.
pub type Region = (u64, u64);

/// First address of the reserved high half; entries at or above it are never
/// reported as sections.
pub const HIGH_HALF_START: u64 = 0xFFFF_0000_0000_0000;

/// `a + b` with 64-bit wraparound.
pub open spec fn wrap_add(a: u64, b: u64) -> u64 {
    if a + b > u64::MAX {
        (a + b - 0x1_0000_0000_0000_0000) as u64
    } else {
        (a + b) as u64
    }
}

/// Whether an entry lies below the reserved high half.
pub open spec fn is_user_entry(e: Region) -> bool {
    e.0 < HIGH_HALF_START
}

/// The entries below the reserved high half, in the order given.
pub open spec fn user_entries(es: Seq<Region>) -> Seq<Region>
    decreases es.len(),
{
    if es.len() == 0 {
        Seq::empty()
    } else if is_user_entry(es.last()) {
        user_entries(es.drop_last()).push(es.last())
    } else {
        user_entries(es.drop_last())
    }
}

/// Address order on entries; equal addresses are ordered by size.
pub open spec fn entry_leq(a: Region, b: Region) -> bool {
    a.0 < b.0 || (a.0 == b.0 && a.1 <= b.1)
}

/// The entries sorted into address order.
pub open spec fn in_address_order(es: Seq<Region>) -> Seq<Region> {
    es.sort_by(|a: Region, b: Region| entry_leq(a, b))
}

/// State of the sweep after a sequence of entries: the sections completed so
/// far and the accumulator `(start, size)` of the run in progress.
pub open spec fn sweep(s: Seq<Region>) -> (Seq<Region>, Region)
    decreases s.len(),
{
    if s.len() == 0 {
        (Seq::empty(), (0u64, 0u64))
    } else {
        let st = sweep(s.drop_last());
        let e = s.last();
        if wrap_add(st.1.0, st.1.1) == e.0 {
            (st.0, (st.1.0, wrap_add(st.1.1, e.1)))
        } else if st.1.1 > 0 {
            (st.0.push(st.1), e)
        } else {
            (st.0, e)
        }
    }
}

/// The sections of an ordered sequence of entries: the completed ones, then
/// the run in progress at the end, if it is not empty.
pub open spec fn sections_of(s: Seq<Region>) -> Seq<Region> {
    let st = sweep(s);
    if st.1.1 > 0 {
        st.0.push(st.1)
    } else {
        st.0
    }
}

/// The sections of a page map.
pub open spec fn coalesced(es: Seq<Region>) -> Seq<Region> {
    sections_of(in_address_order(user_entries(es)))
}

/// Two sequences sorted by a total order with the same elements are equal.
proof fn lemma_sorted_unique(a: Seq<Region>, b: Seq<Region>)
    requires
        sorted_by(a, |x: Region, y: Region| entry_leq(x, y)),
        sorted_by(b, |x: Region, y: Region| entry_leq(x, y)),
        a.to_multiset() == b.to_multiset(),
    ensures
        a == b,
    decreases a.len(),
{
    broadcast use group_to_multiset_ensures;

    let leq = |x: Region, y: Region| entry_leq(x, y);
    assert(a.to_multiset().len() == a.len());
    assert(b.to_multiset().len() == b.len());
    assert(a.len() == b.len());
    if a.len() > 0 {
        assert(a.contains(a[0]));
        assert(a.to_multiset().count(a[0]) > 0);
        assert(b.contains(a[0]));
        assert(b.contains(b[0]));
        assert(b.to_multiset().count(b[0]) > 0);
        assert(a.contains(b[0]));
        let j = choose|j: int| 0 <= j < b.len() && b[j] == a[0];
        let k = choose|k: int| 0 <= k < a.len() && a[k] == b[0];
        if j > 0 {
            assert(leq(b[0], b[j]));
        }
        if k > 0 {
            assert(leq(a[0], a[k]));
        }
        assert(a[0] == b[0]);
        assert(a.remove(0) =~= a.drop_first());
        assert(b.remove(0) =~= b.drop_first());
        assert(a.drop_first().to_multiset() == b.drop_first().to_multiset());
        assert(sorted_by(a.drop_first(), leq)) by {
            assert forall|x: int, y: int| 0 <= x < y < a.drop_first().len() implies #[trigger] leq(
                a.drop_first()[x],
                a.drop_first()[y],
            ) by {
                assert(leq(a[x + 1], a[y + 1]));
            }
        }
        assert(sorted_by(b.drop_first(), leq)) by {
            assert forall|x: int, y: int| 0 <= x < y < b.drop_first().len() implies #[trigger] leq(
                b.drop_first()[x],
                b.drop_first()[y],
            ) by {
                assert(leq(b[x + 1], b[y + 1]));
            }
        }
        lemma_sorted_unique(a.drop_first(), b.drop_first());
        assert(a =~= seq![a[0]] + a.drop_first());
        assert(b =~= seq![b[0]] + b.drop_first());
    }
}

/// A sequence in address order with the same elements as `es` is
/// `in_address_order(es)`.
proof fn lemma_is_address_order(es: Seq<Region>, s: Seq<Region>)
    requires
        sorted_by(s, |x: Region, y: Region| entry_leq(x, y)),
        s.to_multiset() == es.to_multiset(),
    ensures
        s == in_address_order(es),
{
    let leq = |x: Region, y: Region| entry_leq(x, y);
    es.lemma_sort_by_ensures(leq);
    lemma_sorted_unique(s, in_address_order(es));
}

/// Relies on `slice::sort_unstable`: the slice ends in ascending order of the
/// tuples (lexicographic), holding the same elements.
#[verifier::external_body]
fn sort_regions(v: &mut Vec<Region>)
    ensures
        final(v)@.to_multiset() == old(v)@.to_multiset(),
        sorted_by(final(v)@, |x: Region, y: Region| entry_leq(x, y)),
{
    v.sort_unstable();
}

/// The sections of entries already in the order to sweep them.
pub fn sweep_sections(sorted: &Vec<Region>) -> (r: Vec<Region>)
    ensures
        r@ == sections_of(sorted@),
{
    let mut done: Vec<Region> = Vec::new();
    let mut start: u64 = 0;
    let mut size: u64 = 0;
    let mut i: usize = 0;
    while i < sorted.len()
        invariant
            i <= sorted@.len(),
            sweep(sorted@.subrange(0, i as int)) == (done@, (start, size)),
        decreases sorted@.len() - i,
    {
        let e = sorted[i];
        proof {
            let pre = sorted@.subrange(0, i as int);
            let post = sorted@.subrange(0, i + 1);
            assert(post.drop_last() =~= pre);
            assert(post.last() == e);
        }
        if start.wrapping_add(size) == e.0 {
            size = size.wrapping_add(e.1);
        } else {
            if size > 0 {
                done.push((start, size));
            }
            start = e.0;
            size = e.1;
        }
        i = i + 1;
    }
    assert(sorted@.subrange(0, sorted@.len() as int) =~= sorted@);
    if size > 0 {
        done.push((start, size));
    }
    done
}

/// Coalesces a page map into sections.
///
/// Entries at or above `HIGH_HALF_START` are dropped; the rest are sorted by
/// address and each maximal run of entries where one starts exactly where
/// the run so far ends becomes one section whose size is the sum of theirs.
/// The run still open when the entries are exhausted is reported as the last
/// section. Address arithmetic wraps at 64 bits and never fails.
pub fn coalesce(entries: &Vec<Region>) -> (r: Vec<Region>)
    ensures
        r@ == coalesced(entries@),
{
    let mut user: Vec<Region> = Vec::new();
    let mut i: usize = 0;
    while i < entries.len()
        invariant
            i <= entries@.len(),
            user@ == user_entries(entries@.subrange(0, i as int)),
        decreases entries@.len() - i,
    {
        let e = entries[i];
        proof {
            let pre = entries@.subrange(0, i as int);
            let post = entries@.subrange(0, i + 1);
            assert(post.drop_last() =~= pre);
            assert(post.last() == e);
        }
        if e.0 < HIGH_HALF_START {
            user.push(e);
        }
        i = i + 1;
    }
    assert(entries@.subrange(0, entries@.len() as int) =~= entries@);
    let ghost unsorted = user@;
    sort_regions(&mut user);
    proof {
        lemma_is_address_order(unsorted, user@);
    }
    sweep_sections(&user)
}


// ---------------------------------------------------------------------------
// Laws of coalescing
// ---------------------------------------------------------------------------

/// Whether address `a` lies in region `x`.
pub open spec fn in_region(x: Region, a: int) -> bool {
    x.0 <= a < x.0 + x.1
}

/// Whether some region of `rs` holds address `a`.
pub open spec fn covers(rs: Seq<Region>, a: int) -> bool {
    exists|k: int| 0 <= k < rs.len() && #[trigger] in_region(rs[k], a)
}

/// Whether some entry of `es` below the reserved high half holds address `a`.
pub open spec fn user_covers(es: Seq<Region>, a: int) -> bool {
    exists|i: int| 0 <= i < es.len() && is_user_entry(es[i]) && #[trigger] in_region(es[i], a)
}

/// Whether two regions share no address: one ends before the other starts.
pub open spec fn apart(x: Region, y: Region) -> bool {
    x.0 + x.1 <= y.0 || y.0 + y.1 <= x.0
}

/// Whether the entries of `es` below the reserved high half stay within the
/// address space and pairwise share no address.
pub open spec fn user_entries_disjoint(es: Seq<Region>) -> bool {
    &&& forall|i: int|
        0 <= i < es.len() && is_user_entry(#[trigger] es[i]) ==> es[i].0 + es[i].1 <= u64::MAX
    &&& forall|i: int, j: int|
        0 <= i < es.len() && 0 <= j < es.len() && i != j && is_user_entry(es[i]) && is_user_entry(
            es[j],
        ) ==> apart(#[trigger] es[i], #[trigger] es[j])
}

spec fn pairwise_apart(t: Seq<Region>) -> bool {
    forall|i: int, j: int|
        0 <= i < t.len() && 0 <= j < t.len() && i != j ==> apart(#[trigger] t[i], #[trigger] t[j])
}

spec fn all_fit(t: Seq<Region>) -> bool {
    forall|i: int| 0 <= i < t.len() ==> is_user_entry(#[trigger] t[i]) && t[i].0 + t[i].1 <= u64::MAX
}

spec fn chained(t: Seq<Region>) -> bool {
    forall|i: int, j: int| 0 <= i < j < t.len() ==> #[trigger] t[i].0 + t[i].1 <= #[trigger] t[j].0
}

proof fn lemma_user_entries_contains(es: Seq<Region>)
    ensures
        forall|x: Region|
            #[trigger] user_entries(es).contains(x) <==> exists|i: int|
                0 <= i < es.len() && es[i] == x && is_user_entry(x),
    decreases es.len(),
{
    if es.len() > 0 {
        let d = es.drop_last();
        lemma_user_entries_contains(d);
        assert forall|x: Region| #[trigger] user_entries(es).contains(x) <==> exists|i: int|
            0 <= i < es.len() && es[i] == x && is_user_entry(x) by {
            if user_entries(es).contains(x) {
                if user_entries(d).contains(x) {
                    let i = choose|i: int| 0 <= i < d.len() && d[i] == x && is_user_entry(x);
                    assert(es[i] == x);
                } else {
                    assert(es[es.len() - 1] == x);
                }
            }
            if exists|i: int| 0 <= i < es.len() && es[i] == x && is_user_entry(x) {
                let i = choose|i: int| 0 <= i < es.len() && es[i] == x && is_user_entry(x);
                if i < es.len() - 1 {
                    assert(d[i] == x);
                    assert(user_entries(d).contains(x));
                    if is_user_entry(es.last()) {
                        let k = choose|k: int| 0 <= k < user_entries(d).len() && user_entries(d)[k] == x;
                        assert(user_entries(es)[k] == x);
                    }
                } else {
                    assert(user_entries(es) == user_entries(d).push(x));
                    assert(user_entries(es)[user_entries(d).len() as int] == x);
                }
            }
        }
    }
}

proof fn lemma_user_entries_apart(es: Seq<Region>)
    requires
        user_entries_disjoint(es),
    ensures
        pairwise_apart(user_entries(es)),
        all_fit(user_entries(es)),
    decreases es.len(),
{
    if es.len() > 0 {
        let d = es.drop_last();
        assert(user_entries_disjoint(d)) by {
            assert forall|i: int| 0 <= i < d.len() && is_user_entry(#[trigger] d[i]) implies d[i].0
                + d[i].1 <= u64::MAX by {
                assert(d[i] == es[i]);
            }
            assert forall|i: int, j: int|
                0 <= i < d.len() && 0 <= j < d.len() && i != j && is_user_entry(d[i])
                    && is_user_entry(d[j]) implies apart(#[trigger] d[i], #[trigger] d[j]) by {
                assert(d[i] == es[i] && d[j] == es[j]);
            }
        }
        lemma_user_entries_apart(d);
        lemma_user_entries_contains(d);
        let u = user_entries(d);
        if is_user_entry(es.last()) {
            let t = u.push(es.last());
            let n = es.len() - 1;
            assert(es[n] == es.last());
            assert forall|k: int| 0 <= k < u.len() implies apart(#[trigger] u[k], es.last())
                && apart(es.last(), u[k]) by {
                assert(u.contains(u[k]));
                let i = choose|i: int| 0 <= i < d.len() && d[i] == u[k] && is_user_entry(u[k]);
                assert(es[i] == u[k]);
                assert(apart(es[i], es[n]));
                assert(apart(es[n], es[i]));
            }
            assert forall|i: int, j: int|
                0 <= i < t.len() && 0 <= j < t.len() && i != j implies apart(
                #[trigger] t[i],
                #[trigger] t[j],
            ) by {
                if i < u.len() && j < u.len() {
                    assert(t[i] == u[i] && t[j] == u[j]);
                } else if i < u.len() {
                    assert(t[i] == u[i]);
                } else {
                    assert(t[j] == u[j]);
                }
            }
            assert forall|i: int| 0 <= i < t.len() implies is_user_entry(#[trigger] t[i]) && t[i].0
                + t[i].1 <= u64::MAX by {
                if i < u.len() {
                    assert(t[i] == u[i]);
                }
            }
        }
    }
}

proof fn lemma_count_two(t: Seq<Region>, i: int, j: int)
    requires
        0 <= i < t.len(),
        0 <= j < t.len(),
        i != j,
        t[i] == t[j],
    ensures
        t.to_multiset().count(t[i]) >= 2,
{
    broadcast use group_to_multiset_ensures;

    broadcast use vstd::multiset::group_multiset_axioms;

    let r = t.remove(i);
    let j2 = if j < i { j } else { j - 1 };
    assert(r[j2] == t[i]);
    assert(r.contains(t[i]));
    assert(r.to_multiset().count(t[i]) > 0);
    assert(r.to_multiset() == t.to_multiset().remove(t[i]));
}

proof fn lemma_two_indices(t: Seq<Region>, x: Region)
    requires
        t.to_multiset().count(x) >= 2,
    ensures
        exists|i: int, j: int| 0 <= i < t.len() && 0 <= j < t.len() && i != j && t[i] == x && t[j] == x,
{
    broadcast use group_to_multiset_ensures;

    assert(t.contains(x));
    let i = choose|i: int| 0 <= i < t.len() && t[i] == x;
    let r = t.remove(i);
    assert(r.to_multiset().count(x) >= 1);
    assert(r.contains(x));
    let j2 = choose|j2: int| 0 <= j2 < r.len() && r[j2] == x;
    let j = if j2 < i { j2 } else { j2 + 1 };
    assert(t[j] == x);
}

proof fn lemma_apart_permuted(t: Seq<Region>, u: Seq<Region>)
    requires
        pairwise_apart(t),
        all_fit(t),
        t.to_multiset() == u.to_multiset(),
    ensures
        pairwise_apart(u),
        all_fit(u),
{
    broadcast use group_to_multiset_ensures;

    let m = t.to_multiset();
    assert forall|x: Region, y: Region|
        #[trigger] m.contains(x) && #[trigger] m.contains(y) && x != y implies apart(x, y) by {
        assert(t.contains(x) && t.contains(y));
        let i = choose|i: int| 0 <= i < t.len() && t[i] == x;
        let j = choose|j: int| 0 <= j < t.len() && t[j] == y;
        assert(apart(t[i], t[j]));
    }
    assert forall|x: Region| #[trigger] m.count(x) >= 2 implies apart(x, x) by {
        lemma_two_indices(t, x);
        let (i, j) = choose|i: int, j: int|
            0 <= i < t.len() && 0 <= j < t.len() && i != j && t[i] == x && t[j] == x;
        assert(apart(t[i], t[j]));
    }
    assert forall|i: int, j: int|
        0 <= i < u.len() && 0 <= j < u.len() && i != j implies apart(
        #[trigger] u[i],
        #[trigger] u[j],
    ) by {
        assert(u.contains(u[i]) && u.contains(u[j]));
        assert(u.to_multiset().count(u[i]) > 0);
        assert(u.to_multiset().count(u[j]) > 0);
        assert(m.contains(u[i]) && m.contains(u[j]));
        if u[i] == u[j] {
            lemma_count_two(u, i, j);
        }
    }
    assert forall|i: int| 0 <= i < u.len() implies is_user_entry(#[trigger] u[i]) && u[i].0 + u[i].1
        <= u64::MAX by {
        assert(u.contains(u[i]));
        assert(u.to_multiset().count(u[i]) > 0);
        assert(t.to_multiset().count(u[i]) > 0);
        assert(t.contains(u[i]));
        let k = choose|k: int| 0 <= k < t.len() && t[k] == u[i];
        assert(is_user_entry(t[k]));
    }
}

proof fn lemma_sorted_apart_chained(s: Seq<Region>)
    requires
        sorted_by(s, |x: Region, y: Region| entry_leq(x, y)),
        pairwise_apart(s),
    ensures
        chained(s),
{
    let leq = |x: Region, y: Region| entry_leq(x, y);
    assert forall|i: int, j: int| 0 <= i < j < s.len() implies #[trigger] s[i].0 + s[i].1
        <= #[trigger] s[j].0 by {
        assert(leq(s[i], s[j]));
        assert(apart(s[i], s[j]));
    }
}

proof fn lemma_covers_push(t: Seq<Region>, x: Region)
    ensures
        forall|a: int| #[trigger] covers(t.push(x), a) <==> covers(t, a) || in_region(x, a),
{
    assert forall|a: int| #[trigger] covers(t.push(x), a) <==> covers(t, a) || in_region(x, a) by {
        let p = t.push(x);
        if covers(p, a) {
            let k = choose|k: int| 0 <= k < p.len() && in_region(p[k], a);
            if k < t.len() {
                assert(p[k] == t[k]);
            }
        }
        if covers(t, a) {
            let k = choose|k: int| 0 <= k < t.len() && in_region(t[k], a);
            assert(p[k] == t[k]);
        }
        if in_region(x, a) {
            assert(p[t.len() as int] == x);
        }
    }
}

/// What holds of the sweep over entries in address order that fit in the
/// address space and do not overlap.
proof fn lemma_sweep(s: Seq<Region>)
    requires
        chained(s),
        all_fit(s),
    ensures
        ({
            let st = sweep(s);
            &&& forall|k: int|
                0 <= k < st.0.len() ==> #[trigger] st.0[k].1 > 0 && st.0[k].0 < HIGH_HALF_START
                    && st.0[k].0 + st.0[k].1 <= st.1.0
            &&& chained(st.0)
            &&& st.1.0 < HIGH_HALF_START
            &&& st.1.0 + st.1.1 <= u64::MAX
            &&& s.len() == 0 ==> st.1 == (0u64, 0u64)
            &&& s.len() > 0 ==> st.1.0 + st.1.1 == s.last().0 + s.last().1
            &&& forall|a: int| #[trigger] covers(s, a) <==> covers(st.0, a) || in_region(st.1, a)
        }),
    decreases s.len(),
{
    if s.len() > 0 {
        let d = s.drop_last();
        assert(chained(d)) by {
            assert forall|i: int, j: int| 0 <= i < j < d.len() implies #[trigger] d[i].0 + d[i].1
                <= #[trigger] d[j].0 by {
                assert(d[i] == s[i] && d[j] == s[j]);
            }
        }
        assert(all_fit(d)) by {
            assert forall|i: int| 0 <= i < d.len() implies is_user_entry(#[trigger] d[i]) && d[i].0
                + d[i].1 <= u64::MAX by {
                assert(d[i] == s[i]);
            }
        }
        lemma_sweep(d);
        let st = sweep(d);
        let e = s.last();
        let n = s.len() - 1;
        assert(s[n] == e);
        assert(is_user_entry(e) && e.0 + e.1 <= u64::MAX);
        if d.len() > 0 {
            assert(d.last() == s[n - 1]);
            assert(s[n - 1].0 + s[n - 1].1 <= s[n].0);
        }
        assert(s =~= d.push(e));
        lemma_covers_push(d, e);
        lemma_covers_push(st.0, st.1);
        let nst = sweep(s);
        if wrap_add(st.1.0, st.1.1) == e.0 {
            assert(nst.1 == (st.1.0, (st.1.1 + e.1) as u64));
        } else if st.1.1 > 0 {
            assert(nst.0 == st.0.push(st.1));
            assert forall|k: int| 0 <= k < nst.0.len() implies #[trigger] nst.0[k].1 > 0
                && nst.0[k].0 < HIGH_HALF_START && nst.0[k].0 + nst.0[k].1 <= nst.1.0 by {
                if k < st.0.len() {
                    assert(nst.0[k] == st.0[k]);
                }
            }
            assert forall|i: int, j: int| 0 <= i < j < nst.0.len() implies #[trigger] nst.0[i].0
                + nst.0[i].1 <= #[trigger] nst.0[j].0 by {
                assert(nst.0[i] == st.0[i]);
                if j < st.0.len() {
                    assert(nst.0[j] == st.0[j]);
                }
            }
        } else {
        }
    }
}

/// On a page map whose entries below the reserved high half stay within the
/// address space and do not overlap, the sections have positive sizes, come
/// in ascending address order without overlapping each other, and together
/// cover exactly the addresses that those entries cover.
pub proof fn lemma_coalesce_correct(es: Seq<Region>)
    requires
        user_entries_disjoint(es),
    ensures
        forall|k: int| 0 <= k < coalesced(es).len() ==> #[trigger] coalesced(es)[k].1 > 0,
        forall|k: int, l: int|
            0 <= k < l < coalesced(es).len() ==> #[trigger] coalesced(es)[k].0 + coalesced(es)[k].1
                <= #[trigger] coalesced(es)[l].0,
        forall|a: int| #[trigger] covers(coalesced(es), a) <==> user_covers(es, a),
{
    broadcast use group_to_multiset_ensures;

    let u = user_entries(es);
    let s = in_address_order(u);
    let leq = |x: Region, y: Region| entry_leq(x, y);
    u.lemma_sort_by_ensures(leq);
    lemma_user_entries_apart(es);
    lemma_apart_permuted(u, s);
    lemma_sorted_apart_chained(s);
    lemma_sweep(s);
    lemma_user_entries_contains(es);
    let st = sweep(s);
    let r = coalesced(es);
    lemma_covers_push(st.0, st.1);
    if st.1.1 > 0 {
        assert(r == st.0.push(st.1));
        assert forall|k: int, l: int| 0 <= k < l < r.len() implies #[trigger] r[k].0 + r[k].1
            <= #[trigger] r[l].0 by {
            assert(r[k] == st.0[k]);
            if l < st.0.len() {
                assert(r[l] == st.0[l]);
            }
        }
        assert forall|k: int| 0 <= k < r.len() implies #[trigger] r[k].1 > 0 by {
            if k < st.0.len() {
                assert(r[k] == st.0[k]);
            }
        }
    }
    assert forall|a: int| #[trigger] covers(r, a) <==> user_covers(es, a) by {
        if covers(s, a) {
            let k = choose|k: int| 0 <= k < s.len() && in_region(s[k], a);
            assert(s.contains(s[k]));
            assert(s.to_multiset().count(s[k]) > 0);
            assert(u.to_multiset().count(s[k]) > 0);
            assert(u.contains(s[k]));
            let i = choose|i: int| 0 <= i < es.len() && es[i] == s[k] && is_user_entry(s[k]);
            assert(in_region(es[i], a));
        }
        if user_covers(es, a) {
            let i = choose|i: int| 0 <= i < es.len() && is_user_entry(es[i]) && in_region(es[i], a);
            assert(u.contains(es[i]));
            assert(u.to_multiset().count(es[i]) > 0);
            assert(s.to_multiset().count(es[i]) > 0);
            assert(s.contains(es[i]));
            let k = choose|k: int| 0 <= k < s.len() && s[k] == es[i];
            assert(in_region(s[k], a));
        }
    }
}

proof fn lemma_user_entries_skip_high(es: Seq<Region>, i: int, e: Region)
    requires
        !is_user_entry(e),
        0 <= i <= es.len(),
    ensures
        user_entries(es.insert(i, e)) == user_entries(es),
    decreases es.len(),
{
    let t = es.insert(i, e);
    if i == es.len() {
        assert(t.drop_last() =~= es);
    } else {
        assert(t.drop_last() =~= es.drop_last().insert(i, e));
        assert(t.last() == es.last());
        lemma_user_entries_skip_high(es.drop_last(), i, e);
    }
}

proof fn lemma_sweep_starts(s: Seq<Region>)
    requires
        forall|i: int| 0 <= i < s.len() ==> is_user_entry(#[trigger] s[i]),
    ensures
        forall|k: int| 0 <= k < sweep(s).0.len() ==> #[trigger] sweep(s).0[k].0 < HIGH_HALF_START,
        sweep(s).1.0 < HIGH_HALF_START,
    decreases s.len(),
{
    if s.len() > 0 {
        let d = s.drop_last();
        assert forall|i: int| 0 <= i < d.len() implies is_user_entry(#[trigger] d[i]) by {
            assert(d[i] == s[i]);
        }
        lemma_sweep_starts(d);
        assert(s[s.len() - 1] == s.last());
        let st = sweep(d);
        let nst = sweep(s);
        if nst.0.len() > st.0.len() {
            assert(nst.0 == st.0.push(st.1));
            assert forall|k: int| 0 <= k < nst.0.len() implies #[trigger] nst.0[k].0
                < HIGH_HALF_START by {
                if k < st.0.len() {
                    assert(nst.0[k] == st.0[k]);
                }
            }
        }
    }
}

/// Entries at or above the reserved high half never reach a section: every
/// section starts below it, and inserting such an entry anywhere into a page
/// map leaves the sections unchanged, even where it is adjacent to entries
/// below the boundary.
pub proof fn lemma_high_entries_ignored(es: Seq<Region>, i: int, e: Region)
    requires
        e.0 >= HIGH_HALF_START,
        0 <= i <= es.len(),
    ensures
        coalesced(es.insert(i, e)) == coalesced(es),
        forall|k: int| 0 <= k < coalesced(es).len() ==> #[trigger] coalesced(es)[k].0 < HIGH_HALF_START,
{
    broadcast use group_to_multiset_ensures;

    lemma_user_entries_skip_high(es, i, e);
    let u = user_entries(es);
    let s = in_address_order(u);
    u.lemma_sort_by_ensures(|x: Region, y: Region| entry_leq(x, y));
    lemma_user_entries_contains(es);
    assert forall|k: int| 0 <= k < s.len() implies is_user_entry(#[trigger] s[k]) by {
        assert(s.contains(s[k]));
        assert(s.to_multiset().count(s[k]) > 0);
        assert(u.to_multiset().count(s[k]) > 0);
        assert(u.contains(s[k]));
    }
    lemma_sweep_starts(s);
    let st = sweep(s);
    let r = coalesced(es);
    if st.1.1 > 0 {
        assert forall|k: int| 0 <= k < r.len() implies #[trigger] r[k].0 < HIGH_HALF_START by {
            if k < st.0.len() {
                assert(r[k] == st.0[k]);
            }
        }
    }
}

} // verus!
