//! Turning the positions reported by the scoring engine into highlight ranges.
//!
//! The engine reports the matched positions of a comparison column as a flat
//! list in which a position may occur out of order and more than once. A
//! channel first brings the list into ascending order without repetitions and
//! then cuts it at the length of the name: positions below the cut highlight
//! the name, the others, moved down by the cut, highlight the value.

use vstd::prelude::*;

verus! {

/// Every element is smaller than each one after it.
pub open spec fn strictly_increasing(s: Seq<u32>) -> bool {
    forall|i: int, j: int| 0 <= i < j < s.len() ==> s[i] < s[j]
}

/// The members of `set` below `bound`, in ascending order.
pub open spec fn ascending(set: Set<u32>, bound: nat) -> Seq<u32>
    decreases bound,
{
    if bound == 0 {
        Seq::empty()
    } else {
        let below = ascending(set, (bound - 1) as nat);
        if bound - 1 <= u32::MAX && set.contains((bound - 1) as u32) {
            below.push((bound - 1) as u32)
        } else {
            below
        }
    }
}

/// The elements of `raw` in ascending order, each one once.
pub open spec fn sorted_unique(raw: Seq<u32>) -> Seq<u32> {
    ascending(raw.to_set(), 0x1_0000_0000)
}

/// The positions that fall on the name: those below `name_len`.
pub open spec fn name_positions(sorted: Seq<u32>, name_len: u32) -> Seq<u32> {
    sorted.filter(|p: u32| p < name_len)
}

/// The positions that fall on the value, counted from the start of the value.
///
/// The comparison column is the name directly followed by the value, so the
/// position `name_len` is the first character of the value.
pub open spec fn value_positions(sorted: Seq<u32>, name_len: u32) -> Seq<u32> {
    sorted.filter(|p: u32| p >= name_len).map_values(|p: u32| (p - name_len) as u32)
}

/// One half-open range of length one for each position.
pub open spec fn unit_ranges(positions: Seq<u32>) -> Seq<(u32, u32)> {
    positions.map_values(|p: u32| (p, (p + 1) as u32))
}

/// Ranges that are sorted, do not overlap and lie within `[0, len]`.
pub open spec fn ranges_valid(ranges: Seq<(u32, u32)>, len: nat) -> bool {
    &&& forall|i: int| 0 <= i < ranges.len() ==> (#[trigger] ranges[i]).0 < ranges[i].1 <= len
    &&& forall|i: int, j: int|
        0 <= i < j < ranges.len() ==> (#[trigger] ranges[i]).1 <= (#[trigger] ranges[j]).0
}

/// `ascending(set, bound)` is strictly increasing and holds exactly the
/// members of `set` below `bound`.
pub proof fn lemma_ascending(set: Set<u32>, bound: nat)
    ensures
        strictly_increasing(ascending(set, bound)),
        forall|x: u32|
            #![trigger ascending(set, bound).contains(x)]
            #![trigger set.contains(x)]
            ascending(set, bound).contains(x) <==> set.contains(x) && x < bound,
    decreases bound,
{
    let all = ascending(set, bound);
    if bound == 0 {
        assert(all =~= Seq::empty());
    } else {
        let below = ascending(set, (bound - 1) as nat);
        lemma_ascending(set, (bound - 1) as nat);
        if bound - 1 <= u32::MAX && set.contains((bound - 1) as u32) {
            let top = (bound - 1) as u32;
            assert(all == below.push(top));
            assert forall|i: int, j: int| 0 <= i < j < all.len() implies all[i] < all[j] by {
                assert(all[i] == below[i]);
                if j == below.len() {
                    assert(below.contains(below[i]));
                    assert(all[j] == top);
                } else {
                    assert(all[j] == below[j]);
                }
            }
            assert forall|x: u32| all.contains(x) <==> set.contains(x) && x < bound by {
                if all.contains(x) {
                    let i = choose|i: int| 0 <= i < all.len() && all[i] == x;
                    if i < below.len() {
                        assert(below[i] == x);
                        assert(below.contains(x));
                    }
                }
                if set.contains(x) && x < bound {
                    if x == top {
                        assert(all[below.len() as int] == x);
                    } else {
                        assert(below.contains(x));
                        let i = choose|i: int| 0 <= i < below.len() && below[i] == x;
                        assert(all[i] == x);
                    }
                }
            }
        } else {
            assert(all == below);
            assert forall|x: u32| all.contains(x) <==> set.contains(x) && x < bound by {
                if set.contains(x) && x < bound {
                    assert(x != bound - 1);
                }
            }
        }
    }
}

/// A strictly increasing sequence is determined by its elements: it is the
/// ascending listing of the set it holds.
pub proof fn lemma_strictly_increasing_unique(s: Seq<u32>, set: Set<u32>, bound: nat)
    requires
        strictly_increasing(s),
        forall|x: u32|
            #![trigger s.contains(x)]
            #![trigger set.contains(x)]
            s.contains(x) <==> set.contains(x) && x < bound,
    ensures
        s == ascending(set, bound),
    decreases bound,
{
    if bound == 0 {
        if s.len() > 0 {
            assert(s.contains(s[0]));
        }
        assert(s =~= Seq::empty());
    } else if bound - 1 <= u32::MAX && set.contains((bound - 1) as u32) {
        let top = (bound - 1) as u32;
        assert(s.contains(top));
        let at = choose|i: int| 0 <= i < s.len() && s[i] == top;
        if at < s.len() - 1 {
            assert(s.contains(s[at + 1]));
        }
        let front = s.drop_last();
        assert forall|x: u32| front.contains(x) <==> set.contains(x) && x < bound - 1 by {
            if front.contains(x) {
                let i = choose|i: int| 0 <= i < front.len() && front[i] == x;
                assert(s[i] == x);
                assert(s.contains(x));
            }
            if set.contains(x) && x < bound - 1 {
                assert(s.contains(x));
                let i = choose|i: int| 0 <= i < s.len() && s[i] == x;
                assert(front[i] == x);
            }
        }
        lemma_strictly_increasing_unique(front, set, (bound - 1) as nat);
        assert(s =~= front.push(top));
    } else {
        assert forall|x: u32| s.contains(x) <==> set.contains(x) && x < bound - 1 by {
            if s.contains(x) && x == bound - 1 {
                assert(set.contains(x));
            }
        }
        lemma_strictly_increasing_unique(s, set, (bound - 1) as nat);
    }
}

/// Brings `indices` into ascending order and drops repetitions.
pub fn sort_dedup(indices: &mut Vec<u32>)
    ensures
        strictly_increasing(final(indices)@),
        forall|x: u32| final(indices)@.contains(x) <==> old(indices)@.contains(x),
        final(indices)@ == sorted_unique(old(indices)@),
{
    let mut out: Vec<u32> = Vec::new();
    let n: usize = indices.len();
    let mut k: usize = 0;
    while k < n
        invariant
            n == indices.len(),
            indices@ == old(indices)@,
            k <= n,
            strictly_increasing(out@),
            forall|x: u32|
                #![trigger out@.contains(x)]
                #![trigger indices@.take(k as int).contains(x)]
                out@.contains(x) <==> indices@.take(k as int).contains(x),
        decreases n - k,
    {
        let x: u32 = indices[k];
        let mut p: usize = 0;
        while p < out.len() && out[p] < x
            invariant
                p <= out.len(),
                forall|j: int| 0 <= j < p ==> out@[j] < x,
            decreases out.len() - p,
        {
            p += 1;
        }
        let ghost before = out@;
        let ghost seen = indices@.take(k as int);
        let ghost seen_next = indices@.take(k + 1);
        assert(seen_next =~= seen.push(x));
        assert forall|y: u32| seen_next.contains(y) <==> seen.contains(y) || y == x by {
            if seen_next.contains(y) {
                let i = choose|i: int| 0 <= i < seen_next.len() && seen_next[i] == y;
                if i < seen.len() {
                    assert(seen[i] == y);
                }
            }
            if seen.contains(y) {
                let i = choose|i: int| 0 <= i < seen.len() && seen[i] == y;
                assert(seen_next[i] == y);
            }
            if y == x {
                assert(seen_next[k as int] == y);
            }
        }
        if p == out.len() || out[p] != x {
            out.insert(p, x);
            assert forall|i: int, j: int| 0 <= i < j < out@.len() implies out@[i] < out@[j] by {
                if i < p && j > p {
                    assert(before[i] < before[j - 1]);
                }
            }
            assert forall|y: u32| out@.contains(y) <==> before.contains(y) || y == x by {
                if out@.contains(y) {
                    let i = choose|i: int| 0 <= i < out@.len() && out@[i] == y;
                    if i < p {
                        assert(before[i] == y);
                    } else if i > p {
                        assert(before[i - 1] == y);
                    }
                }
                if before.contains(y) {
                    let i = choose|i: int| 0 <= i < before.len() && before[i] == y;
                    if i < p {
                        assert(out@[i] == y);
                    } else {
                        assert(out@[i + 1] == y);
                    }
                }
                if y == x {
                    assert(out@[p as int] == y);
                }
            }
        } else {
            assert(before[p as int] == x);
            assert(before.contains(x));
        }
        assert(forall|y: u32| out@.contains(y) <==> seen_next.contains(y));
        k += 1;
    }
    proof {
        assert(indices@.take(n as int) =~= indices@);
        let set = indices@.to_set();
        assert forall|x: u32| out@.contains(x) <==> set.contains(x) && x < 0x1_0000_0000 by {}
        lemma_strictly_increasing_unique(out@, set, 0x1_0000_0000);
    }
    *indices = out;
}

/// Filtering keeps a strictly increasing sequence strictly increasing, and
/// keeps exactly the elements that pass.
pub proof fn lemma_filter_increasing(s: Seq<u32>, pred: spec_fn(u32) -> bool)
    requires
        strictly_increasing(s),
    ensures
        strictly_increasing(s.filter(pred)),
        forall|x: u32| #[trigger] s.filter(pred).contains(x) ==> s.contains(x) && pred(x),
    decreases s.len(),
{
    reveal(Seq::filter);
    let out = s.filter(pred);
    if s.len() > 0 {
        let front = s.drop_last();
        lemma_filter_increasing(front, pred);
        let kept = front.filter(pred);
        assert forall|x: u32| #[trigger] out.contains(x) implies s.contains(x) && pred(x) by {
            let i = choose|i: int| 0 <= i < out.len() && out[i] == x;
            if i < kept.len() {
                assert(kept[i] == x);
                assert(kept.contains(x));
                let j = choose|j: int| 0 <= j < front.len() && front[j] == x;
                assert(s[j] == x);
            } else {
                assert(s[s.len() - 1] == x);
            }
        }
        assert forall|i: int, j: int| 0 <= i < j < out.len() implies out[i] < out[j] by {
            if j < kept.len() {
                assert(out[i] == kept[i] && out[j] == kept[j]);
            } else {
                assert(out[i] == kept[i]);
                assert(kept.contains(kept[i]));
                let k = choose|k: int| 0 <= k < front.len() && front[k] == kept[i];
                assert(s[k] < s[s.len() - 1]);
            }
        }
    }
}

/// The highlight ranges of the name for the raw positions `raw`.
pub open spec fn name_ranges(raw: Seq<u32>, name_len: u32) -> Seq<(u32, u32)> {
    unit_ranges(name_positions(sorted_unique(raw), name_len))
}

/// The highlight ranges of the value for the raw positions `raw`.
pub open spec fn value_ranges(raw: Seq<u32>, name_len: u32) -> Seq<(u32, u32)> {
    unit_ranges(value_positions(sorted_unique(raw), name_len))
}

/// Highlight ranges are valid for the fields they belong to: whenever every
/// raw position lies within the comparison column (the name followed by the
/// value), the ranges of the name lie within the name, those of the value
/// within the value, and each list is sorted without overlap.
pub proof fn lemma_highlight_ranges_valid(raw: Seq<u32>, name_len: u32, value_len: nat)
    requires
        name_len + value_len <= u32::MAX,
        forall|i: int| 0 <= i < raw.len() ==> raw[i] < name_len + value_len,
    ensures
        ranges_valid(name_ranges(raw, name_len), name_len as nat),
        ranges_valid(value_ranges(raw, name_len), value_len),
{
    let sorted = sorted_unique(raw);
    lemma_ascending(raw.to_set(), 0x1_0000_0000);
    assert forall|x: u32| #[trigger] sorted.contains(x) implies x < name_len + value_len by {
        assert(raw.to_set().contains(x));
        assert(raw.contains(x));
    }
    let on_name = sorted.filter(|p: u32| p < name_len);
    let on_value = sorted.filter(|p: u32| p >= name_len);
    lemma_filter_increasing(sorted, |p: u32| p < name_len);
    lemma_filter_increasing(sorted, |p: u32| p >= name_len);
    let names = name_ranges(raw, name_len);
    let values = value_ranges(raw, name_len);
    assert(names.len() == on_name.len());
    assert(values.len() == on_value.len());
    assert forall|i: int| 0 <= i < names.len() implies (#[trigger] names[i]).0 < names[i].1
        <= name_len by {
        assert(on_name.contains(on_name[i]));
    }
    assert forall|i: int, j: int| 0 <= i < j < names.len() implies (#[trigger] names[i]).1 <= (
    #[trigger] names[j]).0 by {
        assert(on_name.contains(on_name[i]));
        assert(on_name.contains(on_name[j]));
        assert(on_name[i] < on_name[j]);
    }
    assert forall|i: int| 0 <= i < values.len() implies (#[trigger] values[i]).0 < values[i].1
        <= value_len by {
        assert(on_value.contains(on_value[i]));
    }
    assert forall|i: int, j: int| 0 <= i < j < values.len() implies (#[trigger] values[i]).1 <= (
    #[trigger] values[j]).0 by {
        assert(on_value.contains(on_value[i]));
        assert(on_value.contains(on_value[j]));
        assert(on_value[i] < on_value[j]);
    }
}

/// Cuts `indices` at `name_len` and empties it.
///
/// Returns the positions on the name, the positions on the value counted from
/// the start of the value, and for each of the two whether it holds anything.
/// A position equal to `name_len` belongs to the value.
pub fn sep_name_and_value_indices(indices: &mut Vec<u32>, name_len: u32) -> (r: (
    Vec<u32>,
    Vec<u32>,
    bool,
    bool,
))
    ensures
        final(indices)@.len() == 0,
        r.0@ == name_positions(old(indices)@, name_len),
        r.1@ == value_positions(old(indices)@, name_len),
        r.2 == (r.0@.len() > 0),
        r.3 == (r.1@.len() > 0),
{
    let mut name_indices: Vec<u32> = Vec::new();
    let mut value_indices: Vec<u32> = Vec::new();
    let mut should_add_name_indices = false;
    let mut should_add_value_indices = false;
    let n: usize = indices.len();
    let mut k: usize = 0;
    proof {
        reveal(Seq::filter);
        assert(indices@.take(0) =~= Seq::empty());
        assert(value_positions(indices@.take(0), name_len) =~= Seq::empty());
    }
    while k < n
        invariant
            n == indices.len(),
            indices@ == old(indices)@,
            k <= n,
            name_indices@ == name_positions(indices@.take(k as int), name_len),
            value_indices@ == value_positions(indices@.take(k as int), name_len),
            should_add_name_indices == (name_indices@.len() > 0),
            should_add_value_indices == (value_indices@.len() > 0),
        decreases n - k,
    {
        let i: u32 = indices[k];
        proof {
            reveal(Seq::filter);
            let seen = indices@.take(k as int);
            let seen_next = indices@.take(k + 1);
            assert(seen_next.drop_last() =~= seen);
            assert(seen_next.last() == i);
            if i >= name_len {
                let kept = seen.filter(|p: u32| p >= name_len);
                assert(seen_next.filter(|p: u32| p >= name_len) == kept.push(i));
                assert(value_positions(seen_next, name_len) =~= value_positions(
                    seen,
                    name_len,
                ).push((i - name_len) as u32));
            }
        }
        if i < name_len {
            name_indices.push(i);
            should_add_name_indices = true;
        } else {
            value_indices.push(i - name_len);
            should_add_value_indices = true;
        }
        k += 1;
    }
    proof {
        assert(indices@.take(n as int) =~= indices@);
    }
    indices.clear();
    (name_indices, value_indices, should_add_name_indices, should_add_value_indices)
}

/// One half-open range of length one for each position.
pub fn indices_to_ranges(positions: &Vec<u32>) -> (ranges: Vec<(u32, u32)>)
    requires
        forall|i: int| 0 <= i < positions@.len() ==> positions@[i] < u32::MAX,
    ensures
        ranges@ == unit_ranges(positions@),
{
    let mut ranges: Vec<(u32, u32)> = Vec::new();
    let n: usize = positions.len();
    let mut k: usize = 0;
    while k < n
        invariant
            n == positions.len(),
            k <= n,
            forall|i: int| 0 <= i < positions@.len() ==> positions@[i] < u32::MAX,
            ranges@ == unit_ranges(positions@.take(k as int)),
        decreases n - k,
    {
        let i: u32 = positions[k];
        proof {
            assert(positions@.take(k + 1) =~= positions@.take(k as int).push(i));
            assert(unit_ranges(positions@.take(k + 1)) =~= unit_ranges(
                positions@.take(k as int),
            ).push((i, (i + 1) as u32)));
        }
        ranges.push((i, i + 1));
        k += 1;
    }
    proof {
        assert(positions@.take(n as int) =~= positions@);
    }
    ranges
}

} // verus!
