//! Frozen atoms: the range expression that names them (`"2-3,7-9"`, 1-based,
//! inclusive) and the mobility mask it gives.

use crate::text::{chars_of, parse_unsigned, parse_unsigned_spec, split_on, split_spec, views};
use vstd::prelude::*;

verus! {

/// An inclusive range of 1-based atom indices.
#[derive(Clone, Copy, Debug, PartialEq, Eq)]
pub struct Range {
    pub low: u32,
    pub high: u32,
}

/// The numbers `low..=high`, in increasing order.
pub open spec fn numbers_spec(low: u32, high: u32) -> Seq<u32> {
    if low <= high {
        Seq::new((high - low + 1) as nat, |k: int| (low + k) as u32)
    } else {
        Seq::empty()
    }
}

impl Range {
    pub fn new(low: u32, high: u32) -> (r: Range)
        ensures
            r.low == low,
            r.high == high,
    {
        Range { low, high }
    }

    /// Whether the range holds index `n`.
    pub open spec fn has(self, n: int) -> bool {
        self.low <= n <= self.high
    }

    /// Every index of the range, in increasing order.
    pub fn gen_numbers(&self) -> (r: Vec<u32>)
        ensures
            r@ == numbers_spec(self.low, self.high),
    {
        let mut r: Vec<u32> = Vec::new();
        if self.low > self.high {
            assert(r@ =~= numbers_spec(self.low, self.high));
            return r;
        }
        let mut k: u64 = self.low as u64;
        while k <= self.high as u64
            invariant
                self.low <= self.high,
                self.low <= k <= self.high as u64 + 1,
                r@ =~= Seq::new((k - self.low) as nat, |j: int| (self.low + j) as u32),
            decreases self.high as u64 + 1 - k,
        {
            r.push(k as u32);
            k = k + 1;
        }
        r
    }
}

/// Why a range expression was refused.
#[derive(Clone, Copy, Debug, PartialEq, Eq)]
pub enum FreezeError {
    /// A comma-separated item holds exactly one number.
    MalformedRange,
    /// A non-empty range reaches index 0 or past the last atom.
    IndexOutOfRange,
}

/// The pieces of an item that read as `u32`, in order; the others are
/// skipped.
pub open spec fn parsed_numbers(pieces: Seq<Seq<char>>) -> Seq<u32>
    decreases pieces.len(),
{
    if pieces.len() == 0 {
        Seq::empty()
    } else {
        let rest = parsed_numbers(pieces.drop_last());
        match parse_unsigned_spec(pieces.last(), u32::MAX as nat) {
            Some(n) => rest.push(n as u32),
            None => rest,
        }
    }
}

/// The numbers of one item: its `-`-separated pieces that read as `u32`.
pub open spec fn item_numbers_spec(item: Seq<char>) -> Seq<u32> {
    parsed_numbers(split_spec(item, '-'))
}

/// The range that one item `lo-hi` denotes: its first two numbers. An item
/// with fewer than two numbers denotes no range; of those, one with no
/// number at all (`"x-y"`, `""`) is skipped by `ranges_of`, while one with
/// exactly one number (`"2"`, `"3-x"`) makes the expression malformed.
pub open spec fn range_spec(item: Seq<char>) -> Option<Range> {
    let nums = item_numbers_spec(item);
    if nums.len() >= 2 {
        Some(Range { low: nums[0], high: nums[1] })
    } else {
        None
    }
}

/// The ranges of the items of `items`, in order: an item with no number is
/// skipped, and `None` where an item holds exactly one number.
pub open spec fn ranges_of(items: Seq<Seq<char>>) -> Option<Seq<Range>>
    decreases items.len(),
{
    if items.len() == 0 {
        Some(Seq::empty())
    } else {
        match ranges_of(items.drop_last()) {
            None => None,
            Some(rs) => if item_numbers_spec(items.last()).len() == 0 {
                Some(rs)
            } else {
                match range_spec(items.last()) {
                    Some(r) => Some(rs.push(r)),
                    None => None,
                }
            },
        }
    }
}

/// The ranges of a whole expression: its comma-separated items.
pub open spec fn ranges_spec(expr: Seq<char>) -> Option<Seq<Range>> {
    ranges_of(split_spec(expr, ','))
}

/// The numbers of one item, in order.
fn item_numbers(item: &[char]) -> (r: Vec<u32>)
    ensures
        r@ == item_numbers_spec(item@),
{
    let pieces = split_on(item, '-');
    let ghost ps = views(pieces@);
    let mut nums: Vec<u32> = Vec::new();
    let mut i: usize = 0;
    while i < pieces.len()
        invariant
            i <= pieces@.len(),
            ps == views(pieces@),
            ps == split_spec(item@, '-'),
            nums@ == parsed_numbers(ps.take(i as int)),
        decreases pieces@.len() - i,
    {
        assert(ps.take(i as int + 1).drop_last() =~= ps.take(i as int));
        assert(ps.take(i as int + 1).last() == pieces@[i as int]@);
        match parse_unsigned(pieces[i].as_slice(), u32::MAX as u64) {
            Some(n) => nums.push(n as u32),
            None => {},
        }
        i = i + 1;
    }
    assert(ps.take(pieces@.len() as int) =~= ps);
    nums
}

/// Reads one item `lo-hi`.
pub fn convert_to_range(item: &[char]) -> (r: Option<Range>)
    ensures
        r == range_spec(item@),
{
    let nums = item_numbers(item);
    if nums.len() >= 2 {
        Some(Range::new(nums[0], nums[1]))
    } else {
        None
    }
}

/// Reads a whole range expression.
pub fn parse_ranges(expr: &str) -> (r: Result<Vec<Range>, FreezeError>)
    ensures
        match r {
            Ok(v) => ranges_spec(expr@) == Some(v@),
            Err(e) => ranges_spec(expr@) is None && e == FreezeError::MalformedRange,
        },
{
    let chars = chars_of(expr);
    let items = split_on(chars.as_slice(), ',');
    let ghost its = views(items@);
    let mut out: Vec<Range> = Vec::new();
    let mut i: usize = 0;
    while i < items.len()
        invariant
            i <= items@.len(),
            its == views(items@),
            its == split_spec(expr@, ','),
            ranges_of(its.take(i as int)) == Some(out@),
        decreases items@.len() - i,
    {
        assert(its.take(i as int + 1).drop_last() =~= its.take(i as int));
        assert(its.take(i as int + 1).last() == items@[i as int]@);
        let nums = item_numbers(items[i].as_slice());
        if nums.len() == 1 {
            proof {
                lemma_ranges_none_extends(its, i as int + 1);
            }
            return Err(FreezeError::MalformedRange);
        }
        if nums.len() >= 2 {
            out.push(Range::new(nums[0], nums[1]));
        }
        i = i + 1;
    }
    assert(its.take(items@.len() as int) =~= its);
    Ok(out)
}

proof fn lemma_ranges_none_extends(items: Seq<Seq<char>>, k: int)
    requires
        0 <= k <= items.len(),
        ranges_of(items.take(k)) is None,
    ensures
        ranges_of(items) is None,
    decreases items.len() - k,
{
    if k < items.len() {
        assert(items.take(k + 1).drop_last() =~= items.take(k));
        lemma_ranges_none_extends(items, k + 1);
    } else {
        assert(items.take(k) =~= items);
    }
}

/// The 1-based indices that the expression names, range by range, in order.
pub open spec fn indices_of(rs: Seq<Range>) -> Seq<u32>
    decreases rs.len(),
{
    if rs.len() == 0 {
        Seq::empty()
    } else {
        indices_of(rs.drop_last()) + numbers_spec(rs.last().low, rs.last().high)
    }
}

/// Lists the 1-based indices that a range expression names.
pub fn parse_string(expr: &str) -> (r: Result<Vec<u32>, FreezeError>)
    ensures
        match r {
            Ok(v) => ranges_spec(expr@) is Some && v@ == indices_of(ranges_spec(expr@)->0),
            Err(e) => ranges_spec(expr@) is None && e == FreezeError::MalformedRange,
        },
{
    let ranges = parse_ranges(expr)?;
    let mut out: Vec<u32> = Vec::new();
    let mut i: usize = 0;
    while i < ranges.len()
        invariant
            i <= ranges@.len(),
            out@ == indices_of(ranges@.take(i as int)),
        decreases ranges@.len() - i,
    {
        assert(ranges@.take(i as int + 1).drop_last() =~= ranges@.take(i as int));
        let mut nums = ranges[i].gen_numbers();
        out.append(&mut nums);
        i = i + 1;
    }
    assert(ranges@.take(ranges@.len() as int) =~= ranges@);
    Ok(out)
}

/// Whether some range of `rs` holds index `n`.
pub open spec fn in_some(rs: Seq<Range>, n: int) -> bool {
    exists|j: int| 0 <= j < rs.len() && (#[trigger] rs[j]).has(n)
}

/// Whether every non-empty range of `rs` stays within `1..=n_atoms`.
pub open spec fn ranges_fit(rs: Seq<Range>, n_atoms: nat) -> bool {
    forall|j: int|
        0 <= j < rs.len() && (#[trigger] rs[j]).low <= rs[j].high ==> 1 <= rs[j].low && rs[j].high
            <= n_atoms
}

/// The mobility of each of `n_atoms` atoms: an atom is frozen where a range
/// holds its 1-based index.
pub open spec fn mask_spec(rs: Seq<Range>, n_atoms: nat) -> Seq<bool> {
    Seq::new(n_atoms, |i: int| !in_some(rs, i + 1))
}

/// The mobility mask that `expr` gives to `n_atoms` atoms: `false` for each
/// atom whose 1-based index a range holds, `true` for the others.
pub fn freeze_mask(n_atoms: usize, expr: &str) -> (r: Result<Vec<bool>, FreezeError>)
    ensures
        match ranges_spec(expr@) {
            None => r == Err::<Vec<bool>, FreezeError>(FreezeError::MalformedRange),
            Some(rs) => if ranges_fit(rs, n_atoms as nat) {
                r is Ok && r->Ok_0@ == mask_spec(rs, n_atoms as nat)
            } else {
                r == Err::<Vec<bool>, FreezeError>(FreezeError::IndexOutOfRange)
            },
        },
{
    let ranges = parse_ranges(expr)?;
    let mut j: usize = 0;
    while j < ranges.len()
        invariant
            j <= ranges@.len(),
            ranges_spec(expr@) == Some(ranges@),
            ranges_fit(ranges@.take(j as int), n_atoms as nat),
        decreases ranges@.len() - j,
    {
        let rg = ranges[j];
        if rg.low <= rg.high && (rg.low < 1 || rg.high as u64 > n_atoms as u64) {
            assert(!ranges_fit(ranges@, n_atoms as nat)) by {
                assert(ranges@[j as int] == rg);
            }
            return Err(FreezeError::IndexOutOfRange);
        }
        assert(ranges_fit(ranges@.take(j as int + 1), n_atoms as nat)) by {
            assert forall|m: int|
                0 <= m < j + 1 && (#[trigger] ranges@.take(j as int + 1)[m]).low <= ranges@.take(
                    j as int + 1,
                )[m].high implies 1 <= ranges@.take(j as int + 1)[m].low && ranges@.take(
                j as int + 1,
            )[m].high <= n_atoms by {
                if m < j {
                    assert(ranges@.take(j as int + 1)[m] == ranges@.take(j as int)[m]);
                }
            }
        }
        j = j + 1;
    }
    assert(ranges@.take(ranges@.len() as int) =~= ranges@);
    let mut mask: Vec<bool> = Vec::new();
    let mut i: usize = 0;
    while i < n_atoms
        invariant
            i <= n_atoms,
            mask@.len() == i,
            forall|m: int| 0 <= m < i ==> mask@[m],
        decreases n_atoms - i,
    {
        mask.push(true);
        i = i + 1;
    }
    let mut k: usize = 0;
    while k < ranges.len()
        invariant
            k <= ranges@.len(),
            ranges_fit(ranges@, n_atoms as nat),
            mask@.len() == n_atoms,
            forall|m: int| 0 <= m < n_atoms ==> mask@[m] == !in_some(ranges@.take(k as int), m + 1),
        decreases ranges@.len() - k,
    {
        let rg = ranges[k];
        let nums = rg.gen_numbers();
        assert(ranges@[k as int] == rg);
        let mut t: usize = 0;
        while t < nums.len()
            invariant
                k < ranges@.len(),
                ranges@[k as int] == rg,
                ranges_fit(ranges@, n_atoms as nat),
                nums@ == numbers_spec(rg.low, rg.high),
                t <= nums@.len(),
                mask@.len() == n_atoms,
                forall|m: int|
                    0 <= m < n_atoms ==> mask@[m] == !(in_some(ranges@.take(k as int), m + 1) || (
                    rg.low <= m + 1 < rg.low + t)),
            decreases nums@.len() - t,
        {
            let v = nums[t];
            assert(v == rg.low + t);
            assert(1 <= v <= n_atoms);
            mask.set((v - 1) as usize, false);
            t = t + 1;
        }
        assert forall|m: int| 0 <= m < n_atoms implies mask@[m] == !in_some(
            ranges@.take(k as int + 1),
            m + 1,
        ) by {
            let pre = ranges@.take(k as int);
            let post = ranges@.take(k as int + 1);
            if in_some(pre, m + 1) {
                let j = choose|j: int| 0 <= j < pre.len() && (#[trigger] pre[j]).has(m + 1);
                assert(post[j] == pre[j]);
            }
            if in_some(post, m + 1) {
                let j = choose|j: int| 0 <= j < post.len() && (#[trigger] post[j]).has(m + 1);
                if j < k {
                    assert(post[j] == pre[j]);
                }
            }
            if rg.has(m + 1) {
                assert(post[k as int] == rg);
            }
        }
        k = k + 1;
    }
    assert(ranges@.take(ranges@.len() as int) =~= ranges@);
    assert(mask@ =~= mask_spec(ranges@, n_atoms as nat));
    Ok(mask)
}

proof fn lemma_numbers_contains(low: u32, high: u32, v: u32)
    ensures
        numbers_spec(low, high).contains(v) <==> low <= v <= high,
{
    let ns = numbers_spec(low, high);
    if low <= v <= high {
        assert(ns[v - low] == v);
    }
    if ns.contains(v) {
        let k = choose|k: int| 0 <= k < ns.len() && ns[k] == v;
        assert(ns[k] == v);
    }
}

proof fn lemma_indices_contains(rs: Seq<Range>, v: u32)
    ensures
        indices_of(rs).contains(v) <==> in_some(rs, v as int),
    decreases rs.len(),
{
    if rs.len() > 0 {
        let pre = rs.drop_last();
        let last = rs.last();
        lemma_indices_contains(pre, v);
        lemma_numbers_contains(last.low, last.high, v);
        let a = indices_of(pre);
        let b = numbers_spec(last.low, last.high);
        if (a + b).contains(v) {
            let k = choose|k: int| 0 <= k < (a + b).len() && (a + b)[k] == v;
            if k < a.len() {
                assert(a[k] == v);
            } else {
                assert(b[k - a.len()] == v);
            }
        }
        if a.contains(v) {
            let k = choose|k: int| 0 <= k < a.len() && a[k] == v;
            assert((a + b)[k] == v);
        }
        if b.contains(v) {
            let k = choose|k: int| 0 <= k < b.len() && b[k] == v;
            assert((a + b)[a.len() + k] == v);
        }
        if in_some(rs, v as int) {
            let j = choose|j: int| 0 <= j < rs.len() && (#[trigger] rs[j]).has(v as int);
            if j < pre.len() {
                assert(pre[j] == rs[j]);
            }
        }
        if in_some(pre, v as int) {
            let j = choose|j: int| 0 <= j < pre.len() && (#[trigger] pre[j]).has(v as int);
            assert(rs[j] == pre[j]);
        }
        if last.has(v as int) {
            assert(rs[rs.len() - 1] == last);
        }
    }
}

/// The atoms that the mask of an expression freezes are exactly those whose
/// 1-based indices `parse_string` lists for it.
pub proof fn lemma_mask_freezes_listed(expr: Seq<char>, n_atoms: nat)
    requires
        ranges_spec(expr) is Some,
    ensures
        forall|i: int|
            0 <= i < n_atoms && i + 1 <= u32::MAX ==> (#[trigger] mask_spec(
                ranges_spec(expr)->0,
                n_atoms,
            )[i] == !indices_of(ranges_spec(expr)->0).contains((i + 1) as u32)),
{
    let rs = ranges_spec(expr)->0;
    assert forall|i: int| 0 <= i < n_atoms && i + 1 <= u32::MAX implies (#[trigger] mask_spec(
        rs,
        n_atoms,
    )[i] == !indices_of(rs).contains((i + 1) as u32)) by {
        lemma_indices_contains(rs, (i + 1) as u32);
    }
}

/// For each atom, `moved[i]` where it is mobile and `held[i]` where it is
/// frozen.
pub open spec fn selected<T>(mobile: Seq<bool>, moved: Seq<T>, held: Seq<T>) -> Seq<T> {
    Seq::new(mobile.len(), |i: int| if mobile[i] { moved[i] } else { held[i] })
}

/// Freezing changes only the frozen atoms: a mobile atom takes exactly the
/// value it takes when no atom is frozen, and a frozen one keeps its held
/// value, whatever the mask says of the other atoms.
pub proof fn lemma_freezing_touches_only_frozen<T>(mobile: Seq<bool>, moved: Seq<T>, held: Seq<T>)
    requires
        moved.len() == mobile.len(),
        held.len() == mobile.len(),
    ensures
        forall|i: int|
            0 <= i < mobile.len() && mobile[i] ==> #[trigger] selected(mobile, moved, held)[i]
                == selected(Seq::new(mobile.len(), |j: int| true), moved, held)[i],
        forall|i: int|
            0 <= i < mobile.len() && !mobile[i] ==> #[trigger] selected(mobile, moved, held)[i]
                == held[i],
{
}

/// For each atom, `moved[i]` where it is mobile and `held[i]` where it is
/// frozen: the rule by which a frozen atom keeps its position and velocity.
pub fn select_mobile<T: Copy>(mobile: &[bool], moved: &[T], held: &[T]) -> (r: Vec<T>)
    requires
        moved@.len() == mobile@.len(),
        held@.len() == mobile@.len(),
    ensures
        r@ == selected(mobile@, moved@, held@),
        r@.len() == mobile@.len(),
        forall|i: int|
            0 <= i < mobile@.len() ==> #[trigger] r@[i] == if mobile@[i] {
                moved@[i]
            } else {
                held@[i]
            },
{
    let mut r: Vec<T> = Vec::new();
    let mut i: usize = 0;
    while i < mobile.len()
        invariant
            i <= mobile@.len(),
            moved@.len() == mobile@.len(),
            held@.len() == mobile@.len(),
            r@.len() == i,
            forall|m: int|
                0 <= m < i ==> #[trigger] r@[m] == if mobile@[m] {
                    moved@[m]
                } else {
                    held@[m]
                },
        decreases mobile@.len() - i,
    {
        if mobile[i] {
            r.push(moved[i]);
        } else {
            r.push(held[i]);
        }
        i = i + 1;
    }
    assert(r@ =~= selected(mobile@, moved@, held@));
    r
}

} // verus!
