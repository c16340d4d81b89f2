//! Track which rows of the screen need to be redrawn.
use vstd::prelude::*;

use bit_set::BitSet;

verus! {

/// A set of row numbers, kept in a `bit_set::BitSet`.
#[verifier::external_body]
pub struct RowSet {
    set: BitSet,
}

/// The values held by a row set.
pub uninterp spec fn bitset_values(s: RowSet) -> Set<usize>;

/// Relies on `BitSet::new`: the new set holds no value.
#[verifier::external_body]
fn bitset_new() -> (r: RowSet)
    ensures
        bitset_values(r) == Set::<usize>::empty(),
{
    RowSet { set: BitSet::new() }
}

/// Relies on `BitSet::insert`: afterwards the set also holds `value`.
#[verifier::external_body]
fn bitset_insert(s: &mut RowSet, value: usize)
    ensures
        bitset_values(*final(s)) == bitset_values(*old(s)).insert(value),
{
    s.set.insert(value);
}

/// Relies on `BitSet::contains`: whether the set holds `value`.
#[verifier::external_body]
fn bitset_contains(s: &RowSet, value: usize) -> (r: bool)
    ensures
        r == bitset_values(*s).contains(value),
{
    s.set.contains(value)
}

/// Relies on `BitSet::iter`: it visits every value of the set, and only those.
#[verifier::external_body]
fn bitset_values_vec(s: &RowSet) -> (r: Vec<usize>)
    ensures
        r@.to_set() == bitset_values(*s),
{
    s.set.iter().collect()
}

/// Which rows of the screen must be redrawn at the next render.
pub enum Refresh {
    /// Nothing to render.
    Nothing,
    /// The rows `start..end` must be rendered.
    Range(usize, usize),
    /// The rows in the set must be rendered.
    Lines(RowSet),
    /// The whole screen must be rendered.
    All,
}

/// Whether `row` lies in the region `start..end`.
pub open spec fn in_region(row: int, start: int, end: int) -> bool {
    start <= row < end
}

/// Whether `row` is marked after rotating a region upwards by `step`, given
/// the marks before (`before`).
pub open spec fn rotated_up(before: spec_fn(int) -> bool, start: int, end: int, step: int, fill: bool, row: int) -> bool {
    if !in_region(row, start, end) {
        before(row)
    } else if row + step < end {
        before(row + step)
    } else {
        fill
    }
}

/// Whether `row` is marked after rotating a region downwards by `step`,
/// given the marks before (`before`).
pub open spec fn rotated_down(before: spec_fn(int) -> bool, start: int, end: int, step: int, fill: bool, row: int) -> bool {
    if !in_region(row, start, end) {
        before(row)
    } else if row - step >= start {
        before(row - step)
    } else {
        fill
    }
}

impl Refresh {
    /// Whether the descriptor marks `row` for redrawing.
    pub open spec fn marks(&self, row: int) -> bool {
        match self {
            Refresh::Nothing => false,
            Refresh::Range(s, e) => *s <= row < *e,
            Refresh::Lines(b) => 0 <= row <= usize::MAX && bitset_values(*b).contains(row as usize),
            Refresh::All => true,
        }
    }

    /// The marks as a predicate on rows.
    pub open spec fn marked(&self) -> spec_fn(int) -> bool {
        |row: int| self.marks(row)
    }

    /// A descriptor that marks nothing.
    pub fn new() -> (r: Refresh)
        ensures
            forall|row: int| !r.marks(row),
    {
        Refresh::Nothing
    }

    /// Whether the whole screen is marked.
    pub fn is_all(&self) -> (r: bool)
        ensures
            r == (self is All),
    {
        match self {
            Refresh::All => true,
            _ => false,
        }
    }

    /// Whether `row` must be redrawn.
    pub fn contains(&self, row: usize) -> (r: bool)
        ensures
            r == self.marks(row as int),
    {
        match self {
            Refresh::Nothing => false,
            Refresh::Range(s, e) => *s <= row && row < *e,
            Refresh::Lines(b) => bitset_contains(b, row),
            Refresh::All => true,
        }
    }

    /// Mark every row.
    pub fn set_all(&mut self)
        ensures
            *final(self) is All,
            forall|row: int| final(self).marks(row),
    {
        *self = Refresh::All;
    }

    /// Mark the rows `start..end` as well.
    pub fn add_range(&mut self, start: usize, end: usize)
        ensures
            forall|row: int| #[trigger] final(self).marks(row) == (old(self).marks(row) || start <= row < end),
            (*old(self) is All) == (*final(self) is All),
            *old(self) is Nothing ==> *final(self) == Refresh::Range(start, end),
            ({
                let (s, e) = (old(self)->Range_0, old(self)->Range_1);
                *old(self) is Range && !(start > e || s > end)
                    ==> *final(self) == Refresh::Range(if start < s { start } else { s }, if end > e { end } else { e })
            }),
            ({
                let (s, e) = (old(self)->Range_0, old(self)->Range_1);
                *old(self) is Range && (start > e || s > end) ==> *final(self) is Lines
            }),
            *old(self) is Lines ==> *final(self) is Lines,
    {
        match self {
            Refresh::Nothing => {
                *self = Refresh::Range(start, end);
            },
            Refresh::Range(s, e) => {
                let s = *s;
                let e = *e;
                if start > e || s > end {
                    let mut b = bitset_new();
                    insert_range(&mut b, s, e);
                    insert_range(&mut b, start, end);
                    *self = Refresh::Lines(b);
                } else {
                    let lo = if start < s { start } else { s };
                    let hi = if end > e { end } else { e };
                    *self = Refresh::Range(lo, hi);
                }
            },
            Refresh::Lines(b) => {
                insert_range(b, start, end);
            },
            Refresh::All => {},
        }
    }

    /// Collect the marked rows of a descriptor that is not `All`.
    fn marked_rows(&self) -> (r: Vec<usize>)
        requires
            !(*self is All),
        ensures
            forall|row: usize| #[trigger] r@.contains(row) <==> self.marks(row as int),
            forall|row: int| self.marks(row) ==> 0 <= row <= usize::MAX,
    {
        match self {
            Refresh::Nothing => Vec::new(),
            Refresh::Range(s, e) => {
                let mut v: Vec<usize> = Vec::new();
                let mut i: usize = *s;
                while i < *e
                    invariant
                        *s <= i,
                        i <= *e || i == *s,
                        forall|row: usize| #[trigger] v@.contains(row) <==> (*s <= row < i),
                    decreases *e - i,
                {
                    let ghost v0 = v@;
                    v.push(i);
                    proof {
                        assert forall|row: usize| #[trigger] v@.contains(row) <==> (*s <= row < i + 1) by {
                            if v@.contains(row) && row != i {
                                let k = choose|k: int| 0 <= k < v@.len() && v@[k] == row;
                                assert(v0[k] == row);
                                assert(v0.contains(row));
                            }
                            if *s <= row < i {
                                assert(v0.contains(row));
                                let k = choose|k: int| 0 <= k < v0.len() && v0[k] == row;
                                assert(v@[k] == row);
                            }
                            if row == i {
                                assert(v@[v@.len() - 1] == i);
                            }
                        }
                    }
                    i = i + 1;
                }
                v
            },
            Refresh::Lines(b) => {
                let v = bitset_values_vec(b);
                proof {
                    assert forall|row: usize| #[trigger] v@.contains(row) <==> self.marks(row as int) by {
                        assert(v@.to_set().contains(row) == v@.contains(row));
                    }
                }
                v
            },
            Refresh::All => Vec::new(),
        }
    }

    /// Rotate the rows of the region `start..end` upwards (towards `start`) by
    /// `step`, as a terminal does when it scrolls that region up.  Rows that
    /// leave the region are dropped; when `fill` is set, the rows uncovered at
    /// the bottom of the region are marked.
    pub fn rotate_range_up(&mut self, start: usize, end: usize, step: usize, fill: bool)
        ensures
            *old(self) is All ==> *final(self) is All,
            !(*old(self) is All) ==> forall|row: int| #[trigger] final(self).marks(row) == rotated_up(old(self).marked(), start as int, end as int, step as int, fill, row),
    {
        self.rotate(start, end, step, fill, true);
    }

    /// Rotate the rows of the region `start..end` downwards (away from
    /// `start`) by `step`, as a terminal does when it scrolls that region
    /// down.  Rows that leave the region are dropped; when `fill` is set, the
    /// rows uncovered at the top of the region are marked.
    pub fn rotate_range_down(&mut self, start: usize, end: usize, step: usize, fill: bool)
        ensures
            *old(self) is All ==> *final(self) is All,
            !(*old(self) is All) ==> forall|row: int| #[trigger] final(self).marks(row) == rotated_down(old(self).marked(), start as int, end as int, step as int, fill, row),
    {
        self.rotate(start, end, step, fill, false);
    }

    fn rotate(&mut self, start: usize, end: usize, step: usize, fill: bool, up: bool)
        ensures
            *old(self) is All ==> *final(self) is All,
            up && !(*old(self) is All) ==> forall|row: int| #[trigger] final(self).marks(row) == rotated_up(old(self).marked(), start as int, end as int, step as int, fill, row),
            !up && !(*old(self) is All) ==> forall|row: int| #[trigger] final(self).marks(row) == rotated_down(old(self).marked(), start as int, end as int, step as int, fill, row),
    {
        if self.is_all() {
            return;
        }
        let rows = self.marked_rows();
        let ghost before = *self;
        let mut b = bitset_new();
        let mut k: usize = 0;
        while k < rows.len()
            invariant
                k <= rows@.len(),
                forall|v: usize| #[trigger] bitset_values(b).contains(v) <==>
                    exists|j: int| 0 <= j < k && #[trigger] moved(rows@[j], start, end, step, up) == Some(v),
            decreases rows.len() - k,
        {
            let r = rows[k];
            let ghost b0 = b;
            if r < start || r >= end {
                bitset_insert(&mut b, r);
            } else if up && r - start >= step {
                bitset_insert(&mut b, r - step);
            } else if !up && end - r > step {
                bitset_insert(&mut b, r + step);
            }
            proof {
                assert forall|v: usize| #[trigger] bitset_values(b).contains(v) <==>
                    exists|j: int| 0 <= j < k + 1 && #[trigger] moved(rows@[j], start, end, step, up) == Some(v) by {
                    if bitset_values(b0).contains(v) {
                        let j = choose|j: int| 0 <= j < k && #[trigger] moved(rows@[j], start, end, step, up) == Some(v);
                        assert(0 <= j < k + 1 && moved(rows@[j], start, end, step, up) == Some(v));
                    }
                    if moved(rows@[k as int], start, end, step, up) == Some(v) {
                        assert(bitset_values(b).contains(v));
                    }
                    if exists|j: int| 0 <= j < k + 1 && #[trigger] moved(rows@[j], start, end, step, up) == Some(v) {
                        let j = choose|j: int| 0 <= j < k + 1 && #[trigger] moved(rows@[j], start, end, step, up) == Some(v);
                        if j < k {
                            assert(bitset_values(b0).contains(v));
                        }
                    }
                }
            }
            k = k + 1;
        }
        if fill && start < end {
            if up {
                let from = if end - start > step { end - step } else { start };
                insert_range(&mut b, from, end);
            } else {
                let to = if end - start > step { start + step } else { end };
                insert_range(&mut b, start, to);
            }
        }
        proof {
            assert forall|row: int| #[trigger] Refresh::Lines(b).marks(row) == (if up {
                rotated_up(before.marked(), start as int, end as int, step as int, fill, row)
            } else {
                rotated_down(before.marked(), start as int, end as int, step as int, fill, row)
            }) by {
                if 0 <= row <= usize::MAX {
                    let v = row as usize;
                    let src: int = if !in_region(row, start as int, end as int) { row } else if up { row + step } else { row - step };
                    let src_ok = !in_region(row, start as int, end as int) || (up && row + step < end) || (!up && row - step >= start);
                    if src_ok && before.marks(src) {
                        assert(rows@.contains(src as usize));
                        let j = choose|j: int| 0 <= j < rows@.len() && rows@[j] == src as usize;
                        assert(moved(rows@[j], start, end, step, up) == Some(v));
                    }
                    if exists|j: int| 0 <= j < rows@.len() && #[trigger] moved(rows@[j], start, end, step, up) == Some(v) {
                        let j = choose|j: int| 0 <= j < rows@.len() && #[trigger] moved(rows@[j], start, end, step, up) == Some(v);
                        assert(rows@.contains(rows@[j]));
                        assert(before.marks(rows@[j] as int));
                    }
                }
            }
        }
        *self = Refresh::Lines(b);
    }
}

/// Where a row marked at `r` goes when the region `start..end` is rotated by
/// `step`, upwards when `up` is set and downwards otherwise.
pub open spec fn moved(r: usize, start: usize, end: usize, step: usize, up: bool) -> Option<usize> {
    if r < start || r >= end {
        Some(r)
    } else if up {
        if r - start >= step { Some((r - step) as usize) } else { None }
    } else {
        if end - r > step { Some((r + step) as usize) } else { None }
    }
}

/// Insert the values `start..end` into a row set.
fn insert_range(b: &mut RowSet, start: usize, end: usize)
    ensures
        forall|v: usize| #[trigger] bitset_values(*final(b)).contains(v) == (bitset_values(*old(b)).contains(v) || (start <= v < end)),
{
    let ghost initial = bitset_values(*b);
    let mut i: usize = start;
    while i < end
        invariant
            start <= i,
            initial == bitset_values(*old(b)),
            forall|v: usize| #[trigger] bitset_values(*b).contains(v) == (initial.contains(v) || (start <= v < i && v < end)),
        decreases end - i,
    {
        let ghost cur = bitset_values(*b);
        bitset_insert(b, i);
        assert(bitset_values(*b) == cur.insert(i));
        assert forall|v: usize| #[trigger] bitset_values(*b).contains(v) == (initial.contains(v) || (start <= v < i + 1 && v < end)) by {
            assert(cur.insert(i).contains(v) == (cur.contains(v) || v == i));
        }
        i = i + 1;
    }
}

/// Scrolling a region up and then back down by the same step leaves the
/// marks of every row outside the region, and of every row of the region
/// that stays inside it, as they were.
pub proof fn lemma_rotate_up_down(before: Refresh, up: Refresh, after: Refresh, start: usize, end: usize, step: usize, fill_up: bool, fill_down: bool)
    requires
        before is All ==> up is All,
        !(before is All) ==> forall|row: int| #[trigger] up.marks(row) == rotated_up(before.marked(), start as int, end as int, step as int, fill_up, row),
        up is All ==> after is All,
        !(up is All) ==> forall|row: int| #[trigger] after.marks(row) == rotated_down(up.marked(), start as int, end as int, step as int, fill_down, row),
    ensures
        forall|row: int| !in_region(row, start as int, end as int) || start + step <= row ==> after.marks(row) == before.marks(row),
{
    if !(before is All) && up is All {
        assert(up.marks(-1));
        assert(!in_region(-1, start as int, end as int));
        assert(up.marks(-1) == rotated_up(before.marked(), start as int, end as int, step as int, fill_up, -1));
    }
    assert forall|row: int| !in_region(row, start as int, end as int) || start + step <= row implies after.marks(row) == before.marks(row) by {
        if before is All {
        } else {
        assert(after.marks(row) == rotated_down(up.marked(), start as int, end as int, step as int, fill_down, row));
        if in_region(row, start as int, end as int) {
            assert(up.marks(row - step) == rotated_up(before.marked(), start as int, end as int, step as int, fill_up, row - step));
        } else {
            assert(up.marks(row) == rotated_up(before.marked(), start as int, end as int, step as int, fill_up, row));
        }
        }
    }
}

} // verus!
