//! Query orchestration: which notes a listing shows and in what order, and
//! which notes a removal keeps or deletes.

use vstd::prelude::*;

use crate::index::cal_len;
use crate::index::spec_calibrate;
use crate::index::spec_in_range;
use crate::index::spec_is_reversed;
use crate::index::spec_slice_bounds;
use crate::index::Index;
use crate::note::Note;
use crate::query::spec_is_empty;
use crate::query::spec_is_match;
use crate::query::Filter;

verus! {

/// The positions `lo..hi`, in ascending order.
pub open spec fn positions(lo: int, hi: int) -> Seq<usize> {
    Seq::new((hi - lo) as nat, |k: int| (lo + k) as usize)
}

/// Whether the note at a position passes the filter.
pub open spec fn sel_pred(filter: Filter, notes: Seq<Note>) -> spec_fn(usize) -> bool {
    |i: usize| spec_is_match(filter, notes[i as int])
}

/// The positions a listing selects, ascending: those inside the calibrated
/// index range whose note passes the filter.
pub open spec fn spec_selected(index: Index, filter: Filter, notes: Seq<Note>) -> Seq<usize> {
    let cal = spec_calibrate(index, cal_len(notes.len()));
    match spec_slice_bounds(cal, notes.len() as int) {
        None => Seq::empty(),
        Some(b) => positions(b.0, b.1).filter(sel_pred(filter, notes)),
    }
}

/// The positions a listing hands to the printer, in hand-over order: the
/// selection, reversed when the span as originally written has ascending
/// bounds. "Reversed" is judged on the bounds the user wrote, before
/// calibration, so a span like `5:-1` — whose calibrated bounds ascend —
/// still hands over in storage order.
pub open spec fn spec_listed(index: Index, filter: Filter, notes: Seq<Note>) -> Seq<usize> {
    let sel = spec_selected(index, filter, notes);
    if spec_is_reversed(index) {
        sel.reverse()
    } else {
        sel
    }
}

/// A parsed listing request: an index range and a filter.
#[derive(Debug)]
pub struct ListCommand {
    pub index: Index,
    pub filter: Filter,
}

impl Default for ListCommand {
    /// With no arguments a listing shows the five newest notes,
    /// unfiltered.
    fn default() -> (r: Self)
        ensures
            r.index == Index::Between(0, 5),
            spec_is_empty(r.filter),
    {
        ListCommand { index: Index::Between(0, 5), filter: Filter::default() }
    }
}

impl ListCommand {
    /// The positions of the notes to hand to the printer, in hand-over
    /// order, exactly as `spec_listed` describes.
    pub fn select(&self, notes: &Vec<Note>) -> (r: Vec<usize>)
        requires
            notes@.len() <= i64::MAX,
        ensures
            r@ == spec_listed(self.index, self.filter, notes@),
    {
        let len = notes.len();
        let mut cal = self.index;
        cal.calibrate(len);
        let mut picked: Vec<usize> = Vec::new();
        match cal.slice_bounds(len) {
            None => {},
            Some((lo, hi)) => {
                let mut i: usize = lo;
                while i < hi
                    invariant
                        lo <= i <= hi <= len == notes@.len(),
                        picked@ == positions(lo as int, i as int).filter(
                            sel_pred(self.filter, notes@),
                        ),
                    decreases hi - i,
                {
                    proof {
                        assert(positions(lo as int, i as int + 1) =~= positions(
                            lo as int,
                            i as int,
                        ).push(i as usize));
                        positions(lo as int, i as int).lemma_filter_push(
                            i as usize,
                            sel_pred(self.filter, notes@),
                        );
                    }
                    if self.filter.is_match(&notes[i]) {
                        picked.push(i);
                    }
                    i = i + 1;
                }
                proof {
                    assert(positions(lo as int, hi as int) == positions(lo as int, i as int));
                }
            },
        }
        if self.index.is_reversed() {
            reverse_positions(picked)
        } else {
            picked
        }
    }
}

/// A new list holding the same positions back to front.
fn reverse_positions(v: Vec<usize>) -> (r: Vec<usize>)
    ensures
        r@ == v@.reverse(),
{
    let mut r: Vec<usize> = Vec::new();
    let mut j: usize = v.len();
    while j > 0
        invariant
            j <= v.len(),
            r@.len() == v@.len() - j,
            forall|k: int| 0 <= k < r@.len() ==> #[trigger] r@[k] == v@[v@.len() - 1 - k],
        decreases j,
    {
        j = j - 1;
        r.push(v[j]);
    }
    proof {
        assert(r@ =~= v@.reverse());
    }
    r
}

/// The note of an enumerated pair.
pub open spec fn pair_note() -> spec_fn((usize, Note)) -> Note {
    |p: (usize, Note)| p.1
}

/// The notes paired with their positions, in order.
pub open spec fn enumerate(notes: Seq<Note>) -> Seq<(usize, Note)> {
    Seq::new(notes.len(), |i: int| (i as usize, notes[i]))
}

/// Whether a removal keeps the note at position `i`: it is outside the
/// calibrated index range (or none was given), and the filter is either
/// empty — an empty filter is no reason to delete — or not matched.
pub open spec fn spec_keep(
    index: Option<Index>,
    filter: Filter,
    len: int,
    i: int,
    n: Note,
) -> bool {
    let not_in_range = match index {
        None => true,
        Some(x) => !spec_in_range(spec_calibrate(x, len), i),
    };
    not_in_range && (spec_is_empty(filter) || !spec_is_match(filter, n))
}

/// `spec_keep` over an enumerated pair.
pub open spec fn keep_pred(index: Option<Index>, filter: Filter, len: int) -> spec_fn(
    (usize, Note),
) -> bool {
    |p: (usize, Note)| spec_keep(index, filter, len, p.0 as int, p.1)
}

/// The complement of `keep_pred` over an enumerated pair.
pub open spec fn drop_pred(index: Option<Index>, filter: Filter, len: int) -> spec_fn(
    (usize, Note),
) -> bool {
    |p: (usize, Note)| !spec_keep(index, filter, len, p.0 as int, p.1)
}

/// What a removal leaves and what it deletes: the notes kept, in order,
/// and the deleted notes with their original positions, in order.
pub open spec fn spec_partition(index: Option<Index>, filter: Filter, notes: Seq<Note>) -> (
    Seq<Note>,
    Seq<(usize, Note)>,
) {
    let len = cal_len(notes.len());
    let pairs = enumerate(notes);
    (
        pairs.filter(keep_pred(index, filter, len)).map_values(pair_note()),
        pairs.filter(drop_pred(index, filter, len)),
    )
}

/// A parsed removal request: an optional index range and a filter.
#[derive(Debug)]
pub struct RemoveCommand {
    pub index: Option<Index>,
    pub filter: Filter,
}

impl RemoveCommand {
    /// Splits the notes into those a removal keeps and those it deletes,
    /// exactly as `spec_partition` describes. With no index and an empty
    /// filter nothing is deleted.
    pub fn partition(&self, notes: Vec<Note>) -> (r: (Vec<Note>, Vec<(usize, Note)>))
        requires
            notes@.len() <= i64::MAX,
        ensures
            r.0@ == spec_partition(self.index, self.filter, notes@).0,
            r.1@ == spec_partition(self.index, self.filter, notes@).1,
    {
        let ghost orig = notes@;
        let ghost glen = cal_len(orig.len());
        let len = notes.len();
        let cal: Option<Index> = match &self.index {
            Some(x) => {
                let mut c = *x;
                c.calibrate(len);
                Some(c)
            },
            None => None,
        };
        let mut notes = notes;
        let mut kept: Vec<Note> = Vec::new();
        let mut dropped: Vec<(usize, Note)> = Vec::new();
        let mut i: usize = 0;
        while i < len
            invariant
                i <= len == orig.len() <= i64::MAX,
                glen == cal_len(orig.len()),
                notes@ == orig.skip(i as int),
                match self.index {
                    None => cal is None,
                    Some(x) => cal == Some(spec_calibrate(x, glen)),
                },
                kept@ == enumerate(orig).take(i as int).filter(
                    keep_pred(self.index, self.filter, glen),
                ).map_values(pair_note()),
                dropped@ == enumerate(orig).take(i as int).filter(
                    drop_pred(self.index, self.filter, glen),
                ),
            decreases len - i,
        {
            let n = notes.remove(0);
            proof {
                assert(n == orig[i as int]);
                assert(notes@ =~= orig.skip(i as int + 1));
            }
            let not_in_range = match &cal {
                Some(c) => !c.in_range(i as i64),
                None => true,
            };
            let keep = not_in_range && (self.filter.is_empty() || !self.filter.is_match(&n));
            let ghost p = (i as usize, n);
            proof {
                assert(keep == keep_pred(self.index, self.filter, glen)(p));
                assert(enumerate(orig).take(i as int + 1) =~= enumerate(orig).take(
                    i as int,
                ).push(p));
                enumerate(orig).take(i as int).lemma_filter_push(
                    p,
                    keep_pred(self.index, self.filter, glen),
                );
                enumerate(orig).take(i as int).lemma_filter_push(
                    p,
                    drop_pred(self.index, self.filter, glen),
                );
            }
            if keep {
                kept.push(n);
                proof {
                    let q = enumerate(orig).take(i as int).filter(
                        keep_pred(self.index, self.filter, glen),
                    );
                    assert(q.push(p).map_values(pair_note()) =~= q.map_values(pair_note()).push(
                        n,
                    ));
                }
            } else {
                dropped.push((i, n));
            }
            i = i + 1;
        }
        proof {
            assert(enumerate(orig).take(len as int) =~= enumerate(orig));
        }
        (kept, dropped)
    }
}

/// Which path a `where` request asks after.
#[derive(Debug, Clone, Copy, PartialEq, Eq, Structural)]
pub enum WhereCommand {
    /// Both the todos file and the config file.
    All,
    /// The config file only.
    Config,
    /// The todos file only.
    Todos,
}

} // verus!
