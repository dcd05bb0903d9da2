//! Batches: a list of samples, each a list of channel matrices.

use crate::matrix::{Grid, Matrix};
use vstd::prelude::*;

verus! {

/// Every matrix of the sample is well formed and has the given shape.
pub open spec fn sample_shaped<T>(sample: Seq<Grid<T>>, rows: int, cols: int) -> bool {
    forall|c: int| 0 <= c < sample.len() ==> (#[trigger] sample[c]).wf() && sample[c].has_shape(rows, cols)
}

/// Every matrix of the batch is well formed and has the given shape.
pub open spec fn batch_shaped<T>(batch: Seq<Seq<Grid<T>>>, rows: int, cols: int) -> bool {
    forall|s: int| 0 <= s < batch.len() ==> sample_shaped(#[trigger] batch[s], rows, cols)
}

/// Every sample of the batch has the given number of channels.
pub open spec fn batch_channels<T>(batch: Seq<Seq<Grid<T>>>, channels: int) -> bool {
    forall|s: int| 0 <= s < batch.len() ==> (#[trigger] batch[s]).len() == channels
}

/// Every matrix of the batch is well formed.
pub open spec fn batch_wf<T>(batch: Seq<Seq<Grid<T>>>) -> bool {
    forall|s: int, c: int| 0 <= s < batch.len() && 0 <= c < batch[s].len() ==> (#[trigger] batch[s][c]).wf()
}

/// The two batches have as many samples, and in each sample as many channels, and in
/// each channel the same shape.
pub open spec fn same_shapes<T>(a: Seq<Seq<Grid<T>>>, b: Seq<Seq<Grid<T>>>) -> bool {
    &&& a.len() == b.len()
    &&& forall|s: int| 0 <= s < a.len() ==> (#[trigger] a[s]).len() == b[s].len()
    &&& forall|s: int, c: int|
        0 <= s < a.len() && 0 <= c < a[s].len() ==> (#[trigger] a[s][c]).rows == b[s][c].rows && a[s][c].cols
            == b[s][c].cols
}

/// The two batches have as many samples, and in each sample as many channels.
pub open spec fn same_counts<T>(a: Seq<Seq<Grid<T>>>, b: Seq<Seq<Grid<T>>>) -> bool {
    &&& a.len() == b.len()
    &&& forall|s: int| 0 <= s < a.len() ==> (#[trigger] a[s]).len() == b[s].len()
}

/// Whether the two batches have as many samples, and in each sample as many channels.
pub fn have_same_counts<T>(a: &Vec<Vec<Matrix<T>>>, b: &Vec<Vec<Matrix<T>>>) -> (yes: bool)
    ensures
        yes == same_counts(a.deep_view(), b.deep_view()),
{
    let count: usize = a.len();
    if b.len() != count {
        return false;
    }
    let mut s: usize = 0;
    while s < count
        invariant
            count == a@.len(),
            count == b@.len(),
            s <= count,
            forall|i: int| 0 <= i < s ==> (#[trigger] a.deep_view()[i]).len() == b.deep_view()[i].len(),
        decreases count - s,
    {
        if a[s].len() != b[s].len() {
            assert(a.deep_view()[s as int].len() != b.deep_view()[s as int].len());
            return false;
        }
        s = s + 1;
    }
    true
}

/// Whether every matrix of the sample has the given shape.
pub fn is_sample_shaped<T>(sample: &Vec<Matrix<T>>, rows: usize, cols: usize) -> (yes: bool)
    ensures
        yes == sample_shaped(sample.deep_view(), rows as int, cols as int),
{
    let count: usize = sample.len();
    let mut c: usize = 0;
    while c < count
        invariant
            count == sample@.len(),
            c <= count,
            forall|i: int|
                0 <= i < c ==> (#[trigger] sample.deep_view()[i]).wf() && sample.deep_view()[i].has_shape(
                    rows as int,
                    cols as int,
                ),
        decreases count - c,
    {
        if sample[c].rows() != rows || sample[c].cols() != cols {
            assert(!sample.deep_view()[c as int].has_shape(rows as int, cols as int));
            return false;
        }
        c = c + 1;
    }
    true
}

/// Whether every matrix of the batch has the given shape.
pub fn is_batch_shaped<T>(batch: &Vec<Vec<Matrix<T>>>, rows: usize, cols: usize) -> (yes: bool)
    ensures
        yes == batch_shaped(batch.deep_view(), rows as int, cols as int),
{
    let count: usize = batch.len();
    let mut s: usize = 0;
    while s < count
        invariant
            count == batch@.len(),
            s <= count,
            forall|i: int| 0 <= i < s ==> sample_shaped(#[trigger] batch.deep_view()[i], rows as int, cols as int),
        decreases count - s,
    {
        if !is_sample_shaped(&batch[s], rows, cols) {
            assert(!sample_shaped(batch.deep_view()[s as int], rows as int, cols as int));
            return false;
        }
        s = s + 1;
    }
    true
}

/// Whether every sample of the batch has the given number of channels.
pub fn has_channels<T>(batch: &Vec<Vec<Matrix<T>>>, channels: usize) -> (yes: bool)
    ensures
        yes == batch_channels(batch.deep_view(), channels as int),
{
    let count: usize = batch.len();
    let mut s: usize = 0;
    while s < count
        invariant
            count == batch@.len(),
            s <= count,
            forall|i: int| 0 <= i < s ==> (#[trigger] batch.deep_view()[i]).len() == channels,
        decreases count - s,
    {
        if batch[s].len() != channels {
            assert(batch.deep_view()[s as int].len() != channels);
            return false;
        }
        s = s + 1;
    }
    true
}

/// Whether the two batches have the same shapes throughout.
pub fn have_same_shapes<T>(a: &Vec<Vec<Matrix<T>>>, b: &Vec<Vec<Matrix<T>>>) -> (yes: bool)
    ensures
        yes == same_shapes(a.deep_view(), b.deep_view()),
        yes ==> batch_wf(a.deep_view()) && batch_wf(b.deep_view()),
{
    let count: usize = a.len();
    if b.len() != count {
        return false;
    }
    let mut s: usize = 0;
    while s < count
        invariant
            count == a@.len(),
            count == b@.len(),
            s <= count,
            forall|i: int| 0 <= i < s ==> (#[trigger] a.deep_view()[i]).len() == b.deep_view()[i].len(),
            forall|i: int, c: int|
                0 <= i < s && 0 <= c < a.deep_view()[i].len() ==> (#[trigger] a.deep_view()[i][c]).rows
                    == b.deep_view()[i][c].rows && a.deep_view()[i][c].cols == b.deep_view()[i][c].cols,
            forall|i: int, c: int|
                0 <= i < s && 0 <= c < a.deep_view()[i].len() ==> (#[trigger] a.deep_view()[i][c]).wf(),
            forall|i: int, c: int|
                0 <= i < s && 0 <= c < b.deep_view()[i].len() ==> (#[trigger] b.deep_view()[i][c]).wf(),
        decreases count - s,
    {
        let channels: usize = a[s].len();
        if b[s].len() != channels {
            assert(a.deep_view()[s as int].len() != b.deep_view()[s as int].len());
            return false;
        }
        let mut c: usize = 0;
        while c < channels
            invariant
                s < count,
                count == a@.len(),
                count == b@.len(),
                channels == a@[s as int]@.len(),
                channels == b@[s as int]@.len(),
                c <= channels,
                forall|j: int|
                    0 <= j < c ==> (#[trigger] a.deep_view()[s as int][j]).rows == b.deep_view()[s as int][j].rows
                        && a.deep_view()[s as int][j].cols == b.deep_view()[s as int][j].cols,
                forall|j: int| 0 <= j < c ==> (#[trigger] a.deep_view()[s as int][j]).wf(),
                forall|j: int| 0 <= j < c ==> (#[trigger] b.deep_view()[s as int][j]).wf(),
            decreases channels - c,
        {
            if a[s][c].rows() != b[s][c].rows() || a[s][c].cols() != b[s][c].cols() {
                assert(!(a.deep_view()[s as int][c as int].rows == b.deep_view()[s as int][c as int].rows
                    && a.deep_view()[s as int][c as int].cols == b.deep_view()[s as int][c as int].cols));
                return false;
            }
            c = c + 1;
        }
        s = s + 1;
    }
    true
}

} // verus!
