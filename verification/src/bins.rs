//! Index arithmetic for mapping a half spectrum onto frequency bands.
//!
//! A band is described by the whole-number parts of its two edge positions,
//! measured in bins. From those the functions here give the indices that a
//! banded magnitude reads: the two neighbours that an edge is interpolated
//! between, and the run of bins that lie inside the band.
//!
//! Magnitudes themselves never enter this module. Where bins are compared,
//! they are compared by keys: unsigned integers, one per bin, that order as the
//! magnitudes do.

use vstd::prelude::*;

verus! {

/// Number of magnitudes in the non-redundant half of a spectrum taken over
/// `window_size` real samples.
pub open spec fn spec_half_spectrum_len(window_size: int) -> int {
    window_size / 2 + 1
}

/// The index `bin`, held to the last valid index of a sequence of `len`
/// magnitudes.
pub open spec fn clamp_bin(bin: int, len: int) -> int {
    if bin < len - 1 {
        bin
    } else {
        len - 1
    }
}

/// Whether a band whose edges fall in bins `low_bin` and `high_bin` has any
/// bin strictly after its low edge, up to its high edge, within `len`
/// magnitudes.
pub open spec fn has_interior(low_bin: int, high_bin: int, len: int) -> bool {
    low_bin + 1 <= high_bin && low_bin + 1 < len
}

/// Whether bin `j` lies inside the band: after the low edge's bin, not after
/// the high edge's bin, and within the sequence.
pub open spec fn is_interior(j: int, low_bin: int, high_bin: int, len: int) -> bool {
    low_bin < j <= high_bin && j < len
}

/// Length of the half spectrum for a window of `window_size` samples.
pub fn half_spectrum_len(window_size: usize) -> (n: usize)
    ensures
        n == spec_half_spectrum_len(window_size as int),
{
    window_size / 2 + 1
}

/// The two indices between which the magnitude at a fractional bin position is
/// interpolated, given the whole part `bin` of that position. Both are clamped
/// to the end of the sequence, so a position at or past the last bin reads the
/// last magnitude twice.
pub fn interpolation_bins(bin: usize, len: usize) -> (r: (usize, usize))
    requires
        len > 0,
    ensures
        r.0 == clamp_bin(bin as int, len as int),
        r.1 == clamp_bin(bin as int + 1, len as int),
{
    let last: usize = len - 1;
    if bin < last {
        (bin, bin + 1)
    } else {
        (last, last)
    }
}

/// The inclusive run of bins that lie inside a band, or `None` where the band
/// holds no whole bin or starts past the end of the sequence.
pub fn interior_bins(low_bin: usize, high_bin: usize, len: usize) -> (r: Option<(usize, usize)>)
    ensures
        r.is_some() == has_interior(low_bin as int, high_bin as int, len as int),
        r matches Some((first, last)) ==> {
            &&& first == low_bin + 1
            &&& last == clamp_bin(high_bin as int, len as int)
            &&& first <= last < len
            &&& forall|j: int|
                first <= j <= last <==> is_interior(j, low_bin as int, high_bin as int, len as int)
        },
        r is None ==> forall|j: int| !is_interior(j, low_bin as int, high_bin as int, len as int),
{
    if low_bin >= high_bin {
        return None;
    }
    let first: usize = low_bin + 1;
    if first >= len {
        return None;
    }
    let last: usize = if high_bin < len - 1 {
        high_bin
    } else {
        len - 1
    };
    Some((first, last))
}

/// Whether `peak` is the loudest bin of the inclusive run from `first` to
/// `last`: no key in the run is greater, and none before `peak` is as great.
pub open spec fn is_loudest(keys: Seq<u32>, first: int, last: int, peak: int) -> bool {
    &&& first <= peak <= last
    &&& forall|j: int| first <= j <= last ==> keys[j] <= keys[peak]
    &&& forall|j: int| first <= j < peak ==> keys[j] < keys[peak]
}

/// The loudest bin of the inclusive run from `first` to `last`, the earliest
/// one where several are equally loud. Gives `None` where the run is empty or
/// reaches past the end of `keys`.
pub fn loudest_bin(keys: &[u32], first: usize, last: usize) -> (r: Option<usize>)
    ensures
        r is Some <==> first <= last < keys@.len(),
        r matches Some(peak) ==> is_loudest(keys@, first as int, last as int, peak as int),
{
    if first > last || last >= keys.len() {
        return None;
    }
    let mut peak: usize = first;
    let mut j: usize = first;
    while j < last
        invariant
            first <= peak <= j <= last < keys@.len(),
            is_loudest(keys@, first as int, j as int, peak as int),
        decreases last - j,
    {
        j += 1;
        if keys[j] > keys[peak] {
            peak = j;
        }
    }
    Some(peak)
}

/// There is one loudest bin in a run and no more.
pub proof fn lemma_loudest_is_unique(keys: Seq<u32>, first: int, last: int, a: int, b: int)
    requires
        is_loudest(keys, first, last, a),
        is_loudest(keys, first, last, b),
    ensures
        a == b,
{
    if a < b {
        assert(keys[a] < keys[b]);
        assert(keys[b] <= keys[a]);
    } else if b < a {
        assert(keys[b] < keys[a]);
        assert(keys[a] <= keys[b]);
    }
}

} // verus!
