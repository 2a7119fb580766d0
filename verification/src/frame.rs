//! One finished spectrum: a byte of magnitude per band, lowest band first.

use vstd::prelude::*;

verus! {

/// A spectrum frame. Once made it cannot be changed, so it can be handed to
/// any number of readers.
#[derive(Debug)]
pub struct SpectrumFrame {
    bytes: Vec<u8>,
}

impl View for SpectrumFrame {
    type V = Seq<u8>;

    /// The magnitudes, lowest band first.
    closed spec fn view(&self) -> Seq<u8> {
        self.bytes@
    }
}

impl SpectrumFrame {
    /// Wraps the magnitudes of one analysis cycle. Gives `None` unless there is
    /// exactly one byte per band.
    pub fn from_bytes(bytes: Vec<u8>, band_count: usize) -> (frame: Option<SpectrumFrame>)
        ensures
            frame is Some <==> bytes@.len() == band_count,
            frame matches Some(f) ==> f@ == bytes@,
    {
        if bytes.len() == band_count {
            Some(SpectrumFrame { bytes })
        } else {
            None
        }
    }

    /// Number of bands in the frame.
    pub fn band_count(&self) -> (n: usize)
        ensures
            n == self@.len(),
    {
        self.bytes.len()
    }

    /// The magnitude of band `index`.
    pub fn magnitude(&self, index: usize) -> (m: Option<u8>)
        ensures
            m == if index < self@.len() {
                Some(self@[index as int])
            } else {
                None
            },
    {
        if index < self.bytes.len() {
            Some(self.bytes[index])
        } else {
            None
        }
    }

    /// The magnitudes as sent on the wire: one byte per band, lowest band
    /// first.
    pub fn as_bytes(&self) -> (bytes: &[u8])
        ensures
            bytes@ == self@,
    {
        self.bytes.as_slice()
    }

    /// A second frame with the same magnitudes.
    pub fn duplicate(&self) -> (copy: SpectrumFrame)
        ensures
            copy@ == self@,
    {
        SpectrumFrame { bytes: self.bytes.clone() }
    }

    /// Whether every band is at the floor.
    pub fn is_silent(&self) -> (silent: bool)
        ensures
            silent == (forall|i: int| 0 <= i < self@.len() ==> self@[i] == 0),
    {
        let mut i: usize = 0;
        while i < self.bytes.len()
            invariant
                i <= self.bytes@.len(),
                forall|j: int| 0 <= j < i ==> self.bytes@[j] == 0,
            decreases self.bytes@.len() - i,
        {
            if self.bytes[i] != 0 {
                assert(self@[i as int] != 0);
                return false;
            }
            i += 1;
        }
        true
    }
}

} // verus!
