//! Identity of one logical transcript file.

use vstd::prelude::*;

verus! {

/// Last-modification time of a transcript file: whole seconds since the Unix
/// epoch together with the subsecond nanosecond part.
#[derive(Clone, Copy, PartialEq, Eq, Structural, Debug)]
pub struct Timestamp {
    pub secs: u64,
    pub nanos: u32,
}

/// Identity of one logical transcript file: the base name shared by the
/// recording/transcript pair, the transcript's byte length, and its
/// last-modification time. Two signatures denote the same logical file only if
/// all three parts agree exactly, so any re-write of a transcript counts as a
/// new logical file.
#[derive(Debug)]
pub struct FileSignature {
    pub stem: String,
    pub size: u64,
    pub modified: Timestamp,
}

/// Mathematical value of a `FileSignature`.
pub ghost struct SigView {
    pub stem: Seq<char>,
    pub size: u64,
    pub modified: Timestamp,
}

impl View for FileSignature {
    type V = SigView;

    open spec fn view(&self) -> SigView {
        SigView { stem: self.stem@, size: self.size, modified: self.modified }
    }
}

impl FileSignature {
    /// Structural equality over stem, size and modification time.
    pub fn same(&self, other: &FileSignature) -> (r: bool)
        ensures
            r == (self@ == other@),
    {
        let r = self.stem == other.stem && self.size == other.size
            && self.modified.secs == other.modified.secs
            && self.modified.nanos == other.modified.nanos;
        r
    }

    /// An exact copy, with the same view.
    pub fn duplicate(&self) -> (r: FileSignature)
        ensures
            r@ == self@,
    {
        FileSignature { stem: self.stem.clone(), size: self.size, modified: self.modified }
    }
}

} // verus!
