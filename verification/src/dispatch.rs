//! Dispatch: decide which comparator applies to a pair of paths.
//!
//! The caller queries the filesystem for the left object's kind and hands the
//! name over; the decision itself is a closed three-way classification, so
//! adding a recognized format is a single variant addition.

use vstd::prelude::*;
use vstd::string::StrSliceExecFns;

verus! {

/// Whether `s` ends with `suffix`.
pub open spec fn ends_with(s: Seq<char>, suffix: Seq<char>) -> bool {
    suffix.len() <= s.len() && s.skip(s.len() - suffix.len()) == suffix
}

/// Tests whether a name ends with the given suffix.
pub fn str_ends_with(s: &str, suffix: &str) -> (r: bool)
    ensures
        r == ends_with(s@, suffix@),
{
    let n = s.unicode_len();
    let m = suffix.unicode_len();
    if m > n {
        return false;
    }
    let mut i: usize = 0;
    while i < m
        invariant
            m <= n,
            n == s@.len(),
            m == suffix@.len(),
            i <= m,
            forall|j: int| 0 <= j < i ==> s@[n - m + j] == suffix@[j],
        decreases m - i,
    {
        let a = s.get_char(n - m + i);
        let b = suffix.get_char(i);
        if a != b {
            proof {
                assert(s@.skip(n - m)[i as int] != suffix@[i as int]);
            }
            return false;
        }
        i = i + 1;
    }
    proof {
        assert(s@.skip(n - m) =~= suffix@);
    }
    true
}

/// The comparator that applies to a pair of paths.
#[derive(Debug, Clone, Copy, PartialEq, Eq, Structural)]
pub enum TargetKind {
    /// The left object is a directory: compare the entry sets and recurse.
    Directory,
    /// The name carries the recognized image suffix: compare element by
    /// element under the declared type.
    Image,
    /// Anything else: compare raw bytes.
    GenericFile,
}

/// The classification rule: a directory is walked; a file named with the
/// recognized image suffix, compressed or not, is compared as an image; any
/// other file is compared byte by byte.
pub open spec fn spec_classify(is_dir: bool, left_name: Seq<char>) -> TargetKind {
    if is_dir {
        TargetKind::Directory
    } else if ends_with(left_name, ".nii.gz"@) || ends_with(left_name, ".nii"@) {
        TargetKind::Image
    } else {
        TargetKind::GenericFile
    }
}

/// Decides which comparator applies, from the left object's kind and name.
pub fn classify_target(is_dir: bool, left_name: &str) -> (k: TargetKind)
    ensures
        k == spec_classify(is_dir, left_name@),
{
    if is_dir {
        TargetKind::Directory
    } else if str_ends_with(left_name, ".nii.gz") || str_ends_with(left_name, ".nii") {
        TargetKind::Image
    } else {
        TargetKind::GenericFile
    }
}

} // verus!
