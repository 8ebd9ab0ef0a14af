//! Typed image comparison: header compatibility, the element-type code
//! vocabulary, and the final record for a voxel-level comparison.
//!
//! The caller parses the two image headers and hands their dimension vectors
//! and element-type codes over as plain values; every decision about them is
//! made and verified here.

use vstd::prelude::*;
use vstd::string::StringExecFns;

use crate::diff::Diff;
use crate::diff::Similarity;
use crate::diff::build_report_line;
use crate::diff::report_line;
use crate::render::dec_digits;
use crate::render::fmt_i16;
use crate::render::fmt_percent_hundredths;
use crate::render::fmt_u64;
use crate::render::fmt_usize;
use crate::render::int_digits;
use crate::render::percent_hundredths_chars;

verus! {

/// The element types an image payload can declare. The type decides both the
/// element width and whether comparison is exact or tolerance-based; the
/// floating-point types are compared by the caller, which owns all
/// floating-point arithmetic.
#[derive(Debug, Clone, Copy, PartialEq, Eq, Structural)]
pub enum ElementType {
    /// 16-bit signed integer.
    Int16,
    /// 32-bit signed integer.
    Int32,
    /// 32-bit float, compared under a fixed tolerance.
    Float32,
    /// 64-bit float, compared under a fixed tolerance.
    Float64,
    /// 16-bit unsigned integer.
    Uint16,
    /// 32-bit unsigned integer.
    Uint32,
    /// 64-bit signed integer.
    Int64,
    /// 64-bit unsigned integer.
    Uint64,
}

/// The fixed vocabulary mapping a header's type code to an element type; any
/// other code is unsupported.
pub open spec fn spec_type_from_code(code: i16) -> Option<ElementType> {
    if code == 4 {
        Some(ElementType::Int16)
    } else if code == 8 {
        Some(ElementType::Int32)
    } else if code == 16 {
        Some(ElementType::Float32)
    } else if code == 64 {
        Some(ElementType::Float64)
    } else if code == 512 {
        Some(ElementType::Uint16)
    } else if code == 768 {
        Some(ElementType::Uint32)
    } else if code == 1024 {
        Some(ElementType::Int64)
    } else if code == 1280 {
        Some(ElementType::Uint64)
    } else {
        None
    }
}

impl ElementType {
    /// Looks a header type code up in the fixed vocabulary.
    pub fn from_code(code: i16) -> (t: Option<ElementType>)
        ensures
            t == spec_type_from_code(code),
    {
        if code == 4 {
            Some(ElementType::Int16)
        } else if code == 8 {
            Some(ElementType::Int32)
        } else if code == 16 {
            Some(ElementType::Float32)
        } else if code == 64 {
            Some(ElementType::Float64)
        } else if code == 512 {
            Some(ElementType::Uint16)
        } else if code == 768 {
            Some(ElementType::Uint32)
        } else if code == 1024 {
            Some(ElementType::Int64)
        } else if code == 1280 {
            Some(ElementType::Uint64)
        } else {
            None
        }
    }

    /// The width of one element in bytes.
    pub open spec fn spec_width(self) -> usize {
        match self {
            ElementType::Int16 => 2,
            ElementType::Uint16 => 2,
            ElementType::Int32 => 4,
            ElementType::Uint32 => 4,
            ElementType::Float32 => 4,
            ElementType::Float64 => 8,
            ElementType::Int64 => 8,
            ElementType::Uint64 => 8,
        }
    }

    /// The width of one element in bytes: 2, 4 or 8.
    pub fn width(self) -> (w: usize)
        ensures
            w == self.spec_width(),
            w == 2 || w == 4 || w == 8,
    {
        match self {
            ElementType::Int16 => 2,
            ElementType::Uint16 => 2,
            ElementType::Int32 => 4,
            ElementType::Uint32 => 4,
            ElementType::Float32 => 4,
            ElementType::Float64 => 8,
            ElementType::Int64 => 8,
            ElementType::Uint64 => 8,
        }
    }

    /// Whether elements of this type are compared under a tolerance rather
    /// than exactly.
    pub open spec fn spec_is_float(self) -> bool {
        self == ElementType::Float32 || self == ElementType::Float64
    }

    /// Whether elements of this type are compared under a tolerance rather
    /// than exactly.
    pub fn is_float(self) -> (f: bool)
        ensures
            f == self.spec_is_float(),
    {
        match self {
            ElementType::Float32 => true,
            ElementType::Float64 => true,
            _ => false,
        }
    }
}

/// The number of elements a dimension vector declares: the product of its
/// entries, with zero entries standing for absent axes and counting as one.
pub open spec fn dim_product(dims: Seq<u16>) -> nat
    decreases dims.len(),
{
    if dims.len() == 0 {
        1
    } else {
        dim_product(dims.drop_last()) * (if dims.last() == 0 {
            1nat
        } else {
            dims.last() as nat
        })
    }
}

/// A dimension vector always declares at least one element.
pub proof fn lemma_dim_product_pos(dims: Seq<u16>)
    ensures
        dim_product(dims) >= 1,
    decreases dims.len(),
{
    if dims.len() > 0 {
        lemma_dim_product_pos(dims.drop_last());
        let f: nat = if dims.last() == 0 {
            1nat
        } else {
            dims.last() as nat
        };
        assert(dim_product(dims.drop_last()) * f >= dim_product(dims.drop_last()) * 1) by (nonlinear_arith)
            requires f >= 1, dim_product(dims.drop_last()) >= 0;
    }
}

/// Extending a dimension vector never shrinks its element count.
proof fn lemma_dim_product_take_le(dims: Seq<u16>, k: int)
    requires
        0 <= k < dims.len(),
    ensures
        dim_product(dims.take(k)) <= dim_product(dims.take(k + 1)),
{
    let t = dims.take(k + 1);
    assert(t.drop_last() =~= dims.take(k));
    let f: nat = if t.last() == 0 {
        1nat
    } else {
        t.last() as nat
    };
    assert(dim_product(dims.take(k)) * 1 <= dim_product(dims.take(k)) * f) by (nonlinear_arith)
        requires f >= 1, dim_product(dims.take(k)) >= 0;
}

/// The element count of a prefix never exceeds the whole vector's.
proof fn lemma_dim_product_prefix_le(dims: Seq<u16>, k: int)
    requires
        0 <= k <= dims.len(),
    ensures
        dim_product(dims.take(k)) <= dim_product(dims),
    decreases dims.len() - k,
{
    if k < dims.len() {
        lemma_dim_product_take_le(dims, k);
        lemma_dim_product_prefix_le(dims, k + 1);
    } else {
        assert(dims.take(k) =~= dims);
    }
}

/// Counts the elements a dimension vector declares, or `None` when the
/// product does not fit in `usize`. The count is always at least one, which
/// is what `finish_image` requires of its total.
pub fn total_elements(dims: &Vec<u16>) -> (r: Option<usize>)
    ensures
        r matches Some(n) ==> n == dim_product(dims@) && n >= 1,
        r is None ==> dim_product(dims@) > usize::MAX,
{
    proof {
        lemma_dim_product_pos(dims@);
    }
    let mut acc: usize = 1;
    let mut i: usize = 0;
    while i < dims.len()
        invariant
            i <= dims@.len(),
            acc == dim_product(dims@.take(i as int)),
        decreases dims@.len() - i,
    {
        proof {
            let t = dims@.take(i as int + 1);
            assert(t.drop_last() =~= dims@.take(i as int));
            assert(t.last() == dims@[i as int]);
        }
        let entry = dims[i];
        let factor: usize = if entry == 0 {
            1
        } else {
            entry as usize
        };
        match acc.checked_mul(factor) {
            Some(next) => {
                acc = next;
            },
            None => {
                proof {
                    assert(dim_product(dims@.take(i as int + 1)) > usize::MAX);
                    lemma_dim_product_prefix_le(dims@, i as int + 1);
                }
                return None;
            },
        }
        i = i + 1;
    }
    proof {
        assert(dims@.take(dims@.len() as int) =~= dims@);
    }
    Some(acc)
}

/// The text of a dimension vector's entries joined with ", ".
pub open spec fn dim_list_chars(dims: Seq<u16>) -> Seq<char>
    decreases dims.len(),
{
    if dims.len() == 0 {
        Seq::empty()
    } else if dims.len() == 1 {
        dec_digits(dims[0] as nat)
    } else {
        dim_list_chars(dims.drop_last()) + ", "@ + dec_digits(dims.last() as nat)
    }
}

/// The text of a dimension vector, e.g. "[3, 2, 4]".
pub open spec fn dims_chars(dims: Seq<u16>) -> Seq<char> {
    "["@ + dim_list_chars(dims) + "]"@
}

/// Renders a dimension vector as "[a, b, c]".
pub fn render_dims(dims: &Vec<u16>) -> (s: String)
    ensures
        s@ == dims_chars(dims@),
{
    let mut body = String::new();
    let mut i: usize = 0;
    while i < dims.len()
        invariant
            i <= dims@.len(),
            body@ == dim_list_chars(dims@.take(i as int)),
        decreases dims@.len() - i,
    {
        proof {
            let t = dims@.take(i as int + 1);
            assert(t.drop_last() =~= dims@.take(i as int));
            assert(t.last() == dims@[i as int]);
            assert(t[0] == dims@[0]);
        }
        if i > 0 {
            body.append(", ");
        }
        let e = fmt_u64(dims[i] as u64);
        body.append(e.as_str());
        proof {
            if i == 0 {
                assert(Seq::<char>::empty() + dec_digits(dims@[0] as nat) =~= dec_digits(
                    dims@[0] as nat,
                ));
            }
        }
        i = i + 1;
    }
    proof {
        assert(dims@.take(dims@.len() as int) =~= dims@);
    }
    let mut s = String::new();
    s.append("[");
    s.append(body.as_str());
    s.append("]");
    proof {
        assert(Seq::<char>::empty() + "["@ =~= "["@);
    }
    s
}

/// The explanation recorded when two images declare different shapes.
pub open spec fn shape_info_chars(left_dims: Seq<u16>, right_dims: Seq<u16>) -> Seq<char> {
    "Shapes diverge: "@ + dims_chars(left_dims) + " vs "@ + dims_chars(right_dims)
}

/// The explanation recorded when two images agree on shape but declare
/// different element types.
pub open spec fn type_info_chars(left_code: i16, right_code: i16) -> Seq<char> {
    "Shapes match, types diverge ("@ + int_digits(left_code as int) + " vs "@ + int_digits(
        right_code as int,
    ) + ")"@
}

/// The explanation recorded when same-shape, same-type images disagree on
/// some elements.
pub open spec fn voxel_info_chars(matched: nat, total: nat) -> Seq<char> {
    "Voxels diverge: "@ + dec_digits(matched) + " of "@ + dec_digits(total) + " match ("@
        + percent_hundredths_chars(matched, total) + "%)"@
}

/// The decision taken after parsing two image headers.
pub enum ImageCheck {
    /// The headers agree on shape and on a supported element type; the
    /// payloads must be compared element by element as this type.
    Compatible(ElementType),
    /// Shape or element type diverge; the comparison is already decided, with
    /// no payload element read.
    Mismatch(Diff),
    /// The common element-type code is outside the supported vocabulary; the
    /// payloads cannot be interpreted, which is a failure, not a mismatch.
    Unsupported(i16),
}

fn dims_equal(a: &Vec<u16>, b: &Vec<u16>) -> (eq: bool)
    ensures
        eq == (a@ == b@),
{
    if a.len() != b.len() {
        return false;
    }
    let mut i: usize = 0;
    while i < a.len()
        invariant
            a@.len() == b@.len(),
            i <= a@.len(),
            forall|j: int| 0 <= j < i ==> a@[j] == b@[j],
        decreases a@.len() - i,
    {
        if a[i] != b[i] {
            return false;
        }
        i = i + 1;
    }
    proof {
        assert(a@ =~= b@);
    }
    true
}

/// Checks two image headers for comparability. Shapes are compared first and
/// a shape mismatch decides the comparison with no element read; equal shapes
/// with diverging type codes likewise decide it, since a byte-identical
/// payload under different type interpretations is not a meaningful match;
/// equal shapes and equal, supported codes let the payload comparison
/// proceed.
pub fn check_image_headers(
    left: &str,
    right: &str,
    left_dims: &Vec<u16>,
    right_dims: &Vec<u16>,
    left_code: i16,
    right_code: i16,
) -> (c: ImageCheck)
    ensures
        (c is Compatible) <==> (left_dims@ == right_dims@ && left_code == right_code
            && spec_type_from_code(left_code) is Some),
        c matches ImageCheck::Compatible(t) ==> Some(t) == spec_type_from_code(left_code),
        c matches ImageCheck::Mismatch(d) ==> {
            &&& d.matches == false
            &&& d.left@ == left@
            &&& d.right@ == right@
            &&& d.report@ == report_line(left@, right@, d.additional_info@)
            &&& d.similarity is None
            &&& d.left_only@.len() == 0
            &&& d.right_only@.len() == 0
            &&& d.common@.len() == 0
            &&& d.sub_diffs@.len() == 0
        },
        left_dims@ != right_dims@ ==> (c matches ImageCheck::Mismatch(d) && d.additional_info@
            == shape_info_chars(left_dims@, right_dims@)),
        left_dims@ == right_dims@ && left_code != right_code ==> (c matches ImageCheck::Mismatch(d)
            && d.additional_info@ == type_info_chars(left_code, right_code)),
        left_dims@ == right_dims@ && left_code == right_code && spec_type_from_code(left_code)
            is None ==> c == ImageCheck::Unsupported(left_code),
{
    if !dims_equal(left_dims, right_dims) {
        let mut d = Diff::new(left, right);
        let mut info = String::new();
        info.append("Shapes diverge: ");
        let ld = render_dims(left_dims);
        info.append(ld.as_str());
        info.append(" vs ");
        let rd = render_dims(right_dims);
        info.append(rd.as_str());
        proof {
            assert(Seq::<char>::empty() + "Shapes diverge: "@ =~= "Shapes diverge: "@);
        }
        let r = build_report_line(left, right, info.as_str());
        d.additional_info = info;
        d.report = r;
        ImageCheck::Mismatch(d)
    } else if left_code != right_code {
        let mut d = Diff::new(left, right);
        let mut info = String::new();
        info.append("Shapes match, types diverge (");
        let lc = fmt_i16(left_code);
        info.append(lc.as_str());
        info.append(" vs ");
        let rc = fmt_i16(right_code);
        info.append(rc.as_str());
        info.append(")");
        proof {
            assert(Seq::<char>::empty() + "Shapes match, types diverge ("@
                =~= "Shapes match, types diverge ("@);
        }
        let r = build_report_line(left, right, info.as_str());
        d.additional_info = info;
        d.report = r;
        ImageCheck::Mismatch(d)
    } else {
        match ElementType::from_code(left_code) {
            Some(t) => ImageCheck::Compatible(t),
            None => ImageCheck::Unsupported(left_code),
        }
    }
}

/// Completes a voxel-level comparison into a record: the images match exactly
/// when every declared element matched.
pub fn finish_image(left: &str, right: &str, matched: usize, total: usize) -> (d: Diff)
    requires
        total >= 1,
    ensures
        d.left@ == left@,
        d.right@ == right@,
        d.matches == (matched == total),
        d.similarity == Some(Similarity { matched, total }),
        d.matches ==> d.additional_info@.len() == 0 && d.report@.len() == 0,
        !d.matches ==> d.additional_info@ == voxel_info_chars(matched as nat, total as nat)
            && d.report@ == report_line(left@, right@, d.additional_info@),
        d.left_only@.len() == 0,
        d.right_only@.len() == 0,
        d.common@.len() == 0,
        d.sub_diffs@.len() == 0,
    {
    let mut d = Diff::new(left, right);
    d.similarity = Some(Similarity { matched, total });
    if matched == total {
        d.matches = true;
    } else {
        let mut info = String::new();
        info.append("Voxels diverge: ");
        let ms = fmt_usize(matched);
        info.append(ms.as_str());
        info.append(" of ");
        let ts = fmt_usize(total);
        info.append(ts.as_str());
        info.append(" match (");
        let ps = fmt_percent_hundredths(matched, total);
        info.append(ps.as_str());
        info.append("%)");
        proof {
            assert(Seq::<char>::empty() + "Voxels diverge: "@ =~= "Voxels diverge: "@);
        }
        let r = build_report_line(left, right, info.as_str());
        d.additional_info = info;
        d.report = r;
    }
    d
}

} // verus!
