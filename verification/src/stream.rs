//! Streaming comparison state.
//!
//! The caller owns all file handles and reads; the engine owns all decisions.
//! A scan is fed corresponding chunks from the two inputs and accumulates the
//! match count; its contract ties the accumulated count to the whole byte
//! streams seen so far, so the final record is correct for the complete
//! inputs no matter how the caller chose its chunk boundaries.

use vstd::prelude::*;
use vstd::string::StringExecFns;
use vstd::arithmetic::div_mod::lemma_fundamental_div_mod;
use vstd::arithmetic::div_mod::lemma_hoist_over_denominator;
use vstd::arithmetic::div_mod::lemma_mod_multiples_vanish;

use crate::buffer::count_eq_bytes;
use crate::buffer::count_eq_elems;
use crate::buffer::diff_buffer;
use crate::buffer::elem_at;
use crate::buffer::le_val;
use crate::buffer::lemma_count_eq_bytes_append;
use crate::buffer::lemma_count_eq_bytes_full;
use crate::buffer::lemma_count_eq_bytes_le_len;
use crate::buffer::lemma_count_eq_elems_le_n;
use crate::buffer::lemma_count_eq_elems_prefix;
use crate::diff::Diff;
use crate::diff::Similarity;
use crate::diff::build_report_line;
use crate::diff::report_line;
use crate::render::dec_digits;
use crate::render::fmt_percent_tenths;
use crate::render::fmt_u64;
use crate::render::fmt_usize;
use crate::render::percent_tenths_chars;

verus! {

/// The explanation recorded when two files have different sizes.
pub open spec fn size_mismatch_chars(left_size: nat, right_size: nat) -> Seq<char> {
    "file sizes differ: "@ + dec_digits(left_size) + " vs "@ + dec_digits(right_size)
}

/// The explanation recorded when equal-size files disagree on some bytes.
pub open spec fn bytes_info_chars(matched: nat, total: nat) -> Seq<char> {
    dec_digits(matched) + " of "@ + dec_digits(total) + " bytes match ("@ + percent_tenths_chars(
        matched,
        total,
    ) + "%)"@
}

/// The decision taken after querying two file sizes: scan the contents, or
/// short-circuit with a completed mismatch record.
pub enum SizeCheck {
    /// The sizes agree; the contents must be scanned.
    Scan,
    /// The sizes differ; the comparison is already decided, with no byte of
    /// either file read.
    Mismatch(Diff),
}

/// Decides a file comparison from the two file sizes alone. Returns `Scan`
/// exactly when the sizes agree; a size mismatch proves inequality and
/// produces the finished record without any byte comparison.
pub fn check_file_sizes(left: &str, right: &str, left_size: u64, right_size: u64) -> (c: SizeCheck)
    ensures
        (left_size == right_size) <==> (c is Scan),
        c matches SizeCheck::Mismatch(d) ==> {
            &&& d.matches == false
            &&& d.left@ == left@
            &&& d.right@ == right@
            &&& d.additional_info@ == size_mismatch_chars(left_size as nat, right_size as nat)
            &&& d.report@ == report_line(left@, right@, d.additional_info@)
            &&& d.similarity is None
            &&& d.left_only@.len() == 0
            &&& d.right_only@.len() == 0
            &&& d.common@.len() == 0
            &&& d.sub_diffs@.len() == 0
        },
{
    if left_size == right_size {
        SizeCheck::Scan
    } else {
        let mut d = Diff::new(left, right);
        let mut info = String::new();
        info.append("file sizes differ: ");
        let ls = fmt_u64(left_size);
        info.append(ls.as_str());
        info.append(" vs ");
        let rs = fmt_u64(right_size);
        info.append(rs.as_str());
        let r = build_report_line(left, right, info.as_str());
        proof {
            assert(Seq::<char>::empty() + "file sizes differ: "@ =~= "file sizes differ: "@);
        }
        d.additional_info = info;
        d.report = r;
        SizeCheck::Mismatch(d)
    }
}

/// A byte-level scan in progress over two equal-size files.
pub struct ByteScan {
    matched: usize,
    seen: usize,
    lbytes: Ghost<Seq<u8>>,
    rbytes: Ghost<Seq<u8>>,
}

impl ByteScan {
    /// All bytes of the left stream fed to the scan so far.
    pub closed spec fn left_bytes(&self) -> Seq<u8> {
        self.lbytes@
    }

    /// All bytes of the right stream fed to the scan so far.
    pub closed spec fn right_bytes(&self) -> Seq<u8> {
        self.rbytes@
    }

    /// The scan has consumed equally long streams and its counters reflect
    /// them.
    pub closed spec fn wf(&self) -> bool {
        &&& self.lbytes@.len() == self.rbytes@.len()
        &&& self.seen == self.lbytes@.len()
        &&& self.matched == count_eq_bytes(self.lbytes@, self.rbytes@)
    }

    /// Starts a scan with nothing consumed.
    pub fn new() -> (s: ByteScan)
        ensures
            s.wf(),
            s.left_bytes() == Seq::<u8>::empty(),
            s.right_bytes() == Seq::<u8>::empty(),
    {
        ByteScan { matched: 0, seen: 0, lbytes: Ghost(Seq::empty()), rbytes: Ghost(Seq::empty()) }
    }

    /// The number of bytes that agreed so far.
    pub fn matched(&self) -> (m: usize)
        requires
            self.wf(),
        ensures
            m == count_eq_bytes(self.left_bytes(), self.right_bytes()),
    {
        self.matched
    }

    /// The number of bytes consumed from each stream so far.
    pub fn seen(&self) -> (n: usize)
        requires
            self.wf(),
        ensures
            n == self.left_bytes().len(),
    {
        self.seen
    }

    /// Consumes one chunk from each stream. The chunks must be equally long:
    /// unequal chunks mean the streams have desynchronized despite the equal
    /// declared sizes, and the scan refuses them, leaving itself unchanged so
    /// the caller can surface a fatal error.
    pub fn step(&mut self, left: &[u8], right: &[u8]) -> (ok: bool)
        requires
            old(self).wf(),
            old(self).left_bytes().len() + left@.len() <= usize::MAX,
        ensures
            ok == (left@.len() == right@.len()),
            ok ==> {
                &&& final(self).wf()
                &&& final(self).left_bytes() == old(self).left_bytes() + left@
                &&& final(self).right_bytes() == old(self).right_bytes() + right@
            },
            !ok ==> *final(self) == *old(self),
    {
        if left.len() != right.len() {
            return false;
        }
        let c = diff_buffer(left, right);
        proof {
            lemma_count_eq_bytes_le_len(self.lbytes@, self.rbytes@);
            lemma_count_eq_bytes_append(self.lbytes@, self.rbytes@, left@, right@);
        }
        self.matched = self.matched + c;
        self.seen = self.seen + left.len();
        proof {
            self.lbytes@ = self.lbytes@ + left@;
            self.rbytes@ = self.rbytes@ + right@;
        }
        true
    }

    /// Completes the scan into a comparison result. The result matches
    /// exactly when the two streams were identical; the similarity ratio is
    /// always recorded, and the empty pair of streams counts as a full match.
    pub fn finish(self, left: &str, right: &str) -> (d: Diff)
        requires
            self.wf(),
        ensures
            d.left@ == left@,
            d.right@ == right@,
            d.matches == (self.left_bytes() == self.right_bytes()),
            d.matches == (count_eq_bytes(self.left_bytes(), self.right_bytes())
                == self.left_bytes().len()),
            d.similarity == Some(
                Similarity {
                    matched: count_eq_bytes(self.left_bytes(), self.right_bytes()) as usize,
                    total: self.left_bytes().len() as usize,
                },
            ),
            d.matches ==> d.additional_info@.len() == 0 && d.report@.len() == 0,
            !d.matches ==> d.additional_info@ == bytes_info_chars(
                count_eq_bytes(self.left_bytes(), self.right_bytes()),
                self.left_bytes().len(),
            ) && d.report@ == report_line(left@, right@, d.additional_info@),
            d.left_only@.len() == 0,
            d.right_only@.len() == 0,
            d.common@.len() == 0,
            d.sub_diffs@.len() == 0,
    {
        proof {
            lemma_count_eq_bytes_le_len(self.lbytes@, self.rbytes@);
            lemma_count_eq_bytes_full(self.lbytes@, self.rbytes@);
        }
        let m = self.matched;
        let total = self.seen;
        let mut d = Diff::new(left, right);
        d.similarity = Some(Similarity { matched: m, total });
        if m == total {
            d.matches = true;
        } else {
            let mut info = fmt_usize(m);
            info.append(" of ");
            let ts = fmt_usize(total);
            info.append(ts.as_str());
            info.append(" bytes match (");
            let pct = fmt_percent_tenths(m, total);
            info.append(pct.as_str());
            info.append("%)");
            let r = build_report_line(left, right, info.as_str());
            d.additional_info = info;
            d.report = r;
        }
        d
    }
}

/// A typed-element scan in progress over two equal-size payload streams.
/// Elements are `width` bytes each; bytes left over at a chunk boundary are
/// carried into the next step, so the caller's chunking never has to align
/// with element boundaries.
pub struct TypedScan {
    width: usize,
    matched: usize,
    pending_left: Vec<u8>,
    pending_right: Vec<u8>,
    lbytes: Ghost<Seq<u8>>,
    rbytes: Ghost<Seq<u8>>,
}

impl TypedScan {
    /// The element width in bytes.
    pub closed spec fn spec_width(&self) -> nat {
        self.width as nat
    }

    /// All bytes of the left stream fed to the scan so far.
    pub closed spec fn left_bytes(&self) -> Seq<u8> {
        self.lbytes@
    }

    /// All bytes of the right stream fed to the scan so far.
    pub closed spec fn right_bytes(&self) -> Seq<u8> {
        self.rbytes@
    }

    /// The scan has consumed equally long streams, holds exactly the bytes
    /// past the last whole element as its pending remainder, and its count
    /// covers every whole element consumed so far.
    pub closed spec fn wf(&self) -> bool {
        let n = self.lbytes@.len() as int;
        let w = self.width as int;
        &&& 1 <= self.width <= 8
        &&& self.rbytes@.len() == n
        &&& self.pending_left@ == self.lbytes@.skip(n - n % w)
        &&& self.pending_right@ == self.rbytes@.skip(n - n % w)
        &&& self.matched == count_eq_elems(
            self.lbytes@,
            self.rbytes@,
            self.width as nat,
            (n / w) as nat,
        )
    }

    /// Starts a typed scan for elements of `width` bytes.
    pub fn new(width: usize) -> (s: TypedScan)
        requires
            1 <= width <= 8,
        ensures
            s.wf(),
            s.spec_width() == width,
            s.left_bytes() == Seq::<u8>::empty(),
            s.right_bytes() == Seq::<u8>::empty(),
    {
        let s = TypedScan {
            width,
            matched: 0,
            pending_left: Vec::new(),
            pending_right: Vec::new(),
            lbytes: Ghost(Seq::empty()),
            rbytes: Ghost(Seq::empty()),
        };
        proof {
            assert(s.lbytes@.skip(0) =~= Seq::<u8>::empty());
        }
        s
    }

    /// The number of whole elements that agreed so far.
    pub fn matched(&self) -> (m: usize)
        requires
            self.wf(),
        ensures
            m == count_eq_elems(
                self.left_bytes(),
                self.right_bytes(),
                self.spec_width(),
                self.left_bytes().len() / self.spec_width(),
            ),
    {
        self.matched
    }

    /// Consumes one chunk from each stream, counting every whole element that
    /// becomes available, including elements straddling the previous chunk
    /// boundary. Unequal chunks mean the streams have desynchronized and are
    /// refused, leaving the scan unchanged so the caller can surface a fatal
    /// error.
    pub fn step(&mut self, left: &[u8], right: &[u8]) -> (ok: bool)
        requires
            old(self).wf(),
            old(self).left_bytes().len() + left@.len() <= usize::MAX,
        ensures
            ok == (left@.len() == right@.len()),
            ok ==> {
                &&& final(self).wf()
                &&& final(self).spec_width() == old(self).spec_width()
                &&& final(self).left_bytes() == old(self).left_bytes() + left@
                &&& final(self).right_bytes() == old(self).right_bytes() + right@
            },
            !ok ==> *final(self) == *old(self),
    {
        if left.len() != right.len() {
            return false;
        }
        let ghost l_old = self.lbytes@;
        let ghost r_old = self.rbytes@;
        let ghost n_old = l_old.len() as int;
        let ghost w_int = self.width as int;
        let ghost base = n_old / w_int;
        let ghost done = n_old - n_old % w_int;
        proof {
            lemma_fundamental_div_mod(n_old, w_int);
            assert(done == w_int * base);
            self.lbytes@ = self.lbytes@ + left@;
            self.rbytes@ = self.rbytes@ + right@;
        }
        let ghost l_new = self.lbytes@;
        let ghost r_new = self.rbytes@;
        push_all(&mut self.pending_left, left);
        push_all(&mut self.pending_right, right);
        proof {
            assert(self.pending_left@ =~= l_new.skip(done));
            assert(self.pending_right@ =~= r_new.skip(done));
            assert(l_new.subrange(0, n_old) =~= l_old);
            assert(r_new.subrange(0, n_old) =~= r_old);
            assert(base * w_int == done) by (nonlinear_arith)
                requires done == w_int * base;
            lemma_count_eq_elems_prefix(l_old, r_old, l_new, r_new, self.width as nat, base as nat);
        }
        let w = self.width;
        let total = self.pending_left.len();
        let n_new = total / w;
        proof {
            lemma_count_eq_elems_le_n(l_new, r_new, self.width as nat, base as nat);
            assert(n_new * w <= total) by (nonlinear_arith)
                requires n_new == total as int / w as int, w >= 1, total >= 0;
            assert(base + n_new <= base * w_int + n_new * w_int) by (nonlinear_arith)
                requires w_int >= 1, base >= 0, n_new >= 0;
            assert(base * w_int + total == l_new.len());
        }
        let mut k: usize = 0;
        while k < n_new
            invariant
                1 <= w <= 8,
                w == self.width,
                k <= n_new,
                total == self.pending_left@.len(),
                total == self.pending_right@.len(),
                n_new == total as int / w as int,
                n_new * w <= total,
                w_int == w as int,
                base >= 0,
                base * w_int == done,
                0 <= done <= l_new.len(),
                base + n_new <= usize::MAX,
                l_new.len() == r_new.len(),
                l_new.len() == done + total,
                self.pending_left@ == l_new.skip(done),
                self.pending_right@ == r_new.skip(done),
                self.lbytes@ == l_new,
                self.rbytes@ == r_new,
                self.matched == count_eq_elems(l_new, r_new, w as nat, (base + k) as nat),
                self.matched <= base + k,
            decreases n_new - k,
        {
            proof {
                assert(k * w + w <= n_new * w) by (nonlinear_arith)
                    requires k + 1 <= n_new, w >= 1;
                lemma_count_eq_elems_le_n(l_new, r_new, w as nat, (base + k + 1) as nat);
            }
            let a = crate::buffer::le_element(self.pending_left.as_slice(), k * w, w);
            let b = crate::buffer::le_element(self.pending_right.as_slice(), k * w, w);
            proof {
                let kk = (base + k) as nat;
                assert(kk * (w as nat) == done + k * w) by (nonlinear_arith)
                    requires
                        kk == base + k,
                        base * w_int == done,
                        w_int == w as int,
                        base >= 0,
                        k >= 0,
                        w >= 1;
                assert(l_new.skip(done).subrange(k * w, k * w + w) =~= l_new.subrange(
                    done + k * w,
                    done + k * w + w,
                ));
                assert(r_new.skip(done).subrange(k * w, k * w + w) =~= r_new.subrange(
                    done + k * w,
                    done + k * w + w,
                ));
                assert(elem_at(l_new, w as nat, kk) == le_val(
                    self.pending_left@.subrange(k * w, k * w + w),
                ));
                assert(elem_at(r_new, w as nat, kk) == le_val(
                    self.pending_right@.subrange(k * w, k * w + w),
                ));
            }
            if a == b {
                self.matched = self.matched + 1;
            }
            k = k + 1;
        }
        let rem_start = n_new * w;
        proof {
            lemma_fundamental_div_mod(total as int, w as int);
            assert((w as int) * n_new == n_new * (w as int)) by (nonlinear_arith);
            assert(total - rem_start == total as int % w as int);
            lemma_hoist_over_denominator(total as int, base, w as nat);
            assert(l_new.len() as int / w_int == base + n_new);
            lemma_mod_multiples_vanish(base, total as int, w_int);
            assert(l_new.len() as int % w_int == total as int % w_int);
        }
        let tail_left = self.pending_left.split_off(rem_start);
        self.pending_left = tail_left;
        let tail_right = self.pending_right.split_off(rem_start);
        self.pending_right = tail_right;
        proof {
            let nn = l_new.len() as int;
            assert(self.pending_left@ =~= l_new.skip(nn - nn % w_int));
            assert(self.pending_right@ =~= r_new.skip(nn - nn % w_int));
        }
        true
    }
}

/// The similarity of any equal-size comparison is bounded: the matched count
/// never exceeds the total, and it reaches the total exactly when the two
/// streams are equal. A finished scan therefore carries a similarity ratio
/// between 0 and 1 that equals 1 exactly on a match; the empty comparison
/// matches with ratio 0 / 0, which counts as 1 by the same rule.
pub proof fn lemma_similarity_bounds(l: Seq<u8>, r: Seq<u8>)
    requires
        l.len() == r.len(),
    ensures
        count_eq_bytes(l, r) <= l.len(),
        (count_eq_bytes(l, r) == l.len()) <==> (l == r),
{
    lemma_count_eq_bytes_le_len(l, r);
    lemma_count_eq_bytes_full(l, r);
}

/// Appends every byte of `src` to `dst`.
fn push_all(dst: &mut Vec<u8>, src: &[u8])
    ensures
        final(dst)@ == old(dst)@ + src@,
{
    let mut j: usize = 0;
    while j < src.len()
        invariant
            j <= src@.len(),
            dst@ == old(dst)@ + src@.take(j as int),
        decreases src@.len() - j,
    {
        dst.push(src[j]);
        proof {
            assert(old(dst)@ + src@.take(j as int + 1) =~= (old(dst)@ + src@.take(j as int)).push(
                src@[j as int],
            ));
        }
        j = j + 1;
    }
    proof {
        assert(src@.take(src@.len() as int) =~= src@);
    }
}

} // verus!
