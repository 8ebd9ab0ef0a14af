//! Directory comparison: partition two listings into exclusive and common
//! names, and fold child results into one aggregate record.
//!
//! The caller lists the two directories and recursively compares the common
//! entries; the partition and the aggregation — every decision — are made
//! here.

use vstd::prelude::*;
use vstd::string::StringExecFns;

use crate::diff::Diff;
use crate::render::join_comma;
use crate::render::join_names;

verus! {

/// The names of `s` that occur in `t`, in the order of `s`.
pub open spec fn names_in(s: Seq<Seq<char>>, t: Seq<Seq<char>>) -> Seq<Seq<char>>
    decreases s.len(),
{
    if s.len() == 0 {
        Seq::empty()
    } else if t.contains(s.last()) {
        names_in(s.drop_last(), t).push(s.last())
    } else {
        names_in(s.drop_last(), t)
    }
}

/// The names of `s` that do not occur in `t`, in the order of `s`.
pub open spec fn names_not_in(s: Seq<Seq<char>>, t: Seq<Seq<char>>) -> Seq<Seq<char>>
    decreases s.len(),
{
    if s.len() == 0 {
        Seq::empty()
    } else if !t.contains(s.last()) {
        names_not_in(s.drop_last(), t).push(s.last())
    } else {
        names_not_in(s.drop_last(), t)
    }
}

/// A name is kept by `names_in` exactly when it occurs in both sequences.
pub proof fn lemma_names_in_contains(s: Seq<Seq<char>>, t: Seq<Seq<char>>, x: Seq<char>)
    ensures
        names_in(s, t).contains(x) <==> (s.contains(x) && t.contains(x)),
    decreases s.len(),
{
    if s.len() == 0 {
        assert(!s.contains(x));
        assert(!names_in(s, t).contains(x));
    } else {
        lemma_names_in_contains(s.drop_last(), t, x);
        lemma_contains_drop_last(s, x);
        if t.contains(s.last()) {
            lemma_contains_push(names_in(s.drop_last(), t), s.last(), x);
        }
    }
}

/// A name is kept by `names_not_in` exactly when it occurs in the first
/// sequence and not in the second.
pub proof fn lemma_names_not_in_contains(s: Seq<Seq<char>>, t: Seq<Seq<char>>, x: Seq<char>)
    ensures
        names_not_in(s, t).contains(x) <==> (s.contains(x) && !t.contains(x)),
    decreases s.len(),
{
    if s.len() == 0 {
        assert(!s.contains(x));
        assert(!names_not_in(s, t).contains(x));
    } else {
        lemma_names_not_in_contains(s.drop_last(), t, x);
        lemma_contains_drop_last(s, x);
        if !t.contains(s.last()) {
            lemma_contains_push(names_not_in(s.drop_last(), t), s.last(), x);
        }
    }
}

proof fn lemma_contains_drop_last(s: Seq<Seq<char>>, x: Seq<char>)
    requires
        s.len() > 0,
    ensures
        s.contains(x) <==> (s.drop_last().contains(x) || s.last() == x),
{
    if s.contains(x) {
        let i = choose|i: int| 0 <= i < s.len() && s[i] == x;
        if i < s.len() - 1 {
            assert(s.drop_last()[i] == x);
        }
    }
    if s.drop_last().contains(x) {
        let i = choose|i: int| 0 <= i < s.drop_last().len() && s.drop_last()[i] == x;
        assert(s[i] == x);
    }
    if s.last() == x {
        assert(s[s.len() - 1] == x);
    }
}

proof fn lemma_contains_push(s: Seq<Seq<char>>, e: Seq<char>, x: Seq<char>)
    ensures
        s.push(e).contains(x) <==> (s.contains(x) || e == x),
{
    if s.push(e).contains(x) {
        let i = choose|i: int| 0 <= i < s.push(e).len() && s.push(e)[i] == x;
        if i < s.len() {
            assert(s[i] == x);
        }
    }
    if s.contains(x) {
        let i = choose|i: int| 0 <= i < s.len() && s[i] == x;
        assert(s.push(e)[i] == x);
    }
    if e == x {
        assert(s.push(e)[s.len() as int] == x);
    }
}

/// Every name kept by `names_in(s, t)` keeps its multiplicity from `s`; in
/// particular, when every name of `s` occurs in `t`, nothing is dropped.
pub proof fn lemma_names_in_all(s: Seq<Seq<char>>, t: Seq<Seq<char>>)
    requires
        forall|i: int| 0 <= i < s.len() ==> t.contains(#[trigger] s[i]),
    ensures
        names_in(s, t) == s,
    decreases s.len(),
{
    if s.len() == 0 {
        assert(names_in(s, t) =~= s);
    } else {
        assert(forall|i: int|
            0 <= i < s.drop_last().len() ==> t.contains(#[trigger] s.drop_last()[i]));
        lemma_names_in_all(s.drop_last(), t);
        assert(t.contains(s[s.len() - 1]));
        assert(names_in(s, t) =~= s);
    }
}

/// When every name of `s` occurs in `t`, `names_not_in(s, t)` is empty.
pub proof fn lemma_names_not_in_all(s: Seq<Seq<char>>, t: Seq<Seq<char>>)
    requires
        forall|i: int| 0 <= i < s.len() ==> t.contains(#[trigger] s[i]),
    ensures
        names_not_in(s, t).len() == 0,
    decreases s.len(),
{
    if s.len() > 0 {
        assert(forall|i: int|
            0 <= i < s.drop_last().len() ==> t.contains(#[trigger] s.drop_last()[i]));
        lemma_names_not_in_all(s.drop_last(), t);
        assert(t.contains(s[s.len() - 1]));
    }
}

/// Partitioning a listing against itself leaves no exclusive names and keeps
/// every common name: the reflexive directory comparison has nothing to
/// report.
pub proof fn lemma_partition_reflexive(names: Seq<Seq<char>>)
    ensures
        names_in(names, names) == names,
        names_not_in(names, names).len() == 0,
        names_not_in(names, names_in(names, names)).len() == 0,
{
    assert(forall|i: int| 0 <= i < names.len() ==> names.contains(#[trigger] names[i]));
    lemma_names_in_all(names, names);
    lemma_names_not_in_all(names, names);
    lemma_names_not_in_all(names, names_in(names, names));
}

/// Every name from either listing lands in exactly one of the three
/// partition classes: common, left-only, right-only.
pub proof fn lemma_partition_complete(lefts: Seq<Seq<char>>, rights: Seq<Seq<char>>, name: Seq<char>)
    requires
        lefts.contains(name) || rights.contains(name),
    ensures
        ({
            let common = names_in(lefts, rights);
            let left_only = names_not_in(lefts, rights);
            let right_only = names_not_in(rights, common);
            ||| (common.contains(name) && !left_only.contains(name) && !right_only.contains(name))
            ||| (!common.contains(name) && left_only.contains(name) && !right_only.contains(name))
            ||| (!common.contains(name) && !left_only.contains(name) && right_only.contains(name))
        }),
{
    lemma_names_in_contains(lefts, rights, name);
    lemma_names_not_in_contains(lefts, rights, name);
    lemma_names_not_in_contains(rights, names_in(lefts, rights), name);
}

fn contains_name(names: &Vec<String>, x: &String) -> (found: bool)
    ensures
        found == names.deep_view().contains(x@),
{
    let ghost dv = names.deep_view();
    let mut i: usize = 0;
    while i < names.len()
        invariant
            i <= names@.len(),
            dv == names.deep_view(),
            dv.len() == names@.len(),
            forall|j: int| 0 <= j < dv.len() ==> dv[j] == names@[j]@,
            forall|j: int| 0 <= j < i ==> dv[j] != x@,
        decreases names@.len() - i,
    {
        if names[i] == *x {
            proof {
                assert(dv[i as int] == x@);
            }
            return true;
        }
        i = i + 1;
    }
    proof {
        assert forall|j: int| 0 <= j < dv.len() implies dv[j] != x@ by {}
    }
    false
}

/// Partitions two directory listings into the names only on the left, the
/// names only on the right, and the names common to both. Common and
/// left-only names keep the left listing's order; right-only names keep the
/// right listing's order.
pub fn partition_entries(left_names: &Vec<String>, right_names: &Vec<String>) -> (r: (
    Vec<String>,
    Vec<String>,
    Vec<String>,
))
    ensures
        r.0.deep_view() == names_not_in(left_names.deep_view(), right_names.deep_view()),
        r.1.deep_view() == names_not_in(
            right_names.deep_view(),
            names_in(left_names.deep_view(), right_names.deep_view()),
        ),
        r.2.deep_view() == names_in(left_names.deep_view(), right_names.deep_view()),
{
    let ghost ldv = left_names.deep_view();
    let ghost rdv = right_names.deep_view();
    let mut left_only: Vec<String> = Vec::new();
    let mut common: Vec<String> = Vec::new();
    let mut i: usize = 0;
    while i < left_names.len()
        invariant
            i <= left_names@.len(),
            ldv == left_names.deep_view(),
            rdv == right_names.deep_view(),
            ldv.len() == left_names@.len(),
            forall|j: int| 0 <= j < ldv.len() ==> ldv[j] == left_names@[j]@,
            common.deep_view() == names_in(ldv.take(i as int), rdv),
            left_only.deep_view() == names_not_in(ldv.take(i as int), rdv),
        decreases left_names@.len() - i,
    {
        let ghost taken = ldv.take(i as int + 1);
        proof {
            assert(taken.drop_last() =~= ldv.take(i as int));
            assert(taken.last() == ldv[i as int]);
        }
        if contains_name(right_names, &left_names[i]) {
            let ghost before = common.deep_view();
            common.push(left_names[i].clone());
            proof {
                assert(common.deep_view() =~= before.push(ldv[i as int]));
            }
        } else {
            let ghost before = left_only.deep_view();
            left_only.push(left_names[i].clone());
            proof {
                assert(left_only.deep_view() =~= before.push(ldv[i as int]));
            }
        }
        i = i + 1;
    }
    proof {
        assert(ldv.take(left_names@.len() as int) =~= ldv);
    }
    let mut right_only: Vec<String> = Vec::new();
    let ghost cdv = common.deep_view();
    let mut k: usize = 0;
    while k < right_names.len()
        invariant
            k <= right_names@.len(),
            rdv == right_names.deep_view(),
            rdv.len() == right_names@.len(),
            forall|j: int| 0 <= j < rdv.len() ==> rdv[j] == right_names@[j]@,
            cdv == common.deep_view(),
            right_only.deep_view() == names_not_in(rdv.take(k as int), cdv),
        decreases right_names@.len() - k,
    {
        let ghost taken = rdv.take(k as int + 1);
        proof {
            assert(taken.drop_last() =~= rdv.take(k as int));
            assert(taken.last() == rdv[k as int]);
        }
        if !contains_name(&common, &right_names[k]) {
            let ghost before = right_only.deep_view();
            right_only.push(right_names[k].clone());
            proof {
                assert(right_only.deep_view() =~= before.push(rdv[k as int]));
            }
        }
        k = k + 1;
    }
    proof {
        assert(rdv.take(right_names@.len() as int) =~= rdv);
    }
    (left_only, right_only, common)
}

/// All child results match.
pub open spec fn all_match(subs: Seq<Diff>) -> bool {
    forall|i: int| 0 <= i < subs.len() ==> subs[i].matches
}

/// A directory comparison matches exactly when neither side has exclusive
/// names and every child result matches.
pub open spec fn dir_matches(
    left_only: Seq<Seq<char>>,
    right_only: Seq<Seq<char>>,
    subs: Seq<Diff>,
) -> bool {
    left_only.len() == 0 && right_only.len() == 0 && all_match(subs)
}

/// The report line listing the names present only under one directory.
pub open spec fn only_line(dir: Seq<char>, names: Seq<Seq<char>>) -> Seq<char> {
    "Only in "@ + dir + ": "@ + join_comma(names) + "\n"@
}

/// The reports of the non-matching children, each on its own line, in child
/// order.
pub open spec fn sub_reports(subs: Seq<Diff>) -> Seq<char>
    decreases subs.len(),
{
    if subs.len() == 0 {
        Seq::empty()
    } else {
        sub_reports(subs.drop_last()) + if subs.last().matches {
            Seq::<char>::empty()
        } else {
            subs.last().report@ + "\n"@
        }
    }
}

/// The full report of a directory mismatch: a header line, one line for each
/// non-empty exclusive set, then every non-matching child report.
pub open spec fn dir_report_chars(
    left: Seq<char>,
    right: Seq<char>,
    left_only: Seq<Seq<char>>,
    right_only: Seq<Seq<char>>,
    subs: Seq<Diff>,
) -> Seq<char> {
    left + " vs "@ + right + "\n"@ + (if left_only.len() == 0 {
        Seq::<char>::empty()
    } else {
        only_line(left, left_only)
    }) + (if right_only.len() == 0 {
        Seq::<char>::empty()
    } else {
        only_line(right, right_only)
    }) + sub_reports(subs)
}

/// Folds a partition and the child results of the common entries into one
/// directory record. The record matches exactly when both exclusive sets are
/// empty and every child matches; otherwise its report lists the exclusive
/// names and the non-matching child reports.
pub fn aggregate_directory(
    left: &str,
    right: &str,
    left_only: Vec<String>,
    right_only: Vec<String>,
    common: Vec<String>,
    sub_diffs: Vec<Diff>,
) -> (d: Diff)
    ensures
        d.left@ == left@,
        d.right@ == right@,
        d.matches == dir_matches(left_only.deep_view(), right_only.deep_view(), sub_diffs@),
        d.left_only == left_only,
        d.right_only == right_only,
        d.common == common,
        d.sub_diffs == sub_diffs,
        d.similarity is None,
        d.additional_info@.len() == 0,
        d.matches ==> d.report@.len() == 0,
        !d.matches ==> d.report@ == dir_report_chars(
            left@,
            right@,
            left_only.deep_view(),
            right_only.deep_view(),
            sub_diffs@,
        ),
{
    let mut all_sub: bool = true;
    let mut i: usize = 0;
    while i < sub_diffs.len()
        invariant
            i <= sub_diffs@.len(),
            all_sub == all_match(sub_diffs@.take(i as int)),
        decreases sub_diffs@.len() - i,
    {
        proof {
            let taken = sub_diffs@.take(i as int + 1);
            assert(forall|j: int| 0 <= j < i ==> taken[j] == sub_diffs@[j]);
            assert(taken[i as int] == sub_diffs@[i as int]);
        }
        if !sub_diffs[i].matches {
            all_sub = false;
            proof {
                assert(sub_diffs@.take(i as int + 1)[i as int] == sub_diffs@[i as int]);
                assert(!all_match(sub_diffs@.take(i as int + 1)));
            }
        } else {
            proof {
                let taken = sub_diffs@.take(i as int + 1);
                if all_match(sub_diffs@.take(i as int)) {
                    assert forall|j: int| 0 <= j < taken.len() implies taken[j].matches by {
                        if j < i {
                            assert(sub_diffs@.take(i as int)[j] == taken[j]);
                        }
                    }
                }
            }
        }
        i = i + 1;
    }
    proof {
        assert(sub_diffs@.take(sub_diffs@.len() as int) =~= sub_diffs@);
    }
    let mut d = Diff::new(left, right);
    if left_only.len() == 0 && right_only.len() == 0 && all_sub {
        d.matches = true;
    } else {
        let mut rep = left.to_owned();
        rep.append(" vs ");
        rep.append(right);
        rep.append("\n");
        if left_only.len() != 0 {
            rep.append("Only in ");
            rep.append(left);
            rep.append(": ");
            let joined = join_names(&left_only);
            rep.append(joined.as_str());
            rep.append("\n");
        } else {
            proof {
                assert(rep@ + Seq::<char>::empty() =~= rep@);
            }
        }
        let ghost head = left@ + " vs "@ + right@ + "\n"@ + (if left_only.deep_view().len() == 0 {
            Seq::<char>::empty()
        } else {
            only_line(left@, left_only.deep_view())
        });
        proof {
            assert(left_only@.len() == left_only.deep_view().len());
            assert(rep@ == head);
        }
        if right_only.len() != 0 {
            rep.append("Only in ");
            rep.append(right);
            rep.append(": ");
            let joined = join_names(&right_only);
            rep.append(joined.as_str());
            rep.append("\n");
        } else {
            proof {
                assert(rep@ + Seq::<char>::empty() =~= rep@);
            }
        }
        let ghost head2 = head + (if right_only.deep_view().len() == 0 {
            Seq::<char>::empty()
        } else {
            only_line(right@, right_only.deep_view())
        });
        proof {
            assert(right_only@.len() == right_only.deep_view().len());
            assert(rep@ == head2);
        }
        let mut k: usize = 0;
        while k < sub_diffs.len()
            invariant
                k <= sub_diffs@.len(),
                rep@ == head2 + sub_reports(sub_diffs@.take(k as int)),
            decreases sub_diffs@.len() - k,
        {
            proof {
                let taken = sub_diffs@.take(k as int + 1);
                assert(taken.drop_last() =~= sub_diffs@.take(k as int));
                assert(taken.last() == sub_diffs@[k as int]);
            }
            if !sub_diffs[k].matches {
                rep.append(sub_diffs[k].report.as_str());
                rep.append("\n");
            } else {
                proof {
                    assert(rep@ + Seq::<char>::empty() =~= rep@);
                }
            }
            k = k + 1;
        }
        proof {
            assert(sub_diffs@.take(sub_diffs@.len() as int) =~= sub_diffs@);
        }
        d.report = rep;
    }
    d.left_only = left_only;
    d.right_only = right_only;
    d.common = common;
    d.sub_diffs = sub_diffs;
    d
}

/// A directory with empty exclusive sets matches exactly when its one
/// non-pinned child matches: flipping a single child's match flag flips the
/// parent's, provided every other child matches. (With a second non-matching
/// child, flipping the first would leave the parent unmatched, so that case
/// is excluded.)
pub proof fn lemma_aggregation_flip(
    left_only: Seq<Seq<char>>,
    right_only: Seq<Seq<char>>,
    subs1: Seq<Diff>,
    subs2: Seq<Diff>,
    i: int,
)
    requires
        left_only.len() == 0,
        right_only.len() == 0,
        subs1.len() == subs2.len(),
        0 <= i < subs1.len(),
        subs2[i].matches == !subs1[i].matches,
        forall|j: int| 0 <= j < subs1.len() && j != i ==> subs1[j].matches,
        forall|j: int| 0 <= j < subs2.len() && j != i ==> subs2[j].matches,
    ensures
        dir_matches(left_only, right_only, subs2) == !dir_matches(left_only, right_only, subs1),
{
    if subs1[i].matches {
        assert(all_match(subs1));
        assert(!all_match(subs2));
    } else {
        assert(!all_match(subs1));
        assert(all_match(subs2));
    }
}

} // verus!
