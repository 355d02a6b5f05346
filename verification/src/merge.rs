//! The snapshot merger: folds a freshly reconciled course set against the
//! previous cycle's set so that a cycle that failed to refresh a field never
//! regresses data that is already known.

use vstd::prelude::*;
use crate::strutil::{
    replace_all_spec, format_reqs_spec, str_eq, chars_of, string_of, replace_all,
};
use crate::model::{Course, course_eq, course_dup, timing_eq};

verus! {

/// Whether a previous course is folded into a current one: same title, or —
/// against identifier churn — same full identifier.
pub open spec fn merge_match(n: Course, p: Course) -> bool {
    n.title@ == p.title@ || n.identifier@ == p.identifier@
}

/// The four mergeable text fields of `c` after folding the first `i` previous
/// courses, in order: description, notes, prerequisites, corequisites.
/// Description, prerequisites and corequisites take the longer value; notes
/// take the previous value outright whenever it differs (with doubled periods
/// collapsed, as the notes setter stores them); requisites pass through the
/// requisite formatter when taken.
pub open spec fn merge_fold(c: Course, prev: Seq<Course>, i: int) -> (
    Seq<char>,
    Seq<char>,
    Seq<char>,
    Seq<char>,
)
    decreases i,
    when 0 <= i <= prev.len()
{
    if i == 0 {
        (c.description@, c.notes@, c.prerequisites@, c.corequisites@)
    } else {
        let s = merge_fold(c, prev, i - 1);
        let p = prev[i - 1];
        if merge_match(c, p) {
            let d = if s.0.len() < p.description@.len() {
                p.description@
            } else {
                s.0
            };
            let nt = if s.1 != p.notes@ {
                replace_all_spec(p.notes@, seq!['.', '.'], seq!['.'])
            } else {
                s.1
            };
            let pr = if s.2.len() < p.prerequisites@.len() {
                format_reqs_spec(p.prerequisites@)
            } else {
                s.2
            };
            let co = if s.3.len() < p.corequisites@.len() {
                format_reqs_spec(p.corequisites@)
            } else {
                s.3
            };
            (d, nt, pr, co)
        } else {
            s
        }
    }
}

/// All fields of `out` other than the four mergeable ones hold `c`'s data.
pub open spec fn same_but_merge_fields(c: Course, out: Course) -> bool {
    &&& out.identifier@ == c.identifier@
    &&& out.id@ == c.id@
    &&& out.code@ == c.code@
    &&& out.dept@ == c.dept@
    &&& out.section@ == c.section@
    &&& out.title@ == c.title@
    &&& out.max_seats == c.max_seats
    &&& out.seats_taken == c.seats_taken
    &&& out.seats_remaining == c.seats_remaining
    &&& out.credits == c.credits
    &&& out.credits_hmc == c.credits_hmc
    &&& out.status == c.status
    &&& out.timing@.len() == c.timing@.len()
    &&& (forall|i: int| 0 <= i < c.timing@.len() ==> timing_eq(c.timing@[i], out.timing@[i]))
    &&& out.instructors.deep_view() == c.instructors.deep_view()
    &&& out.offered@ == c.offered@
    &&& out.perm_count == c.perm_count
    &&& out.fee == c.fee
}

/// What the merger leaves for one current course: its own data, with the four
/// mergeable fields folded over the whole previous set.
pub open spec fn merged_course_ok(c: Course, prev: Seq<Course>, out: Course) -> bool {
    let s = merge_fold(c, prev, prev.len() as int);
    &&& same_but_merge_fields(c, out)
    &&& out.description@ == s.0
    &&& out.notes@ == s.1
    &&& out.prerequisites@ == s.2
    &&& out.corequisites@ == s.3
}

/// Collapse doubled periods, as the notes setter stores notes.
fn collapse_dots(s: &String) -> (r: String)
    ensures
        r@ == replace_all_spec(s@, seq!['.', '.'], seq!['.']),
{
    let v = chars_of(s.as_str());
    let mut dots: Vec<char> = Vec::new();
    dots.push('.');
    dots.push('.');
    assert(dots@ =~= seq!['.', '.']);
    let mut dot: Vec<char> = Vec::new();
    dot.push('.');
    assert(dot@ =~= seq!['.']);
    let out = replace_all(&v, &dots, &dot);
    string_of(&out)
}

/// Merge the previous snapshot's courses into the current cycle's, course by
/// course: every current course stays (with fields folded as `merge_fold`
/// says), no previous-only course is resurrected.
pub fn merge_courses(previous: Vec<Course>, new: Vec<Course>) -> (r: Vec<Course>)
    ensures
        r@.len() == new@.len(),
        forall|i: int| 0 <= i < new@.len() ==> merged_course_ok(new@[i], previous@, #[trigger] r@[
            i
        ]),
{
    let mut out: Vec<Course> = Vec::new();
    let mut i: usize = 0;
    while i < new.len()
        invariant
            i <= new@.len(),
            out@.len() == i,
            forall|k: int| 0 <= k < i ==> merged_course_ok(new@[k], previous@, #[trigger] out@[k]),
        decreases new@.len() - i,
    {
        let ghost c = new@[i as int];
        let mut fc = course_dup(&new[i]);
        let mut j: usize = 0;
        while j < previous.len()
            invariant
                j <= previous@.len(),
                same_but_merge_fields(c, fc),
                (fc.description@, fc.notes@, fc.prerequisites@, fc.corequisites@) == merge_fold(
                    c,
                    previous@,
                    j as int,
                ),
            decreases previous@.len() - j,
        {
            let p = &previous[j];
            if str_eq(fc.title.as_str(), p.title.as_str()) || str_eq(
                fc.identifier.as_str(),
                p.identifier.as_str(),
            ) {
                if fc.description.as_str().unicode_len() < p.description.as_str().unicode_len() {
                    fc.description = p.description.clone();
                }
                if !str_eq(fc.notes.as_str(), p.notes.as_str()) {
                    fc.notes = collapse_dots(&p.notes);
                }
                if fc.prerequisites.as_str().unicode_len()
                    < p.prerequisites.as_str().unicode_len() {
                    fc.prerequisites = Course::format_reqs(p.prerequisites.clone());
                }
                if fc.corequisites.as_str().unicode_len() < p.corequisites.as_str().unicode_len() {
                    fc.corequisites = Course::format_reqs(p.corequisites.clone());
                }
            }
            j = j + 1;
        }
        out.push(fc);
        i = i + 1;
    }
    out
}

// ---------------------------------------------------------------------------
// Laws
// ---------------------------------------------------------------------------
proof fn lemma_fold_self(c: Course, prev: Seq<Course>, ci: int, i: int)
    requires
        0 <= ci < prev.len(),
        0 <= i <= prev.len(),
        course_eq(prev[ci], c),
        forall|j: int| 0 <= j < prev.len() && j != ci ==> !merge_match(c, prev[j]),
    ensures
        merge_fold(c, prev, i) == (c.description@, c.notes@, c.prerequisites@, c.corequisites@),
    decreases i,
{
    if i > 0 {
        lemma_fold_self(c, prev, ci, i - 1);
    }
}

/// Merge idempotence: merging a snapshot with itself changes nothing, as long
/// as no two distinct courses in it share a title or an identifier (when two
/// do, the longer-field policy copies between them even in a self-merge).
pub proof fn lemma_merge_idempotent(s: Seq<Course>, r: Seq<Course>)
    requires
        forall|i: int, j: int|
            0 <= i < s.len() && 0 <= j < s.len() && i != j ==> s[i].title@ != s[j].title@ && s[
                i
            ].identifier@ != s[j].identifier@,
        r.len() == s.len(),
        forall|i: int| 0 <= i < s.len() ==> merged_course_ok(s[i], s, #[trigger] r[i]),
    ensures
        forall|i: int| 0 <= i < s.len() ==> course_eq(s[i], #[trigger] r[i]),
{
    assert forall|i: int| 0 <= i < s.len() implies course_eq(s[i], #[trigger] r[i]) by {
        let c = s[i];
        assert(course_eq(s[i], c));
        assert forall|j: int| 0 <= j < s.len() && j != i implies !merge_match(c, s[j]) by {}
        lemma_fold_self(c, s, i, s.len() as int);
    }
}

proof fn lemma_fold_desc(c: Course, prev: Seq<Course>, pi: int, i: int)
    requires
        0 <= pi < prev.len(),
        0 <= i <= prev.len(),
        merge_match(c, prev[pi]),
        forall|j: int| 0 <= j < prev.len() && j != pi ==> !merge_match(c, prev[j]),
        c.description@.len() == 0,
        prev[pi].description@.len() > 0,
    ensures
        i <= pi ==> merge_fold(c, prev, i).0 == c.description@,
        i > pi ==> merge_fold(c, prev, i).0 == prev[pi].description@,
    decreases i,
{
    if i > 0 {
        lemma_fold_desc(c, prev, pi, i - 1);
    }
}

/// Merge monotonicity: when the only previous course matching a current one
/// has a non-empty description and the current description is empty, the
/// merged description is the previous one — no regression to emptiness.
pub proof fn lemma_merge_no_regression(c: Course, prev: Seq<Course>, out: Course, pi: int)
    requires
        merged_course_ok(c, prev, out),
        0 <= pi < prev.len(),
        merge_match(c, prev[pi]),
        forall|j: int| 0 <= j < prev.len() && j != pi ==> !merge_match(c, prev[j]),
        c.description@.len() == 0,
        prev[pi].description@.len() > 0,
    ensures
        out.description@ == prev[pi].description@,
{
    lemma_fold_desc(c, prev, pi, prev.len() as int);
}

} // verus!
