//! Extraction of prerequisite, corequisite and fee annotations embedded in
//! free-text descriptions.

use vstd::prelude::*;
use crate::strutil::{
    match_at, seq_contains, find_from, contains_sub, sub_vec, trim_chars,
    trim_spec, replace_all, replace_all_spec, collapse_spaces, collapse_spaces_spec, chars_of,
    string_of, parse_u64, all_digits, digits_val,
};
use crate::model::{CourseDescription, desc_eq, desc_dup};

verus! {

// ---------------------------------------------------------------------------
// First occurrence of a needle
// ---------------------------------------------------------------------------
/// Index of the first occurrence of `n` in `h`, or -1.
pub open spec fn index_of_seq(h: Seq<char>, n: Seq<char>) -> int
    decreases h.len(),
{
    if match_at(h, n, 0) {
        0
    } else if h.len() == 0 {
        -1
    } else {
        let r = index_of_seq(h.skip(1), n);
        if r < 0 {
            -1
        } else {
            r + 1
        }
    }
}

pub proof fn lemma_index_of_seq(h: Seq<char>, n: Seq<char>)
    ensures
        index_of_seq(h, n) < 0 ==> forall|j: int| !match_at(h, n, j),
        index_of_seq(h, n) >= 0 ==> match_at(h, n, index_of_seq(h, n)) && (forall|j: int|
            0 <= j < index_of_seq(h, n) ==> !match_at(h, n, j)),
    decreases h.len(),
{
    if match_at(h, n, 0) {
    } else if h.len() == 0 {
        assert forall|j: int| !match_at(h, n, j) by {
            if match_at(h, n, j) {
                assert(j == 0);
            }
        }
    } else {
        lemma_index_of_seq(h.skip(1), n);
        let r = index_of_seq(h.skip(1), n);
        assert forall|j: int| 1 <= j implies match_at(h, n, j) == match_at(h.skip(1), n, j - 1) by {
            if 0 <= j - 1 && j - 1 + n.len() <= h.skip(1).len() {
                assert(h.subrange(j, j + n.len() as int) =~= h.skip(1).subrange(
                    j - 1,
                    j - 1 + n.len() as int,
                ));
            }
        }
        if r >= 0 {
            assert(match_at(h, n, r + 1));
        } else {
            assert forall|j: int| !match_at(h, n, j) by {
                if match_at(h, n, j) {
                    if j >= 1 {
                        assert(match_at(h.skip(1), n, j - 1));
                    }
                }
            }
        }
    }
}

/// First occurrence of `n` in `h` as the spec `index_of_seq` counts it.
pub fn index_of_sub(h: &Vec<char>, n: &Vec<char>) -> (r: Option<usize>)
    ensures
        (match r {
            Some(i) => index_of_seq(h@, n@) == i as int && match_at(h@, n@, i as int),
            None => index_of_seq(h@, n@) < 0,
        }),
{
    proof {
        lemma_index_of_seq(h@, n@);
    }
    match find_from(h, n, 0) {
        Some(i) => Some(i),
        None => None,
    }
}

// ---------------------------------------------------------------------------
// between / between_multiple
// ---------------------------------------------------------------------------
/// The text after the first occurrence of `start`, cut at the next occurrence
/// of `end` (or the end of the text), trimmed.  Meaningful when `start`
/// occurs.
pub open spec fn between_spec(src: Seq<char>, start: Seq<char>, end: Seq<char>) -> Seq<char> {
    let i = index_of_seq(src, start);
    let tail = src.skip(i + start.len());
    let j = index_of_seq(tail, end);
    if j < 0 {
        trim_spec(tail)
    } else {
        trim_spec(tail.take(j))
    }
}

fn between_chars(src: &Vec<char>, start: &Vec<char>, end: &Vec<char>) -> (r: Vec<char>)
    requires
        seq_contains(src@, start@),
    ensures
        r@ == between_spec(src@, start@, end@),
{
    proof {
        lemma_index_of_seq(src@, start@);
    }
    let i = match index_of_sub(src, start) {
        Some(i) => i,
        None => {
            proof {
                assert(false);
            }
            0
        },
    };
    let sl = src.len();
    let tail = sub_vec(src, i + start.len(), sl);
    proof {
        assert(tail@ =~= src@.skip(i + start@.len()));
    }
    match index_of_sub(&tail, end) {
        Some(j) => {
            let piece = sub_vec(&tail, 0, j);
            proof {
                assert(piece@ =~= tail@.take(j as int));
            }
            trim_chars(&piece)
        },
        None => trim_chars(&tail),
    }
}

/// The text between the first occurrence of `start` and the next occurrence
/// of `end`, trimmed.
pub fn between(source: &str, start: &str, end: &str) -> (r: String)
    requires
        seq_contains(source@, start@),
    ensures
        r@ == between_spec(source@, start@, end@),
{
    let sv = chars_of(source);
    let st = chars_of(start);
    let en = chars_of(end);
    let out = between_chars(&sv, &st, &en);
    string_of(&out)
}

/// The cut position for `between_multiple`: the earliest first occurrence of
/// any of the end markers, or the end of the text.
pub open spec fn min_end_pos(tail: Seq<char>, ends: Seq<Seq<char>>) -> int
    decreases ends.len(),
{
    if ends.len() == 0 {
        tail.len() as int
    } else {
        let prev = min_end_pos(tail, ends.drop_last());
        let i = index_of_seq(tail, ends.last());
        let ii = if i < 0 {
            tail.len() as int
        } else {
            i
        };
        if ii < prev {
            ii
        } else {
            prev
        }
    }
}

pub proof fn lemma_min_end_pos_range(tail: Seq<char>, ends: Seq<Seq<char>>)
    ensures
        0 <= min_end_pos(tail, ends) <= tail.len(),
    decreases ends.len(),
{
    if ends.len() > 0 {
        lemma_min_end_pos_range(tail, ends.drop_last());
        lemma_index_of_seq(tail, ends.last());
    }
}

/// The text after the first occurrence of `start`, cut at the earliest of the
/// end markers, trimmed.  Meaningful when `start` occurs.
pub open spec fn between_multiple_spec(
    src: Seq<char>,
    start: Seq<char>,
    ends: Seq<Seq<char>>,
) -> Seq<char> {
    let i = index_of_seq(src, start);
    let tail = src.skip(i + start.len());
    trim_spec(tail.take(min_end_pos(tail, ends)))
}

/// The text after the first occurrence of `start`, cut at the earliest of the
/// `end` markers, trimmed.
pub fn between_multiple(source: &str, start: &str, end: Vec<&str>) -> (r: String)
    requires
        seq_contains(source@, start@),
    ensures
        r@ == between_multiple_spec(source@, start@, end.deep_view()),
{
    let sv = chars_of(source);
    let st = chars_of(start);
    proof {
        lemma_index_of_seq(sv@, st@);
    }
    let i = match index_of_sub(&sv, &st) {
        Some(i) => i,
        None => {
            proof {
                assert(false);
            }
            0
        },
    };
    let svl = sv.len();
    let tail = sub_vec(&sv, i + st.len(), svl);
    proof {
        assert(tail@ =~= sv@.skip(i + st@.len()));
    }
    let tlen = tail.len();
    let mut end_pos: usize = tlen;
    let mut k: usize = 0;
    proof {
        assert(end.deep_view().take(0) =~~= Seq::<Seq<char>>::empty());
    }
    while k < end.len()
        invariant
            tlen == tail@.len(),
            k <= end@.len(),
            end.deep_view().len() == end@.len(),
            end_pos as int == min_end_pos(tail@, end.deep_view().take(k as int)),
            end_pos <= tlen,
        decreases end@.len() - k,
    {
        let ghost pre = end.deep_view().take(k as int);
        proof {
            assert(end.deep_view().take(k + 1).drop_last() =~~= pre);
            assert(end.deep_view().take(k + 1).last() == end@[k as int]@);
        }
        let ev = chars_of(end[k]);
        let cand: usize = match index_of_sub(&tail, &ev) {
            Some(j) => {
                proof {
                    assert(j + ev@.len() <= tail@.len());
                }
                j
            },
            None => tlen,
        };
        if cand < end_pos {
            end_pos = cand;
        }
        k = k + 1;
    }
    proof {
        assert(end.deep_view().take(end@.len() as int) =~~= end.deep_view());
    }
    let piece = sub_vec(&tail, 0, end_pos);
    proof {
        assert(piece@ =~= tail@.take(end_pos as int));
    }
    let out = trim_chars(&piece);
    string_of(&out)
}

// ---------------------------------------------------------------------------
// process_req
// ---------------------------------------------------------------------------
/// `str::replace`, which leaves the text alone when the pattern is empty and
/// the replacement is empty.
pub open spec fn erase_all(h: Seq<char>, n: Seq<char>) -> Seq<char> {
    if n.len() == 0 {
        h
    } else {
        replace_all_spec(h, n, Seq::<char>::empty())
    }
}

fn erase_all_chars(h: &Vec<char>, n: &Vec<char>) -> (out: Vec<char>)
    ensures
        out@ == erase_all(h@, n@),
{
    if n.len() == 0 {
        let out = sub_vec(h, 0, h.len());
        proof {
            assert(out@ =~= h@);
        }
        out
    } else {
        let empty: Vec<char> = Vec::new();
        replace_all(h, n, &empty)
    }
}

/// What `process_req` computes from a text and a label found in it: the text
/// with the label's sentence cut out (doubled and spaced periods collapsed,
/// then trimmed), and the cut sentence with the label and colons stripped.
pub open spec fn process_req_spec(text: Seq<char>, label: Seq<char>) -> (Seq<char>, Seq<char>) {
    let req0 = between_spec(text, label, seq!['.']);
    let source = trim_spec(
        replace_all_spec(
            replace_all_spec(
                erase_all(erase_all(text, label), req0),
                seq!['.', '.'],
                seq!['.'],
            ),
            seq!['.', ' ', '.'],
            seq!['.'],
        ),
    );
    let req = trim_spec(erase_all(erase_all(req0, seq!['s', ':']), seq![':']));
    (source, req)
}

/// Cut the sentence that starts at `string` out of `text_source`: the first
/// result is the remaining text, the second the cut requisite text.
pub fn process_req(text_source: String, string: String) -> (r: (String, String))
    requires
        seq_contains(text_source@, string@),
    ensures
        r.0@ == process_req_spec(text_source@, string@).0,
        r.1@ == process_req_spec(text_source@, string@).1,
{
    let tv = chars_of(text_source.as_str());
    let lv = chars_of(string.as_str());
    let mut dot: Vec<char> = Vec::new();
    dot.push('.');
    assert(dot@ =~= seq!['.']);
    let req0 = between_chars(&tv, &lv, &dot);
    let mut dots: Vec<char> = Vec::new();
    dots.push('.');
    dots.push('.');
    assert(dots@ =~= seq!['.', '.']);
    let mut dot_sp_dot: Vec<char> = Vec::new();
    dot_sp_dot.push('.');
    dot_sp_dot.push(' ');
    dot_sp_dot.push('.');
    assert(dot_sp_dot@ =~= seq!['.', ' ', '.']);
    let s1 = erase_all_chars(&tv, &lv);
    let s2 = erase_all_chars(&s1, &req0);
    let s3 = replace_all(&s2, &dots, &dot);
    let s4 = replace_all(&s3, &dot_sp_dot, &dot);
    let source = trim_chars(&s4);
    let mut s_colon: Vec<char> = Vec::new();
    s_colon.push('s');
    s_colon.push(':');
    assert(s_colon@ =~= seq!['s', ':']);
    let mut colon: Vec<char> = Vec::new();
    colon.push(':');
    assert(colon@ =~= seq![':']);
    let r1 = erase_all_chars(&req0, &s_colon);
    let r2 = erase_all_chars(&r1, &colon);
    let req = trim_chars(&r2);
    (string_of(&source), string_of(&req))
}

// ---------------------------------------------------------------------------
// find_reqs / find_fees over catalog entries
// ---------------------------------------------------------------------------
/// The prerequisite label found in a text, the long form first.
pub open spec fn pre_label(desc: Seq<char>) -> Option<Seq<char>> {
    if seq_contains(desc, "Prerequisite"@) {
        Some("Prerequisite"@)
    } else if seq_contains(desc, "Prereq"@) {
        Some("Prereq"@)
    } else {
        None
    }
}

/// The corequisite label found in a text, the long form first.
pub open spec fn co_label(desc: Seq<char>) -> Option<Seq<char>> {
    if seq_contains(desc, "Corequisite"@) {
        Some("Corequisite"@)
    } else if seq_contains(desc, "Coreq"@) {
        Some("Coreq"@)
    } else {
        None
    }
}

/// How one pass of `find_reqs` rewrites a catalog entry: a prerequisite
/// sentence moves from the description to the prerequisites field, then a
/// corequisite sentence moves likewise, and the description's whitespace is
/// collapsed.  All other fields stay.
pub open spec fn reqs_pass(o: CourseDescription, n: CourseDescription) -> bool {
    let s1 = match pre_label(o.description@) {
        Some(l) => {
            let r = process_req_spec(o.description@, l);
            (r.0, collapse_spaces_spec(r.1))
        },
        None => (o.description@, o.prerequisites@),
    };
    let s2 = match co_label(s1.0) {
        Some(l) => {
            let r = process_req_spec(s1.0, l);
            (r.0, collapse_spaces_spec(r.1))
        },
        None => (s1.0, o.corequisites@),
    };
    &&& n.description@ == collapse_spaces_spec(s2.0)
    &&& n.prerequisites@ == s1.1
    &&& n.corequisites@ == s2.1
    &&& n.title@ == o.title@
    &&& n.identifier@ == o.identifier@
    &&& n.source == o.source
    &&& n.credits == o.credits
    &&& n.instructors.deep_view() == o.instructors.deep_view()
    &&& n.offered@ == o.offered@
    &&& n.currently_offered == o.currently_offered
    &&& n.fee == o.fee
}

/// Rewrite one catalog entry as `reqs_pass` describes.
fn find_reqs_one(d: &CourseDescription) -> (n: CourseDescription)
    ensures
        reqs_pass(*d, n),
{
    let mut n = desc_dup(d);
    let dv = chars_of(n.description.as_str());
    let pre_long = chars_of("Prerequisite");
    let pre_short = chars_of("Prereq");
    if contains_sub(&dv, &pre_long) {
        let r = process_req(n.description.clone(), String::from_str("Prerequisite"));
        n.description = r.0;
        let rv = chars_of(r.1.as_str());
        n.prerequisites = string_of(&collapse_spaces(&rv));
    } else if contains_sub(&dv, &pre_short) {
        let r = process_req(n.description.clone(), String::from_str("Prereq"));
        n.description = r.0;
        let rv = chars_of(r.1.as_str());
        n.prerequisites = string_of(&collapse_spaces(&rv));
    }
    let dv2 = chars_of(n.description.as_str());
    let co_long = chars_of("Corequisite");
    let co_short = chars_of("Coreq");
    if contains_sub(&dv2, &co_long) {
        let r = process_req(n.description.clone(), String::from_str("Corequisite"));
        n.description = r.0;
        let rv = chars_of(r.1.as_str());
        n.corequisites = string_of(&collapse_spaces(&rv));
    } else if contains_sub(&dv2, &co_short) {
        let r = process_req(n.description.clone(), String::from_str("Coreq"));
        n.description = r.0;
        let rv = chars_of(r.1.as_str());
        n.corequisites = string_of(&collapse_spaces(&rv));
    }
    let dv3 = chars_of(n.description.as_str());
    n.description = string_of(&collapse_spaces(&dv3));
    n
}

/// Move prerequisite and corequisite sentences out of every entry's
/// description into the structured fields; returns a copy of the updated
/// entries, as the callers chain it.
pub fn find_reqs(descs: &mut Vec<CourseDescription>) -> (r: Vec<CourseDescription>)
    ensures
        final(descs)@.len() == old(descs)@.len(),
        forall|i: int| 0 <= i < old(descs)@.len() ==> reqs_pass(old(descs)@[i], final(descs)@[i]),
        r@.len() == final(descs)@.len(),
        forall|i: int| 0 <= i < r@.len() ==> desc_eq(final(descs)@[i], r@[i]),
{
    let mut i: usize = 0;
    while i < descs.len()
        invariant
            descs@.len() == old(descs)@.len(),
            i <= descs@.len(),
            forall|k: int| 0 <= k < i ==> reqs_pass(old(descs)@[k], descs@[k]),
            forall|k: int| i <= k < descs@.len() ==> descs@[k] == old(descs)@[k],
        decreases descs@.len() - i,
    {
        let n = find_reqs_one(&descs[i]);
        descs.set(i, n);
        i = i + 1;
    }
    let mut r: Vec<CourseDescription> = Vec::new();
    let mut j: usize = 0;
    while j < descs.len()
        invariant
            descs@.len() == old(descs)@.len(),
            forall|k: int| 0 <= k < descs@.len() ==> reqs_pass(old(descs)@[k], descs@[k]),
            j <= descs@.len(),
            r@.len() == j,
            forall|k: int| 0 <= k < j ==> desc_eq(descs@[k], #[trigger] r@[k]),
        decreases descs@.len() - j,
    {
        r.push(desc_dup(&descs[j]));
        j = j + 1;
    }
    r
}

/// The fee that `find_fees` leaves on an entry: the digits after the first
/// `$`, when they parse as a number; the old fee otherwise.
pub open spec fn fee_after_pass(o: CourseDescription) -> u64 {
    if seq_contains(o.description@, seq!['$']) {
        let f = between_multiple_spec(
            o.description@,
            seq!['$'],
            seq![seq![' '], seq!['.'], seq![',']],
        );
        if f.len() > 0 && all_digits(f) && digits_val(f) <= u64::MAX {
            digits_val(f) as u64
        } else {
            o.fee
        }
    } else {
        o.fee
    }
}

/// How `find_fees` rewrites one entry: only the fee may change.
pub open spec fn fees_pass(o: CourseDescription, n: CourseDescription) -> bool {
    &&& n.fee == fee_after_pass(o)
    &&& n.description@ == o.description@
    &&& n.prerequisites@ == o.prerequisites@
    &&& n.corequisites@ == o.corequisites@
    &&& n.title@ == o.title@
    &&& n.identifier@ == o.identifier@
    &&& n.source == o.source
    &&& n.credits == o.credits
    &&& n.instructors.deep_view() == o.instructors.deep_view()
    &&& n.offered@ == o.offered@
    &&& n.currently_offered == o.currently_offered
}

fn find_fees_one(d: &CourseDescription) -> (n: CourseDescription)
    ensures
        fees_pass(*d, n),
{
    let mut n = desc_dup(d);
    let dv = chars_of(n.description.as_str());
    let mut dollar: Vec<char> = Vec::new();
    dollar.push('$');
    assert(dollar@ =~= seq!['$']);
    if contains_sub(&dv, &dollar) {
        let mut ends: Vec<&str> = Vec::new();
        ends.push(" ");
        ends.push(".");
        ends.push(",");
        proof {
            assert(ends.deep_view() =~~= seq![" "@, "."@, ","@]);
            reveal_strlit(" ");
            reveal_strlit(".");
            reveal_strlit(",");
            assert(" "@ =~= seq![' ']);
            assert("."@ =~= seq!['.']);
            assert(","@ =~= seq![',']);
            assert(ends.deep_view() =~~= seq![seq![' '], seq!['.'], seq![',']]);
        }
        proof {
            reveal_strlit("$");
            assert("$"@ =~= seq!['$']);
        }
        let fee_text = between_multiple(n.description.as_str(), "$", ends);
        let fv = chars_of(fee_text.as_str());
        match parse_u64(&fv) {
            Some(x) => {
                n.fee = x;
            },
            None => {},
        }
    }
    n
}

/// Pull a `$<digits>` amount out of every entry's description into its fee
/// field; returns a copy of the updated entries, as the callers chain it.
pub fn find_fees(descs: &mut Vec<CourseDescription>) -> (r: Vec<CourseDescription>)
    ensures
        final(descs)@.len() == old(descs)@.len(),
        forall|i: int| 0 <= i < old(descs)@.len() ==> fees_pass(old(descs)@[i], final(descs)@[i]),
        r@.len() == final(descs)@.len(),
        forall|i: int| 0 <= i < r@.len() ==> desc_eq(final(descs)@[i], r@[i]),
{
    let mut i: usize = 0;
    while i < descs.len()
        invariant
            descs@.len() == old(descs)@.len(),
            i <= descs@.len(),
            forall|k: int| 0 <= k < i ==> fees_pass(old(descs)@[k], descs@[k]),
            forall|k: int| i <= k < descs@.len() ==> descs@[k] == old(descs)@[k],
        decreases descs@.len() - i,
    {
        let n = find_fees_one(&descs[i]);
        descs.set(i, n);
        i = i + 1;
    }
    let mut r: Vec<CourseDescription> = Vec::new();
    let mut j: usize = 0;
    while j < descs.len()
        invariant
            descs@.len() == old(descs)@.len(),
            forall|k: int| 0 <= k < descs@.len() ==> fees_pass(old(descs)@[k], descs@[k]),
            j <= descs@.len(),
            r@.len() == j,
            forall|k: int| 0 <= k < j ==> desc_eq(descs@[k], #[trigger] r@[k]),
        decreases descs@.len() - j,
    {
        r.push(desc_dup(&descs[j]));
        j = j + 1;
    }
    r
}

} // verus!
