//! The reconciliation engine: attaches at most one catalog entry to each
//! schedule record through a matching cascade, and carries catalog data onto
//! the merged courses.

use vstd::prelude::*;
use crate::strutil::{
    seq_contains, contains_sub, chars_of, string_of, replace_all, replace_all_spec, trim_chars,
    trim_spec, sub_vec, format_reqs_spec, str_eq,
};
use crate::ident::{index_of_char, lemma_index_of_char};
use crate::model::{Course, CourseDescription, School, desc_eq, desc_dup, course_dup, timing_eq};
use crate::fuzzy::{fuzzy_best, fuzzy_best_match, lower_of, lowercase};
use crate::extract::{pre_label, process_req_spec, process_req};

verus! {

// ---------------------------------------------------------------------------
// The school pool
// ---------------------------------------------------------------------------
/// A catalog entry competes for a schedule record only when it comes from the
/// record's school — taken from its first timing's location — or from no
/// known school.
pub open spec fn in_pool(c: Course, d: CourseDescription) -> bool {
    (c.timing@.len() > 0 && d.source == c.timing@[0].location.school) || d.source == School::NA
}

/// The pool membership test for one schedule record.
pub open spec fn pool_pred(c: Course) -> spec_fn(CourseDescription) -> bool {
    |d: CourseDescription| in_pool(c, d)
}

/// The school-filtered candidate pool, in catalog order.
pub open spec fn pool_of(c: Course, descs: Seq<CourseDescription>) -> Seq<CourseDescription> {
    descs.filter(pool_pred(c))
}

/// An exact folded-title match for one schedule record.
pub open spec fn exact_pred(c: Course) -> spec_fn(CourseDescription) -> bool {
    |d: CourseDescription| cat_title_key(d.title@) == sched_title_key(c.title@)
}

/// An identifier-containment match for one schedule record.
pub open spec fn id_pred(c: Course) -> spec_fn(CourseDescription) -> bool {
    |d: CourseDescription| seq_contains(c.identifier@, d.identifier@)
}

/// A catalog entry carrying exactly the given title.
pub open spec fn title_pred(t: Seq<char>) -> spec_fn(CourseDescription) -> bool {
    |d: CourseDescription| d.title@ == t
}

/// Indices into `descs` of the pool entries, in order.
fn build_pool(c: &Course, descs: &Vec<CourseDescription>) -> (idx: Vec<usize>)
    ensures
        idx@.len() == pool_of(*c, descs@).len(),
        forall|k: int|
            0 <= k < idx@.len() ==> #[trigger] idx@[k] < descs@.len() && descs@[idx@[k] as int]
                == pool_of(*c, descs@)[k],
{
    let ghost p = pool_pred(*c);
    let mut idx: Vec<usize> = Vec::new();
    let mut i: usize = 0;
    proof {
        reveal_with_fuel(Seq::filter, 2);
        assert(descs@.take(0) =~= Seq::<CourseDescription>::empty());
    }
    while i < descs.len()
        invariant
            i <= descs@.len(),
            idx@.len() == descs@.take(i as int).filter(pool_pred(*c)).len(),
            forall|k: int|
                0 <= k < idx@.len() ==> #[trigger] idx@[k] < i && descs@[idx@[k] as int]
                    == descs@.take(i as int).filter(pool_pred(*c))[k],
        decreases descs@.len() - i,
    {
        proof {
            reveal_with_fuel(Seq::filter, 2);
            assert(descs@.take(i + 1).drop_last() =~= descs@.take(i as int));
            assert(descs@.take(i + 1).last() == descs@[i as int]);
        }
        let d = &descs[i];
        let school_match = match c.get_school() {
            Some(s) => d.source == s,
            None => false,
        };
        if school_match || d.source == School::NA {
            idx.push(i);
        }
        i = i + 1;
    }
    proof {
        assert(descs@.take(descs@.len() as int) =~= descs@);
    }
    idx
}

// ---------------------------------------------------------------------------
// Title keys
// ---------------------------------------------------------------------------
/// A catalog title folded for exact matching: case-folded, `&` spelled `and`.
pub open spec fn cat_title_key(t: Seq<char>) -> Seq<char> {
    replace_all_spec(lower_of(t), seq!['&'], seq!['a', 'n', 'd'])
}

/// A schedule title folded for exact matching: case-folded, `&` spelled
/// `and`, and when the title holds `" - "` only the part between the first
/// and second dash, trimmed.
pub open spec fn sched_title_key(t: Seq<char>) -> Seq<char> {
    let base = cat_title_key(t);
    if seq_contains(base, seq![' ', '-', ' ']) {
        let p1 = index_of_char(base, '-');
        let rest = base.skip(p1 + 1);
        let q = index_of_char(rest, '-');
        if q >= 0 {
            trim_spec(rest.take(q))
        } else {
            trim_spec(rest)
        }
    } else {
        base
    }
}

fn cat_key_chars(title: &str) -> (k: Vec<char>)
    ensures
        k@ == cat_title_key(title@),
{
    let low = lowercase(title);
    let lv = chars_of(low.as_str());
    let mut amp: Vec<char> = Vec::new();
    amp.push('&');
    assert(amp@ =~= seq!['&']);
    let mut and: Vec<char> = Vec::new();
    and.push('a');
    and.push('n');
    and.push('d');
    assert(and@ =~= seq!['a', 'n', 'd']);
    replace_all(&lv, &amp, &and)
}

fn find_char_at(v: &Vec<char>, c: char) -> (r: Option<usize>)
    ensures
        (match r {
            Some(i) => index_of_char(v@, c) == i as int && i < v@.len() && v@[i as int] == c,
            None => index_of_char(v@, c) < 0,
        }),
{
    proof {
        lemma_index_of_char(v@, c);
    }
    let mut i: usize = 0;
    while i < v.len()
        invariant
            i <= v@.len(),
            forall|j: int| 0 <= j < i ==> v@[j] != c,
        decreases v@.len() - i,
    {
        if v[i] == c {
            proof {
                lemma_index_of_char(v@, c);
            }
            return Some(i);
        }
        i = i + 1;
    }
    None
}

fn sched_key_chars(title: &str) -> (k: Vec<char>)
    ensures
        k@ == sched_title_key(title@),
{
    let base = cat_key_chars(title);
    let mut sep: Vec<char> = Vec::new();
    sep.push(' ');
    sep.push('-');
    sep.push(' ');
    assert(sep@ =~= seq![' ', '-', ' ']);
    if contains_sub(&base, &sep) {
        proof {
            let w = sep@;
            let i = choose|i: int| 0 <= i && crate::strutil::match_at(base@, w, i);
            assert(base@.subrange(i, i + 3)[1] == base@[i + 1]);
            assert(base@[i + 1] == '-');
            lemma_index_of_char(base@, '-');
        }
        let p1 = match find_char_at(&base, '-') {
            Some(p) => p,
            None => {
                proof {
                    assert(false);
                }
                0
            },
        };
        let bl = base.len();
        let rest = sub_vec(&base, p1 + 1, bl);
        proof {
            assert(rest@ =~= base@.skip(p1 + 1));
        }
        match find_char_at(&rest, '-') {
            Some(q) => {
                let tok = sub_vec(&rest, 0, q);
                proof {
                    assert(tok@ =~= rest@.take(q as int));
                }
                trim_chars(&tok)
            },
            None => trim_chars(&rest),
        }
    } else {
        base
    }
}

/// Whether two character vectors hold the same characters.
fn chars_eq(a: &Vec<char>, b: &Vec<char>) -> (r: bool)
    ensures
        r == (a@ == b@),
{
    if a.len() != b.len() {
        proof {
            assert(a@ != b@);
        }
        return false;
    }
    let mut i: usize = 0;
    while i < a.len()
        invariant
            a@.len() == b@.len(),
            i <= a@.len(),
            forall|k: int| 0 <= k < i ==> a@[k] == b@[k],
        decreases a@.len() - i,
    {
        if a[i] != b[i] {
            return false;
        }
        i = i + 1;
    }
    proof {
        assert(a@ =~= b@);
    }
    true
}

// ---------------------------------------------------------------------------
// First index satisfying a predicate
// ---------------------------------------------------------------------------
/// Index of the first entry satisfying `p`, or -1.
pub open spec fn first_idx(s: Seq<CourseDescription>, p: spec_fn(CourseDescription) -> bool) -> int
    decreases s.len(),
{
    if s.len() == 0 {
        -1
    } else if p(s[0]) {
        0
    } else {
        let r = first_idx(s.skip(1), p);
        if r < 0 {
            -1
        } else {
            r + 1
        }
    }
}

pub proof fn lemma_first_idx(s: Seq<CourseDescription>, p: spec_fn(CourseDescription) -> bool)
    ensures
        first_idx(s, p) < 0 ==> forall|j: int| 0 <= j < s.len() ==> !p(s[j]),
        first_idx(s, p) >= 0 ==> {
            &&& first_idx(s, p) < s.len()
            &&& p(s[first_idx(s, p)])
            &&& forall|j: int| 0 <= j < first_idx(s, p) ==> !p(s[j])
        },
    decreases s.len(),
{
    if s.len() > 0 && !p(s[0]) {
        lemma_first_idx(s.skip(1), p);
        let r = first_idx(s.skip(1), p);
        if r >= 0 {
            assert(s[r + 1] == s.skip(1)[r]);
            assert(forall|j: int| 1 <= j < r + 1 ==> s[j] == s.skip(1)[j - 1]);
        } else {
            assert(forall|j: int| 1 <= j < s.len() ==> s[j] == s.skip(1)[j - 1]);
        }
    }
}

// ---------------------------------------------------------------------------
// The cascade
// ---------------------------------------------------------------------------
/// The titles of a list of catalog entries, in order.
pub open spec fn titles_of(s: Seq<CourseDescription>) -> Seq<Seq<char>> {
    s.map_values(|d: CourseDescription| d.title@)
}

/// The identifier-containment subset of the pool: entries whose section-less
/// identifier is a substring of the record's full identifier key.
pub open spec fn id_matches_of(c: Course, pool: Seq<CourseDescription>) -> Seq<CourseDescription> {
    pool.filter(id_pred(c))
}

/// Which pool entry the cascade selects for a schedule record, if any:
/// first the single folded-title exact match, then the single
/// identifier-containment match, and last the best fuzzy title — scored
/// against the containment subset when it is ambiguous, against the whole
/// pool otherwise.
pub open spec fn cascade_spec(c: Course, descs: Seq<CourseDescription>) -> Option<int> {
    let pool = pool_of(c, descs);
    let key = sched_title_key(c.title@);
    let e = first_idx(pool, exact_pred(c));
    if e >= 0 {
        Some(e)
    } else {
        let ids = id_matches_of(c, pool);
        if ids.len() == 0 {
            match fuzzy_best(key, titles_of(pool)) {
                Some(t) => {
                    let f = first_idx(pool, title_pred(t));
                    if f >= 0 {
                        Some(f)
                    } else {
                        None
                    }
                },
                None => None,
            }
        } else if ids.len() == 1 {
            Some(first_idx(pool, id_pred(c)))
        } else {
            match fuzzy_best(key, titles_of(ids)) {
                Some(t) => {
                    let f = first_idx(pool, title_pred(t));
                    if f >= 0 {
                        Some(f)
                    } else {
                        None
                    }
                },
                None => match fuzzy_best(key, titles_of(pool)) {
                    Some(t) => {
                        let f = first_idx(pool, title_pred(t));
                        if f >= 0 {
                            Some(f)
                        } else {
                            None
                        }
                    },
                    None => None,
                },
            }
        }
    }
}

/// The titles of the best fuzzy matches for a title among the given entries:
/// one title, or none when the list is empty.
pub fn find_fuzzy_title(title: &str, search_list: &Vec<CourseDescription>) -> (r: Vec<String>)
    ensures
        (match fuzzy_best(title@, titles_of(search_list@)) {
            Some(t) => r@.len() == 1 && r@[0]@ == t,
            None => r@.len() == 0,
        }),
        r@.len() <= 1,
{
    let mut titles: Vec<String> = Vec::new();
    let mut i: usize = 0;
    while i < search_list.len()
        invariant
            i <= search_list@.len(),
            titles@.len() == i,
            forall|k: int| 0 <= k < i ==> titles@[k]@ == #[trigger] search_list@[k].title@,
        decreases search_list@.len() - i,
    {
        titles.push(search_list[i].title.clone());
        i = i + 1;
    }
    proof {
        assert(titles.deep_view() =~~= titles_of(search_list@));
    }
    let mut out: Vec<String> = Vec::new();
    match fuzzy_best_match(title, &titles) {
        Some(t) => {
            out.push(t);
        },
        None => {},
    }
    out
}

// exec helpers for the cascade, each tying one search to its spec index
fn find_exact_in_pool(
    descs: &Vec<CourseDescription>,
    pool_idx: &Vec<usize>,
    c: &Course,
    key: &Vec<char>,
) -> (r: Option<usize>)
    requires
        key@ == sched_title_key(c.title@),
        pool_idx@.len() == pool_of(*c, descs@).len(),
        forall|k: int|
            0 <= k < pool_idx@.len() ==> #[trigger] pool_idx@[k] < descs@.len()
                && descs@[pool_idx@[k] as int] == pool_of(*c, descs@)[k],
    ensures
        ({
            let pool = pool_of(*c, descs@);
            let e = first_idx(pool, exact_pred(*c));
            match r {
                Some(i) => e == i as int,
                None => e < 0,
            }
        }),
{
    let ghost pool = pool_of(*c, descs@);
    let mut k: usize = 0;
    while k < pool_idx.len()
        invariant
            key@ == sched_title_key(c.title@),
            pool_idx@.len() == pool.len(),
            pool == pool_of(*c, descs@),
            forall|m: int|
                0 <= m < pool_idx@.len() ==> #[trigger] pool_idx@[m] < descs@.len()
                    && descs@[pool_idx@[m] as int] == pool[m],
            k <= pool_idx@.len(),
            forall|m: int| 0 <= m < k ==> !(#[trigger] exact_pred(*c)(pool[m])),
        decreases pool_idx@.len() - k,
    {
        let d = &descs[pool_idx[k]];
        let dk = cat_key_chars(d.title.as_str());
        if chars_eq(&dk, key) {
            proof {
                assert(descs@[pool_idx@[k as int] as int] == pool[k as int]);
                assert(dk@ == cat_title_key(pool[k as int].title@));
                assert(exact_pred(*c)(pool[k as int]));
                lemma_first_idx(pool, exact_pred(*c));
            }
            return Some(k);
        }
        k = k + 1;
    }
    proof {
        lemma_first_idx(pool, exact_pred(*c));
    }
    None
}

fn find_title_in_pool(
    descs: &Vec<CourseDescription>,
    pool_idx: &Vec<usize>,
    c: &Course,
    t: &String,
) -> (r: Option<usize>)
    requires
        pool_idx@.len() == pool_of(*c, descs@).len(),
        forall|k: int|
            0 <= k < pool_idx@.len() ==> #[trigger] pool_idx@[k] < descs@.len()
                && descs@[pool_idx@[k] as int] == pool_of(*c, descs@)[k],
    ensures
        ({
            let pool = pool_of(*c, descs@);
            let f = first_idx(pool, title_pred(t@));
            match r {
                Some(i) => f == i as int,
                None => f < 0,
            }
        }),
{
    let ghost pool = pool_of(*c, descs@);
    let tv = chars_of(t.as_str());
    let mut k: usize = 0;
    while k < pool_idx.len()
        invariant
            tv@ == t@,
            pool_idx@.len() == pool.len(),
            pool == pool_of(*c, descs@),
            forall|m: int|
                0 <= m < pool_idx@.len() ==> #[trigger] pool_idx@[m] < descs@.len()
                    && descs@[pool_idx@[m] as int] == pool[m],
            k <= pool_idx@.len(),
            forall|m: int| 0 <= m < k ==> !(#[trigger] title_pred(t@)(pool[m])),
        decreases pool_idx@.len() - k,
    {
        let d = &descs[pool_idx[k]];
        let dv = chars_of(d.title.as_str());
        if chars_eq(&dv, &tv) {
            proof {
                assert(descs@[pool_idx@[k as int] as int] == pool[k as int]);
                assert(title_pred(t@)(pool[k as int]));
                lemma_first_idx(pool, title_pred(t@));
            }
            return Some(k);
        }
        k = k + 1;
    }
    proof {
        lemma_first_idx(pool, title_pred(t@));
    }
    None
}

/// Find the catalog entry for one schedule record through the matching
/// cascade; absence of a match is the expected steady state, not an error.
pub fn find_description(course: Course, course_descriptions: &Vec<CourseDescription>) -> (r:
    Option<CourseDescription>)
    ensures
        (match r {
            Some(d) => cascade_spec(course, course_descriptions@) matches Some(i) && desc_eq(
                pool_of(course, course_descriptions@)[i],
                d,
            ),
            None => cascade_spec(course, course_descriptions@) is None,
        }),
{
    let ghost pool = pool_of(course, course_descriptions@);
    let pool_idx = build_pool(&course, course_descriptions);
    let key = sched_key_chars(course.title.as_str());
    // 1. exact folded-title match
    match find_exact_in_pool(course_descriptions, &pool_idx, &course, &key) {
        Some(e) => {
            proof {
                lemma_first_idx(pool, exact_pred(course));
            }
            return Some(desc_dup(&course_descriptions[pool_idx[e]]));
        },
        None => {},
    }
    // 2. identifier containment

    let civ = chars_of(course.identifier.as_str());
    let mut ids_idx: Vec<usize> = Vec::new();  // indices into the pool
    let mut k: usize = 0;
    proof {
        reveal_with_fuel(Seq::filter, 2);
        assert(pool.take(0) =~= Seq::<CourseDescription>::empty());
    }
    while k < pool_idx.len()
        invariant
            civ@ == course.identifier@,
            pool_idx@.len() == pool.len(),
            pool == pool_of(course, course_descriptions@),
            forall|m: int|
                0 <= m < pool_idx@.len() ==> #[trigger] pool_idx@[m] < course_descriptions@.len()
                    && course_descriptions@[pool_idx@[m] as int] == pool[m],
            k <= pool_idx@.len(),
            ids_idx@.len() == pool.take(k as int).filter(id_pred(course)).len(),
            forall|m: int|
                0 <= m < ids_idx@.len() ==> #[trigger] ids_idx@[m] < k && pool[ids_idx@[m] as int]
                    == pool.take(k as int).filter(id_pred(course))[m],
            forall|m: int|
                0 <= m < ids_idx@.len() ==> id_pred(course)(pool[#[trigger] ids_idx@[m] as int]),
            forall|m: int|
                0 <= m < k && #[trigger] id_pred(course)(pool[m]) ==> exists|q: int|
                    0 <= q < ids_idx@.len() && ids_idx@[q] == m,
        decreases pool_idx@.len() - k,
    {
        proof {
            reveal_with_fuel(Seq::filter, 2);
            assert(pool.take(k + 1).drop_last() =~= pool.take(k as int));
            assert(pool.take(k + 1).last() == pool[k as int]);
        }
        let d = &course_descriptions[pool_idx[k]];
        let div = chars_of(d.identifier.as_str());
        let ghost old_ids = ids_idx@;
        let matched = contains_sub(&civ, &div);
        if matched {
            ids_idx.push(k);
        }
        proof {
            assert(course_descriptions@[pool_idx@[k as int] as int] == pool[k as int]);
            assert forall|m: int|
                0 <= m < k + 1 && #[trigger] id_pred(course)(pool[m]) implies exists|q: int|
                    0 <= q < ids_idx@.len() && ids_idx@[q] == m by {
                if m < k {
                    let q = choose|q: int| 0 <= q < old_ids.len() && old_ids[q] == m;
                    assert(ids_idx@[q] == m);
                } else {
                    assert(matched);
                    assert(ids_idx@[ids_idx@.len() - 1] == m);
                }
            }
        }
        k = k + 1;
    }
    proof {
        assert(pool.take(pool.len() as int) =~= pool);
    }
    let ghost ids = id_matches_of(course, pool);
    if ids_idx.len() == 0 {
        // 3a. fuzzy over the whole pool
        let mut pool_titles: Vec<String> = Vec::new();
        let mut m: usize = 0;
        while m < pool_idx.len()
            invariant
                pool_idx@.len() == pool.len(),
                pool == pool_of(course, course_descriptions@),
                forall|q: int|
                    0 <= q < pool_idx@.len() ==> #[trigger] pool_idx@[q]
                        < course_descriptions@.len() && course_descriptions@[pool_idx@[q] as int]
                        == pool[q],
                m <= pool_idx@.len(),
                pool_titles@.len() == m,
                forall|q: int| 0 <= q < m ==> pool_titles@[q]@ == #[trigger] pool[q].title@,
            decreases pool_idx@.len() - m,
        {
            pool_titles.push(course_descriptions[pool_idx[m]].title.clone());
            m = m + 1;
        }
        proof {
            assert(pool_titles.deep_view() =~~= titles_of(pool));
        }
        let keys = string_of(&key);
        match fuzzy_best_match(keys.as_str(), &pool_titles) {
            Some(t) => {
                match find_title_in_pool(course_descriptions, &pool_idx, &course, &t) {
                    Some(f) => {
                        proof {
                            lemma_first_idx(pool, title_pred(t@));
                        }
                        Some(desc_dup(&course_descriptions[pool_idx[f]]))
                    },
                    None => {
                        proof {
                            let j = choose|j: int|
                                0 <= j < pool_titles@.len() && #[trigger] pool_titles@[j]@ == t@;
                            lemma_first_idx(pool, title_pred(t@));
                        }
                        None
                    },
                }
            },
            None => None,
        }
    } else if ids_idx.len() == 1 {
        // 2b. the single containment match
        let ghost f = first_idx(pool, id_pred(course));
        proof {
            lemma_first_idx(pool, id_pred(course));
            assert(ids.len() == 1);
            assert(id_pred(course)(pool[ids_idx@[0] as int]));
            assert(f >= 0);
            // every position satisfying the predicate is recorded, and only one is
            assert(exists|q: int| 0 <= q < ids_idx@.len() && ids_idx@[q] == f);
            assert(f == ids_idx@[0] as int);
        }
        Some(desc_dup(&course_descriptions[pool_idx[ids_idx[0]]]))
    } else {
        // 3b. fuzzy over the containment subset, then over the pool
        let mut id_titles: Vec<String> = Vec::new();
        let mut m: usize = 0;
        while m < ids_idx.len()
            invariant
                pool_idx@.len() == pool.len(),
                pool == pool_of(course, course_descriptions@),
                forall|q: int|
                    0 <= q < pool_idx@.len() ==> #[trigger] pool_idx@[q]
                        < course_descriptions@.len() && course_descriptions@[pool_idx@[q] as int]
                        == pool[q],
                ids == id_matches_of(course, pool),
                ids_idx@.len() == ids.len(),
                forall|q: int|
                    0 <= q < ids_idx@.len() ==> #[trigger] ids_idx@[q] < pool.len()
                        && pool[ids_idx@[q] as int] == ids[q],
                m <= ids_idx@.len(),
                id_titles@.len() == m,
                forall|q: int| 0 <= q < m ==> id_titles@[q]@ == #[trigger] ids[q].title@,
            decreases ids_idx@.len() - m,
        {
            id_titles.push(course_descriptions[pool_idx[ids_idx[m]]].title.clone());
            m = m + 1;
        }
        proof {
            assert(id_titles.deep_view() =~~= titles_of(ids));
        }
        let keys = string_of(&key);
        match fuzzy_best_match(keys.as_str(), &id_titles) {
            Some(t) => {
                match find_title_in_pool(course_descriptions, &pool_idx, &course, &t) {
                    Some(f) => {
                        proof {
                            lemma_first_idx(pool, title_pred(t@));
                        }
                        Some(desc_dup(&course_descriptions[pool_idx[f]]))
                    },
                    None => {
                        proof {
                            let j = choose|j: int|
                                0 <= j < id_titles@.len() && #[trigger] id_titles@[j]@ == t@;
                            assert(ids[j].title@ == t@);
                            let q = ids_idx@[j] as int;
                            assert(pool[q].title@ == t@);
                            assert(title_pred(t@)(pool[q]));
                            lemma_first_idx(pool, title_pred(t@));
                        }
                        None
                    },
                }
            },
            None => {
                proof {
                    assert(ids.len() > 0);
                    assert(titles_of(ids).len() > 0);
                    assert(false);
                }
                None
            },
        }
    }
}

// ---------------------------------------------------------------------------
// Carrying catalog data onto courses
// ---------------------------------------------------------------------------
/// The school a schedule record sits at, by its first timing's location.
pub open spec fn school_of(c: Course) -> School {
    if c.timing@.len() > 0 {
        c.timing@[0].location.school
    } else {
        School::NA
    }
}

/// Doubled periods collapsed, as the notes setter stores notes.
pub open spec fn dotless(s: Seq<char>) -> Seq<char> {
    replace_all_spec(s, seq!['.', '.'], seq!['.'])
}

/// The corequisite label the notes pass looks for, longest forms first.
pub open spec fn notes_co_label(s: Seq<char>) -> Option<Seq<char>> {
    if seq_contains(s, "Corequisite"@) {
        Some("Corequisite"@)
    } else if seq_contains(s, "Coreq"@) {
        Some("Coreq"@)
    } else if seq_contains(s, "Co-requisite"@) {
        Some("Co-requisite"@)
    } else if seq_contains(s, "Co-req"@) {
        Some("Co-req"@)
    } else {
        None
    }
}

/// The fields of `out` that reconciliation never touches hold `c`'s data.
pub open spec fn reconcile_same_rest(c: Course, out: Course) -> bool {
    &&& out.identifier@ == c.identifier@
    &&& out.id@ == c.id@
    &&& out.code@ == c.code@
    &&& out.dept@ == c.dept@
    &&& out.section@ == c.section@
    &&& out.title@ == c.title@
    &&& out.max_seats == c.max_seats
    &&& out.seats_taken == c.seats_taken
    &&& out.seats_remaining == c.seats_remaining
    &&& out.credits_hmc == c.credits_hmc
    &&& out.status == c.status
    &&& out.timing@.len() == c.timing@.len()
    &&& (forall|i: int| 0 <= i < c.timing@.len() ==> timing_eq(c.timing@[i], out.timing@[i]))
    &&& out.instructors.deep_view() == c.instructors.deep_view()
    &&& out.offered@ == c.offered@
    &&& out.perm_count == c.perm_count
}

/// What reconciliation makes of one schedule record: on a cascade match the
/// catalog entry's description, requisites (tidied) and fee are copied on,
/// and the credits when the record had none; then the requisite annotations
/// embedded in the record's own notes move to the structured fields, the
/// remainder staying in the notes.
pub open spec fn course_out_ok(c: Course, descs: Seq<CourseDescription>, out: Course) -> bool {
    let a = match cascade_spec(c, descs) {
        Some(i) => {
            let d = pool_of(c, descs)[i];
            (
                d.description@,
                format_reqs_spec(d.prerequisites@),
                format_reqs_spec(d.corequisites@),
                d.fee,
                if c.credits == 0 {
                    d.credits
                } else {
                    c.credits
                },
            )
        },
        None => (c.description@, c.prerequisites@, c.corequisites@, c.fee, c.credits),
    };
    let n0 = c.notes@;
    let b1 = match pre_label(n0) {
        Some(l) => {
            let r = process_req_spec(n0, l);
            (dotless(r.0), format_reqs_spec(r.1))
        },
        None => (n0, a.1),
    };
    let b2 = match notes_co_label(n0) {
        Some(l) => {
            let r = process_req_spec(n0, l);
            (dotless(r.0), format_reqs_spec(r.1))
        },
        None => (b1.0, a.2),
    };
    &&& out.description@ == a.0
    &&& out.prerequisites@ == b1.1
    &&& out.corequisites@ == b2.1
    &&& out.fee == a.3
    &&& out.credits == a.4
    &&& out.notes@ == b2.0
    &&& reconcile_same_rest(c, out)
}

// ---------------------------------------------------------------------------
// The catalog set's evolution
// ---------------------------------------------------------------------------
/// A catalog entry reduced to its observable data.
pub struct DescView {
    pub title: Seq<char>,
    pub identifier: Seq<char>,
    pub description: Seq<char>,
    pub source: School,
    pub credits: u64,
    pub instructors: Seq<Seq<char>>,
    pub offered: Seq<char>,
    pub prerequisites: Seq<char>,
    pub corequisites: Seq<char>,
    pub currently_offered: bool,
    pub fee: u64,
}

pub open spec fn view_of_desc(d: CourseDescription) -> DescView {
    DescView {
        title: d.title@,
        identifier: d.identifier@,
        description: d.description@,
        source: d.source,
        credits: d.credits,
        instructors: d.instructors.deep_view(),
        offered: d.offered@,
        prerequisites: d.prerequisites@,
        corequisites: d.corequisites@,
        currently_offered: d.currently_offered,
        fee: d.fee,
    }
}

/// What a matching schedule record writes back onto its catalog entry: the
/// record's instructors, the offered mark, the school when it was unknown,
/// and the credits when the entry had none.
pub open spec fn write_view(c: Course, d: CourseDescription) -> DescView {
    DescView {
        instructors: c.instructors.deep_view(),
        currently_offered: true,
        source: if d.source == School::NA {
            school_of(c)
        } else {
            d.source
        },
        credits: if d.credits == 0 {
            c.credits
        } else {
            d.credits
        },
        ..view_of_desc(d)
    }
}

/// Index of the first entry titled `title` whose identifier key holds
/// `ident`, or -1: where a matching record's write lands.
pub open spec fn first_target(s: Seq<DescView>, title: Seq<char>, ident: Seq<char>) -> int
    decreases s.len(),
{
    if s.len() == 0 {
        -1
    } else if s[0].title == title && seq_contains(s[0].identifier, ident) {
        0
    } else {
        let r = first_target(s.skip(1), title, ident);
        if r < 0 {
            -1
        } else {
            r + 1
        }
    }
}

pub proof fn lemma_first_target(s: Seq<DescView>, title: Seq<char>, ident: Seq<char>)
    ensures
        first_target(s, title, ident) < 0 ==> forall|j: int|
            0 <= j < s.len() ==> !(s[j].title == title && seq_contains(s[j].identifier, ident)),
        first_target(s, title, ident) >= 0 ==> {
            &&& first_target(s, title, ident) < s.len()
            &&& s[first_target(s, title, ident)].title == title
            &&& seq_contains(s[first_target(s, title, ident)].identifier, ident)
            &&& forall|j: int|
                0 <= j < first_target(s, title, ident) ==> !(s[j].title == title && seq_contains(
                    s[j].identifier,
                    ident,
                ))
        },
    decreases s.len(),
{
    if s.len() > 0 && !(s[0].title == title && seq_contains(s[0].identifier, ident)) {
        lemma_first_target(s.skip(1), title, ident);
        let r = first_target(s.skip(1), title, ident);
        if r >= 0 {
            assert(s[r + 1] == s.skip(1)[r]);
            assert(forall|j: int| 1 <= j < r + 1 ==> s[j] == s.skip(1)[j - 1]);
        } else {
            assert(forall|j: int| 1 <= j < s.len() ==> s[j] == s.skip(1)[j - 1]);
        }
    }
}

/// The catalog set's data after the first `i` schedule records have been
/// reconciled: each match writes onto the first entry that carries the
/// matched title and identifier, if one is present.
pub open spec fn descs_state_all(
    courses: Seq<Course>,
    orig: Seq<CourseDescription>,
    i: int,
) -> Seq<DescView>
    decreases i,
    when 0 <= i <= courses.len()
{
    if i == 0 {
        orig.map_values(|d: CourseDescription| view_of_desc(d))
    } else {
        let prevs = descs_state_all(courses, orig, i - 1);
        let c = courses[i - 1];
        match cascade_spec(c, orig) {
            Some(idx) => {
                let d = pool_of(c, orig)[idx];
                let k = first_target(prevs, d.title@, d.identifier@);
                if k >= 0 {
                    prevs.update(k, write_view(c, d))
                } else {
                    prevs
                }
            },
            None => prevs,
        }
    }
}

pub proof fn lemma_descs_state_len(courses: Seq<Course>, orig: Seq<CourseDescription>, i: int)
    requires
        0 <= i <= courses.len(),
    ensures
        descs_state_all(courses, orig, i).len() == orig.len(),
    decreases i,
{
    if i > 0 {
        lemma_descs_state_len(courses, orig, i - 1);
        let prevs = descs_state_all(courses, orig, i - 1);
        let c = courses[i - 1];
        match cascade_spec(c, orig) {
            Some(idx) => {
                let d = pool_of(c, orig)[idx];
                lemma_first_target(prevs, d.title@, d.identifier@);
            },
            None => {},
        }
    }
}

fn find_target(
    descs_vec: &Vec<CourseDescription>,
    d: &CourseDescription,
    Ghost(prevs): Ghost<Seq<DescView>>,
) -> (r: Option<usize>)
    requires
        prevs.len() == descs_vec@.len(),
        forall|k: int| 0 <= k < prevs.len() ==> view_of_desc(#[trigger] descs_vec@[k]) == prevs[k],
    ensures
        (match r {
            Some(j) => first_target(prevs, d.title@, d.identifier@) == j as int && j
                < descs_vec@.len(),
            None => first_target(prevs, d.title@, d.identifier@) < 0,
        }),
{
    let dt = chars_of(d.title.as_str());
    let di = chars_of(d.identifier.as_str());
    let mut m: usize = 0;
    while m < descs_vec.len()
        invariant
            dt@ == d.title@,
            di@ == d.identifier@,
            prevs.len() == descs_vec@.len(),
            forall|k: int|
                0 <= k < prevs.len() ==> view_of_desc(#[trigger] descs_vec@[k]) == prevs[k],
            m <= descs_vec@.len(),
            forall|j: int|
                0 <= j < m ==> !(prevs[j].title == d.title@ && seq_contains(
                    prevs[j].identifier,
                    d.identifier@,
                )),
        decreases descs_vec@.len() - m,
    {
        let e = &descs_vec[m];
        let et = chars_of(e.title.as_str());
        let ei = chars_of(e.identifier.as_str());
        if chars_eq(&et, &dt) && contains_sub(&ei, &di) {
            proof {
                lemma_first_target(prevs, d.title@, d.identifier@);
            }
            return Some(m);
        }
        m = m + 1;
    }
    proof {
        lemma_first_target(prevs, d.title@, d.identifier@);
    }
    None
}

/// Reconcile every schedule record against the catalog set: each record gets
/// at most one catalog entry's data, and the catalog set keeps, per entry,
/// what the records that matched it wrote back.
pub fn merge_description_and_courses(
    courses: Vec<Course>,
    descriptions: Vec<CourseDescription>,
) -> (r: (Vec<Course>, Vec<CourseDescription>))
    ensures
        r.0@.len() == courses@.len(),
        forall|i: int|
            0 <= i < courses@.len() ==> course_out_ok(courses@[i], descriptions@, #[trigger] r.0@[
                i
            ]),
        r.1@.len() == descriptions@.len(),
        forall|k: int|
            0 <= k < descriptions@.len() ==> view_of_desc(#[trigger] r.1@[k]) == descs_state_all(
                courses@,
                descriptions@,
                courses@.len() as int,
            )[k],
{
    let ghost courses0 = courses@;
    let ghost orig = descriptions@;
    let n_courses = courses.len();
    let mut courses = courses;
    let mut courses_vec: Vec<Course> = Vec::new();
    let mut descs_vec: Vec<CourseDescription> = Vec::new();
    let mut t: usize = 0;
    while t < descriptions.len()
        invariant
            t <= orig.len(),
            orig == descriptions@,
            descs_vec@.len() == t,
            forall|k: int|
                0 <= k < t ==> view_of_desc(#[trigger] descs_vec@[k]) == view_of_desc(orig[k]),
        decreases orig.len() - t,
    {
        descs_vec.push(desc_dup(&descriptions[t]));
        t = t + 1;
    }
    let mut i: usize = 0;
    proof {
        assert(courses0.skip(0) =~= courses0);
        assert(forall|k: int|
            0 <= k < orig.len() ==> descs_state_all(courses0, orig, 0)[k] == view_of_desc(orig[k]));
    }
    while courses.len() > 0
        invariant
            orig == descriptions@,
            n_courses == courses0.len(),
            i + courses@.len() == courses0.len(),
            courses@ == courses0.skip(i as int),
            courses_vec@.len() == i,
            forall|k: int|
                0 <= k < i ==> course_out_ok(courses0[k], orig, #[trigger] courses_vec@[k]),
            descs_vec@.len() == orig.len(),
            forall|k: int|
                0 <= k < orig.len() ==> view_of_desc(#[trigger] descs_vec@[k]) == descs_state_all(
                    courses0,
                    orig,
                    i as int,
                )[k],
        decreases courses@.len(),
    {
        proof {
            lemma_descs_state_len(courses0, orig, i as int);
            lemma_descs_state_len(courses0, orig, i + 1);
        }
        let ghost prevs = descs_state_all(courses0, orig, i as int);
        let c = courses.remove(0);
        let ghost cg = c;
        proof {
            assert(cg == courses0[i as int]);
            assert(courses@ =~= courses0.skip(i + 1));
        }
        let mut nc = course_dup(&c);
        let found = find_description(c, &descriptions);
        match found {
            Some(d) => {
                proof {
                    lemma_first_idx(pool_of(cg, orig), exact_pred(cg));
                }
                let ghost idx = cascade_spec(cg, orig)->Some_0;
                let ghost dd = pool_of(cg, orig)[idx];
                match find_target(&descs_vec, &d, Ghost(prevs)) {
                    Some(j) => {
                        let mut wd = desc_dup(&d);
                        wd.instructors = nc.get_instructors();
                        wd.currently_offered = true;
                        if wd.source == School::NA {
                            wd.source = match nc.get_school() {
                                Some(s) => s,
                                None => School::NA,
                            };
                        }
                        if wd.credits == 0 {
                            wd.credits = nc.credits;
                        }
                        proof {
                            assert(view_of_desc(wd) == write_view(cg, dd));
                            assert(first_target(prevs, dd.title@, dd.identifier@) == j as int);
                        }
                        descs_vec.set(j, wd);
                    },
                    None => {},
                }
                nc.set_description(d.description.clone());
                nc.set_prerequisites(d.prerequisites.clone());
                nc.set_corequisites(d.corequisites.clone());
                nc.set_fee(d.fee);
                if nc.credits == 0 {
                    nc.credits = d.credits;
                }
            },
            None => {},
        }
        // requisite annotations embedded in the record's own notes
        let notes = nc.get_notes().clone();
        let nv = chars_of(notes.as_str());
        let pre_long = chars_of("Prerequisite");
        let pre_short = chars_of("Prereq");
        if contains_sub(&nv, &pre_long) {
            let rr = process_req(notes.clone(), String::from_str("Prerequisite"));
            nc.set_notes(rr.0);
            nc.set_prerequisites(rr.1);
        } else if contains_sub(&nv, &pre_short) {
            let rr = process_req(notes.clone(), String::from_str("Prereq"));
            nc.set_notes(rr.0);
            nc.set_prerequisites(rr.1);
        }
        let co1 = chars_of("Corequisite");
        let co2 = chars_of("Coreq");
        let co3 = chars_of("Co-requisite");
        let co4 = chars_of("Co-req");
        if contains_sub(&nv, &co1) {
            let rr = process_req(notes.clone(), String::from_str("Corequisite"));
            nc.set_notes(rr.0);
            nc.set_corequisites(rr.1);
        } else if contains_sub(&nv, &co2) {
            let rr = process_req(notes.clone(), String::from_str("Coreq"));
            nc.set_notes(rr.0);
            nc.set_corequisites(rr.1);
        } else if contains_sub(&nv, &co3) {
            let rr = process_req(notes.clone(), String::from_str("Co-requisite"));
            nc.set_notes(rr.0);
            nc.set_corequisites(rr.1);
        } else if contains_sub(&nv, &co4) {
            let rr = process_req(notes.clone(), String::from_str("Co-req"));
            nc.set_notes(rr.0);
            nc.set_corequisites(rr.1);
        }
        courses_vec.push(nc);
        proof {
            assert(course_out_ok(cg, orig, nc));
        }
        i = i + 1;
    }
    proof {
        assert(i == courses0.len());
    }
    (courses_vec, descs_vec)
}

// ---------------------------------------------------------------------------
// Cross-school catalog dedupe
// ---------------------------------------------------------------------------
/// How many entries' identifiers hold `ident`.
pub open spec fn count_id_contains(s: Seq<DescView>, ident: Seq<char>) -> int
    decreases s.len(),
{
    if s.len() == 0 {
        0
    } else {
        count_id_contains(s.drop_last(), ident) + (if seq_contains(s.last().identifier, ident) {
            1int
        } else {
            0int
        })
    }
}

/// Index of the first entry whose identifier holds `ident`, or -1.
pub open spec fn first_id_contains(s: Seq<DescView>, ident: Seq<char>) -> int
    decreases s.len(),
{
    if s.len() == 0 {
        -1
    } else if seq_contains(s[0].identifier, ident) {
        0
    } else {
        let r = first_id_contains(s.skip(1), ident);
        if r < 0 {
            -1
        } else {
            r + 1
        }
    }
}

/// Index of the first entry whose title holds `title`, or -1.
pub open spec fn first_title_contains(s: Seq<DescView>, title: Seq<char>) -> int
    decreases s.len(),
{
    if s.len() == 0 {
        -1
    } else if seq_contains(s[0].title, title) {
        0
    } else {
        let r = first_title_contains(s.skip(1), title);
        if r < 0 {
            -1
        } else {
            r + 1
        }
    }
}

pub proof fn lemma_first_id_contains(s: Seq<DescView>, ident: Seq<char>)
    ensures
        first_id_contains(s, ident) < 0 ==> forall|j: int|
            0 <= j < s.len() ==> !seq_contains(s[j].identifier, ident),
        first_id_contains(s, ident) >= 0 ==> {
            &&& first_id_contains(s, ident) < s.len()
            &&& seq_contains(s[first_id_contains(s, ident)].identifier, ident)
            &&& forall|j: int|
                0 <= j < first_id_contains(s, ident) ==> !seq_contains(s[j].identifier, ident)
        },
    decreases s.len(),
{
    if s.len() > 0 && !seq_contains(s[0].identifier, ident) {
        lemma_first_id_contains(s.skip(1), ident);
        let r = first_id_contains(s.skip(1), ident);
        if r >= 0 {
            assert(s[r + 1] == s.skip(1)[r]);
            assert(forall|j: int| 1 <= j < r + 1 ==> s[j] == s.skip(1)[j - 1]);
        } else {
            assert(forall|j: int| 1 <= j < s.len() ==> s[j] == s.skip(1)[j - 1]);
        }
    }
}

pub proof fn lemma_first_title_contains(s: Seq<DescView>, title: Seq<char>)
    ensures
        first_title_contains(s, title) < 0 ==> forall|j: int|
            0 <= j < s.len() ==> !seq_contains(s[j].title, title),
        first_title_contains(s, title) >= 0 ==> {
            &&& first_title_contains(s, title) < s.len()
            &&& seq_contains(s[first_title_contains(s, title)].title, title)
            &&& forall|j: int|
                0 <= j < first_title_contains(s, title) ==> !seq_contains(s[j].title, title)
        },
    decreases s.len(),
{
    if s.len() > 0 && !seq_contains(s[0].title, title) {
        lemma_first_title_contains(s.skip(1), title);
        let r = first_title_contains(s.skip(1), title);
        if r >= 0 {
            assert(s[r + 1] == s.skip(1)[r]);
            assert(forall|j: int| 1 <= j < r + 1 ==> s[j] == s.skip(1)[j - 1]);
        } else {
            assert(forall|j: int| 1 <= j < s.len() ==> s[j] == s.skip(1)[j - 1]);
        }
    }
}

/// When no entry's identifier holds `ident`, the count is zero.
pub proof fn lemma_count_zero(s: Seq<DescView>, ident: Seq<char>)
    requires
        forall|j: int| 0 <= j < s.len() ==> !seq_contains(s[j].identifier, ident),
    ensures
        count_id_contains(s, ident) == 0,
    decreases s.len(),
{
    if s.len() > 0 {
        lemma_count_zero(s.drop_last(), ident);
    }
}

/// How one more catalog entry folds into the deduplicated list: with more
/// than one entry already holding its identifier, the entry's data lands on
/// the first title-containment match (or the first identifier match); with
/// one or none, the entry is appended as it is.
pub open spec fn merge_desc_step(acc: Seq<DescView>, d: DescView) -> Seq<DescView> {
    if count_id_contains(acc, d.identifier) > 1 {
        let tf = first_title_contains(acc, d.title);
        let k = if tf >= 0 {
            tf
        } else {
            first_id_contains(acc, d.identifier)
        };
        let e0 = acc[k];
        let e1 = if e0.source == School::NA {
            DescView { currently_offered: d.currently_offered, source: d.source, ..e0 }
        } else {
            e0
        };
        let e2 = if e1.description.len() < d.description.len() {
            DescView { description: d.description, ..e1 }
        } else {
            e1
        };
        acc.update(k, e2)
    } else {
        acc.push(d)
    }
}

/// The deduplicated list after the first `i` flattened entries.
pub open spec fn merge_descs_state(items: Seq<DescView>, i: int) -> Seq<DescView>
    decreases i,
    when 0 <= i <= items.len()
{
    if i == 0 {
        Seq::<DescView>::empty()
    } else {
        merge_desc_step(merge_descs_state(items, i - 1), items[i - 1])
    }
}

/// The per-school catalog scrapes laid end to end, in order.
pub open spec fn flatten_descs(s: Seq<Vec<CourseDescription>>) -> Seq<CourseDescription>
    decreases s.len(),
{
    if s.len() == 0 {
        Seq::<CourseDescription>::empty()
    } else {
        s[0]@ + flatten_descs(s.skip(1))
    }
}

fn count_ids(acc: &Vec<CourseDescription>, ident: &Vec<char>, Ghost(views): Ghost<Seq<DescView>>)
    -> (n: usize)
    requires
        views.len() == acc@.len(),
        forall|k: int| 0 <= k < views.len() ==> view_of_desc(#[trigger] acc@[k]) == views[k],
    ensures
        n as int == count_id_contains(views, ident@),
        n <= acc@.len(),
{
    let mut n: usize = 0;
    let mut m: usize = 0;
    proof {
        assert(views.take(0) =~= Seq::<DescView>::empty());
    }
    while m < acc.len()
        invariant
            views.len() == acc@.len(),
            forall|k: int| 0 <= k < views.len() ==> view_of_desc(#[trigger] acc@[k]) == views[k],
            m <= acc@.len(),
            n <= m,
            n as int == count_id_contains(views.take(m as int), ident@),
        decreases acc@.len() - m,
    {
        proof {
            assert(views.take(m + 1).drop_last() =~= views.take(m as int));
            assert(views.take(m + 1).last() == views[m as int]);
        }
        let ev = chars_of(acc[m].identifier.as_str());
        if contains_sub(&ev, ident) {
            n = n + 1;
        }
        m = m + 1;
    }
    proof {
        assert(views.take(views.len() as int) =~= views);
    }
    n
}

fn find_first_title_contains(
    acc: &Vec<CourseDescription>,
    title: &Vec<char>,
    Ghost(views): Ghost<Seq<DescView>>,
) -> (r: Option<usize>)
    requires
        views.len() == acc@.len(),
        forall|k: int| 0 <= k < views.len() ==> view_of_desc(#[trigger] acc@[k]) == views[k],
    ensures
        (match r {
            Some(j) => first_title_contains(views, title@) == j as int && j < acc@.len(),
            None => first_title_contains(views, title@) < 0,
        }),
{
    let mut m: usize = 0;
    while m < acc.len()
        invariant
            views.len() == acc@.len(),
            forall|k: int| 0 <= k < views.len() ==> view_of_desc(#[trigger] acc@[k]) == views[k],
            m <= acc@.len(),
            forall|j: int| 0 <= j < m ==> !seq_contains(views[j].title, title@),
        decreases acc@.len() - m,
    {
        let ev = chars_of(acc[m].title.as_str());
        if contains_sub(&ev, title) {
            proof {
                lemma_first_title_contains(views, title@);
            }
            return Some(m);
        }
        m = m + 1;
    }
    proof {
        lemma_first_title_contains(views, title@);
    }
    None
}

fn find_first_id_contains(
    acc: &Vec<CourseDescription>,
    ident: &Vec<char>,
    Ghost(views): Ghost<Seq<DescView>>,
) -> (r: Option<usize>)
    requires
        views.len() == acc@.len(),
        forall|k: int| 0 <= k < views.len() ==> view_of_desc(#[trigger] acc@[k]) == views[k],
    ensures
        (match r {
            Some(j) => first_id_contains(views, ident@) == j as int && j < acc@.len(),
            None => first_id_contains(views, ident@) < 0,
        }),
{
    let mut m: usize = 0;
    while m < acc.len()
        invariant
            views.len() == acc@.len(),
            forall|k: int| 0 <= k < views.len() ==> view_of_desc(#[trigger] acc@[k]) == views[k],
            m <= acc@.len(),
            forall|j: int| 0 <= j < m ==> !seq_contains(views[j].identifier, ident@),
        decreases acc@.len() - m,
    {
        let ev = chars_of(acc[m].identifier.as_str());
        if contains_sub(&ev, ident) {
            proof {
                lemma_first_id_contains(views, ident@);
            }
            return Some(m);
        }
        m = m + 1;
    }
    proof {
        lemma_first_id_contains(views, ident@);
    }
    None
}

/// Combine the per-school catalog scrapes into one list, folding an entry
/// whose identifier is already represented more than once onto the first
/// entry that carries its title (favouring the longer description), and
/// appending every other entry in scrape order.
pub fn merge_descriptions(schools_vec: Vec<Vec<CourseDescription>>) -> (r: Vec<CourseDescription>)
    ensures
        ({
            let flat = flatten_descs(schools_vec@);
            let fin = merge_descs_state(
                flat.map_values(|d: CourseDescription| view_of_desc(d)),
                flat.len() as int,
            );
            r@.len() == fin.len() && (forall|k: int|
                0 <= k < fin.len() ==> view_of_desc(#[trigger] r@[k]) == fin[k])
        }),
{
    let ghost flat_spec = flatten_descs(schools_vec@);
    // flatten
    let mut flat: Vec<CourseDescription> = Vec::new();
    let mut si: usize = 0;
    proof {
        assert(schools_vec@.skip(0) =~= schools_vec@);
        assert(flat_spec.skip(0) =~= flat_spec);
    }
    while si < schools_vec.len()
        invariant
            si <= schools_vec@.len(),
            flat_spec == flatten_descs(schools_vec@),
            flat@.len() <= flat_spec.len(),
            flat_spec.skip(flat@.len() as int) == flatten_descs(schools_vec@.skip(si as int)),
            forall|k: int|
                0 <= k < flat@.len() ==> view_of_desc(#[trigger] flat@[k]) == view_of_desc(
                    flat_spec[k],
                ),
        decreases schools_vec@.len() - si,
    {
        let ghost pre = flat@;
        let inner = &schools_vec[si];
        let mut ii: usize = 0;
        while ii < inner.len()
            invariant
                si < schools_vec@.len(),
                inner@ == schools_vec@[si as int]@,
                ii <= inner@.len(),
                flat@.len() == pre.len() + ii,
                forall|k: int| 0 <= k < pre.len() ==> #[trigger] flat@[k] == pre[k],
                forall|k: int|
                    0 <= k < ii ==> view_of_desc(#[trigger] flat@[pre.len() + k]) == view_of_desc(
                        inner@[k],
                    ),
            decreases inner@.len() - ii,
        {
            flat.push(desc_dup(&inner[ii]));
            ii = ii + 1;
        }
        proof {
            let rest = flatten_descs(schools_vec@.skip(si + 1));
            assert(schools_vec@.skip(si as int).skip(1) =~= schools_vec@.skip(si + 1));
            assert(schools_vec@.skip(si as int)[0] == schools_vec@[si as int]);
            assert(flatten_descs(schools_vec@.skip(si as int)) == schools_vec@[si as int]@ + rest);
            // the suffix of the flat view lines up with the school just copied
            assert(flat_spec.skip(pre.len() as int) == inner@ + rest);
            assert(flat_spec.skip(pre.len() as int).len() == inner@.len() + rest.len());
            assert(flat_spec.len() == pre.len() + inner@.len() + rest.len());
            assert forall|k: int| pre.len() <= k < flat@.len() implies view_of_desc(
                #[trigger] flat@[k],
            ) == view_of_desc(flat_spec[k]) by {
                let k2 = k - pre.len();
                assert(view_of_desc(flat@[pre.len() + k2]) == view_of_desc(inner@[k2]));
                assert(flat_spec[k] == flat_spec.skip(pre.len() as int)[k2]);
                assert(flat_spec.skip(pre.len() as int)[k2] == inner@[k2]);
            }
            assert(flat_spec.skip(flat@.len() as int) =~= (inner@ + rest).skip(inner@.len() as int));
            assert((inner@ + rest).skip(inner@.len() as int) =~= rest);
        }
        si = si + 1;
    }
    proof {
        assert(schools_vec@.skip(schools_vec@.len() as int) =~= Seq::<Vec<
            CourseDescription,
        >>::empty());
        assert(flat_spec.skip(flat@.len() as int).len() == 0);
        assert(flat@.len() == flat_spec.len());
    }
    // fold
    let ghost items = flat_spec.map_values(|d: CourseDescription| view_of_desc(d));
    let mut out: Vec<CourseDescription> = Vec::new();
    let mut i: usize = 0;
    while i < flat.len()
        invariant
            flat@.len() == flat_spec.len(),
            items == flat_spec.map_values(|d: CourseDescription| view_of_desc(d)),
            forall|k: int|
                0 <= k < flat@.len() ==> view_of_desc(#[trigger] flat@[k]) == view_of_desc(
                    flat_spec[k],
                ),
            i <= flat@.len(),
            out@.len() == merge_descs_state(items, i as int).len(),
            forall|k: int|
                0 <= k < out@.len() ==> view_of_desc(#[trigger] out@[k]) == merge_descs_state(
                    items,
                    i as int,
                )[k],
        decreases flat@.len() - i,
    {
        let ghost acc_views = merge_descs_state(items, i as int);
        let d = &flat[i];
        proof {
            assert(view_of_desc(flat@[i as int]) == items[i as int]);
        }
        let ident = chars_of(d.identifier.as_str());
        let cnt = count_ids(&out, &ident, Ghost(acc_views));
        if cnt > 1 {
            let title = chars_of(d.title.as_str());
            let k: usize = match find_first_title_contains(&out, &title, Ghost(acc_views)) {
                Some(tf) => tf,
                None => {
                    match find_first_id_contains(&out, &ident, Ghost(acc_views)) {
                        Some(f) => f,
                        None => {
                            proof {
                                lemma_first_id_contains(acc_views, ident@);
                                lemma_count_zero(acc_views, ident@);
                                assert(false);
                            }
                            0
                        },
                    }
                },
            };
            let mut e = desc_dup(&out[k]);
            if e.source == School::NA {
                e.currently_offered = d.currently_offered;
                e.source = d.source;
            }
            if e.description.as_str().unicode_len() < d.description.as_str().unicode_len() {
                e.description = d.description.clone();
            }
            descs_set(&mut out, k, e);
        } else {
            out.push(desc_dup(d));
        }
        i = i + 1;
    }
    proof {
        assert(items.len() == flat_spec.len());
    }
    out
}

/// Store one entry of the list, as `Vec::set` does.
fn descs_set(v: &mut Vec<CourseDescription>, i: usize, d: CourseDescription)
    requires
        i < old(v)@.len(),
    ensures
        final(v)@ == old(v)@.update(i as int, d),
{
    v.set(i, d);
}

// ---------------------------------------------------------------------------
// Smaller folds
// ---------------------------------------------------------------------------
/// Recast area-listing courses as catalog entries with no known school,
/// marked currently offered.
pub fn convert_courses_to_descs(courses: Vec<crate::model::PartialPomCourse>) -> (r: Vec<
    CourseDescription,
>)
    ensures
        r@.len() == courses@.len(),
        forall|i: int|
            0 <= i < courses@.len() ==> {
                let d = #[trigger] r@[i];
                &&& d.title@ == courses@[i].title@
                &&& d.identifier@ == courses@[i].identifier@
                &&& d.description@ == courses@[i].description@
                &&& d.source == School::NA
                &&& d.credits == courses@[i].credits
                &&& d.instructors.deep_view() == Seq::<Seq<char>>::empty()
                &&& d.offered@.len() == 0
                &&& d.currently_offered == true
                &&& d.prerequisites@.len() == 0
                &&& d.corequisites@.len() == 0
                &&& d.fee == 0
            },
{
    let mut out: Vec<CourseDescription> = Vec::new();
    let mut i: usize = 0;
    while i < courses.len()
        invariant
            i <= courses@.len(),
            out@.len() == i,
            forall|k: int|
                0 <= k < i ==> {
                    let d = #[trigger] out@[k];
                    &&& d.title@ == courses@[k].title@
                    &&& d.identifier@ == courses@[k].identifier@
                    &&& d.description@ == courses@[k].description@
                    &&& d.source == School::NA
                    &&& d.credits == courses@[k].credits
                    &&& d.instructors.deep_view() == Seq::<Seq<char>>::empty()
                    &&& d.offered@.len() == 0
                    &&& d.currently_offered == true
                    &&& d.prerequisites@.len() == 0
                    &&& d.corequisites@.len() == 0
                    &&& d.fee == 0
                },
        decreases courses@.len() - i,
    {
        let c = &courses[i];
        let d = CourseDescription {
            title: c.title.clone(),
            identifier: c.identifier.clone(),
            description: c.description.clone(),
            source: School::NA,
            credits: c.credits,
            instructors: Vec::new(),
            offered: String::new(),
            currently_offered: true,
            prerequisites: String::new(),
            corequisites: String::new(),
            fee: 0,
        };
        proof {
            assert(d.instructors.deep_view() =~~= Seq::<Seq<char>>::empty());
        }
        out.push(d);
        i = i + 1;
    }
    out
}

/// The permission count recorded for a key: the first pair that carries it,
/// or zero.
pub open spec fn perm_lookup(perms: Seq<(String, u64)>, key: Seq<char>) -> u64
    decreases perms.len(),
{
    if perms.len() == 0 {
        0u64
    } else if perms[0].0@ == key {
        perms[0].1
    } else {
        perm_lookup(perms.skip(1), key)
    }
}

/// Stamp each course with the permission count recorded under its identifier,
/// zero when none is.
pub fn merge_perms_into_courses(courses: Vec<Course>, perm_pairs: Vec<(String, u64)>) -> (r: Vec<
    Course,
>)
    ensures
        r@.len() == courses@.len(),
        forall|i: int|
            0 <= i < courses@.len() ==> #[trigger] r@[i] == (Course {
                perm_count: perm_lookup(perm_pairs@, courses@[i].identifier@),
                ..courses@[i]
            }),
{
    let ghost courses0 = courses@;
    let mut courses = courses;
    let mut out: Vec<Course> = Vec::new();
    let mut i: usize = 0;
    let n = courses.len();
    proof {
        assert(courses0.skip(0) =~= courses0);
    }
    while courses.len() > 0
        invariant
            n == courses0.len(),
            i + courses@.len() == courses0.len(),
            courses@ == courses0.skip(i as int),
            out@.len() == i,
            forall|k: int|
                0 <= k < i ==> #[trigger] out@[k] == (Course {
                    perm_count: perm_lookup(perm_pairs@, courses0[k].identifier@),
                    ..courses0[k]
                }),
        decreases courses@.len(),
    {
        let mut c = courses.remove(0);
        proof {
            assert(c == courses0[i as int]);
            assert(courses@ =~= courses0.skip(i + 1));
        }
        let pc = lookup_perm(&perm_pairs, &c.identifier);
        c.set_perm_count(pc);
        out.push(c);
        i = i + 1;
    }
    out
}

fn lookup_perm(perm_pairs: &Vec<(String, u64)>, key: &String) -> (r: u64)
    ensures
        r == perm_lookup(perm_pairs@, key@),
{
    let mut m: usize = 0;
    proof {
        assert(perm_pairs@.skip(0) =~= perm_pairs@);
    }
    while m < perm_pairs.len()
        invariant
            m <= perm_pairs@.len(),
            perm_lookup(perm_pairs@, key@) == perm_lookup(perm_pairs@.skip(m as int), key@),
        decreases perm_pairs@.len() - m,
    {
        proof {
            assert(perm_pairs@.skip(m as int)[0] == perm_pairs@[m as int]);
            assert(perm_pairs@.skip(m as int).skip(1) =~= perm_pairs@.skip(m + 1));
        }
        if str_eq(perm_pairs[m].0.as_str(), key.as_str()) {
            return perm_pairs[m].1;
        }
        m = m + 1;
    }
    proof {
        assert(perm_pairs@.skip(m as int) =~= Seq::<(String, u64)>::empty());
    }
    0
}

// ---------------------------------------------------------------------------
// Locations
// ---------------------------------------------------------------------------
/// Whether a key is already present among the location pairs.
pub open spec fn loc_key_present(s: Seq<(String, (String, String))>, key: Seq<char>) -> bool {
    exists|j: int| 0 <= j < s.len() && #[trigger] s[j].0@ == key
}

/// The location pairs after folding in the first `i` new pairs: a pair whose
/// key is already present is dropped, every other is appended.
pub open spec fn merge_locs_state(
    cur: Seq<(String, (String, String))>,
    newp: Seq<(String, (String, String))>,
    i: int,
) -> Seq<(String, (String, String))>
    decreases i,
    when 0 <= i <= newp.len()
{
    if i == 0 {
        cur
    } else {
        let acc = merge_locs_state(cur, newp, i - 1);
        if loc_key_present(acc, newp[i - 1].0@) {
            acc
        } else {
            acc.push(newp[i - 1])
        }
    }
}

fn loc_key_in(pairs: &Vec<(String, (String, String))>, key: &String) -> (r: bool)
    ensures
        r == loc_key_present(pairs@, key@),
{
    let mut m: usize = 0;
    while m < pairs.len()
        invariant
            m <= pairs@.len(),
            forall|j: int| 0 <= j < m ==> #[trigger] pairs@[j].0@ != key@,
        decreases pairs@.len() - m,
    {
        if str_eq(pairs[m].0.as_str(), key.as_str()) {
            return true;
        }
        m = m + 1;
    }
    false
}

/// Fold newly geocoded locations into the known set, never overwriting a key
/// that is already present.
pub fn merge_locations(
    current_locations: Vec<(String, (String, String))>,
    new_locations: Vec<(String, (String, String))>,
) -> (r: Vec<(String, (String, String))>)
    ensures
        r@ == merge_locs_state(current_locations@, new_locations@, new_locations@.len() as int),
{
    let ghost cur0 = current_locations@;
    let ghost new0 = new_locations@;
    let n = new_locations.len();
    let mut out = current_locations;
    let mut new_locations = new_locations;
    let mut i: usize = 0;
    proof {
        assert(new0.skip(0) =~= new0);
    }
    while new_locations.len() > 0
        invariant
            n == new0.len(),
            i + new_locations@.len() == new0.len(),
            new_locations@ == new0.skip(i as int),
            out@ == merge_locs_state(cur0, new0, i as int),
        decreases new_locations@.len(),
    {
        let p = new_locations.remove(0);
        proof {
            assert(p == new0[i as int]);
            assert(new_locations@ =~= new0.skip(i + 1));
        }
        if !loc_key_in(&out, &p.0) {
            out.push(p);
        }
        i = i + 1;
    }
    out
}

} // verus!
