//! The in-memory store: the single source of truth the API layer reads — the
//! current course snapshot, term, last-change stamp, and the code registry.
//! Callers hand in the clock; the store itself never reads it.

use vstd::prelude::*;
use crate::model::{
    Course, CourseDescription, SharedCourseList, course_eq, course_dup, desc_eq, desc_dup, scl_eq,
};
use crate::registry::{
    CodeRegistry, registry_wf, assign_post, generate_unique_code, get_course_list,
    first_code_match, code_present,
};
use crate::strutil::{to_upper, upper_spec};

verus! {

/// Relies on `SystemTime::now` and `duration_since(UNIX_EPOCH)`: the seconds
/// of the wall clock since the Unix epoch, zero if the clock reads before it.
#[verifier::external_body]
pub fn get_unix_timestamp() -> (r: u64) {
    std::time::SystemTime::now().duration_since(std::time::UNIX_EPOCH).map(
        |d| d.as_secs(),
    ).unwrap_or(0)
}

/// An entry of the request log is stale once it lies more than ten minutes
/// behind the clock.
pub open spec fn is_stale(e: u64, now: u64) -> bool {
    now > 600 && e < now - 600
}

/// The log with its stale leading entries dropped.
pub open spec fn drop_stale(s: Seq<u64>, now: u64) -> Seq<u64>
    decreases s.len(),
{
    if s.len() > 0 && is_stale(s[0], now) {
        drop_stale(s.skip(1), now)
    } else {
        s
    }
}

/// The store behind the API: all of one process's mutable state, guarded by
/// the caller's locks, read and swapped in short critical sections.
pub struct MemDatabase {
    pub course_cache: Vec<Course>,
    pub last_change: u64,
    pub code_cache: CodeRegistry,
    pub locations_cache: Vec<(String, (String, String))>,
    pub descriptions_cache: Vec<CourseDescription>,
    pub term: String,
    pub ten_minute_log: Vec<u64>,
}

impl MemDatabase {
    /// An empty store stamped with the clock.
    pub fn new(now: u64) -> (r: MemDatabase)
        ensures
            r.course_cache@.len() == 0,
            r.last_change == now,
            r.code_cache.pairs@.len() == 0,
            registry_wf(r.code_cache),
            r.locations_cache@.len() == 0,
            r.descriptions_cache@.len() == 0,
            r.term@.len() == 0,
            r.ten_minute_log@.len() == 0,
    {
        MemDatabase {
            course_cache: Vec::new(),
            last_change: now,
            code_cache: CodeRegistry::new(),
            locations_cache: Vec::new(),
            descriptions_cache: Vec::new(),
            term: String::new(),
            ten_minute_log: Vec::new(),
        }
    }

    /// Record one request and drop entries older than ten minutes from the
    /// front of the log.
    pub fn add_ten_log(&mut self, now: u64)
        ensures
            final(self).ten_minute_log@ == drop_stale(old(self).ten_minute_log@.push(now), now),
            *final(self) == (MemDatabase {
                ten_minute_log: final(self).ten_minute_log,
                ..*old(self)
            }),
    {
        self.ten_minute_log.push(now);
        let ghost full = self.ten_minute_log@;
        let total = self.ten_minute_log.len();
        proof {
            assert(full.skip(0) =~= full);
        }
        let mut dropped: usize = 0;
        while self.ten_minute_log.len() > 0 && now > 600 && self.ten_minute_log[0] < now - 600
            invariant
                total == full.len(),
                dropped <= full.len(),
                self.ten_minute_log@ == full.skip(dropped as int),
                drop_stale(full, now) == drop_stale(full.skip(dropped as int), now),
                *self == (MemDatabase { ten_minute_log: self.ten_minute_log, ..*old(self) }),
            decreases full.len() - dropped,
        {
            proof {
                assert(full.skip(dropped as int).skip(1) =~= full.skip(dropped + 1));
            }
            self.ten_minute_log.remove(0);
            dropped = dropped + 1;
        }
    }

    /// A copy of the published snapshot: the courses, the term, and the
    /// last-change stamp.
    pub fn get_snapshot(&self) -> (r: (Vec<Course>, String, u64))
        ensures
            r.0@.len() == self.course_cache@.len(),
            forall|i: int|
                0 <= i < r.0@.len() ==> course_eq(self.course_cache@[i], #[trigger] r.0@[i]),
            r.1@ == self.term@,
            r.2 == self.last_change,
    {
        let mut out: Vec<Course> = Vec::new();
        let mut i: usize = 0;
        while i < self.course_cache.len()
            invariant
                i <= self.course_cache@.len(),
                out@.len() == i,
                forall|k: int|
                    0 <= k < i ==> course_eq(self.course_cache@[k], #[trigger] out@[k]),
            decreases self.course_cache@.len() - i,
        {
            out.push(course_dup(&self.course_cache[i]));
            i = i + 1;
        }
        (out, self.term.clone(), self.last_change)
    }

    /// The snapshot, but only when the caller's stamp is out of date.
    pub fn get_snapshot_if_newer(&self, since: u64) -> (r: Option<(Vec<Course>, String, u64)>)
        ensures
            (match r {
                Some(s) => self.last_change != since && s.0@.len() == self.course_cache@.len() && (
                forall|i: int|
                    0 <= i < s.0@.len() ==> course_eq(self.course_cache@[i], #[trigger] s.0@[i]))
                    && s.1@ == self.term@ && s.2 == self.last_change,
                None => self.last_change == since,
            }),
    {
        if self.last_change != since {
            Some(self.get_snapshot())
        } else {
            None
        }
    }

    /// The catalog entries, but only when the caller's stamp is out of date.
    pub fn get_catalog_if_newer(&self, since: u64) -> (r: Option<(Vec<CourseDescription>, u64)>)
        ensures
            (match r {
                Some(s) => self.last_change != since && s.0@.len()
                    == self.descriptions_cache@.len() && (forall|i: int|
                    0 <= i < s.0@.len() ==> desc_eq(self.descriptions_cache@[i], #[trigger] s.0@[i]))
                    && s.1 == self.last_change,
                None => self.last_change == since,
            }),
    {
        if self.last_change != since {
            let mut out: Vec<CourseDescription> = Vec::new();
            let mut i: usize = 0;
            while i < self.descriptions_cache.len()
                invariant
                    i <= self.descriptions_cache@.len(),
                    out@.len() == i,
                    forall|k: int|
                        0 <= k < i ==> desc_eq(self.descriptions_cache@[k], #[trigger] out@[k]),
                decreases self.descriptions_cache@.len() - i,
            {
                out.push(desc_dup(&self.descriptions_cache[i]));
                i = i + 1;
            }
            Some((out, self.last_change))
        } else {
            None
        }
    }

    /// Assign a share code for a course-list pair, updating the registry at
    /// its single insertion point.
    pub fn assign_code(&mut self, list: SharedCourseList) -> (r: String)
        requires
            registry_wf(old(self).code_cache),
            old(self).code_cache.pairs@.len() < 1280000000,
        ensures
            registry_wf(final(self).code_cache),
            assign_post(list, old(self).code_cache, r, final(self).code_cache),
            *final(self) == (MemDatabase { code_cache: final(self).code_cache, ..*old(self) }),
    {
        let mut registry = CodeRegistry::new();
        core::mem::swap(&mut registry, &mut self.code_cache);
        let (code, updated) = generate_unique_code(list, registry);
        self.code_cache = updated;
        code
    }

    /// Look a share code up, upper-casing it first: codes are issued upper
    /// case but may be re-typed by a human.
    pub fn lookup_code(&self, code: &str) -> (r: Option<SharedCourseList>)
        ensures
            (match r {
                Some(l) => first_code_match(self.code_cache.pairs@, upper_spec(code@)) >= 0
                    && scl_eq(
                    self.code_cache.pairs@[first_code_match(
                        self.code_cache.pairs@,
                        upper_spec(code@),
                    )].1,
                    l,
                ),
                None => !code_present(self.code_cache.pairs@, upper_spec(code@)),
            }),
    {
        let upper = to_upper(code);
        get_course_list(upper, &self.code_cache)
    }
}

} // verus!
