//! The update orchestrator's decisions: one cycle's state transition, from
//! fetch outcomes to the published snapshot, the next countdowns, and the
//! backoff.  The surrounding loop performs the fetches and the sleeping; every
//! decision is taken here.

use vstd::prelude::*;
use crate::model::{Course, CourseDescription};
use crate::merge::{merge_courses, merged_course_ok};
use crate::reconcile::{
    merge_perms_into_courses, merge_description_and_courses, course_out_ok, perm_lookup,
    descs_state_all, view_of_desc,
};

verus! {

/// Seconds between cycles.
pub const API_UPDATE_INTERVAL: u64 = 1200;

/// Description refreshes happen every this many cycles.
pub const DESCRIPTION_INTERVAL_MULTIPLIER: u64 = 100;

/// Menu refreshes happen every this many cycles.
pub const MENU_INTERVAL_MULTIPLIER: u64 = 100;

/// The repeated-error counter never grows past this; the backoff is bounded
/// with it.
pub const ERROR_COUNTER_CAP: u64 = 1000000;

/// The orchestrator's persistent state between cycles.
pub struct CycleState {
    pub repeated_errors: u64,
    pub desc_countdown: u64,
    pub menu_countdown: u64,
}

/// The state's machine bound: the error counter stays capped.
pub open spec fn state_wf(s: CycleState) -> bool {
    s.repeated_errors <= ERROR_COUNTER_CAP
}

/// The counter after one more failure: up by one, to the cap.
pub open spec fn bump_error(e: u64) -> u64 {
    if e < ERROR_COUNTER_CAP {
        (e + 1) as u64
    } else {
        e
    }
}

/// A due countdown that was served restarts at its interval; one that could
/// not be served stays due; any other counts down by one.
pub open spec fn next_countdown(cd: u64, served: bool, interval: u64) -> u64 {
    if cd == 0 {
        if served {
            interval
        } else {
            0
        }
    } else {
        (cd - 1) as u64
    }
}

impl CycleState {
    /// The state before the first cycle: descriptions due on the second
    /// cycle, menus on the first, no errors yet.
    pub fn initial() -> (s: CycleState)
        ensures
            s.repeated_errors == 0,
            s.desc_countdown == 1,
            s.menu_countdown == 0,
            state_wf(s),
    {
        CycleState { repeated_errors: 0, desc_countdown: 1, menu_countdown: 0 }
    }
}

/// What one cycle was able to fetch: the schedule feed's term and records
/// (`None` on a fetch failure), the permission counts, the catalog scrape
/// when one was due and succeeded, and whether a due menu fetch succeeded.
pub struct CycleInput {
    pub schedule: Option<(String, Vec<Course>)>,
    pub perm_pairs: Vec<(String, u64)>,
    pub descriptions: Option<Vec<CourseDescription>>,
    pub menus_ok: bool,
}

/// What one cycle leaves behind: the next state, the snapshot to publish
/// (`None` when the schedule fetch failed or was empty), and the updated
/// catalog entries when a catalog scrape was folded in.
pub struct CycleResult {
    pub state: CycleState,
    pub published: Option<(String, Vec<Course>)>,
    pub catalog: Option<Vec<CourseDescription>>,
}

/// Whether the schedule outcome counts as a success: zero parsed records is
/// a fetch failure, not an empty term.
pub open spec fn schedule_ok(input: CycleInput) -> bool {
    match input.schedule {
        Some(s) => s.1@.len() > 0,
        None => false,
    }
}

/// The courses of a successful schedule outcome.
pub open spec fn schedule_courses(input: CycleInput) -> Seq<Course> {
    input.schedule->Some_0.1@
}

/// The fetched records stamped with their permission counts, element by
/// element.
pub open spec fn stamped(fetched: Seq<Course>, perms: Seq<(String, u64)>) -> Seq<Course> {
    fetched.map(
        |i: int, c: Course| (Course { perm_count: perm_lookup(perms, c.identifier@), ..c }),
    )
}

/// The published snapshot comes from the fetched records: each is stamped
/// with its permission count, reconciled against the catalog scrape when one
/// arrived, and folded against the previous snapshot — one published course
/// per fetched record.
pub open spec fn pipeline_ok(
    fetched: Seq<Course>,
    perms: Seq<(String, u64)>,
    descriptions: Option<Vec<CourseDescription>>,
    previous: Seq<Course>,
    out: Seq<Course>,
) -> bool {
    let mid1 = stamped(fetched, perms);
    exists|mid2: Seq<Course>|
        {
            &&& #[trigger] mid2.len() == mid1.len()
            &&& (match descriptions {
                Some(descs) => forall|i: int|
                    0 <= i < mid1.len() ==> course_out_ok(mid1[i], descs@, #[trigger] mid2[i]),
                None => mid2 == mid1,
            })
            &&& out.len() == mid2.len()
            &&& (forall|i: int|
                0 <= i < mid2.len() ==> merged_course_ok(mid2[i], previous, #[trigger] out[i]))
        }
}

/// Everything one cycle promises.  On a schedule failure nothing is
/// published, the error counter bumps, and the countdowns tick without being
/// served.  On success the records pass through the permission stamp, then —
/// when a catalog scrape arrived — reconciliation, then the merge against the
/// previous snapshot; the published set holds exactly one course per fetched
/// record.  A due catalog fetch that failed leaves its countdown due and
/// bumps the error counter; so does a due menu fetch that failed.
pub open spec fn cycle_post(
    previous: Seq<Course>,
    state: CycleState,
    input: CycleInput,
    r: CycleResult,
) -> bool {
    if !schedule_ok(input) {
        &&& r.published is None
        &&& r.catalog is None
        &&& r.state.repeated_errors == bump_error(state.repeated_errors)
        &&& r.state.desc_countdown == next_countdown(state.desc_countdown, false, DESCRIPTION_INTERVAL_MULTIPLIER as u64)
        &&& r.state.menu_countdown == next_countdown(state.menu_countdown, false, MENU_INTERVAL_MULTIPLIER as u64)
    } else {
        let fetched = schedule_courses(input);
        let desc_due = state.desc_countdown == 0;
        let desc_served = desc_due && input.descriptions is Some;
        let menu_due = state.menu_countdown == 0;
        let menu_served = menu_due && input.menus_ok;
        let e1: u64 = 0u64;
        let e2 = if desc_due && !desc_served {
            bump_error(e1)
        } else {
            e1
        };
        let e3 = if menu_due && !menu_served {
            bump_error(e2)
        } else {
            e2
        };
        &&& r.state.repeated_errors == e3
        &&& r.state.desc_countdown == next_countdown(state.desc_countdown, desc_served, DESCRIPTION_INTERVAL_MULTIPLIER as u64)
        &&& r.state.menu_countdown == next_countdown(state.menu_countdown, menu_served, MENU_INTERVAL_MULTIPLIER as u64)
        &&& r.published matches Some(p) && p.0@ == input.schedule->Some_0.0@ && pipeline_ok(
            fetched,
            input.perm_pairs@,
            input.descriptions,
            previous,
            p.1@,
        )
        &&& (match input.descriptions {
            Some(descs) => r.catalog matches Some(cat) && cat@.len() == descs@.len() && (forall|
                k: int,
            |
                0 <= k < descs@.len() ==> view_of_desc(#[trigger] cat@[k]) == descs_state_all(
                    stamped(fetched, input.perm_pairs@),
                    descs@,
                    fetched.len() as int,
                )[k]),
            None => r.catalog is None,
        })
    }
}

/// Run the decisions of one cycle over what the fetches brought back.
pub fn run_cycle(
    previous_courses: Vec<Course>,
    state: &CycleState,
    input: CycleInput,
) -> (r: CycleResult)
    ensures
        cycle_post(previous_courses@, *state, input, r),
        state_wf(*state) ==> state_wf(r.state),
{
    let ghost input0 = input;
    let CycleInput { schedule, perm_pairs, descriptions, menus_ok } = input;
    let desc_due = state.desc_countdown == 0;
    let menu_due = state.menu_countdown == 0;
    match schedule {
        Some(sch) => {
            let (term, courses) = sch;
            if courses.len() == 0 {
                return CycleResult {
                    state: CycleState {
                        repeated_errors: bump_error_exec(state.repeated_errors),
                        desc_countdown: tick(state.desc_countdown, false, DESCRIPTION_INTERVAL_MULTIPLIER),
                        menu_countdown: tick(state.menu_countdown, false, MENU_INTERVAL_MULTIPLIER),
                    },
                    published: None,
                    catalog: None,
                };
            }
            let ghost fetched = courses@;
            let with_perms = merge_perms_into_courses(courses, perm_pairs);
            let ghost mid1 = with_perms@;
            let mut errors: u64 = 0;
            let desc_served = desc_due && descriptions.is_some();
            if desc_due && descriptions.is_none() {
                errors = bump_error_exec(errors);
            }
            let menu_served = menu_due && menus_ok;
            if menu_due && !menus_ok {
                errors = bump_error_exec(errors);
            }
            let (reconciled, catalog): (Vec<Course>, Option<Vec<CourseDescription>>) =
                match descriptions {
                Some(descs) => {
                    let (cs, ds) = merge_description_and_courses(with_perms, descs);
                    (cs, Some(ds))
                },
                None => (with_perms, None),
            };
            let ghost mid2 = reconciled@;
            let merged = merge_courses(previous_courses, reconciled);
            proof {
                assert(mid1.len() == fetched.len());
                assert(mid2.len() == mid1.len());
                assert(merged@.len() == mid2.len());
                assert(mid1 =~= stamped(fetched, input0.perm_pairs@));
            }
            let result = CycleResult {
                state: CycleState {
                    repeated_errors: errors,
                    desc_countdown: tick(state.desc_countdown, desc_served, DESCRIPTION_INTERVAL_MULTIPLIER),
                    menu_countdown: tick(state.menu_countdown, menu_served, MENU_INTERVAL_MULTIPLIER),
                },
                published: Some((term, merged)),
                catalog,
            };
            proof {
                assert(schedule_ok(input0));
                assert(schedule_courses(input0) == fetched);
            }
            result
        },
        None => CycleResult {
            state: CycleState {
                repeated_errors: bump_error_exec(state.repeated_errors),
                desc_countdown: tick(state.desc_countdown, false, DESCRIPTION_INTERVAL_MULTIPLIER),
                menu_countdown: tick(state.menu_countdown, false, MENU_INTERVAL_MULTIPLIER),
            },
            published: None,
            catalog: None,
        },
    }
}

fn bump_error_exec(e: u64) -> (r: u64)
    ensures
        r == bump_error(e),
        e <= ERROR_COUNTER_CAP ==> r <= ERROR_COUNTER_CAP,
{
    if e < ERROR_COUNTER_CAP {
        e + 1
    } else {
        e
    }
}

fn tick(cd: u64, served: bool, interval: u64) -> (r: u64)
    ensures
        r == next_countdown(cd, served, interval),
{
    if cd == 0 {
        if served {
            interval
        } else {
            0
        }
    } else {
        cd - 1
    }
}

/// How long to sleep after a cycle: the base interval plus the caller's
/// jitter, and — past a small threshold — a boost that grows linearly with
/// the repeated-error counter, a graceful backoff that bounds staleness.
pub fn sleep_seconds(repeated_errors: u64, jitter: u64) -> (r: u64)
    requires
        repeated_errors <= ERROR_COUNTER_CAP,
        jitter < 100,
    ensures
        repeated_errors <= 1 ==> r == API_UPDATE_INTERVAL + jitter,
        repeated_errors > 1 ==> r == API_UPDATE_INTERVAL + jitter + 600 + repeated_errors * 120,
{
    if repeated_errors > 1 {
        API_UPDATE_INTERVAL + jitter + 600 + repeated_errors * 120
    } else {
        API_UPDATE_INTERVAL + jitter
    }
}

// ---------------------------------------------------------------------------
// Law
// ---------------------------------------------------------------------------
/// Orchestrator isolation: when the schedule fetch succeeds with records but
/// the due catalog fetch fails, the cycle still publishes exactly one course
/// per fetched record, and the description countdown stays due rather than
/// resetting.
pub proof fn lemma_orchestrator_isolation(
    previous: Seq<Course>,
    state: CycleState,
    input: CycleInput,
    r: CycleResult,
)
    requires
        cycle_post(previous, state, input, r),
        schedule_ok(input),
        state.desc_countdown == 0,
        input.descriptions is None,
    ensures
        r.published matches Some(p) && p.1@.len() == schedule_courses(input).len(),
        r.state.desc_countdown == 0,
{
}

} // verus!
