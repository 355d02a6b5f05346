//! Seat-count histograms over the week: for every weekday and minute-scale
//! slot, how many taken seats start or end a meeting there.

use vstd::prelude::*;
use crate::model::{Course, CourseTiming, Day, day_to_index};

verus! {

/// Cells per row; a slot index at or past this is out of the grid and is
/// skipped.
pub const SLOTS: usize = 1440;

/// The slot a timing's start falls into.
pub open spec fn start_slot(t: CourseTiming) -> int {
    t.start_hour + t.start_minute * 60
}

/// The slot a timing's end falls into.
pub open spec fn end_slot(t: CourseTiming) -> int {
    t.end_hour + t.end_minute * 60
}

/// How many of the listed days fall on weekday row `d`.
pub open spec fn count_days(days: Seq<Day>, d: int) -> int
    decreases days.len(),
{
    if days.len() == 0 {
        0
    } else {
        count_days(days.drop_last(), d) + (if day_to_index(days.last()) == d {
            1int
        } else {
            0int
        })
    }
}

/// One timing's contribution to cell `(d, tt)`, given its slot.
pub open spec fn timing_cell(t: CourseTiming, seats: int, slot: int, d: int, tt: int) -> int {
    if slot == tt && 0 <= slot < SLOTS {
        seats * count_days(t.days@, d)
    } else {
        0
    }
}

/// One course's timings' contribution to a start cell.
pub open spec fn course_start_cell(ts: Seq<CourseTiming>, seats: int, d: int, tt: int) -> int
    decreases ts.len(),
{
    if ts.len() == 0 {
        0
    } else {
        course_start_cell(ts.drop_last(), seats, d, tt) + timing_cell(
            ts.last(),
            seats,
            start_slot(ts.last()),
            d,
            tt,
        )
    }
}

/// One course's timings' contribution to an end cell.
pub open spec fn course_end_cell(ts: Seq<CourseTiming>, seats: int, d: int, tt: int) -> int
    decreases ts.len(),
{
    if ts.len() == 0 {
        0
    } else {
        course_end_cell(ts.drop_last(), seats, d, tt) + timing_cell(
            ts.last(),
            seats,
            end_slot(ts.last()),
            d,
            tt,
        )
    }
}

/// The taken seats starting in cell `(d, tt)`, over all courses.
pub open spec fn start_cell(courses: Seq<Course>, d: int, tt: int) -> int
    decreases courses.len(),
{
    if courses.len() == 0 {
        0
    } else {
        start_cell(courses.drop_last(), d, tt) + course_start_cell(
            courses.last().timing@,
            courses.last().seats_taken as int,
            d,
            tt,
        )
    }
}

/// The taken seats ending in cell `(d, tt)`, over all courses.
pub open spec fn end_cell(courses: Seq<Course>, d: int, tt: int) -> int
    decreases courses.len(),
{
    if courses.len() == 0 {
        0
    } else {
        end_cell(courses.drop_last(), d, tt) + course_end_cell(
            courses.last().timing@,
            courses.last().seats_taken as int,
            d,
            tt,
        )
    }
}

/// The machine bounds under which every cell stays far inside `i64`, and the
/// timing model's clock bound.
pub open spec fn timings_input_wf(courses: Seq<Course>) -> bool {
    &&& courses.len() <= 100000
    &&& (forall|i: int|
        0 <= i < courses.len() ==> {
            &&& -1000000 <= (#[trigger] courses[i]).seats_taken <= 1000000
            &&& courses[i].timing@.len() <= 100
            &&& (forall|j: int|
                0 <= j < courses[i].timing@.len() ==> (#[trigger] courses[i].timing@[j]).days@.len()
                    <= 10 && crate::model::timing_wf(courses[i].timing@[j]))
        })
}

proof fn lemma_count_days_bound(days: Seq<Day>, d: int)
    ensures
        0 <= count_days(days, d) <= days.len(),
    decreases days.len(),
{
    if days.len() > 0 {
        lemma_count_days_bound(days.drop_last(), d);
    }
}

proof fn lemma_timing_cell_bound(t: CourseTiming, seats: int, slot: int, d: int, tt: int)
    requires
        -1000000 <= seats <= 1000000,
        t.days@.len() <= 10,
    ensures
        -10000000 <= timing_cell(t, seats, slot, d, tt) <= 10000000,
{
    lemma_count_days_bound(t.days@, d);
    if slot == tt && 0 <= slot < SLOTS {
        assert(-10000000 <= seats * count_days(t.days@, d) <= 10000000) by (nonlinear_arith)
            requires
                -1000000 <= seats <= 1000000,
                0 <= count_days(t.days@, d) <= 10,
        ;
    }
}

proof fn lemma_course_cells_bound(ts: Seq<CourseTiming>, seats: int, d: int, tt: int)
    requires
        -1000000 <= seats <= 1000000,
        ts.len() <= 100,
        forall|j: int| 0 <= j < ts.len() ==> (#[trigger] ts[j]).days@.len() <= 10,
    ensures
        -(ts.len() * 10000000) <= course_start_cell(ts, seats, d, tt) <= ts.len() * 10000000,
        -(ts.len() * 10000000) <= course_end_cell(ts, seats, d, tt) <= ts.len() * 10000000,
    decreases ts.len(),
{
    if ts.len() > 0 {
        assert(forall|j: int|
            0 <= j < ts.drop_last().len() ==> ts.drop_last()[j] == ts[j]);
        lemma_course_cells_bound(ts.drop_last(), seats, d, tt);
        lemma_timing_cell_bound(ts.last(), seats, start_slot(ts.last()), d, tt);
        lemma_timing_cell_bound(ts.last(), seats, end_slot(ts.last()), d, tt);
    }
}

proof fn lemma_cells_bound(courses: Seq<Course>, d: int, tt: int)
    requires
        timings_input_wf(courses),
    ensures
        -(courses.len() * 1000000000) <= start_cell(courses, d, tt) <= courses.len() * 1000000000,
        -(courses.len() * 1000000000) <= end_cell(courses, d, tt) <= courses.len() * 1000000000,
    decreases courses.len(),
{
    if courses.len() > 0 {
        assert(forall|i: int|
            0 <= i < courses.drop_last().len() ==> courses.drop_last()[i] == courses[i]);
        assert(timings_input_wf(courses.drop_last()));
        lemma_cells_bound(courses.drop_last(), d, tt);
        let c = courses.last();
        lemma_course_cells_bound(c.timing@, c.seats_taken as int, d, tt);
    }
}

fn zero_grid() -> (g: Vec<i64>)
    ensures
        g@.len() == 7 * SLOTS,
        forall|k: int| 0 <= k < g@.len() ==> #[trigger] g@[k] == 0i64,
{
    let mut g: Vec<i64> = Vec::new();
    let mut k: usize = 0;
    while k < 7 * SLOTS
        invariant
            k <= 7 * SLOTS,
            g@.len() == k,
            forall|m: int| 0 <= m < k ==> #[trigger] g@[m] == 0i64,
        decreases 7 * SLOTS - k,
    {
        g.push(0);
        k = k + 1;
    }
    g
}

fn rows_of(flat: &Vec<i64>) -> (r: Vec<Vec<i64>>)
    requires
        flat@.len() == 7 * SLOTS,
    ensures
        r@.len() == 7,
        forall|d: int| 0 <= d < 7 ==> (#[trigger] r@[d])@.len() == SLOTS,
        forall|d: int, t: int|
            0 <= d < 7 && 0 <= t < SLOTS ==> #[trigger] (r@[d])@[t] == flat@[d * SLOTS + t],
{
    let mut r: Vec<Vec<i64>> = Vec::new();
    let mut d: usize = 0;
    while d < 7
        invariant
            flat@.len() == 7 * SLOTS,
            d <= 7,
            r@.len() == d,
            forall|q: int| 0 <= q < d ==> (#[trigger] r@[q])@.len() == SLOTS,
            forall|q: int, t: int|
                0 <= q < d && 0 <= t < SLOTS ==> #[trigger] (r@[q])@[t] == flat@[q * SLOTS + t],
        decreases 7 - d,
    {
        let mut row: Vec<i64> = Vec::new();
        let mut t: usize = 0;
        while t < SLOTS
            invariant
                flat@.len() == 7 * SLOTS,
                d < 7,
                t <= SLOTS,
                row@.len() == t,
                forall|m: int| 0 <= m < t ==> #[trigger] row@[m] == flat@[d * SLOTS + m],
            decreases SLOTS - t,
        {
            row.push(flat[d * SLOTS + t]);
            t = t + 1;
        }
        r.push(row);
        d = d + 1;
    }
    r
}

/// For every weekday and slot, the taken seats whose meetings start there and
/// end there: two 7-row grids of 1440 slots.  A timing whose clock fields put
/// it past the grid is skipped.
#[verifier::rlimit(80)]
pub fn compute_timings(courses: Vec<Course>) -> (r: (Vec<Vec<i64>>, Vec<Vec<i64>>))
    requires
        timings_input_wf(courses@),
    ensures
        r.0@.len() == 7 && r.1@.len() == 7,
        forall|d: int|
            0 <= d < 7 ==> (#[trigger] r.0@[d])@.len() == SLOTS && (#[trigger] r.1@[d])@.len()
                == SLOTS,
        forall|d: int, t: int|
            0 <= d < 7 && 0 <= t < SLOTS ==> #[trigger] (r.0@[d])@[t] == start_cell(courses@, d, t),
        forall|d: int, t: int|
            0 <= d < 7 && 0 <= t < SLOTS ==> #[trigger] (r.1@[d])@[t] == end_cell(courses@, d, t),
{
    let mut starts = zero_grid();
    let mut ends = zero_grid();
    let mut ci: usize = 0;
    proof {
        assert(forall|d: int, t: int|
            0 <= d < 7 && 0 <= t < SLOTS ==> start_cell(courses@.take(0), d, t) == 0
                && end_cell(courses@.take(0), d, t) == 0);
        assert forall|d: int, t: int| 0 <= d < 7 && 0 <= t < SLOTS implies 0 <= #[trigger] (d
            * SLOTS + t) < 7 * SLOTS by {
            assert(0 <= d * SLOTS + t < 7 * SLOTS) by (nonlinear_arith)
                requires
                    0 <= d < 7,
                    0 <= t < SLOTS,
            ;
        }
    }
    while ci < courses.len()
        invariant
            timings_input_wf(courses@),
            ci <= courses@.len(),
            starts@.len() == 7 * SLOTS,
            ends@.len() == 7 * SLOTS,
            forall|d: int, t: int|
                0 <= d < 7 && 0 <= t < SLOTS ==> #[trigger] starts@[d * SLOTS + t] == start_cell(
                    courses@.take(ci as int),
                    d,
                    t,
                ),
            forall|d: int, t: int|
                0 <= d < 7 && 0 <= t < SLOTS ==> #[trigger] ends@[d * SLOTS + t] == end_cell(
                    courses@.take(ci as int),
                    d,
                    t,
                ),
        decreases courses@.len() - ci,
    {
        let c = &courses[ci];
        let seats = c.seats_taken;
        let mut ti: usize = 0;
        proof {
            assert(courses@.take(ci as int).len() == ci);
            assert(forall|d: int, t: int|
                0 <= d < 7 && 0 <= t < SLOTS ==> course_start_cell(c.timing@.take(0), seats as int, d, t)
                    == 0 && course_end_cell(c.timing@.take(0), seats as int, d, t) == 0);
        }
        while ti < c.timing.len()
            invariant
                timings_input_wf(courses@),
                ci < courses@.len(),
                c == &courses@[ci as int],
                seats == c.seats_taken,
                ti <= c.timing@.len(),
                starts@.len() == 7 * SLOTS,
                ends@.len() == 7 * SLOTS,
                forall|d: int, t: int|
                    0 <= d < 7 && 0 <= t < SLOTS ==> #[trigger] starts@[d * SLOTS + t]
                        == start_cell(courses@.take(ci as int), d, t) + course_start_cell(
                        c.timing@.take(ti as int),
                        seats as int,
                        d,
                        t,
                    ),
                forall|d: int, t: int|
                    0 <= d < 7 && 0 <= t < SLOTS ==> #[trigger] ends@[d * SLOTS + t] == end_cell(
                        courses@.take(ci as int),
                        d,
                        t,
                    ) + course_end_cell(c.timing@.take(ti as int), seats as int, d, t),
            decreases c.timing@.len() - ti,
        {
            let tm = &c.timing[ti];
            let s_idx_u: u32 = tm.start_hour + tm.start_minute * 60;
            let e_idx_u: u32 = tm.end_hour + tm.end_minute * 60;
            proof {
                assert(c.timing@.take(ti + 1).drop_last() =~= c.timing@.take(ti as int));
                assert(c.timing@.take(ti + 1).last() == c.timing@[ti as int]);
            }
            let mut di: usize = 0;
            while di < tm.days.len()
                invariant
                    timings_input_wf(courses@),
                    ci < courses@.len(),
                    c == &courses@[ci as int],
                    seats == c.seats_taken,
                    ti < c.timing@.len(),
                    tm == &c.timing@[ti as int],
                    (s_idx_u as int) < SLOTS ==> s_idx_u as int == start_slot(*tm),
                    (s_idx_u as int) >= SLOTS ==> start_slot(*tm) >= SLOTS,
                    (e_idx_u as int) < SLOTS ==> e_idx_u as int == end_slot(*tm),
                    (e_idx_u as int) >= SLOTS ==> end_slot(*tm) >= SLOTS,
                    di <= tm.days@.len(),
                    starts@.len() == 7 * SLOTS,
                    ends@.len() == 7 * SLOTS,
                    forall|d: int, t: int|
                        0 <= d < 7 && 0 <= t < SLOTS ==> #[trigger] starts@[d * SLOTS + t]
                            == start_cell(courses@.take(ci as int), d, t) + course_start_cell(
                            c.timing@.take(ti as int),
                            seats as int,
                            d,
                            t,
                        ) + (if start_slot(*tm) == t && 0 <= start_slot(*tm) < SLOTS {
                            seats * count_days(tm.days@.take(di as int), d)
                        } else {
                            0
                        }),
                    forall|d: int, t: int|
                        0 <= d < 7 && 0 <= t < SLOTS ==> #[trigger] ends@[d * SLOTS + t]
                            == end_cell(courses@.take(ci as int), d, t) + course_end_cell(
                            c.timing@.take(ti as int),
                            seats as int,
                            d,
                            t,
                        ) + (if end_slot(*tm) == t && 0 <= end_slot(*tm) < SLOTS {
                            seats * count_days(tm.days@.take(di as int), d)
                        } else {
                            0
                        }),
                decreases tm.days@.len() - di,
            {
                let d = tm.days[di].to_index();
                proof {
                    assert(tm.days@.take(di + 1).drop_last() =~= tm.days@.take(di as int));
                    assert(tm.days@.take(di + 1).last() == tm.days@[di as int]);
                    lemma_cells_bound(courses@.take(ci as int), d as int, s_idx_u as int);
                    lemma_cells_bound(courses@.take(ci as int), d as int, e_idx_u as int);
                    lemma_course_cells_bound(
                        c.timing@.take(ti as int),
                        seats as int,
                        d as int,
                        s_idx_u as int,
                    );
                    lemma_course_cells_bound(
                        c.timing@.take(ti as int),
                        seats as int,
                        d as int,
                        e_idx_u as int,
                    );
                    lemma_count_days_bound(tm.days@.take(di as int), d as int);
                    lemma_count_days_bound(tm.days@.take(di + 1), d as int);
                    assert(timings_input_wf(courses@.take(ci as int)));
                    assert(-10000000 <= seats * count_days(tm.days@.take(di as int), d as int)
                        <= 10000000) by (nonlinear_arith)
                        requires
                            -1000000 <= seats <= 1000000,
                            0 <= count_days(tm.days@.take(di as int), d as int) <= 10,
                    ;
                    assert(-10000000 <= seats * count_days(tm.days@.take(di + 1), d as int)
                        <= 10000000) by (nonlinear_arith)
                        requires
                            -1000000 <= seats <= 1000000,
                            0 <= count_days(tm.days@.take(di + 1), d as int) <= 10,
                    ;
                    assert(seats * count_days(tm.days@.take(di + 1), d as int) == seats
                        * count_days(tm.days@.take(di as int), d as int) + (if day_to_index(
                        tm.days@[di as int],
                    ) == d as int {
                        seats as int
                    } else {
                        0int
                    })) by (nonlinear_arith)
                        requires
                            count_days(tm.days@.take(di + 1), d as int) == count_days(
                                tm.days@.take(di as int),
                                d as int,
                            ) + (if day_to_index(tm.days@[di as int]) == d as int {
                                1int
                            } else {
                                0int
                            }),
                    ;
                }
                if s_idx_u < SLOTS as u32 {
                    let s_idx = s_idx_u as usize;
                    let pos = d * SLOTS + s_idx;
                    proof {
                        assert(0 <= d * SLOTS + s_idx < 7 * SLOTS) by (nonlinear_arith)
                            requires
                                0 <= d < 7,
                                0 <= s_idx < SLOTS,
                        ;
                        assert forall|d2: int, t2: int|
                            0 <= d2 < 7 && 0 <= t2 < SLOTS && (d2 != d || t2 != s_idx) implies
                            #[trigger] (d2 * SLOTS + t2) != d * SLOTS + s_idx by {
                            assert(d2 * SLOTS + t2 != d * SLOTS + s_idx) by (nonlinear_arith)
                                requires
                                    0 <= d2 < 7,
                                    0 <= t2 < SLOTS,
                                    0 <= s_idx < SLOTS,
                                    d2 != d || t2 != s_idx,
                            ;
                        }
                    }
                    let cur = starts[pos];
                    starts.set(pos, cur + seats);
                }
                if e_idx_u < SLOTS as u32 {
                    let e_idx = e_idx_u as usize;
                    let pos = d * SLOTS + e_idx;
                    proof {
                        assert(0 <= d * SLOTS + e_idx < 7 * SLOTS) by (nonlinear_arith)
                            requires
                                0 <= d < 7,
                                0 <= e_idx < SLOTS,
                        ;
                        assert forall|d2: int, t2: int|
                            0 <= d2 < 7 && 0 <= t2 < SLOTS && (d2 != d || t2 != e_idx) implies
                            #[trigger] (d2 * SLOTS + t2) != d * SLOTS + e_idx by {
                            assert(d2 * SLOTS + t2 != d * SLOTS + e_idx) by (nonlinear_arith)
                                requires
                                    0 <= d2 < 7,
                                    0 <= t2 < SLOTS,
                                    0 <= e_idx < SLOTS,
                                    d2 != d || t2 != e_idx,
                            ;
                        }
                    }
                    let cur = ends[pos];
                    ends.set(pos, cur + seats);
                }
                di = di + 1;
            }
            proof {
                assert(tm.days@.take(tm.days@.len() as int) =~= tm.days@);
            }
            ti = ti + 1;
        }
        proof {
            assert(c.timing@.take(c.timing@.len() as int) =~= c.timing@);
            assert(courses@.take(ci + 1).drop_last() =~= courses@.take(ci as int));
            assert(courses@.take(ci + 1).last() == courses@[ci as int]);
        }
        ci = ci + 1;
    }
    proof {
        assert(courses@.take(courses@.len() as int) =~= courses@);
    }
    let r0 = rows_of(&starts);
    let r1 = rows_of(&ends);
    (r0, r1)
}

} // verus!
