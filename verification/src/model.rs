//! The record types that flow through the engine: schedule-side courses,
//! catalog-side descriptions, and the shared-list pair.

use vstd::prelude::*;
use crate::strutil::{
    push_char, str_eq, chars_of, string_of, replace_all, replace_all_spec, format_reqs_chars,
    format_reqs_spec,
};

verus! {

#[derive(Clone, Copy, Debug, PartialEq, Eq, Structural)]
pub enum CourseStatus {
    Open,
    Closed,
    Reopened,
}

#[derive(Clone, Copy, Debug, PartialEq, Eq, Structural)]
pub enum Day {
    Monday,
    Tuesday,
    Wednesday,
    Thursday,
    Friday,
    Saturday,
    Sunday,
    NA,
}

#[derive(Clone, Copy, Debug, PartialEq, Eq, Structural)]
pub enum School {
    ClaremontMckenna,
    Pitzer,
    Pomona,
    HarveyMudd,
    Scripps,
    Keck,
    ClaremontGraduate,
    NA,
}

/// Which school a two- or three-letter code names.
pub open spec fn school_from_code(s: Seq<char>) -> School {
    if s == "CM"@ || s == "CMC"@ {
        School::ClaremontMckenna
    } else if s == "PZ"@ || s == "PIZ"@ {
        School::Pitzer
    } else if s == "PO"@ || s == "POM"@ {
        School::Pomona
    } else if s == "HM"@ || s == "HMC"@ {
        School::HarveyMudd
    } else if s == "SC"@ || s == "SCP"@ {
        School::Scripps
    } else if s == "KG"@ || s == "KEC"@ {
        School::Keck
    } else if s == "CG"@ || s == "CGU"@ {
        School::ClaremontGraduate
    } else {
        School::NA
    }
}

impl School {
    pub fn new_from_string(s: &str) -> (r: School)
        ensures
            r == school_from_code(s@),
    {
        if str_eq(s, "CM") || str_eq(s, "CMC") {
            School::ClaremontMckenna
        } else if str_eq(s, "PZ") || str_eq(s, "PIZ") {
            School::Pitzer
        } else if str_eq(s, "PO") || str_eq(s, "POM") {
            School::Pomona
        } else if str_eq(s, "HM") || str_eq(s, "HMC") {
            School::HarveyMudd
        } else if str_eq(s, "SC") || str_eq(s, "SCP") {
            School::Scripps
        } else if str_eq(s, "KG") || str_eq(s, "KEC") {
            School::Keck
        } else if str_eq(s, "CG") || str_eq(s, "CGU") {
            School::ClaremontGraduate
        } else {
            School::NA
        }
    }
}

/// Which day a schedule-feed letter names.
pub open spec fn day_from_char(c: char) -> Day {
    match c {
        'M' => Day::Monday,
        'T' => Day::Tuesday,
        'W' => Day::Wednesday,
        'R' => Day::Thursday,
        'F' => Day::Friday,
        'S' => Day::Saturday,
        'U' => Day::Sunday,
        _ => Day::NA,
    }
}

/// The letter that renders a day, `'0'` for the unknown day.
pub open spec fn day_to_char(d: Day) -> char {
    match d {
        Day::Monday => 'M',
        Day::Tuesday => 'T',
        Day::Wednesday => 'W',
        Day::Thursday => 'R',
        Day::Friday => 'F',
        Day::Saturday => 'S',
        Day::Sunday => 'U',
        Day::NA => '0',
    }
}

/// Position of a day in a week row, the unknown day sharing slot 0.
pub open spec fn day_to_index(d: Day) -> int {
    match d {
        Day::Monday => 0,
        Day::Tuesday => 1,
        Day::Wednesday => 2,
        Day::Thursday => 3,
        Day::Friday => 4,
        Day::Saturday => 5,
        Day::Sunday => 6,
        Day::NA => 0,
    }
}

impl Day {
    pub fn new_from_char(c: char) -> (r: Self)
        ensures
            r == day_from_char(c),
    {
        match c {
            'M' => Day::Monday,
            'T' => Day::Tuesday,
            'W' => Day::Wednesday,
            'R' => Day::Thursday,
            'F' => Day::Friday,
            'S' => Day::Saturday,
            'U' => Day::Sunday,
            _ => Day::NA,
        }
    }

    pub fn to_char(&self) -> (r: char)
        ensures
            r == day_to_char(*self),
    {
        match self {
            Day::Monday => 'M',
            Day::Tuesday => 'T',
            Day::Wednesday => 'W',
            Day::Thursday => 'R',
            Day::Friday => 'F',
            Day::Saturday => 'S',
            Day::Sunday => 'U',
            Day::NA => '0',
        }
    }

    pub fn to_index(&self) -> (r: usize)
        ensures
            r == day_to_index(*self),
    {
        match self {
            Day::Monday => 0,
            Day::Tuesday => 1,
            Day::Wednesday => 2,
            Day::Thursday => 3,
            Day::Friday => 4,
            Day::Saturday => 5,
            Day::Sunday => 6,
            Day::NA => 0,
        }
    }
}

#[derive(Clone, Debug)]
pub struct Location {
    pub school: School,
    pub building: String,
    pub room: String,
}

/// Two locations hold the same data.
pub open spec fn loc_eq(a: Location, b: Location) -> bool {
    a.school == b.school && a.building@ == b.building@ && a.room@ == b.room@
}

impl Location {
    pub fn get_minimal_location(&self) -> (r: String)
        ensures
            r@ == self.building@ + seq![' '] + self.room@,
    {
        let mut out = self.building.clone();
        push_char(&mut out, ' ');
        let r = out.concat(self.room.as_str());
        proof {
            assert(r@ =~= self.building@ + seq![' '] + self.room@);
        }
        r
    }

    pub fn get_full_location(&self) -> (r: (School, String, String))
        ensures
            r.0 == self.school,
            r.1@ == self.building@,
            r.2@ == self.room@,
    {
        (self.school, self.building.clone(), self.room.clone())
    }
}

// ---------------------------------------------------------------------------
// Time-of-day rendering
// ---------------------------------------------------------------------------
/// The digit character for one decimal digit.
pub open spec fn digit_char(d: int) -> char {
    if d == 0 {
        '0'
    } else if d == 1 {
        '1'
    } else if d == 2 {
        '2'
    } else if d == 3 {
        '3'
    } else if d == 4 {
        '4'
    } else if d == 5 {
        '5'
    } else if d == 6 {
        '6'
    } else if d == 7 {
        '7'
    } else if d == 8 {
        '8'
    } else {
        '9'
    }
}

/// Two-digit zero-padded rendering of a value below 100.
pub open spec fn two_digits(x: int) -> Seq<char> {
    seq![digit_char(x / 10), digit_char(x % 10)]
}

/// The hour on a 12-hour clock face.
pub open spec fn hour12(h: int) -> int {
    if h == 0 {
        12
    } else if h > 12 {
        h - 12
    } else {
        h
    }
}

/// `hh:mmAM`/`hh:mmPM` rendering of a time of day, as the schedule feed shows it.
pub open spec fn time12_chars(h: int, m: int) -> Seq<char> {
    two_digits(hour12(h)) + seq![':'] + two_digits(m) + (if h < 12 {
        seq!['A', 'M']
    } else {
        seq!['P', 'M']
    })
}

fn digit_of(d: u32) -> (c: char)
    requires
        d < 10,
    ensures
        c == digit_char(d as int),
{
    match d {
        0 => '0',
        1 => '1',
        2 => '2',
        3 => '3',
        4 => '4',
        5 => '5',
        6 => '6',
        7 => '7',
        8 => '8',
        _ => '9',
    }
}

fn push_two_digits(s: &mut String, x: u32)
    requires
        x < 100,
    ensures
        final(s)@ == old(s)@ + two_digits(x as int),
{
    push_char(s, digit_of(x / 10));
    push_char(s, digit_of(x % 10));
    proof {
        assert(final(s)@ =~= old(s)@ + two_digits(x as int));
    }
}

fn time12_string(h: u32, m: u32) -> (r: String)
    requires
        h < 24,
        m < 60,
    ensures
        r@ == time12_chars(h as int, m as int),
{
    let mut s = String::new();
    let h12: u32 = if h == 0 {
        12
    } else if h > 12 {
        h - 12
    } else {
        h
    };
    push_two_digits(&mut s, h12);
    push_char(&mut s, ':');
    push_two_digits(&mut s, m);
    if h < 12 {
        push_char(&mut s, 'A');
    } else {
        push_char(&mut s, 'P');
    }
    push_char(&mut s, 'M');
    proof {
        assert(s@ =~= time12_chars(h as int, m as int));
    }
    s
}

// ---------------------------------------------------------------------------
// CourseTiming
// ---------------------------------------------------------------------------
/// One meeting block of a section. Times are plain hour/minute pairs on a
/// 24-hour clock; the adapters parse the feed's `hh:mmAM` text into these.
#[derive(Clone, Debug)]
pub struct CourseTiming {
    pub days: Vec<Day>,
    pub start_hour: u32,
    pub start_minute: u32,
    pub end_hour: u32,
    pub end_minute: u32,
    pub location: Location,
}

/// A timing's clock fields name a real time of day.
pub open spec fn timing_wf(t: CourseTiming) -> bool {
    t.start_hour < 24 && t.start_minute < 60 && t.end_hour < 24 && t.end_minute < 60
}

/// Two timings hold the same data.
pub open spec fn timing_eq(a: CourseTiming, b: CourseTiming) -> bool {
    a.days@ == b.days@ && a.start_hour == b.start_hour && a.start_minute == b.start_minute
        && a.end_hour == b.end_hour && a.end_minute == b.end_minute && loc_eq(
        a.location,
        b.location,
    )
}

/// The day letters of a timing, in order.
pub open spec fn days_code_spec(days: Seq<Day>) -> Seq<char> {
    days.map(|i: int, d: Day| day_to_char(d))
}

impl CourseTiming {
    pub fn get_days_code(&self) -> (r: String)
        ensures
            r@ == days_code_spec(self.days@),
    {
        let mut s = String::new();
        let mut i: usize = 0;
        while i < self.days.len()
            invariant
                i <= self.days@.len(),
                s@ == days_code_spec(self.days@.take(i as int)),
            decreases self.days@.len() - i,
        {
            push_char(&mut s, self.days[i].to_char());
            i = i + 1;
            proof {
                assert(s@ =~= days_code_spec(self.days@.take(i as int)));
            }
        }
        proof {
            assert(self.days@.take(self.days@.len() as int) =~= self.days@);
        }
        s
    }

    pub fn get_minimal_location(&self) -> (r: String)
        ensures
            r@ == self.location.building@ + seq![' '] + self.location.room@,
    {
        self.location.get_minimal_location()
    }

    pub fn get_full_location(&self) -> (r: (School, String, String))
        ensures
            r.0 == self.location.school,
            r.1@ == self.location.building@,
            r.2@ == self.location.room@,
    {
        self.location.get_full_location()
    }

    pub fn get_start_time_str(&self) -> (r: String)
        requires
            timing_wf(*self),
        ensures
            r@ == time12_chars(self.start_hour as int, self.start_minute as int),
    {
        time12_string(self.start_hour, self.start_minute)
    }

    pub fn get_end_time_str(&self) -> (r: String)
        requires
            timing_wf(*self),
        ensures
            r@ == time12_chars(self.end_hour as int, self.end_minute as int),
    {
        time12_string(self.end_hour, self.end_minute)
    }

    pub fn get_days(&self) -> (r: Vec<Day>)
        ensures
            r@ == self.days@,
    {
        self.days.clone()
    }

    pub fn get_start_time_index(&self) -> (r: u32)
        requires
            timing_wf(*self),
        ensures
            r == self.start_hour + self.start_minute * 60,
    {
        self.start_hour + (self.start_minute * 60)
    }

    pub fn get_end_time_index(&self) -> (r: u32)
        requires
            timing_wf(*self),
        ensures
            r == self.end_hour + self.end_minute * 60,
    {
        self.end_hour + (self.end_minute * 60)
    }
}

pub fn timing_same(a: &CourseTiming, b: &CourseTiming) -> (r: bool)
    ensures
        r == timing_eq(*a, *b),
{
    if a.days.len() != b.days.len() {
        proof {
            assert(a.days@ != b.days@);
        }
        return false;
    }
    let mut i: usize = 0;
    while i < a.days.len()
        invariant
            a.days@.len() == b.days@.len(),
            i <= a.days@.len(),
            forall|k: int| 0 <= k < i ==> a.days@[k] == b.days@[k],
        decreases a.days@.len() - i,
    {
        if a.days[i] != b.days[i] {
            return false;
        }
        i = i + 1;
    }
    proof {
        assert(a.days@ =~= b.days@);
    }
    a.start_hour == b.start_hour && a.start_minute == b.start_minute && a.end_hour == b.end_hour
        && a.end_minute == b.end_minute && a.location.school == b.location.school && str_eq(
        a.location.building.as_str(),
        b.location.building.as_str(),
    ) && str_eq(a.location.room.as_str(), b.location.room.as_str())
}

// ---------------------------------------------------------------------------
// Course
// ---------------------------------------------------------------------------
/// The canonical key `code-id-dept-section`.
pub open spec fn ident_key(
    code: Seq<char>,
    id: Seq<char>,
    dept: Seq<char>,
    section: Seq<char>,
) -> Seq<char> {
    code + seq!['-'] + id + seq!['-'] + dept + seq!['-'] + section
}

/// One offered section, as the merged snapshot holds it.  Credits are stored
/// times one hundred, so three and a half credits are 350.
#[derive(Clone, Debug)]
pub struct Course {
    pub identifier: String,
    pub id: String,
    pub code: String,
    pub dept: String,
    pub section: String,
    pub title: String,
    pub max_seats: i64,
    pub seats_taken: i64,
    pub seats_remaining: i64,
    pub credits: u64,
    pub credits_hmc: u64,
    pub status: CourseStatus,
    pub timing: Vec<CourseTiming>,
    pub instructors: Vec<String>,
    pub notes: String,
    pub description: String,
    pub prerequisites: String,
    pub corequisites: String,
    pub offered: String,
    pub perm_count: u64,
    pub fee: u64,
}

/// Every clock field of every timing names a real time of day.
pub open spec fn course_wf(c: Course) -> bool {
    forall|i: int| 0 <= i < c.timing@.len() ==> timing_wf(#[trigger] c.timing@[i])
}

/// One displayed line of a timing: day letters, the twelve-hour clock range,
/// and the short location.
pub open spec fn timing_line_spec(t: CourseTiming) -> Seq<char> {
    seq!['\n'] + days_code_spec(t.days@) + seq![' ', '|', ' '] + time12_chars(
        t.start_hour as int,
        t.start_minute as int,
    ) + seq![' ', '-', ' '] + time12_chars(t.end_hour as int, t.end_minute as int) + seq![
        ' ',
        'a',
        't',
        ' ',
    ] + t.location.building@ + seq![' '] + t.location.room@
}

/// The displayed timing lines of a course, in order.
pub open spec fn timings_minimal_spec(ts: Seq<CourseTiming>) -> Seq<char>
    decreases ts.len(),
{
    if ts.len() == 0 {
        Seq::<char>::empty()
    } else {
        timings_minimal_spec(ts.drop_last()) + timing_line_spec(ts.last())
    }
}

/// Two courses hold the same data.
pub open spec fn course_eq(a: Course, b: Course) -> bool {
    &&& a.identifier@ == b.identifier@
    &&& a.id@ == b.id@
    &&& a.code@ == b.code@
    &&& a.dept@ == b.dept@
    &&& a.section@ == b.section@
    &&& a.title@ == b.title@
    &&& a.max_seats == b.max_seats
    &&& a.seats_taken == b.seats_taken
    &&& a.seats_remaining == b.seats_remaining
    &&& a.credits == b.credits
    &&& a.credits_hmc == b.credits_hmc
    &&& a.status == b.status
    &&& a.timing@.len() == b.timing@.len()
    &&& (forall|i: int| 0 <= i < a.timing@.len() ==> timing_eq(a.timing@[i], b.timing@[i]))
    &&& a.instructors.deep_view() == b.instructors.deep_view()
    &&& a.notes@ == b.notes@
    &&& a.description@ == b.description@
    &&& a.prerequisites@ == b.prerequisites@
    &&& a.corequisites@ == b.corequisites@
    &&& a.offered@ == b.offered@
    &&& a.perm_count == b.perm_count
    &&& a.fee == b.fee
}

/// Whether two lists of instructor names hold the same names.
pub fn names_same(a: &Vec<String>, b: &Vec<String>) -> (r: bool)
    ensures
        r == (a.deep_view() == b.deep_view()),
{
    if a.len() != b.len() {
        proof {
            assert(a.deep_view().len() != b.deep_view().len());
        }
        return false;
    }
    let mut i: usize = 0;
    while i < a.len()
        invariant
            a@.len() == b@.len(),
            i <= a@.len(),
            forall|k: int| 0 <= k < i ==> a@[k]@ == b@[k]@,
        decreases a@.len() - i,
    {
        if !str_eq(a[i].as_str(), b[i].as_str()) {
            proof {
                assert(a.deep_view()[i as int] != b.deep_view()[i as int]);
            }
            return false;
        }
        i = i + 1;
    }
    proof {
        assert(a.deep_view() =~= b.deep_view());
    }
    true
}

/// Whether two courses hold the same data.
pub fn course_same(a: &Course, b: &Course) -> (r: bool)
    ensures
        r == course_eq(*a, *b),
{
    if !(str_eq(a.identifier.as_str(), b.identifier.as_str()) && str_eq(
        a.id.as_str(),
        b.id.as_str(),
    ) && str_eq(a.code.as_str(), b.code.as_str()) && str_eq(a.dept.as_str(), b.dept.as_str())
        && str_eq(a.section.as_str(), b.section.as_str()) && str_eq(
        a.title.as_str(),
        b.title.as_str(),
    )) {
        return false;
    }
    if !(a.max_seats == b.max_seats && a.seats_taken == b.seats_taken && a.seats_remaining
        == b.seats_remaining && a.credits == b.credits && a.credits_hmc == b.credits_hmc && a.status
        == b.status && a.perm_count == b.perm_count && a.fee == b.fee) {
        return false;
    }
    if !(str_eq(a.notes.as_str(), b.notes.as_str()) && str_eq(
        a.description.as_str(),
        b.description.as_str(),
    ) && str_eq(a.prerequisites.as_str(), b.prerequisites.as_str()) && str_eq(
        a.corequisites.as_str(),
        b.corequisites.as_str(),
    ) && str_eq(a.offered.as_str(), b.offered.as_str())) {
        return false;
    }
    if !names_same(&a.instructors, &b.instructors) {
        return false;
    }
    if a.timing.len() != b.timing.len() {
        return false;
    }
    let mut i: usize = 0;
    while i < a.timing.len()
        invariant
            a.timing@.len() == b.timing@.len(),
            i <= a.timing@.len(),
            forall|k: int| 0 <= k < i ==> timing_eq(a.timing@[k], b.timing@[k]),
        decreases a.timing@.len() - i,
    {
        if !timing_same(&a.timing[i], &b.timing[i]) {
            return false;
        }
        i = i + 1;
    }
    true
}

/// A copy of a timing whose contents provably equal the original's.
pub fn timing_dup(t: &CourseTiming) -> (r: CourseTiming)
    ensures
        timing_eq(*t, r),
{
    CourseTiming {
        days: t.days.clone(),
        start_hour: t.start_hour,
        start_minute: t.start_minute,
        end_hour: t.end_hour,
        end_minute: t.end_minute,
        location: Location {
            school: t.location.school,
            building: t.location.building.clone(),
            room: t.location.room.clone(),
        },
    }
}

/// A copy of a course whose contents provably equal the original's.
pub fn course_dup(c: &Course) -> (r: Course)
    ensures
        course_eq(*c, r),
        course_wf(*c) ==> course_wf(r),
{
    let mut timing: Vec<CourseTiming> = Vec::new();
    let mut i: usize = 0;
    while i < c.timing.len()
        invariant
            i <= c.timing@.len(),
            timing@.len() == i,
            forall|k: int| 0 <= k < i ==> timing_eq(c.timing@[k], #[trigger] timing@[k]),
        decreases c.timing@.len() - i,
    {
        timing.push(timing_dup(&c.timing[i]));
        i = i + 1;
    }
    let mut instructors: Vec<String> = Vec::new();
    let mut j: usize = 0;
    while j < c.instructors.len()
        invariant
            j <= c.instructors@.len(),
            instructors@.len() == j,
            forall|k: int| 0 <= k < j ==> instructors@[k]@ == #[trigger] c.instructors@[k]@,
        decreases c.instructors@.len() - j,
    {
        instructors.push(c.instructors[j].clone());
        j = j + 1;
    }
    proof {
        assert(instructors.deep_view() =~= c.instructors.deep_view());
    }
    Course {
        identifier: c.identifier.clone(),
        id: c.id.clone(),
        code: c.code.clone(),
        dept: c.dept.clone(),
        section: c.section.clone(),
        title: c.title.clone(),
        max_seats: c.max_seats,
        seats_taken: c.seats_taken,
        seats_remaining: c.seats_remaining,
        credits: c.credits,
        credits_hmc: c.credits_hmc,
        status: c.status,
        timing,
        instructors,
        notes: c.notes.clone(),
        description: c.description.clone(),
        prerequisites: c.prerequisites.clone(),
        corequisites: c.corequisites.clone(),
        offered: c.offered.clone(),
        perm_count: c.perm_count,
        fee: c.fee,
    }
}

impl Course {
    pub fn create_identifier(code: String, id: String, dept: String, section: String) -> (r:
        String)
        ensures
            r@ == ident_key(code@, id@, dept@, section@),
    {
        let mut s = code;
        push_char(&mut s, '-');
        let mut s = s.concat(id.as_str());
        push_char(&mut s, '-');
        let mut s = s.concat(dept.as_str());
        push_char(&mut s, '-');
        let s = s.concat(section.as_str());
        proof {
            assert(s@ =~= ident_key(code@, id@, dept@, section@));
        }
        s
    }

    pub fn get_identifier(&self) -> (r: &String)
        ensures
            r@ == self.identifier@,
    {
        &self.identifier
    }

    pub fn get_id(&self) -> (r: &String)
        ensures
            r@ == self.id@,
    {
        &self.id
    }

    pub fn get_code(&self) -> (r: &String)
        ensures
            r@ == self.code@,
    {
        &self.code
    }

    pub fn get_dept(&self) -> (r: &String)
        ensures
            r@ == self.dept@,
    {
        &self.dept
    }

    pub fn get_section(&self) -> (r: &String)
        ensures
            r@ == self.section@,
    {
        &self.section
    }

    pub fn get_title(&self) -> (r: &String)
        ensures
            r@ == self.title@,
    {
        &self.title
    }

    pub fn get_max_seats(&self) -> (r: &i64)
        ensures
            *r == self.max_seats,
    {
        &self.max_seats
    }

    pub fn get_seats_taken(&self) -> (r: &i64)
        ensures
            *r == self.seats_taken,
    {
        &self.seats_taken
    }

    pub fn get_seats_remaining(&self) -> (r: &i64)
        ensures
            *r == self.seats_remaining,
    {
        &self.seats_remaining
    }

    pub fn get_credits(&self) -> (r: &u64)
        ensures
            *r == self.credits,
    {
        &self.credits
    }

    pub fn get_timings(&self) -> (r: Vec<CourseTiming>)
        ensures
            r@.len() == self.timing@.len(),
            forall|i: int| 0 <= i < r@.len() ==> timing_eq(self.timing@[i], r@[i]),
    {
        let mut out: Vec<CourseTiming> = Vec::new();
        let mut i: usize = 0;
        while i < self.timing.len()
            invariant
                i <= self.timing@.len(),
                out@.len() == i,
                forall|k: int| 0 <= k < i ==> timing_eq(self.timing@[k], #[trigger] out@[k]),
            decreases self.timing@.len() - i,
        {
            out.push(timing_dup(&self.timing[i]));
            i = i + 1;
        }
        out
    }

    pub fn get_notes(&self) -> (r: &String)
        ensures
            r@ == self.notes@,
    {
        &self.notes
    }

    /// Stores the notes with doubled periods collapsed.
    pub fn set_notes(&mut self, notes: String)
        ensures
            final(self).notes@ == replace_all_spec(notes@, seq!['.', '.'], seq!['.']),
            *final(self) == (Course { notes: final(self).notes, ..*old(self) }),
    {
        let v = chars_of(notes.as_str());
        let mut dots: Vec<char> = Vec::new();
        dots.push('.');
        dots.push('.');
        assert(dots@ =~= seq!['.', '.']);
        let mut dot: Vec<char> = Vec::new();
        dot.push('.');
        assert(dot@ =~= seq!['.']);
        let replaced = replace_all(&v, &dots, &dot);
        self.notes = string_of(&replaced);
    }

    /// One line per timing: day letters, the twelve-hour clock range, and
    /// the short location.
    #[verifier::rlimit(60)]
    pub fn get_timing_minimal(&self) -> (r: String)
        requires
            course_wf(*self),
        ensures
            r@ == timings_minimal_spec(self.timing@),
    {
        let mut out = String::new();
        let mut i: usize = 0;
        while i < self.timing.len()
            invariant
                course_wf(*self),
                i <= self.timing@.len(),
                out@ == timings_minimal_spec(self.timing@.take(i as int)),
            decreases self.timing@.len() - i,
        {
            let t = &self.timing[i];
            push_char(&mut out, '\n');
            let mut out2 = out.concat(t.get_days_code().as_str());
            push_char(&mut out2, ' ');
            push_char(&mut out2, '|');
            push_char(&mut out2, ' ');
            let mut out3 = out2.concat(t.get_start_time_str().as_str());
            push_char(&mut out3, ' ');
            push_char(&mut out3, '-');
            push_char(&mut out3, ' ');
            let mut out4 = out3.concat(t.get_end_time_str().as_str());
            push_char(&mut out4, ' ');
            push_char(&mut out4, 'a');
            push_char(&mut out4, 't');
            push_char(&mut out4, ' ');
            out = out4.concat(t.get_minimal_location().as_str());
            i = i + 1;
            proof {
                assert(self.timing@.take(i as int).drop_last() =~= self.timing@.take(i - 1));
                assert(self.timing@.take(i as int).last() == self.timing@[i - 1]);
                assert(out@ =~= timings_minimal_spec(self.timing@.take(i as int)));
            }
        }
        proof {
            assert(self.timing@.take(self.timing@.len() as int) =~= self.timing@);
        }
        out
    }

    pub fn get_desc_api_str(&self) -> (r: String)
        ensures
            r@ == self.code@ + self.id@ + seq![' '] + self.dept@,
    {
        let mut s = self.code.clone();
        let mut s = s.concat(self.id.as_str());
        push_char(&mut s, ' ');
        let s = s.concat(self.dept.as_str());
        proof {
            assert(s@ =~= self.code@ + self.id@ + seq![' '] + self.dept@);
        }
        s
    }

    pub fn get_desc_scrape_str(&self) -> (r: String)
        ensures
            r@ == self.code@ + self.id@ + self.dept@,
    {
        let s = self.code.clone();
        let s = s.concat(self.id.as_str());
        let s = s.concat(self.dept.as_str());
        proof {
            assert(s@ =~= self.code@ + self.id@ + self.dept@);
        }
        s
    }

    pub fn set_description(&mut self, description: String)
        ensures
            *final(self) == (Course { description: description, ..*old(self) }),
    {
        self.description = description;
    }

    pub fn get_description(&self) -> (r: String)
        ensures
            r == self.description,
    {
        self.description.clone()
    }

    /// The school of the first timing's location, when there is one.
    pub fn get_school(&self) -> (r: Option<School>)
        ensures
            (match r {
                Some(s) => self.timing@.len() > 0 && s == self.timing@[0].location.school,
                None => self.timing@.len() == 0,
            }),
    {
        if self.timing.len() > 0 {
            Some(self.timing[0].location.school)
        } else {
            None
        }
    }

    pub fn get_instructors(&self) -> (r: Vec<String>)
        ensures
            r.deep_view() == self.instructors.deep_view(),
    {
        let mut out: Vec<String> = Vec::new();
        let mut i: usize = 0;
        while i < self.instructors.len()
            invariant
                i <= self.instructors@.len(),
                out@.len() == i,
                forall|k: int| 0 <= k < i ==> out@[k]@ == #[trigger] self.instructors@[k]@,
            decreases self.instructors@.len() - i,
        {
            out.push(self.instructors[i].clone());
            i = i + 1;
        }
        proof {
            assert(out.deep_view() =~= self.instructors.deep_view());
        }
        out
    }

    /// Stores the prerequisites tidied by `format_reqs`.
    pub fn set_prerequisites(&mut self, prerequisites: String)
        ensures
            final(self).prerequisites@ == format_reqs_spec(prerequisites@),
            *final(self) == (Course { prerequisites: final(self).prerequisites, ..*old(self) }),
    {
        let v = chars_of(prerequisites.as_str());
        let formatted = format_reqs_chars(&v);
        self.prerequisites = string_of(&formatted);
    }

    pub fn get_prerequisites(&self) -> (r: String)
        ensures
            r == self.prerequisites,
    {
        self.prerequisites.clone()
    }

    /// Stores the corequisites tidied by `format_reqs`.
    pub fn set_corequisites(&mut self, corequisites: String)
        ensures
            final(self).corequisites@ == format_reqs_spec(corequisites@),
            *final(self) == (Course { corequisites: final(self).corequisites, ..*old(self) }),
    {
        let v = chars_of(corequisites.as_str());
        let formatted = format_reqs_chars(&v);
        self.corequisites = string_of(&formatted);
    }

    pub fn get_corequisites(&self) -> (r: String)
        ensures
            r == self.corequisites,
    {
        self.corequisites.clone()
    }

    pub fn set_fee(&mut self, fee: u64)
        ensures
            *final(self) == (Course { fee: fee, ..*old(self) }),
    {
        self.fee = fee;
    }

    pub fn get_fee(&self) -> (r: u64)
        ensures
            r == self.fee,
    {
        self.fee
    }

    /// Requisite text tidied for display; see `format_reqs_spec`.
    pub fn format_reqs(rec: String) -> (r: String)
        ensures
            r@ == format_reqs_spec(rec@),
    {
        let v = chars_of(rec.as_str());
        let formatted = format_reqs_chars(&v);
        string_of(&formatted)
    }

    pub fn set_perm_count(&mut self, perm_count: u64)
        ensures
            *final(self) == (Course { perm_count: perm_count, ..*old(self) }),
    {
        self.perm_count = perm_count;
    }
}

// ---------------------------------------------------------------------------
// CourseDescription
// ---------------------------------------------------------------------------
/// One catalog entry: a per-course description scraped from a catalog page,
/// to be attached to the schedule records it describes.
#[derive(Clone, Debug)]
pub struct CourseDescription {
    pub title: String,
    pub identifier: String,
    pub description: String,
    pub source: School,
    pub credits: u64,
    pub instructors: Vec<String>,
    pub offered: String,
    pub prerequisites: String,
    pub corequisites: String,
    pub currently_offered: bool,
    pub fee: u64,
}

/// Two catalog entries hold the same data.
pub open spec fn desc_eq(a: CourseDescription, b: CourseDescription) -> bool {
    &&& a.title@ == b.title@
    &&& a.identifier@ == b.identifier@
    &&& a.description@ == b.description@
    &&& a.source == b.source
    &&& a.credits == b.credits
    &&& a.instructors.deep_view() == b.instructors.deep_view()
    &&& a.offered@ == b.offered@
    &&& a.prerequisites@ == b.prerequisites@
    &&& a.corequisites@ == b.corequisites@
    &&& a.currently_offered == b.currently_offered
    &&& a.fee == b.fee
}

/// A copy of a catalog entry whose contents provably equal the original's.
pub fn desc_dup(d: &CourseDescription) -> (r: CourseDescription)
    ensures
        desc_eq(*d, r),
{
    let mut instructors: Vec<String> = Vec::new();
    let mut j: usize = 0;
    while j < d.instructors.len()
        invariant
            j <= d.instructors@.len(),
            instructors@.len() == j,
            forall|k: int| 0 <= k < j ==> instructors@[k]@ == #[trigger] d.instructors@[k]@,
        decreases d.instructors@.len() - j,
    {
        instructors.push(d.instructors[j].clone());
        j = j + 1;
    }
    proof {
        assert(instructors.deep_view() =~= d.instructors.deep_view());
    }
    CourseDescription {
        title: d.title.clone(),
        identifier: d.identifier.clone(),
        description: d.description.clone(),
        source: d.source,
        credits: d.credits,
        instructors,
        offered: d.offered.clone(),
        prerequisites: d.prerequisites.clone(),
        corequisites: d.corequisites.clone(),
        currently_offered: d.currently_offered,
        fee: d.fee,
    }
}

impl CourseDescription {
    pub fn new(
        title: String,
        identifier: String,
        description: String,
        source: School,
        credits: u64,
        instructors: Vec<String>,
        offered: String,
        prerequisites: String,
        corequisites: String,
        currently_offered: bool,
    ) -> (r: CourseDescription)
        ensures
            r == (CourseDescription {
                title,
                identifier,
                description,
                source,
                credits,
                instructors,
                offered,
                prerequisites,
                corequisites,
                currently_offered,
                fee: 0u64,
            }),
    {
        CourseDescription {
            title,
            identifier,
            description,
            source,
            credits,
            instructors,
            offered,
            prerequisites,
            corequisites,
            currently_offered,
            fee: 0,
        }
    }

    pub fn set_instructors(&mut self, instructors: Vec<String>)
        ensures
            *final(self) == (CourseDescription { instructors: instructors, ..*old(self) }),
    {
        self.instructors = instructors;
    }

    pub fn set_offered(&mut self)
        ensures
            *final(self) == (CourseDescription { currently_offered: true, ..*old(self) }),
    {
        self.currently_offered = true;
    }

    pub fn set_source(&mut self, source: School)
        ensures
            *final(self) == (CourseDescription { source: source, ..*old(self) }),
    {
        self.source = source;
    }

    pub fn get_source(&self) -> (r: &School)
        ensures
            *r == self.source,
    {
        &self.source
    }

    pub fn set_fee(&mut self, fee: u64)
        ensures
            *final(self) == (CourseDescription { fee: fee, ..*old(self) }),
    {
        self.fee = fee;
    }

    pub fn get_fee(&self) -> (r: u64)
        ensures
            r == self.fee,
    {
        self.fee
    }
}

/// The slice of a catalog-area listing that matters for descriptions: one
/// course's code, identifier key, title, description and counts.
#[derive(Clone, Debug)]
pub struct PartialPomCourse {
    pub course_code: String,
    pub identifier: String,
    pub title: String,
    pub description: String,
    pub perm_count: u64,
    pub credits: u64,
}

// ---------------------------------------------------------------------------
// SharedCourseList
// ---------------------------------------------------------------------------
/// The pair of course lists behind one share code.
#[derive(Clone, Debug)]
pub struct SharedCourseList {
    pub local_courses: Vec<Course>,
    pub custom_courses: Vec<Course>,
}

/// Two course sequences hold the same courses in the same order.
pub open spec fn courses_eq(a: Seq<Course>, b: Seq<Course>) -> bool {
    a.len() == b.len() && (forall|i: int| 0 <= i < a.len() ==> course_eq(a[i], b[i]))
}

/// Two shared lists hold the same data.
pub open spec fn scl_eq(a: SharedCourseList, b: SharedCourseList) -> bool {
    courses_eq(a.local_courses@, b.local_courses@) && courses_eq(
        a.custom_courses@,
        b.custom_courses@,
    )
}

/// Whether two course vectors hold the same courses in the same order.
pub fn courses_same(a: &Vec<Course>, b: &Vec<Course>) -> (r: bool)
    ensures
        r == courses_eq(a@, b@),
{
    if a.len() != b.len() {
        return false;
    }
    let mut i: usize = 0;
    while i < a.len()
        invariant
            a@.len() == b@.len(),
            i <= a@.len(),
            forall|k: int| 0 <= k < i ==> course_eq(a@[k], b@[k]),
        decreases a@.len() - i,
    {
        if !course_same(&a[i], &b[i]) {
            return false;
        }
        i = i + 1;
    }
    true
}

/// Whether two shared lists hold the same data.
pub fn scl_same(a: &SharedCourseList, b: &SharedCourseList) -> (r: bool)
    ensures
        r == scl_eq(*a, *b),
{
    courses_same(&a.local_courses, &b.local_courses) && courses_same(
        &a.custom_courses,
        &b.custom_courses,
    )
}

impl SharedCourseList {
    pub fn new(local_courses: Vec<Course>, custom_courses: Vec<Course>) -> (r: Self)
        ensures
            r == (SharedCourseList { local_courses, custom_courses }),
    {
        SharedCourseList { local_courses, custom_courses }
    }
}

} // verus!
