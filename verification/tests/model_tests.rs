use course_engine::model::{
    Course, CourseStatus, CourseTiming, Day, Location, School,
};
use course_engine::timings::compute_timings;

fn timing(days: Vec<Day>, sh: u32, sm: u32, eh: u32, em: u32) -> CourseTiming {
    CourseTiming {
        days,
        start_hour: sh,
        start_minute: sm,
        end_hour: eh,
        end_minute: em,
        location: Location {
            school: School::HarveyMudd,
            building: "Hall".to_string(),
            room: "B1".to_string(),
        },
    }
}

fn course_with_timing(t: CourseTiming, seats_taken: i64) -> Course {
    Course {
        identifier: "ASAM-126-HM-01".to_string(),
        id: "126".to_string(),
        code: "ASAM".to_string(),
        dept: "HM".to_string(),
        section: "01".to_string(),
        title: "T".to_string(),
        max_seats: 30,
        seats_taken,
        seats_remaining: 30 - seats_taken,
        credits: 100,
        credits_hmc: 300,
        status: CourseStatus::Open,
        timing: vec![t],
        instructors: Vec::new(),
        notes: String::new(),
        description: String::new(),
        prerequisites: String::new(),
        corequisites: String::new(),
        offered: String::new(),
        perm_count: 0,
        fee: 0,
    }
}

#[test]
fn schools_parse_from_codes() {
    assert_eq!(School::new_from_string("HM"), School::HarveyMudd);
    assert_eq!(School::new_from_string("POM"), School::Pomona);
    assert_eq!(School::new_from_string("zz"), School::NA);
}

#[test]
fn days_convert_both_ways() {
    assert_eq!(Day::new_from_char('R'), Day::Thursday);
    assert_eq!(Day::Thursday.to_char(), 'R');
    assert_eq!(Day::Sunday.to_index(), 6);
    assert_eq!(Day::new_from_char('x'), Day::NA);
}

#[test]
fn times_render_on_a_twelve_hour_clock() {
    let t = timing(vec![Day::Monday], 13, 5, 0, 0);
    assert_eq!(t.get_start_time_str(), "01:05PM");
    assert_eq!(t.get_end_time_str(), "12:00AM");
    assert_eq!(t.get_days_code(), "M");
}

#[test]
fn requisite_text_is_tidied() {
    // a capital after a lower-case letter opens a space and cuts the tail
    assert_eq!(Course::format_reqs("andE80".to_string()), "and E");
    // a leading comma separator is stripped
    assert_eq!(Course::format_reqs(", CSCI".to_string()), "CSCI");
    assert_eq!(Course::format_reqs("E80".to_string()), "E80");
}

#[test]
fn notes_setter_collapses_doubled_periods() {
    let t = timing(vec![Day::Monday], 9, 0, 10, 0);
    let mut c = course_with_timing(t, 4);
    c.set_notes("One.. Two.".to_string());
    assert_eq!(c.get_notes(), "One. Two.");
}

#[test]
fn identifier_key_joins_the_parts() {
    assert_eq!(
        Course::create_identifier(
            "ASAM".to_string(),
            "126".to_string(),
            "HM".to_string(),
            "01".to_string(),
        ),
        "ASAM-126-HM-01"
    );
}

#[test]
fn timing_lines_render_for_display() {
    let c = course_with_timing(timing(vec![Day::Monday, Day::Wednesday], 9, 0, 10, 15), 4);
    assert_eq!(c.get_timing_minimal(), "\nMW | 09:00AM - 10:15AM at Hall B1");
}

#[test]
fn timing_histograms_count_taken_seats() {
    // 9:30 lands in slot 9 + 30*60 == 1809, past the grid, so only the
    // minute-light slots register
    let a = course_with_timing(timing(vec![Day::Monday, Day::Wednesday], 9, 0, 10, 0), 4);
    let b = course_with_timing(timing(vec![Day::Monday], 9, 0, 11, 0), 3);
    let (starts, ends) = compute_timings(vec![a, b]);
    assert_eq!(starts.len(), 7);
    assert_eq!(starts[0].len(), 1440);
    // Monday slot 9: both courses start at 9:00
    assert_eq!(starts[0][9], 7);
    // Wednesday slot 9: only the first course meets there
    assert_eq!(starts[2][9], 4);
    assert_eq!(ends[0][10], 4);
    assert_eq!(ends[0][11], 3);
}
