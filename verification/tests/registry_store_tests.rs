use course_engine::model::{
    Course, CourseStatus, SharedCourseList, School,
};
use course_engine::registry::{CodeRegistry, generate_unique_code, get_course_list, sort_courses};
use course_engine::orchestrator::{CycleState, CycleInput, run_cycle};
use course_engine::store::MemDatabase;

fn bare_course(identifier: &str, title: &str) -> Course {
    Course {
        identifier: identifier.to_string(),
        id: "001".to_string(),
        code: "WID".to_string(),
        dept: "CM".to_string(),
        section: "01".to_string(),
        title: title.to_string(),
        max_seats: 10,
        seats_taken: 0,
        seats_remaining: 10,
        credits: 100,
        credits_hmc: 300,
        status: CourseStatus::Open,
        timing: Vec::new(),
        instructors: Vec::new(),
        notes: String::new(),
        description: String::new(),
        prerequisites: String::new(),
        corequisites: String::new(),
        offered: String::new(),
        perm_count: 0,
        fee: 0,
    }
}

fn list_of(ids: &[&str]) -> SharedCourseList {
    SharedCourseList {
        local_courses: ids.iter().map(|i| bare_course(i, "T")).collect(),
        custom_courses: Vec::new(),
    }
}

#[test]
fn codes_are_seven_symbols_from_the_alphabet() {
    let (code, _) = generate_unique_code(list_of(&["A-1-X-1"]), CodeRegistry::new());
    assert_eq!(code.chars().count(), 7);
    for c in code.chars() {
        assert!("234679QWERTYUPADFGHX".contains(c), "unexpected symbol {c}");
    }
}

#[test]
fn same_list_gets_one_code_without_growth() {
    let l1 = list_of(&["A-1-X-1", "B-2-Y-1"]);
    let l2 = list_of(&["B-2-Y-1", "A-1-X-1"]);  // same lists, submitted in another order
    let (c1, r1) = generate_unique_code(l1, CodeRegistry::new());
    let (c2, r2) = generate_unique_code(l2, r1);
    assert_eq!(c1, c2);
    assert_eq!(r2.pairs.len(), 1);
}

#[test]
fn different_lists_get_different_codes() {
    let (c1, r1) = generate_unique_code(list_of(&["A-1-X-1"]), CodeRegistry::new());
    let (c2, r2) = generate_unique_code(list_of(&["B-2-Y-1"]), r1);
    assert_ne!(c1, c2);
    assert_eq!(r2.pairs.len(), 2);
}

#[test]
fn lookup_finds_the_stored_list() {
    let (code, reg) = generate_unique_code(list_of(&["A-1-X-1"]), CodeRegistry::new());
    let found = get_course_list(code.clone(), &reg).unwrap();
    assert_eq!(found.local_courses.len(), 1);
    assert_eq!(found.local_courses[0].identifier, "A-1-X-1");
    assert!(get_course_list("???????".to_string(), &reg).is_none());
}

#[test]
fn sorting_normalizes_submission_order() {
    let sorted = sort_courses(vec![bare_course("B-2", "t"), bare_course("A-1", "t")]);
    assert_eq!(sorted[0].identifier, "A-1");
    assert_eq!(sorted[1].identifier, "B-2");
}

#[test]
fn orchestrator_publishes_despite_catalog_failure() {
    // schedule brings two records, the due catalog fetch fails: both records
    // are published and the description countdown stays due
    let state = CycleState { repeated_errors: 0, desc_countdown: 0, menu_countdown: 5 };
    let input = CycleInput {
        schedule: Some((
            "FA26".to_string(),
            vec![bare_course("A-1-X-1", "One"), bare_course("B-2-Y-1", "Two")],
        )),
        perm_pairs: Vec::new(),
        descriptions: None,
        menus_ok: false,
    };
    let r = run_cycle(Vec::new(), &state, input);
    let (term, published) = r.published.unwrap();
    assert_eq!(term, "FA26");
    assert_eq!(published.len(), 2);
    assert_eq!(r.state.desc_countdown, 0);
    assert_eq!(r.state.repeated_errors, 1);
    assert_eq!(r.state.menu_countdown, 4);
}

#[test]
fn orchestrator_counts_schedule_failures() {
    let state = CycleState { repeated_errors: 2, desc_countdown: 3, menu_countdown: 0 };
    let input = CycleInput {
        schedule: None,
        perm_pairs: Vec::new(),
        descriptions: None,
        menus_ok: false,
    };
    let r = run_cycle(Vec::new(), &state, input);
    assert!(r.published.is_none());
    assert_eq!(r.state.repeated_errors, 3);
    assert_eq!(r.state.desc_countdown, 2);
    assert_eq!(r.state.menu_countdown, 0);
}

#[test]
fn orchestrator_treats_empty_schedule_as_failure() {
    let state = CycleState::initial();
    let input = CycleInput {
        schedule: Some(("FA26".to_string(), Vec::new())),
        perm_pairs: Vec::new(),
        descriptions: None,
        menus_ok: false,
    };
    let r = run_cycle(Vec::new(), &state, input);
    assert!(r.published.is_none());
    assert_eq!(r.state.repeated_errors, 1);
}

#[test]
fn orchestrator_resets_countdown_when_served() {
    let state = CycleState { repeated_errors: 5, desc_countdown: 0, menu_countdown: 1 };
    let input = CycleInput {
        schedule: Some(("FA26".to_string(), vec![bare_course("A-1-X-1", "One")])),
        perm_pairs: Vec::new(),
        descriptions: Some(Vec::new()),
        menus_ok: false,
    };
    let r = run_cycle(Vec::new(), &state, input);
    assert!(r.published.is_some());
    assert_eq!(r.state.desc_countdown, 100);
    assert_eq!(r.state.repeated_errors, 0);
    assert!(r.catalog.is_some());
}

#[test]
fn store_serves_snapshot_only_when_stale() {
    let mut db = MemDatabase::new(50);
    db.course_cache = vec![bare_course("A-1-X-1", "One")];
    db.term = "FA26".to_string();
    assert!(db.get_snapshot_if_newer(50).is_none());
    let (courses, term, stamp) = db.get_snapshot_if_newer(49).unwrap();
    assert_eq!(courses.len(), 1);
    assert_eq!(term, "FA26");
    assert_eq!(stamp, 50);
}

#[test]
fn store_prunes_old_request_log_entries() {
    let mut db = MemDatabase::new(0);
    db.add_ten_log(1000);
    db.add_ten_log(1500);
    db.add_ten_log(2000);
    // 1000 is more than ten minutes behind 2000 and falls off the front
    assert_eq!(db.ten_minute_log, vec![1500, 2000]);
}

#[test]
fn store_lookup_uppercases_codes() {
    let mut db = MemDatabase::new(0);
    let code = db.assign_code(list_of(&["A-1-X-1"]));
    let lowered = code.to_lowercase();
    let found = db.lookup_code(&lowered).unwrap();
    assert_eq!(found.local_courses[0].identifier, "A-1-X-1");
}
