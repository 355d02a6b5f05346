use course_engine::model::{
    Course, CourseDescription, CourseStatus, CourseTiming, Day, Location, School, course_same,
};
use course_engine::extract::{between, between_multiple, process_req, find_reqs, find_fees};
use course_engine::merge::merge_courses;
use course_engine::reconcile::{
    find_description, merge_description_and_courses, merge_descriptions, merge_perms_into_courses,
    merge_locations,
};

fn course(identifier: &str, title: &str, school: School) -> Course {
    Course {
        identifier: identifier.to_string(),
        id: "126".to_string(),
        code: "ASAM".to_string(),
        dept: "HM".to_string(),
        section: "01".to_string(),
        title: title.to_string(),
        max_seats: 20,
        seats_taken: 5,
        seats_remaining: 15,
        credits: 100,
        credits_hmc: 300,
        status: CourseStatus::Open,
        timing: vec![
            CourseTiming {
                days: vec![Day::Monday, Day::Wednesday],
                start_hour: 13,
                start_minute: 5,
                end_hour: 14,
                end_minute: 20,
                location: Location {
                    school,
                    building: "Hall".to_string(),
                    room: "101".to_string(),
                },
            },
        ],
        instructors: vec!["A Teacher".to_string()],
        notes: String::new(),
        description: String::new(),
        prerequisites: String::new(),
        corequisites: String::new(),
        offered: String::new(),
        perm_count: 0,
        fee: 0,
    }
}

fn catalog_entry(identifier: &str, title: &str, description: &str, source: School)
    -> CourseDescription {
    CourseDescription {
        title: title.to_string(),
        identifier: identifier.to_string(),
        description: description.to_string(),
        source,
        credits: 100,
        instructors: Vec::new(),
        offered: String::new(),
        prerequisites: String::new(),
        corequisites: String::new(),
        currently_offered: false,
        fee: 0,
    }
}

#[test]
fn between_cuts_at_markers() {
    assert_eq!(between("a [x] b", "[", "]"), "x");
    assert_eq!(between("a [x b", "[", "]"), "x b");
}

#[test]
fn between_multiple_takes_earliest_marker() {
    assert_eq!(between_multiple("fee $250. more", "$", vec![" ", ".", ","]), "250");
}

#[test]
fn process_req_cuts_the_sentence() {
    let (rest, req) = process_req(
        "Studies X. Prerequisite: CSCI-51. More text.".to_string(),
        "Prerequisite".to_string(),
    );
    assert_eq!(req, "CSCI-51");
    assert_eq!(rest, "Studies X. More text.");
}

#[test]
fn extraction_scenario() {
    // the prerequisite sentence moves to the structured field, no double periods
    let mut descs = vec![catalog_entry(
        "CSCI-051-PO",
        "Computing",
        "Studies X. Prerequisite: CSCI-51. More text.",
        School::Pomona,
    )];
    let out = find_reqs(&mut descs);
    assert_eq!(out[0].prerequisites, "CSCI-51");
    assert_eq!(out[0].description, "Studies X. More text.");
}

#[test]
fn corequisites_are_extracted_too() {
    let mut descs = vec![catalog_entry(
        "CSCI-051-PO",
        "Computing",
        "Studies X. Corequisite: CSCI-52. End.",
        School::Pomona,
    )];
    let out = find_reqs(&mut descs);
    assert_eq!(out[0].corequisites, "CSCI-52");
    assert_eq!(out[0].description, "Studies X. End.");
}

#[test]
fn fees_are_extracted() {
    let mut descs = vec![catalog_entry(
        "ART-005-PO",
        "Sculpture",
        "Materials fee $250. Bring tools.",
        School::Pomona,
    )];
    let out = find_fees(&mut descs);
    assert_eq!(out[0].fee, 250);
}

#[test]
fn unparsable_fee_is_ignored() {
    let mut descs = vec![catalog_entry(
        "ART-005-PO",
        "Sculpture",
        "A fee of $many dollars.",
        School::Pomona,
    )];
    let out = find_fees(&mut descs);
    assert_eq!(out[0].fee, 0);
}

#[test]
fn merge_is_idempotent_on_distinct_titles() {
    let a = course("ASAM-126-HM-01", "Asian American Studies", School::HarveyMudd);
    let b = course("CSCI-051-PO-01", "Computing", School::Pomona);
    let merged = merge_courses(vec![a.clone(), b.clone()], vec![a.clone(), b.clone()]);
    assert_eq!(merged.len(), 2);
    assert!(course_same(&merged[0], &a));
    assert!(course_same(&merged[1], &b));
}

#[test]
fn merge_keeps_previous_description() {
    // no regression to emptiness
    let mut prev = course("ASAM-126-HM-01", "Asian American Studies", School::HarveyMudd);
    prev.description = "A long description that was known.".to_string();
    let cur = course("ASAM-126-HM-01", "Asian American Studies", School::HarveyMudd);
    let merged = merge_courses(vec![prev.clone()], vec![cur]);
    assert_eq!(merged[0].description, "A long description that was known.");
}

#[test]
fn merge_takes_previous_notes_outright() {
    let mut prev = course("ASAM-126-HM-01", "Asian American Studies", School::HarveyMudd);
    prev.notes = "Old notes.".to_string();
    let mut cur = course("ASAM-126-HM-01", "Asian American Studies", School::HarveyMudd);
    cur.notes = "Newer, shorter.".to_string();
    let merged = merge_courses(vec![prev], vec![cur]);
    assert_eq!(merged[0].notes, "Old notes.");
}

#[test]
fn merge_never_resurrects_previous_only_courses() {
    let prev = course("ASAM-126-HM-01", "Asian American Studies", School::HarveyMudd);
    let cur = course("CSCI-051-PO-01", "Computing", School::Pomona);
    let merged = merge_courses(vec![prev], vec![cur.clone()]);
    assert_eq!(merged.len(), 1);
    assert_eq!(merged[0].identifier, "CSCI-051-PO-01");
}

#[test]
fn reconciliation_prefers_exact_title_match() {
    // one exact title at school A, one fuzzy-similar title without a school:
    // the exact match wins, never the fuzzy one
    let sched = course("WID-001-CM-01", "Intro to Widgets", School::ClaremontMckenna);
    let exact = catalog_entry(
        "WID-001-CM",
        "Intro to Widgets",
        "The exact entry.",
        School::ClaremontMckenna,
    );
    let fuzzy = catalog_entry("WID-001-XX", "Introduction to Widgets", "The other entry.", School::NA);
    let found = find_description(sched, &vec![fuzzy, exact]).unwrap();
    assert_eq!(found.description, "The exact entry.");
}

#[test]
fn reconciliation_is_case_folded() {
    let sched = course("WID-001-CM-01", "INTRO TO WIDGETS", School::ClaremontMckenna);
    let entry = catalog_entry(
        "WID-001-CM",
        "Intro To Widgets",
        "Found by folding.",
        School::ClaremontMckenna,
    );
    let found = find_description(sched, &vec![entry]).unwrap();
    assert_eq!(found.description, "Found by folding.");
}

#[test]
fn reconciliation_uses_identifier_containment() {
    let sched = course("CSCI-051-PO-01", "A Very Different Title", School::Pomona);
    let entry = catalog_entry("CSCI-051-PO", "Computing", "By identifier.", School::Pomona);
    let found = find_description(sched, &vec![entry]).unwrap();
    assert_eq!(found.description, "By identifier.");
}

#[test]
fn reconciliation_falls_back_to_fuzzy_titles() {
    let sched = course("WID-001-CM-01", "Algorithmz", School::ClaremontMckenna);
    let entry = catalog_entry("OTHER-9-XX", "Algorithms", "Fuzzy found.", School::NA);
    let found = find_description(sched, &vec![entry]).unwrap();
    assert_eq!(found.description, "Fuzzy found.");
}

#[test]
fn reconciliation_respects_the_school_pool() {
    // an entry from another school is no candidate at all
    let sched = course("WID-001-CM-01", "Intro to Widgets", School::ClaremontMckenna);
    let entry = catalog_entry("WID-001-PZ", "Intro to Widgets", "Wrong school.", School::Pitzer);
    assert!(find_description(sched, &vec![entry]).is_none());
}

#[test]
fn merging_descriptions_onto_courses() {
    let sched = course("WID-001-CM-01", "Intro to Widgets", School::ClaremontMckenna);
    let mut entry = catalog_entry(
        "WID-001-CM",
        "Intro to Widgets",
        "All about widgets.",
        School::ClaremontMckenna,
    );
    entry.prerequisites = "WID 0".to_string();
    entry.fee = 50;
    let (courses, descs) = merge_description_and_courses(vec![sched], vec![entry]);
    assert_eq!(courses[0].description, "All about widgets.");
    assert_eq!(courses[0].prerequisites, "WID 0");
    assert_eq!(courses[0].fee, 50);
    assert!(descs[0].currently_offered);
    assert_eq!(descs[0].instructors, vec!["A Teacher".to_string()]);
}

#[test]
fn notes_reqs_move_to_structured_fields() {
    let mut sched = course("WID-001-CM-01", "Widgets", School::ClaremontMckenna);
    sched.notes = "See dept. Prerequisite: WID-0. Bring a pencil.".to_string();
    let (courses, _) = merge_description_and_courses(vec![sched], Vec::new());
    assert_eq!(courses[0].prerequisites, "WID-0");
    assert_eq!(courses[0].notes, "See dept. Bring a pencil.");
}

#[test]
fn duplicate_catalog_entries_fold_together() {
    let a = catalog_entry("WID-001-CM", "Widgets", "Short.", School::ClaremontMckenna);
    let b = catalog_entry("WID-001-CM", "Widgets", "Short too.", School::ClaremontMckenna);
    let c = catalog_entry("WID-001-CM", "Widgets", "A much longer description.", School::NA);
    let merged = merge_descriptions(vec![vec![a], vec![b], vec![c]]);
    // the first two pile up; the third folds onto the first by title
    assert_eq!(merged.len(), 2);
    assert_eq!(merged[0].description, "A much longer description.");
}

#[test]
fn perm_counts_are_stamped() {
    let a = course("ASAM-126-HM-01", "Asian American Studies", School::HarveyMudd);
    let out = merge_perms_into_courses(
        vec![a],
        vec![("ASAM-126-HM-01".to_string(), 7u64), ("OTHER".to_string(), 3u64)],
    );
    assert_eq!(out[0].perm_count, 7);
}

#[test]
fn missing_perm_counts_default_to_zero() {
    let a = course("ASAM-126-HM-01", "Asian American Studies", School::HarveyMudd);
    let out = merge_perms_into_courses(vec![a], Vec::new());
    assert_eq!(out[0].perm_count, 0);
}

#[test]
fn locations_never_overwrite() {
    let cur = vec![("K1".to_string(), ("1.0".to_string(), "2.0".to_string()))];
    let newer = vec![
        ("K1".to_string(), ("9.9".to_string(), "9.9".to_string())),
        ("K2".to_string(), ("3.0".to_string(), "4.0".to_string())),
    ];
    let merged = merge_locations(cur, newer);
    assert_eq!(merged.len(), 2);
    assert_eq!(merged[0].1 .0, "1.0");
    assert_eq!(merged[1].0, "K2");
}
