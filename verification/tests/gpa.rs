use std::cmp::Ordering;
use std::ops::RangeInclusive;

use gpa_rs::commands::{Column, FilterBy, NumRange};
use gpa_rs::decimal::Decimal;
use gpa_rs::model::overview::{progress_bar, write_header};
use gpa_rs::model::{Course, Gpa};
use gpa_rs::report::Line;

fn all_columns() -> Vec<Column> {
    vec![Column::Title, Column::Credits, Column::Semester, Column::Grade, Column::Completed]
}

fn text_of(lines: &[Line]) -> String {
    let mut out = String::new();
    for l in lines {
        out.push_str(&l.plain_text());
        out.push('\n');
    }
    out
}

fn g(thousandths: i64) -> Option<Decimal> {
    Some(Decimal(thousandths))
}

#[test]
fn gpa_progress_bar_width_and_fill() {
    let bar = progress_bar(30, 60, 20).plain_text();
    let filled = bar.chars().filter(|c| *c == '█').count();
    let empty = bar.chars().filter(|c| *c == '░').count();
    assert_eq!(filled, 10);
    assert_eq!(empty, 10);
}

#[test]
fn gpa_progress_bar_clamps_overflow() {
    let bar = progress_bar(120, 60, 10).plain_text();
    assert_eq!(bar.matches('█').count(), 10);
    assert_eq!(bar.matches('░').count(), 0);
}

#[test]
fn progress_bar_width_and_fill() {
    let bar = progress_bar(30, 60, 20).plain_text();
    let filled = bar.chars().filter(|c| *c == '█').count();
    let empty = bar.chars().filter(|c| *c == '░').count();
    assert_eq!(filled, 10);
    assert_eq!(empty, 10);
}

#[test]
fn progress_bar_clamps_overflow() {
    let bar = progress_bar(120, 60, 10).plain_text();
    assert_eq!(bar.matches('█').count(), 10);
    assert_eq!(bar.matches('░').count(), 0);
}

#[test]
fn write_header_with_all_columns() {
    let mut buf = Vec::<Line>::new();
    write_header(&mut buf, &all_columns());
    let out = text_of(&buf);
    assert!(out.contains("Title"));
    assert!(out.contains("Credits"));
    assert!(out.contains("Sem"));
    assert!(out.contains("Grade"));
    assert!(out.contains("✓"));
}

#[test]
fn write_header_with_no_selected_columns() {
    let mut buf = Vec::<Line>::new();
    write_header(&mut buf, &[]);
    let out = text_of(&buf);
    assert!(!out.contains("Title"));
    assert!(!out.contains("Credits"));
    assert!(!out.contains("Sem"));
    assert!(!out.contains("Grade"));
    assert!(!out.contains("✓"));
}

#[test]
fn gpa_order_by_compare() {
    let a = Course::new("A".to_string(), 5, 1, g(1700), true);
    let b = Course::new("B".to_string(), 5, 2, g(2300), false);
    let c = Course::new("C".to_string(), 5, 2, None, false);

    assert_eq!(Column::Title.compare(&a, &b), Ordering::Less);
    assert_eq!(Column::Credits.compare(&a, &b), Ordering::Equal);
    assert_eq!(Column::Semester.compare(&a, &b), Ordering::Less);
    assert_eq!(Column::Completed.compare(&a, &b), Ordering::Less);

    assert_eq!(Column::Grade.compare(&a, &b), Ordering::Less); // some & some
    assert_eq!(Column::Grade.compare(&a, &c), Ordering::Less); // some & none
    assert_eq!(Column::Grade.compare(&c, &b), Ordering::Greater); // none & some
    assert_eq!(Column::Grade.compare(&c, &c), Ordering::Equal); // none & none
}

#[test]
fn gpa_filter_by_matches() {
    let course = Course::new("Programming I".to_string(), 6, 1, g(1300), true);

    let f = FilterBy {
        title: Some("Programming".into()),
        credits: Some(NumRange::Range(RangeInclusive::new(3, 9))),
        semester: Some(NumRange::Single(1)),
        grade: Some(NumRange::Single(Decimal(1300))),
        completed: Some(true),
    };
    assert!(f.matches(&course));
}

#[test]
fn gpa_filter_by_matches_negative() {
    let course = Course::new("Programming I".to_string(), 6, 1, g(1300), true);

    let filters = vec![
        FilterBy { title: Some("Test".into()), ..Default::default() },
        FilterBy { credits: Some(NumRange::Single(2)), ..Default::default() },
        FilterBy { semester: Some(NumRange::Single(2)), ..Default::default() },
        FilterBy { grade: Some(NumRange::Single(Decimal(1700))), ..Default::default() },
        FilterBy { completed: Some(false), ..Default::default() },
    ];

    for f in filters {
        assert!(!f.matches(&course));
    }
}

#[test]
fn filter_by_grade_needs_a_grade() {
    let course = Course::new("Thesis".to_string(), 12, 6, None, false);
    let f = FilterBy { grade: Some(NumRange::Range(RangeInclusive::new(Decimal(0), Decimal(5000)))), ..Default::default() };
    assert!(!f.matches(&course));
    assert!(FilterBy::default().matches(&course));
}

#[test]
fn gpa_gpa_sorting_and_mut_access() {
    let mut g = Gpa::default();
    g.courses.push(Course::new("Calculus".to_string(), 5, 2, None, false));
    g.courses.push(Course::new("Algorithms".to_string(), 5, 1, None, false));
    g.sort_default();

    assert_eq!(g.courses[0].title, "Algorithms");
    assert_eq!(g.courses[1].title, "Calculus");

    {
        let l = g.get_course_mut(0).unwrap();
        l.grade = Some(Decimal(1000));
    }
    assert_eq!(g.courses[0].grade, Some(Decimal(1000)));
}

#[test]
fn gpa_add_and_delete_course() {
    let mut g = Gpa::default();
    assert_eq!(g.courses.len(), 0);

    let course = Course::new("Calculus".to_string(), 6, 1, Some(Decimal(2300)), true);
    g.add_course(course.clone());

    assert_eq!(g.courses.len(), 1);
    assert_eq!(g.courses[0], course);

    g.delete_course(0).unwrap();
    assert_eq!(g.courses.len(), 0);
    assert!(g.delete_course(0).is_err());
}

#[test]
fn gpa_add_and_delete_lecture() {
    let mut g = Gpa::default();
    assert_eq!(g.courses.len(), 0);

    let lec = Course::new("Calculus".to_string(), 6, 1, Some(Decimal(2300)), true);
    g.add_course(lec.clone());

    assert_eq!(g.courses.len(), 1);
    assert_eq!(g.courses[0], lec);

    g.delete_course(0).unwrap();
    assert_eq!(g.courses.len(), 0);
    assert!(g.delete_course(0).is_err());
}

#[test]
fn gpa_overview_full_output_order_by_title() {
    let gpa = Gpa {
        courses: vec![
            Course::new("Algorithms".to_string(), 6, 1, g(1700), true),
            Course::new("Calculus".to_string(), 6, 2, g(3300), true),
            Course::new("Physics".to_string(), 8, 2, g(4700), true),
            Course::new("Project".to_string(), 10, 3, None, false),
        ],
        ..Default::default()
    };

    let mut buf = Vec::<Line>::new();
    gpa.overview(&mut buf, None, &all_columns(), &[Column::Title], true, false);

    let out = text_of(&buf);
    assert!(out.contains("Algorithms"));
    assert!(out.contains("Project"));
    assert!(out.contains("Average over 12 graded credits:")); // only Algorithms & Calculus counts
    assert!(out.contains("Progress ["));
}

#[test]
fn gpa_overview_short_and_filtered() {
    let mut gpa = Gpa::default();
    gpa.courses.push(Course::new("Math".to_string(), 5, 1, g(1300), true));

    let mut buf = Vec::<Line>::new();
    let filter = Some(FilterBy { title: Some("Math".into()), ..Default::default() });
    gpa.overview(&mut buf, filter.as_ref(), &all_columns(), &[], false, true);

    let txt = text_of(&buf);
    assert!(!txt.contains("Title"));
    assert!(txt.contains("Average"));
}

#[test]
fn gpa_overview_short_and_no_graded_courses() {
    let mut gpa = Gpa::default();
    gpa.courses.push(Course::new("Math".to_string(), 5, 1, None, true));
    gpa.courses.push(Course::new("Project".to_string(), 5, 1, None, false));

    let mut buf = Vec::<Line>::new();
    gpa.overview(&mut buf, None, &all_columns(), &[], false, true);

    let txt = text_of(&buf);
    assert!(!txt.contains("Title"));
    assert!(!txt.contains("Average"));
    assert!(txt.contains("Progress"));
}

#[test]
fn overview_no_columns() {
    let mut gpa = Gpa::default();
    gpa.courses.push(Course::new("Math".to_string(), 5, 1, g(1300), true));
    let mut buf = Vec::<Line>::new();
    gpa.overview(&mut buf, None, &[], &[], false, false);
    let txt = text_of(&buf);
    assert!(!txt.contains("Title"));
    assert!(!txt.contains("Credits"));
    assert!(!txt.contains("Sem"));
    assert!(!txt.contains("Grade"));
    assert!(!txt.contains("✓"));
}

#[test]
fn get_course_mut_error() {
    let mut gpa = Gpa::default();
    assert!(gpa.get_course_mut(0).is_err());
    gpa.courses.push(Course::new("Math".to_string(), 5, 1, g(1300), true));
    assert!(gpa.get_course_mut(0).is_ok());
    assert!(gpa.get_course_mut(1).is_err());
}
