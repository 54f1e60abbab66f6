use gpa_rs::decimal::Decimal;
use gpa_rs::model::{Course, GradingSystem, Stats};

fn d(x: i64) -> Decimal {
    Decimal(x)
}

#[test]
fn grading_system_grading_system_pass_and_better() {
    let mut sys = GradingSystem::default();
    // lower is better
    assert!(sys.is_pass(d(3700)));
    assert!(!sys.is_pass(d(4500)));
    assert!(sys.better(d(1300), d(2000)));
    assert!(!sys.better(d(3000), d(2000)));

    // flip the polarity
    sys.lower_is_better = false;
    sys.pass_mark = d(50000);
    assert!(sys.is_pass(d(65000)));
    assert!(!sys.is_pass(d(40000)));
    assert!(sys.better(d(80000), d(60000)));
    assert!(!sys.better(d(20000), d(40000)));
}

#[test]
fn gpa_grading_system_pass_and_better() {
    let mut sys = GradingSystem::default();
    assert!(sys.is_pass(d(3700)));
    assert!(!sys.is_pass(d(4500)));
    assert!(sys.better(d(1300), d(2000)));
    assert!(!sys.better(d(3000), d(2000)));

    sys.lower_is_better = false;
    sys.pass_mark = d(50000);
    assert!(sys.is_pass(d(65000)));
    assert!(!sys.is_pass(d(40000)));
    assert!(sys.better(d(80000), d(60000)));
    assert!(!sys.better(d(20000), d(40000)));
}

#[test]
fn pass_mark_itself_passes() {
    let sys = GradingSystem::default();
    assert!(sys.is_pass(d(4000)));
    assert!(sys.better(d(2000), d(2000)));
}

#[test]
fn stats_stats_accumulation_and_average() {
    let mut s = Stats::default();
    let sys = GradingSystem::default();
    let courses = [
        Course::new("Algorithms".to_string(), 6, 1, Some(d(2300)), true), // passed
        Course::new("Data Structures".to_string(), 8, 1, Some(d(5000)), true), //failed
        Course::new("Project".to_string(), 12, 2, None, true), // passed (ungraded)
    ];

    courses.iter().for_each(|c| s.add(c, &sys));

    assert_eq!(s.graded, 6);
    assert_eq!(s.points_only, 12);
    assert_eq!(s.all, 26);
    assert!(s.avg().is(d(2300)));
    assert_eq!(s.total(), 18);
}

#[test]
fn gpa_stats_accumulation_and_average() {
    let sys = GradingSystem::default();
    let mut s = Stats::default();

    s.add(&Course::new("Math".to_string(), 6, 1, Some(d(2300)), true), &sys); // passed
    s.add(&Course::new("Phys".to_string(), 8, 1, Some(d(5000)), true), &sys); // failed
    s.add(&Course::new("Project".to_string(), 12, 2, None, true), &sys); // passed (ungraded)

    assert_eq!(s.graded, 6);
    assert_eq!(s.points_only, 12);
    assert_eq!(s.all, 26);
    assert!(s.avg().is(d(2300)));
    assert_eq!(s.total(), 18);
}

#[test]
fn stats_avg_with_no_courses() {
    let s = Stats::default();

    assert_eq!(s.graded, 0);
    assert_eq!(s.points_only, 0);
    assert_eq!(s.all, 0);
    assert!(s.avg().is(d(0)));
    assert_eq!(s.total(), 0);
}

#[test]
fn stats_avg_zero_when_no_graded() {
    let s = Stats::default();
    assert!(s.avg().is(d(0)));
}

#[test]
fn stats_avg_with_no_graded() {
    let mut s = Stats::default();
    let sys = GradingSystem::default();
    let courses = [
        Course::new("Algorithms".to_string(), 6, 1, None, true), // ungraded but completed
        Course::new("Data Structures".to_string(), 8, 1, None, false), // not completed
    ];

    courses.iter().for_each(|c| s.add(c, &sys));

    assert_eq!(s.graded, 0);
    assert_eq!(s.points_only, 6);
    assert_eq!(s.all, 14);
    assert!(s.avg().is(d(0)));
    assert_eq!(s.total(), 6);
}

#[test]
fn stats_weighted_average_is_exact() {
    // (1.0 * 1 + 2.0 * 2) / 3 = 1.6666..., kept as a fraction
    let mut s = Stats::default();
    let sys = GradingSystem::default();
    s.add(&Course::new("A".to_string(), 1, 1, Some(d(1000)), true), &sys);
    s.add(&Course::new("B".to_string(), 2, 1, Some(d(2000)), true), &sys);
    assert_eq!(s.weighted, 5000);
    let a = s.avg();
    assert_eq!((a.num, a.den), (5000, 3));
    assert!(!a.is(d(1667)));
}

#[test]
fn stats_failed_counts_when_not_ignored() {
    let mut sys = GradingSystem::default();
    sys.ignore_failed = false;
    let mut s = Stats::default();
    s.add(&Course::new("A".to_string(), 4, 1, Some(d(5000)), false), &sys);
    assert_eq!(s.graded, 4);
    assert!(s.avg().is(d(5000)));
}

#[test]
fn course_new_has_a_v4_id() {
    let c = Course::new("A".to_string(), 1, 1, None, false);
    assert_eq!((c.id >> 76) & 0xf, 4);
    assert_eq!((c.id >> 62) & 3, 2);
    assert!(c.exams.is_empty());
    assert!(c.progress.is_none());
}

#[test]
fn course_row_cells() {
    let c = Course::new("Math".to_string(), 5, 2, Some(d(1300)), true);
    let row = c.to_row();
    assert_eq!(row.len(), 5);
    assert_eq!(row[0], format!("{:<40}", "Math"));
    assert_eq!(row[1], "       5");
    assert_eq!(row[2], "       2");
    assert_eq!(row[3], "1.3     ");
    // an exact half rounds to the even digit, as Rust's formatting does
    let half = Course::new("H".to_string(), 1, 1, Some(d(2250)), false);
    assert_eq!(half.to_row()[3], "2.2     ");
    assert_eq!(row[4], "✓       ");
    let u = Course::new("X".to_string(), 10, 3, None, false);
    let row = u.to_row();
    assert_eq!(row[3], "-       ");
    assert_eq!(row[4], "        ");
}
