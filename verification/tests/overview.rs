use gpa_rs::commands::{Column, FilterBy, NumRange};
use gpa_rs::decimal::Decimal;
use gpa_rs::model::{Course, Gpa};
use gpa_rs::report::{Line, Style};

fn texts(lines: &[Line]) -> Vec<String> {
    lines.iter().map(|l| l.plain_text()).collect()
}

fn sample() -> Gpa {
    Gpa {
        courses: vec![
            Course::new("Algorithms".to_string(), 6, 1, Some(Decimal(1700)), true),
            Course::new("Calculus".to_string(), 6, 2, Some(Decimal(3300)), true),
            Course::new("Physics".to_string(), 8, 2, Some(Decimal(4700)), true),
            Course::new("Project".to_string(), 10, 3, None, false),
        ],
        ..Default::default()
    }
}

#[test]
fn overview_exact_lines() {
    let gpa = sample();
    let mut out = Vec::new();
    gpa.overview(&mut out, None, &[Column::Title, Column::Grade], &[Column::Title], true, false);
    let t = texts(&out);
    assert_eq!(t.len(), 2 + 4 + 1 + 1 + 1);
    assert_eq!(t[0], format!(" {:<40} {:>6}", "Title", "Grade"));
    // the header is 48 bytes long without the check column: the divider is one longer
    assert_eq!(t[1], "─".repeat(49));
    // reversed title order
    assert_eq!(t[2], format!(" {:<40} {:>6}", "Project", "-"));
    assert_eq!(t[3], format!(" {:<40} {:>6}", "Physics", "4.7"));
    assert_eq!(t[5], format!(" {:<40} {:>6}", "Algorithms", "1.7"));
    assert_eq!(t[6], "");
    // Physics failed and is ignored: (1.7 * 6 + 3.3 * 6) / 12 = 2.5
    assert_eq!(t[7], "Average over 12 graded credits: 2.50");
    assert_eq!(out[7].segments[1].style, Style::Red);
    // 12 of 180 credits: 45 * 12 / 180 = 3 cells
    assert_eq!(t[8], format!("Progress [{}{}] (12/180)", "█".repeat(3), "░".repeat(42)));
    assert_eq!(out[5].segments[2].style, Style::Green);
    assert_eq!(out[3].segments[2].style, Style::RedBold);
    assert_eq!(out[2].segments[2].style, Style::Dimmed);
}

#[test]
fn overview_header_divider_with_check_column() {
    let gpa = Gpa::default();
    let mut out = Vec::new();
    gpa.overview(&mut out, None, &[Column::Completed], &[], false, false);
    let t = texts(&out);
    assert_eq!(t[0], "   ✓");
    // 6 bytes, one less
    assert_eq!(t[1], "─".repeat(5));
}

#[test]
fn overview_filtered_measures_against_all_credits() {
    let gpa = sample();
    let mut out = Vec::new();
    let f = FilterBy { semester: Some(NumRange::Single(2)), ..Default::default() };
    gpa.overview(&mut out, Some(&f), &[Column::Title], &[Column::Credits], false, false);
    let t = texts(&out);
    // Calculus (6) then Physics (8), by credits
    assert_eq!(t[2].trim(), "Calculus");
    assert_eq!(t[3].trim(), "Physics");
    assert_eq!(t.len(), 2 + 2 + 1 + 1 + 1);
    assert!(t.last().unwrap().ends_with("(12/30)"));
}

#[test]
fn overview_order_by_two_keys_is_stable() {
    let gpa = Gpa {
        courses: vec![
            Course::new("B".to_string(), 5, 2, None, false),
            Course::new("A".to_string(), 5, 2, None, false),
            Course::new("C".to_string(), 5, 1, None, false),
            Course::new("A".to_string(), 6, 2, None, false),
        ],
        ..Default::default()
    };
    let mut out = Vec::new();
    gpa.overview(&mut out, None, &[Column::Title, Column::Credits], &[Column::Semester, Column::Title], false, false);
    let t = texts(&out);
    assert_eq!(t[2], format!(" {:<40} {:>7}", "C", 5));
    assert_eq!(t[3], format!(" {:<40} {:>7}", "A", 5));
    assert_eq!(t[4], format!(" {:<40} {:>7}", "A", 6));
    assert_eq!(t[5], format!(" {:<40} {:>7}", "B", 5));
}

#[test]
fn sort_by_descending_keeps_ties() {
    let mut g = Gpa::default();
    g.courses.push(Course::new("X".to_string(), 5, 1, None, false));
    g.courses.push(Course::new("Y".to_string(), 7, 1, None, false));
    g.courses.push(Course::new("Z".to_string(), 5, 1, None, false));
    g.sort_by(&Column::Credits, true);
    let titles: Vec<&str> = g.courses.iter().map(|c| c.title.as_str()).collect();
    assert_eq!(titles, vec!["Y", "X", "Z"]);
}

#[test]
fn add_course_keeps_order_and_all_courses() {
    let mut g = Gpa::default();
    g.add_course(Course::new("Physics".to_string(), 8, 2, None, false));
    g.add_course(Course::new("Algebra".to_string(), 6, 2, None, false));
    g.add_course(Course::new("Zoology".to_string(), 4, 1, None, false));
    let titles: Vec<&str> = g.courses.iter().map(|c| c.title.as_str()).collect();
    assert_eq!(titles, vec!["Zoology", "Algebra", "Physics"]);
}

#[test]
fn stats_of_the_record() {
    let gpa = sample();
    let s = gpa.get_stats();
    assert_eq!(s.all, 30);
    assert_eq!(s.graded, 12);
    assert_eq!(s.points_only, 0);
    assert!(s.avg().is(Decimal(2500)));
    assert!(s.total() <= s.all);
}

#[test]
fn error_messages_and_table() {
    let mut gpa = sample();
    assert_eq!(gpa.delete_course(9).unwrap_err().message(), "No course at index 9");
    assert_eq!(gpa.get_course(3).unwrap().title, "Project");
    let rows = gpa.to_table();
    assert_eq!(rows.len(), 4);
    assert_eq!(rows[3][3], "-       ");
}

#[test]
fn average_is_rounded_once() {
    // (1.5 * 5 + 1.71 * 6) / 11 = 17.76 / 11 = 1.6145...: "1.61"
    let mut gpa = Gpa::default();
    gpa.courses.push(Course::new("A".to_string(), 5, 1, Some(Decimal(1500)), true));
    gpa.courses.push(Course::new("B".to_string(), 6, 1, Some(Decimal(1710)), true));
    let mut out = Vec::new();
    gpa.overview(&mut out, None, &[], &[], false, true);
    assert_eq!(out[0].plain_text(), "Average over 11 graded credits: 1.61");
    assert_eq!(out[0].segments[1].style, Style::Green);
    assert_eq!(gpa.insights(10).average, "1.61");
}

#[test]
fn tiny_positive_average_is_shown() {
    // 0.001 over 3 credits is above zero though it rounds to 0.00
    let mut gpa = Gpa::default();
    gpa.courses.push(Course::new("A".to_string(), 3, 1, Some(Decimal(1)), true));
    let mut out = Vec::new();
    gpa.overview(&mut out, None, &[], &[], false, true);
    assert_eq!(out[0].plain_text(), "Average over 3 graded credits: 0.00");
    assert_eq!(Gpa::default().insights(4).average, "0.00");
}

#[test]
fn exact_half_average_rounds_to_even() {
    // (2.0 * 6 + 2.25 * 6) / 12 = 2.125 exactly: "2.12"
    let mut gpa = Gpa::default();
    gpa.courses.push(Course::new("A".to_string(), 6, 1, Some(Decimal(2000)), true));
    gpa.courses.push(Course::new("B".to_string(), 6, 1, Some(Decimal(2250)), true));
    let mut out = Vec::new();
    gpa.overview(&mut out, None, &[], &[], false, true);
    assert_eq!(out[0].plain_text(), "Average over 12 graded credits: 2.12");
    assert_eq!(gpa.insights(10).average, "2.12");
}
