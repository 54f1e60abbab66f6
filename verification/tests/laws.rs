use gpa_rs::commands::Column;
use gpa_rs::decimal::Decimal;
use gpa_rs::model::{Course, Date, Exam, ExamKind, Gpa};
use gpa_rs::ui::{add_form_field_texts, Form};

fn titles(g: &Gpa) -> Vec<String> {
    let mut t: Vec<String> = g.courses.iter().map(|c| c.title.clone()).collect();
    t.sort();
    t
}

#[test]
fn sorting_keeps_every_course() {
    let mut g = Gpa::default();
    for (t, cr, sem) in [("D", 3, 2), ("B", 9, 1), ("A", 3, 3), ("C", 9, 1), ("B", 1, 2)] {
        g.courses.push(Course::new(t.to_string(), cr, sem, None, false));
    }
    let before = titles(&g);
    g.sort_by(&Column::Credits, false);
    assert_eq!(titles(&g), before);
    let credits: Vec<u16> = g.courses.iter().map(|c| c.credits).collect();
    assert_eq!(credits, vec![1, 3, 3, 9, 9]);
    // ties keep their order: D before A, B before C
    assert_eq!(g.courses[1].title, "D");
    assert_eq!(g.courses[3].title, "B");
}

#[test]
fn average_lies_between_grades() {
    let mut g = Gpa::default();
    g.courses.push(Course::new("A".to_string(), 5, 1, Some(Decimal(1300)), true));
    g.courses.push(Course::new("B".to_string(), 7, 1, Some(Decimal(2700)), true));
    g.courses.push(Course::new("C".to_string(), 3, 1, Some(Decimal(3000)), true));
    let avg = g.get_stats().avg();
    assert!(avg.num >= 1300 * avg.den as i128 && avg.num <= 3000 * avg.den as i128);
    // (1.3 * 5 + 2.7 * 7 + 3.0 * 3) / 15 = 34.4 / 15 = 2.29333...
    assert_eq!((avg.num, avg.den), (34400, 15));
}

#[test]
fn focus_forward_then_back() {
    let mut f = Form::new(vec![1, 2, 3]);
    for _ in 0..3 {
        let before = f.focused;
        f.focus_next();
        f.focus_prev();
        assert_eq!(f.focused, before);
        f.focus_next();
    }
    assert_eq!(f.focused, 0);
}

#[test]
fn add_form_fields_for_a_new_course() {
    let fields = add_form_field_texts();
    let pairs: Vec<(&str, &str)> = fields.iter().map(|f| (f.label.as_str(), f.placeholder.as_str())).collect();
    assert_eq!(pairs, vec![("Title", "My Course"), ("Credits", "0"), ("Semester", "1"), ("Grade", "0.0")]);
}

#[test]
fn exams_after_a_day() {
    let mut c = Course::new("A".to_string(), 5, 1, None, false);
    let exam = |y: i32| Exam { kind: ExamKind::Written, date: Date { year: y, month: 6, day: 1 }, time: None, weight: None, locaation: None, grade: None };
    c.exams.push(exam(2000));
    c.exams.push(exam(9999));
    let later = c.exams_after(Date { year: 2020, month: 1, day: 1 });
    assert_eq!(later.len(), 1);
    assert_eq!(later[0].date.year, 9999);
    // today is after the year 2000 and before the year 9999
    assert_eq!(c.upcoming_exams().len(), 1);
    let mut g = Gpa::default();
    g.courses.push(c);
    g.courses.push(Course::new("B".to_string(), 5, 1, None, false));
    assert_eq!(g.all_exams().len(), 1);
}

#[test]
fn sorting_twice_changes_nothing() {
    let mut g = Gpa::default();
    for (t, sem) in [("Optics", 2), ("Algebra", 1), ("Logic", 2), ("Algebra", 2)] {
        g.courses.push(Course::new(t.to_string(), 5, sem, None, false));
    }
    g.sort_default();
    let once: Vec<u128> = g.courses.iter().map(|c| c.id).collect();
    g.sort_default();
    let twice: Vec<u128> = g.courses.iter().map(|c| c.id).collect();
    assert_eq!(once, twice);
    let order: Vec<(u16, &str)> = g.courses.iter().map(|c| (c.semester, c.title.as_str())).collect();
    assert_eq!(order, vec![(1, "Algebra"), (2, "Algebra"), (2, "Logic"), (2, "Optics")]);
}

#[test]
fn bar_never_shrinks() {
    let mut last = 0;
    for current in 0..=70u16 {
        let bar = gpa_rs::model::overview::progress_bar(current, 60, 45).plain_text();
        let filled = bar.matches('█').count();
        assert!(filled >= last);
        assert_eq!(filled + bar.matches('░').count(), 45);
        last = filled;
    }
    assert_eq!(last, 45);
}

#[test]
fn divider_is_one_longer_than_header() {
    for cols in [vec![], vec![Column::Completed], vec![Column::Title, Column::Grade, Column::Completed]] {
        let mut out = Vec::new();
        gpa_rs::model::overview::write_header(&mut out, &cols);
        let header = out[0].plain_text().chars().count();
        let divider = out[1].plain_text().chars().count();
        assert_eq!(divider, header + 1);
    }
}
