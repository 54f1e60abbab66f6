use gpa_rs::decimal::Decimal;
use gpa_rs::model::{Course, Gpa};
use gpa_rs::settings::{
    apply_course_edit, config_choices, course_field_choices, course_from_answers, delete_choices, delete_question,
    edit_choices, grade_placeholder, menu, read_optional_grade, validate_optional_grade, validate_title, ConfigEdit,
    ConfigField, CourseEdit, CourseField, MenuAction,
};
use gpa_rs::utils::GradeError;

#[test]
fn settings_menu_entries() {
    let m = menu();
    let actions: Vec<MenuAction> = m.iter().map(|c| c.value).collect();
    assert_eq!(actions, vec![MenuAction::Add, MenuAction::Edit, MenuAction::Delete, MenuAction::Config, MenuAction::Exit]);
    assert_eq!(m[0].label, "Add a course");
    assert_eq!(m[3].label, "Edit GPA config");
    assert!(m.iter().all(|c| c.hint.is_empty()));
}

#[test]
fn titles_must_not_be_blank() {
    assert!(validate_title("Algorithms").is_ok());
    assert_eq!(validate_title("   "), Err("Title is required".to_string()));
    assert_eq!(validate_title(""), Err("Title is required".to_string()));
}

#[test]
fn optional_grades() {
    assert_eq!(read_optional_grade("  "), Ok(None));
    assert_eq!(read_optional_grade("1.7"), Ok(Some(Decimal(1700))));
    assert_eq!(read_optional_grade("-1"), Err(GradeError::Negative));
    assert!(validate_optional_grade("").is_ok());
    assert_eq!(validate_optional_grade("abc"), Err("Value must be a decimal number".to_string()));
}

#[test]
fn course_from_prompt_answers() {
    let c = course_from_answers("  Algorithms  ", 6, 1, "2.3", true).unwrap();
    assert_eq!(c.title, "Algorithms");
    assert_eq!(c.credits, 6);
    assert_eq!(c.semester, 1);
    assert_eq!(c.grade, Some(Decimal(2300)));
    assert!(c.completed);
    let c = course_from_answers("Project", 12, 2, "", false).unwrap();
    assert_eq!(c.grade, None);
    assert_eq!(course_from_answers("X", 1, 1, "NaN", false).unwrap_err(), GradeError::NotFinite);
}

#[test]
fn course_lists_for_editing_and_deleting() {
    let courses = vec![
        Course::new("Algorithms".to_string(), 6, 1, None, false),
        Course::new("Calculus".to_string(), 8, 2, Some(Decimal(1300)), true),
    ];
    let e = edit_choices(&courses);
    assert_eq!(e.len(), 2);
    assert_eq!(e[1].value, 1);
    assert_eq!(e[1].label, "Calculus");
    assert_eq!(e[1].hint, "S2 - 8 Credits");
    let d = delete_choices(&courses);
    assert_eq!(d[0].value, 0);
    assert_eq!(d[0].label, "Algorithms");
    assert_eq!(d[0].hint, "");
    assert_eq!(delete_question("Calculus"), "Delete \"Calculus\"?  This cannot be undone.");
}

#[test]
fn field_hints_show_current_values() {
    let c = Course::new("Calculus".to_string(), 8, 2, Some(Decimal(1300)), true);
    let f = course_field_choices(&c);
    let fields: Vec<CourseField> = f.iter().map(|x| x.value).collect();
    assert_eq!(fields, vec![CourseField::Title, CourseField::Credits, CourseField::Semester, CourseField::Grade, CourseField::Completed]);
    assert_eq!(f[0].hint, "current Calculus");
    assert_eq!(f[1].hint, "current 8");
    assert_eq!(f[2].hint, "current 2");
    assert_eq!(f[3].hint, "current 1.3");
    assert_eq!(f[4].hint, "current yes");
    let u = Course::new("Project".to_string(), 12, 3, None, false);
    let f = course_field_choices(&u);
    assert_eq!(f[3].hint, "current not graded");
    assert_eq!(f[4].hint, "current no");
    assert_eq!(grade_placeholder(Some(Decimal(1300))), "1.30");
    assert_eq!(grade_placeholder(None), "");
}

#[test]
fn edits_replace_only_given_fields() {
    let mut c = Course::new("Calculus".to_string(), 8, 2, Some(Decimal(1300)), true);
    let id = c.id;
    apply_course_edit(&mut c, CourseEdit { title: Some("  Analysis ".to_string()), credits: None, semester: Some(3), grade: Some(None), completed: None });
    assert_eq!(c.title, "Analysis");
    assert_eq!(c.credits, 8);
    assert_eq!(c.semester, 3);
    assert_eq!(c.grade, None);
    assert!(c.completed);
    assert_eq!(c.id, id);
}

#[test]
fn config_hints_and_edits() {
    let mut g = Gpa::default();
    let f = config_choices(&g);
    let fields: Vec<ConfigField> = f.iter().map(|x| x.value).collect();
    assert_eq!(fields, vec![ConfigField::TargetAverage, ConfigField::CreditGoal, ConfigField::IgnoreFailed, ConfigField::LowerIsBetter, ConfigField::PassMark]);
    assert_eq!(f[0].hint, "current 2.00");
    assert_eq!(f[1].hint, "current 180");
    assert_eq!(f[2].hint, "current enabled");
    assert_eq!(f[3].hint, "current enabled");
    assert_eq!(f[4].hint, "current 4.00");
    g.apply_config(ConfigEdit { target_average: Some(Decimal(1500)), credit_goal: None, ignore_failed: Some(false), lower_is_better: None, pass_mark: None });
    assert_eq!(g.target_average, Decimal(1500));
    assert_eq!(g.grading_system.credit_goal, 180);
    assert!(!g.grading_system.ignore_failed);
    assert!(g.grading_system.lower_is_better);
}
