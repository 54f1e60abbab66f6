//! What the interactive settings decide: the entries offered in each
//! prompt, which answers are accepted, and how the answers change the
//! record. Asking the questions is left to the caller.

use vstd::prelude::*;
use crate::decimal::{Decimal, fixed_string, fixed_text, short_string, short_text};
use crate::model::course::{Course, is_v4_id};
use crate::model::gpa::Gpa;
use crate::text::{chars_of, dec_digits, push_decimal, trim, trimmed_piece, trimmed_string};
use crate::utils::{GradeError, grade_error_text, parse_non_negative_grade, spec_parse_grade};

verus! {

/// The actions of the settings menu.
#[derive(Clone, Copy, Debug, PartialEq, Eq, Structural)]
pub enum MenuAction {
    Add,
    Edit,
    Delete,
    Config,
    Exit,
}

/// An entry of a selection prompt: what choosing it gives, its label and a hint.
#[derive(Clone, Debug, PartialEq)]
pub struct Choice<T> {
    pub value: T,
    pub label: String,
    pub hint: String,
}

/// The entries as (value, label, hint) triples of plain text.
pub open spec fn choices_view<T>(v: Seq<Choice<T>>) -> Seq<(T, Seq<char>, Seq<char>)> {
    v.map_values(|c: Choice<T>| (c.value, c.label@, c.hint@))
}

/// An entry with the given value, label and hint.
fn choice<T>(value: T, label: &str, hint: String) -> (c: Choice<T>)
    ensures
        c.value == value,
        c.label@ == label@,
        c.hint@ == hint@,
{
    Choice { value, label: String::from_str(label), hint }
}

/// The entries of the settings menu.
pub open spec fn menu_entries() -> Seq<(MenuAction, Seq<char>, Seq<char>)> {
    seq![
        (MenuAction::Add, "Add a course"@, Seq::<char>::empty()),
        (MenuAction::Edit, "Edit a course"@, Seq::<char>::empty()),
        (MenuAction::Delete, "Delete a course"@, Seq::<char>::empty()),
        (MenuAction::Config, "Edit GPA config"@, Seq::<char>::empty()),
        (MenuAction::Exit, "Exit"@, Seq::<char>::empty()),
    ]
}

/// The entries of the settings menu, in order.
pub fn menu() -> (v: Vec<Choice<MenuAction>>)
    ensures
        choices_view(v@) == menu_entries(),
{
    proof {
        reveal_strlit("");
    }
    let mut v: Vec<Choice<MenuAction>> = Vec::new();
    v.push(choice(MenuAction::Add, "Add a course", String::from_str("")));
    v.push(choice(MenuAction::Edit, "Edit a course", String::from_str("")));
    v.push(choice(MenuAction::Delete, "Delete a course", String::from_str("")));
    v.push(choice(MenuAction::Config, "Edit GPA config", String::from_str("")));
    v.push(choice(MenuAction::Exit, "Exit", String::from_str("")));
    proof {
        assert forall|k: int| 0 <= k < 5 implies #[trigger] choices_view(v@)[k] == menu_entries()[k] by {
            assert(choices_view(v@)[k] == (v@[k].value, v@[k].label@, v@[k].hint@));
        }
        assert(choices_view(v@) =~= menu_entries());
    }
    v
}

/// Whether a typed title is accepted: something is left once it is trimmed.
pub fn validate_title(input: &str) -> (r: Result<(), String>)
    ensures
        r is Ok <==> trim(input@).len() > 0,
        r matches Err(m) ==> m@ == "Title is required"@,
{
    let v = chars_of(input);
    let t = trimmed_piece(&v, 0, v.len());
    proof {
        assert(v@.subrange(0, v@.len() as int) =~= v@);
    }
    if t.len() == 0 {
        Err(String::from_str("Title is required"))
    } else {
        Ok(())
    }
}

/// What reading an optional typed grade gives: nothing when the text is
/// blank, else the grade read from it.
pub open spec fn spec_optional_grade(s: Seq<char>) -> Result<Option<Decimal>, GradeError> {
    if trim(s).len() == 0 {
        Ok(None)
    } else {
        match spec_parse_grade(s) {
            Ok(d) => Ok(Some(d)),
            Err(e) => Err(e),
        }
    }
}

/// Reads an optional grade: blank for none.
pub fn read_optional_grade(input: &str) -> (r: Result<Option<Decimal>, GradeError>)
    ensures
        r == spec_optional_grade(input@),
{
    let v = chars_of(input);
    let t = trimmed_piece(&v, 0, v.len());
    proof {
        assert(v@.subrange(0, v@.len() as int) =~= v@);
    }
    if t.len() == 0 {
        Ok(None)
    } else {
        match parse_non_negative_grade(input) {
            Ok(d) => Ok(Some(d)),
            Err(e) => Err(e),
        }
    }
}

/// Whether an optional typed grade is accepted, with the message when not.
pub fn validate_optional_grade(input: &str) -> (r: Result<(), String>)
    ensures
        r is Ok <==> spec_optional_grade(input@) is Ok,
        r matches Err(m) ==> spec_optional_grade(input@) matches Err(e) && m@ == grade_error_text(e),
{
    match read_optional_grade(input) {
        Ok(_) => Ok(()),
        Err(e) => Err(e.message()),
    }
}

/// The course made of the answers to the prompts for a new course: the
/// title trimmed, and the grade read from its text, blank for none.
pub fn course_from_answers(title: &str, credits: u16, semester: u16, grade: &str, completed: bool) -> (r: Result<Course, GradeError>)
    ensures
        spec_optional_grade(grade@) matches Err(e) ==> r == Err::<Course, GradeError>(e),
        spec_optional_grade(grade@) matches Ok(g) ==> (r matches Ok(c) && {
            &&& c.title@ == trim(title@)
            &&& c.credits == credits
            &&& c.semester == semester
            &&& c.grade == g
            &&& c.completed == completed
            &&& c.exams@.len() == 0
            &&& c.progress is None
            &&& is_v4_id(c.id)
        }),
{
    let g = match read_optional_grade(grade) {
        Ok(g) => g,
        Err(e) => {
            return Err(e);
        },
    };
    Ok(Course::new(trimmed_string(title), credits, semester, g, completed))
}

/// The hint of a course in the list of courses to edit: its semester and credits.
pub open spec fn course_hint(c: Course) -> Seq<char> {
    "S"@ + dec_digits(c.semester as nat) + " - "@ + dec_digits(c.credits as nat) + " Credits"@
}

/// The entries for picking a course to edit: each course's position, its
/// title, and its semester and credits.
pub fn edit_choices(courses: &Vec<Course>) -> (v: Vec<Choice<usize>>)
    ensures
        v@.len() == courses@.len(),
        forall|i: int| 0 <= i < v@.len() ==> #[trigger] choices_view(v@)[i] == (i as usize, courses@[i].title@, course_hint(courses@[i])),
{
    let mut v: Vec<Choice<usize>> = Vec::new();
    let mut i: usize = 0;
    while i < courses.len()
        invariant
            i <= courses@.len(),
            v@.len() == i,
            forall|k: int| 0 <= k < i ==> #[trigger] choices_view(v@)[k] == (k as usize, courses@[k].title@, course_hint(courses@[k])),
        decreases courses@.len() - i,
    {
        let c = &courses[i];
        let mut hint = String::from_str("S");
        push_decimal(&mut hint, c.semester as u64);
        hint.append(" - ");
        push_decimal(&mut hint, c.credits as u64);
        hint.append(" Credits");
        let entry = choice(i, c.title.as_str(), hint);
        let ghost before = v@;
        v.push(entry);
        proof {
            assert(entry.hint@ =~= course_hint(*c));
            assert forall|k: int| 0 <= k < i + 1 implies #[trigger] choices_view(v@)[k] == (k as usize, courses@[k].title@, course_hint(courses@[k])) by {
                assert(choices_view(v@)[k] == (v@[k].value, v@[k].label@, v@[k].hint@));
                if k < i {
                    assert(v@[k] == before[k]);
                    assert(choices_view(before)[k] == (before[k].value, before[k].label@, before[k].hint@));
                }
            }
        }
        i = i + 1;
    }
    v
}

/// The entries for picking a course to delete: each course's position and title.
pub fn delete_choices(courses: &Vec<Course>) -> (v: Vec<Choice<usize>>)
    ensures
        v@.len() == courses@.len(),
        forall|i: int| 0 <= i < v@.len() ==> #[trigger] choices_view(v@)[i] == (i as usize, courses@[i].title@, Seq::<char>::empty()),
{
    proof {
        reveal_strlit("");
    }
    let mut v: Vec<Choice<usize>> = Vec::new();
    let mut i: usize = 0;
    while i < courses.len()
        invariant
            i <= courses@.len(),
            v@.len() == i,
            forall|k: int| 0 <= k < i ==> #[trigger] choices_view(v@)[k] == (k as usize, courses@[k].title@, Seq::<char>::empty()),
        decreases courses@.len() - i,
    {
        let entry = choice(i, courses[i].title.as_str(), String::new());
        assert(entry.hint@ =~= Seq::<char>::empty());
        let ghost before = v@;
        v.push(entry);
        proof {
            assert forall|k: int| 0 <= k < i + 1 implies #[trigger] choices_view(v@)[k] == (k as usize, courses@[k].title@, Seq::<char>::empty()) by {
                assert(choices_view(v@)[k] == (v@[k].value, v@[k].label@, v@[k].hint@));
                if k < i {
                    assert(v@[k] == before[k]);
                    assert(choices_view(before)[k] == (before[k].value, before[k].label@, before[k].hint@));
                }
            }
        }
        i = i + 1;
    }
    v
}

/// The question asked before deleting the course titled `title`.
pub open spec fn delete_question_text(title: Seq<char>) -> Seq<char> {
    "Delete \""@ + title + "\"?  This cannot be undone."@
}

/// The question asked before deleting the course titled `title`.
pub fn delete_question(title: &str) -> (s: String)
    ensures
        s@ == delete_question_text(title@),
{
    let mut s = String::from_str("Delete \"");
    s.append(title);
    s.append("\"?  This cannot be undone.");
    s
}

/// The fields of a course that can be edited.
#[derive(Clone, Copy, Debug, PartialEq, Eq, Structural)]
pub enum CourseField {
    Title,
    Credits,
    Semester,
    Grade,
    Completed,
}

/// How a grade is shown among the fields to edit: its shortest form, or
/// "not graded".
pub open spec fn grade_hint(g: Option<Decimal>) -> Seq<char> {
    match g {
        Some(d) => short_text(d),
        None => "not graded"@,
    }
}

/// The entries for picking the fields of `c` to change, each with its
/// current value.
pub open spec fn course_field_entries(c: Course) -> Seq<(CourseField, Seq<char>, Seq<char>)> {
    seq![
        (CourseField::Title, "Title"@, "current "@ + c.title@),
        (CourseField::Credits, "Credits"@, "current "@ + dec_digits(c.credits as nat)),
        (CourseField::Semester, "Semester"@, "current "@ + dec_digits(c.semester as nat)),
        (CourseField::Grade, "Grade"@, "current "@ + grade_hint(c.grade)),
        (CourseField::Completed, "Completed"@, "current "@ + if c.completed { "yes"@ } else { "no"@ }),
    ]
}

/// The text "current " followed by the number `n`.
fn current_number(n: u64) -> (s: String)
    ensures
        s@ == "current "@ + dec_digits(n as nat),
{
    let mut s = String::from_str("current ");
    push_decimal(&mut s, n);
    s
}

/// The text "current " followed by `t`.
fn current_text(t: &str) -> (s: String)
    ensures
        s@ == "current "@ + t@,
{
    let mut s = String::from_str("current ");
    s.append(t);
    s
}

/// The entries for picking the fields of `c` to change.
pub fn course_field_choices(c: &Course) -> (v: Vec<Choice<CourseField>>)
    ensures
        choices_view(v@) == course_field_entries(*c),
{
    let grade = match c.grade {
        Some(g) => short_string(g),
        None => String::from_str("not graded"),
    };
    let done = if c.completed { "yes" } else { "no" };
    let mut v: Vec<Choice<CourseField>> = Vec::new();
    v.push(choice(CourseField::Title, "Title", current_text(c.title.as_str())));
    v.push(choice(CourseField::Credits, "Credits", current_number(c.credits as u64)));
    v.push(choice(CourseField::Semester, "Semester", current_number(c.semester as u64)));
    v.push(choice(CourseField::Grade, "Grade", current_text(grade.as_str())));
    v.push(choice(CourseField::Completed, "Completed", current_text(done)));
    proof {
        assert forall|k: int| 0 <= k < 5 implies #[trigger] choices_view(v@)[k] == course_field_entries(*c)[k] by {
            assert(choices_view(v@)[k] == (v@[k].value, v@[k].label@, v@[k].hint@));
        }
        assert(choices_view(v@) =~= course_field_entries(*c));
    }
    v
}

/// The placeholder of the grade prompt: the grade with two fraction
/// digits, or nothing.
pub fn grade_placeholder(g: Option<Decimal>) -> (s: String)
    ensures
        s@ == match g {
            Some(d) => fixed_text(d, 2),
            None => Seq::<char>::empty(),
        },
{
    match g {
        Some(d) => fixed_string(d, 2),
        None => String::new(),
    }
}

/// The answers to the prompts for editing a course: a new value for each
/// field that was picked.
pub struct CourseEdit {
    /// The typed title; it is trimmed when applied.
    pub title: Option<String>,
    pub credits: Option<u16>,
    pub semester: Option<u16>,
    /// The new grade, `Some(None)` to clear it.
    pub grade: Option<Option<Decimal>>,
    pub completed: Option<bool>,
}

/// Applies the answers `edit` to `course`: each field given is replaced (the
/// title trimmed), the others are kept.
pub fn apply_course_edit(course: &mut Course, edit: CourseEdit)
    ensures
        final(course).title@ == match edit.title {
            Some(t) => trim(t@),
            None => old(course).title@,
        },
        final(course).credits == match edit.credits {
            Some(x) => x,
            None => old(course).credits,
        },
        final(course).semester == match edit.semester {
            Some(x) => x,
            None => old(course).semester,
        },
        final(course).grade == match edit.grade {
            Some(x) => x,
            None => old(course).grade,
        },
        final(course).completed == match edit.completed {
            Some(x) => x,
            None => old(course).completed,
        },
        final(course).id == old(course).id,
        final(course).exams == old(course).exams,
        final(course).progress == old(course).progress,
{
    if let Some(t) = &edit.title {
        course.title = trimmed_string(t.as_str());
    }
    if let Some(x) = edit.credits {
        course.credits = x;
    }
    if let Some(x) = edit.semester {
        course.semester = x;
    }
    if let Some(x) = edit.grade {
        course.grade = x;
    }
    if let Some(x) = edit.completed {
        course.completed = x;
    }
}

/// The settings of the record that can be changed.
#[derive(Clone, Copy, Debug, PartialEq, Eq, Structural)]
pub enum ConfigField {
    TargetAverage,
    CreditGoal,
    IgnoreFailed,
    LowerIsBetter,
    PassMark,
}

/// "current enabled" or "current disabled".
pub open spec fn flag_hint(on: bool) -> Seq<char> {
    if on {
        "current enabled"@
    } else {
        "current disabled"@
    }
}

/// The entries for picking the settings of `g` to change, each with its
/// current value.
pub open spec fn config_entries(g: Gpa) -> Seq<(ConfigField, Seq<char>, Seq<char>)> {
    seq![
        (ConfigField::TargetAverage, "Target average"@, "current "@ + fixed_text(g.target_average, 2)),
        (ConfigField::CreditGoal, "Credit goal"@, "current "@ + dec_digits(g.grading_system.credit_goal as nat)),
        (ConfigField::IgnoreFailed, "Ignore failed courses in average"@, flag_hint(g.grading_system.ignore_failed)),
        (ConfigField::LowerIsBetter, "Lower numbers mean better grades"@, flag_hint(g.grading_system.lower_is_better)),
        (ConfigField::PassMark, "Numeric pass mark"@, "current "@ + fixed_text(g.grading_system.pass_mark, 2)),
    ]
}

/// "current enabled" or "current disabled".
fn flag_string(on: bool) -> (s: String)
    ensures
        s@ == flag_hint(on),
{
    if on {
        String::from_str("current enabled")
    } else {
        String::from_str("current disabled")
    }
}

/// The entries for picking the settings of `g` to change.
pub fn config_choices(g: &Gpa) -> (v: Vec<Choice<ConfigField>>)
    ensures
        choices_view(v@) == config_entries(*g),
{
    let target = fixed_string(g.target_average, 2);
    let pass = fixed_string(g.grading_system.pass_mark, 2);
    let mut v: Vec<Choice<ConfigField>> = Vec::new();
    v.push(choice(ConfigField::TargetAverage, "Target average", current_text(target.as_str())));
    v.push(choice(ConfigField::CreditGoal, "Credit goal", current_number(g.grading_system.credit_goal as u64)));
    v.push(choice(ConfigField::IgnoreFailed, "Ignore failed courses in average", flag_string(g.grading_system.ignore_failed)));
    v.push(choice(ConfigField::LowerIsBetter, "Lower numbers mean better grades", flag_string(g.grading_system.lower_is_better)));
    v.push(choice(ConfigField::PassMark, "Numeric pass mark", current_text(pass.as_str())));
    proof {
        assert forall|k: int| 0 <= k < 5 implies #[trigger] choices_view(v@)[k] == config_entries(*g)[k] by {
            assert(choices_view(v@)[k] == (v@[k].value, v@[k].label@, v@[k].hint@));
        }
        assert(choices_view(v@) =~= config_entries(*g));
    }
    v
}

/// The answers to the prompts for the settings: a new value for each
/// setting that was picked.
#[derive(Clone, Copy, Debug, PartialEq)]
pub struct ConfigEdit {
    pub target_average: Option<Decimal>,
    pub credit_goal: Option<u16>,
    pub ignore_failed: Option<bool>,
    pub lower_is_better: Option<bool>,
    pub pass_mark: Option<Decimal>,
}

impl Gpa {
    /// Applies the answers `edit`: each setting given is replaced, the
    /// others and the courses are kept.
    pub fn apply_config(&mut self, edit: ConfigEdit)
        ensures
            final(self).target_average == match edit.target_average {
                Some(x) => x,
                None => old(self).target_average,
            },
            final(self).grading_system.credit_goal == match edit.credit_goal {
                Some(x) => x,
                None => old(self).grading_system.credit_goal,
            },
            final(self).grading_system.ignore_failed == match edit.ignore_failed {
                Some(x) => x,
                None => old(self).grading_system.ignore_failed,
            },
            final(self).grading_system.lower_is_better == match edit.lower_is_better {
                Some(x) => x,
                None => old(self).grading_system.lower_is_better,
            },
            final(self).grading_system.pass_mark == match edit.pass_mark {
                Some(x) => x,
                None => old(self).grading_system.pass_mark,
            },
            final(self).semesters == old(self).semesters,
            final(self).courses == old(self).courses,
    {
        if let Some(x) = edit.target_average {
            self.target_average = x;
        }
        if let Some(x) = edit.credit_goal {
            self.grading_system.credit_goal = x;
        }
        if let Some(x) = edit.ignore_failed {
            self.grading_system.ignore_failed = x;
        }
        if let Some(x) = edit.lower_is_better {
            self.grading_system.lower_is_better = x;
        }
        if let Some(x) = edit.pass_mark {
            self.grading_system.pass_mark = x;
        }
    }
}

} // verus!
