//! What the terminal interface decides: how keys move the focus and the
//! selection, which key hints are shown, and where things are placed. The
//! drawing itself is left to the caller.

use vstd::prelude::*;
use crate::model::exam::Date;
use crate::model::course::today_utc;
use crate::model::gpa::Gpa;
use crate::model::stats::{Stats, credits_all, course_stats, lemma_sums_bounded, lemma_quotient_below};
use crate::decimal::{quotient_string, quotient_text};
use crate::text::{dec_digits, push_decimal};

verus! {

/// A key that was pressed.
#[derive(Clone, Copy, Debug, PartialEq, Eq, Structural)]
pub enum Key {
    Char(char),
    Up,
    Down,
    Left,
    Right,
    Enter,
    Esc,
    Tab,
    BackTab,
    Other,
}

/// A key press with whether Control was held.
#[derive(Clone, Copy, Debug, PartialEq, Eq, Structural)]
pub struct KeyPress {
    pub code: Key,
    pub ctrl: bool,
}

/// The panes of the home page.
#[derive(Clone, Copy, Debug, PartialEq, Eq, Structural)]
pub enum PaneId {
    Upcoming,
    Calendar,
    Insights,
    Courses,
}

/// A key hint in the footer: the key, then what it does.
#[derive(Clone, Debug, PartialEq)]
pub struct Hint {
    pub key: String,
    pub label: String,
}

/// The hints as (key, label) pairs of plain text.
pub open spec fn hints_view(v: Seq<Hint>) -> Seq<(Seq<char>, Seq<char>)> {
    v.map_values(|h: Hint| (h.key@, h.label@))
}

/// A hint for `key` doing `label`.
fn hint(key: &str, label: &str) -> (h: Hint)
    ensures
        h.key@ == key@,
        h.label@ == label@,
{
    Hint { key: String::from_str(key), label: String::from_str(label) }
}

/// A rectangle of terminal cells.
#[derive(Clone, Copy, Debug, PartialEq, Eq, Structural)]
pub struct Rect {
    pub x: u16,
    pub y: u16,
    pub width: u16,
    pub height: u16,
}

/// `outer` narrowed to at most `max_width` columns, centred horizontally.
pub fn centered_clamp(max_width: u16, outer: Rect) -> (r: Rect)
    requires
        outer.x + (outer.width - if max_width < outer.width { max_width } else { outer.width }) / 2 <= u16::MAX,
    ensures
        r.width == if max_width < outer.width { max_width } else { outer.width },
        r.x == outer.x + (outer.width - r.width) / 2,
        r.y == outer.y,
        r.height == outer.height,
{
    let width = if max_width < outer.width { max_width } else { outer.width };
    Rect { x: outer.x + (outer.width - width) / 2, y: outer.y, width, height: outer.height }
}

/// The title drawn on the top border of a container, and the footer on its bottom border.
pub open spec fn border_texts(title: Seq<char>, footer: Option<Seq<char>>) -> (Seq<char>, Seq<char>) {
    (
        "─ "@ + title + " "@,
        match footer {
            Some(f) => " "@ + f + " ─"@,
            None => "─"@,
        },
    )
}

/// The texts of a container's borders.
pub fn border_titles(title: &str, footer: Option<&str>) -> (r: (String, String))
    ensures
        (r.0@, r.1@) == border_texts(title@, match footer {
            Some(f) => Some(f@),
            None => None,
        }),
{
    let mut top = String::from_str("─ ");
    top.append(title);
    top.append(" ");
    let bottom = match footer {
        Some(f) => {
            let mut b = String::from_str(" ");
            b.append(f);
            b.append(" ─");
            b
        },
        None => String::from_str("─"),
    };
    (top, bottom)
}

/// Which part of the records pane has the keyboard.
#[derive(Clone, Copy, Debug, PartialEq, Eq, Structural)]
pub enum Focus {
    Table,
    Filter,
}

/// What the records pane asks of its caller after a key.
#[derive(Clone, Copy, Debug, PartialEq, Eq, Structural)]
pub enum RecordsAction {
    /// Nothing more to do.
    Done,
    /// Hand the key to the filter text box.
    TypeInFilter,
}

/// The state of the records pane: the selected row, the selected tab and
/// the focus.
#[derive(Clone, Copy, Debug, PartialEq, Eq, Structural)]
pub struct RecordsComponent {
    pub selected_state: usize,
    pub selected_page: usize,
    pub focus: Focus,
}

/// The state of the records pane after `key`, with `count` courses listed,
/// and what it asks of its caller.
pub open spec fn records_step(s: RecordsComponent, key: Key, count: nat) -> (RecordsComponent, RecordsAction) {
    match s.focus {
        Focus::Table => (
            match key {
                Key::Char('/') => RecordsComponent { focus: Focus::Filter, ..s },
                Key::Char('k') | Key::Char('K') | Key::Up => RecordsComponent {
                    selected_state: if s.selected_state == 0 { 0 } else { (s.selected_state - 1) as usize },
                    ..s
                },
                Key::Char('j') | Key::Char('J') | Key::Down => RecordsComponent {
                    selected_state: {
                        let up = if s.selected_state == usize::MAX { usize::MAX as int } else { s.selected_state + 1 };
                        let last = if count == 0 { 0 } else { count - 1 };
                        (if up < last { up } else { last }) as usize
                    },
                    ..s
                },
                Key::Char('q') | Key::Char('Q') => RecordsComponent { selected_state: 0, selected_page: 0, ..s },
                Key::Char('w') | Key::Char('W') => RecordsComponent { selected_state: 0, selected_page: 1, ..s },
                _ => s,
            },
            RecordsAction::Done,
        ),
        Focus::Filter => match key {
            Key::Esc | Key::Enter => (RecordsComponent { selected_state: 0, focus: Focus::Table, ..s }, RecordsAction::Done),
            _ => (s, RecordsAction::TypeInFilter),
        },
    }
}

/// The key hints of the records pane for each focus.
pub open spec fn records_hints(focus: Focus) -> Seq<(Seq<char>, Seq<char>)> {
    match focus {
        Focus::Table => seq![
            ("a "@, "Add course  "@),
            ("d "@, "Delete course  "@),
            ("e "@, "Edit course  "@),
            ("/ "@, "Filter  "@),
        ],
        Focus::Filter => seq![("esc "@, "Close filter  "@), ("enter "@, "Apply filter  "@)],
    }
}

/// The first row shown of a table `height` rows high (one of them the
/// header) listing `total` rows with the row `selected` picked: the
/// selection is kept in the middle, except near either end.
pub open spec fn offset_for(selected: int, height: int, total: int) -> int {
    let visible = if height >= 1 { height - 1 } else { 0 };
    let half = visible / 2;
    if selected <= half {
        0
    } else if selected + half >= total {
        if total >= visible { total - visible } else { 0 }
    } else {
        selected - half
    }
}

impl RecordsComponent {
    /// The table focused, the first row and the first tab selected.
    pub fn new() -> (r: RecordsComponent)
        ensures
            r.selected_state == 0,
            r.selected_page == 0,
            r.focus == Focus::Table,
    {
        RecordsComponent { selected_state: 0, selected_page: 0, focus: Focus::Table }
    }

    /// Handles `key` with `count` courses listed.
    pub fn on_key(&mut self, key: Key, count: usize) -> (a: RecordsAction)
        ensures
            (*final(self), a) == records_step(*old(self), key, count as nat),
    {
        match self.focus {
            Focus::Table => {
                match key {
                    Key::Char('/') => {
                        self.focus = Focus::Filter;
                    },
                    Key::Char('k') | Key::Char('K') | Key::Up => {
                        self.selected_state = self.selected_state.saturating_sub(1);
                    },
                    Key::Char('j') | Key::Char('J') | Key::Down => {
                        let up = self.selected_state.saturating_add(1);
                        let last = count.saturating_sub(1);
                        self.selected_state = if up < last { up } else { last };
                    },
                    Key::Char('q') | Key::Char('Q') => {
                        self.selected_state = 0;
                        self.selected_page = 0;
                    },
                    Key::Char('w') | Key::Char('W') => {
                        self.selected_state = 0;
                        self.selected_page = 1;
                    },
                    _ => {},
                }
                RecordsAction::Done
            },
            Focus::Filter => match key {
                Key::Esc | Key::Enter => {
                    self.selected_state = 0;
                    self.focus = Focus::Table;
                    RecordsAction::Done
                },
                _ => RecordsAction::TypeInFilter,
            },
        }
    }

    /// The key hints for the current focus.
    pub fn commands(&self) -> (v: Vec<Hint>)
        ensures
            hints_view(v@) == records_hints(self.focus),
    {
        let mut v: Vec<Hint> = Vec::new();
        match self.focus {
            Focus::Table => {
                v.push(hint("a ", "Add course  "));
                v.push(hint("d ", "Delete course  "));
                v.push(hint("e ", "Edit course  "));
                v.push(hint("/ ", "Filter  "));
            },
            Focus::Filter => {
                v.push(hint("esc ", "Close filter  "));
                v.push(hint("enter ", "Apply filter  "));
            },
        }
        proof {
            assert(hints_view(v@) =~= records_hints(self.focus));
        }
        v
    }

    /// The first row to show in a table `height` rows high listing `total` courses.
    pub fn table_offset(&self, height: u16, total: usize) -> (o: usize)
        requires
            self.selected_state + (if height >= 1 { height - 1 } else { 0 }) / 2 <= usize::MAX,
        ensures
            o == offset_for(self.selected_state as int, height as int, total as int),
    {
        let visible = height.saturating_sub(1) as usize;
        let half = visible / 2;
        if self.selected_state <= half {
            0
        } else if self.selected_state + half >= total {
            total.saturating_sub(visible)
        } else {
            self.selected_state - half
        }
    }
}

/// A message with an optional action to run once it is confirmed.
pub struct Alert<A> {
    pub message: String,
    pub on_confirm: Option<A>,
}

impl<A> Alert<A> {
    /// An alert showing `message`.
    pub fn new(message: &str, on_confirm: Option<A>) -> (a: Alert<A>)
        ensures
            a.message@ == message@,
            a.on_confirm == on_confirm,
    {
        Alert { message: String::from_str(message), on_confirm }
    }

    /// Whether `key` closes the alert (Enter does, confirming it; the caller
    /// then runs the action, if there is one).
    pub fn on_key(&self, key: Key) -> (closes: bool)
        ensures
            closes == (key == Key::Enter),
    {
        match key {
            Key::Enter => true,
            _ => false,
        }
    }
}

/// The pane listing upcoming exams.
pub struct UpcomingComponent {}

impl UpcomingComponent {
    /// The pane.
    pub fn new() -> (c: UpcomingComponent)
        ensures
            c == (UpcomingComponent {}),
    {
        UpcomingComponent {}
    }

    /// The pane's key hints: none.
    pub fn commands(&self) -> (v: Vec<Hint>)
        ensures
            v@.len() == 0,
    {
        Vec::new()
    }
}

/// The container of the upcoming exams.
pub struct UpcomingContainer {}

impl UpcomingContainer {
    /// The container.
    pub fn new() -> (c: UpcomingContainer)
        ensures
            c == (UpcomingContainer {}),
    {
        UpcomingContainer {}
    }

    /// The container's key hints: none.
    pub fn commands(&self) -> (v: Vec<Hint>)
        ensures
            v@.len() == 0,
    {
        Vec::new()
    }
}

/// The calendar pane: the month shown, by a day in it.
#[derive(Clone, Copy, Debug, PartialEq, Eq, Structural)]
pub struct CalendarContainer {
    pub date: Date,
}

/// The key hints of the calendar pane.
pub open spec fn calendar_hints() -> Seq<(Seq<char>, Seq<char>)> {
    seq![("←/→"@, "Prev/Next month  "@), ("."@, "Goto current month  "@)]
}

impl CalendarContainer {
    /// The calendar at today's month.
    pub fn new() -> (c: CalendarContainer)
        ensures
            1 <= c.date.month <= 12,
            1 <= c.date.day <= 31,
    {
        CalendarContainer { date: today_utc() }
    }

    /// Handles `key`: `.` goes back to today's month. Stepping to the
    /// previous or next month with the arrow keys is not there yet, so those
    /// keys are not accepted.
    pub fn on_key(&mut self, key: Key)
        requires
            key != Key::Left,
            key != Key::Right,
        ensures
            key != Key::Char('.') ==> *final(self) == *old(self),
            key == Key::Char('.') ==> 1 <= final(self).date.month <= 12 && 1 <= final(self).date.day <= 31,
    {
        if key == Key::Char('.') {
            self.date = today_utc();
        }
    }

    /// The key hints.
    pub fn commands(&self) -> (v: Vec<Hint>)
        ensures
            hints_view(v@) == calendar_hints(),
    {
        let mut v: Vec<Hint> = Vec::new();
        v.push(hint("←/→", "Prev/Next month  "));
        v.push(hint(".", "Goto current month  "));
        proof {
            assert(hints_view(v@) =~= calendar_hints());
        }
        v
    }
}

/// A form: its fields, which one has the keyboard, and its state.
pub struct Form<F> {
    pub fields: Vec<F>,
    pub completed: bool,
    pub focused: usize,
    pub error: Option<String>,
}

impl<F> Form<F> {
    /// A form over `fields`, the first focused.
    pub fn new(fields: Vec<F>) -> (f: Form<F>)
        ensures
            f.fields@ == fields@,
            !f.completed,
            f.focused == 0,
            f.error is None,
    {
        Form { fields, completed: false, focused: 0, error: None }
    }

    /// Moves the focus to the next field, from the last back to the first.
    pub fn focus_next(&mut self)
        requires
            old(self).fields@.len() > 0,
            old(self).focused < usize::MAX,
        ensures
            final(self).focused == (old(self).focused + 1) % (old(self).fields@.len() as int),
            final(self).fields == old(self).fields,
            final(self).completed == old(self).completed,
            final(self).error == old(self).error,
    {
        let n = self.fields.len();
        self.focused = (self.focused + 1) % n;
    }

    /// Moves the focus to the previous field, from the first to the last.
    pub fn focus_prev(&mut self)
        requires
            old(self).fields@.len() > 0,
            old(self).focused + old(self).fields@.len() <= usize::MAX,
        ensures
            final(self).focused == (old(self).focused + old(self).fields@.len() - 1) % (old(self).fields@.len() as int),
            final(self).fields == old(self).fields,
            final(self).completed == old(self).completed,
            final(self).error == old(self).error,
    {
        let n = self.fields.len();
        self.focused = (self.focused + (n - 1)) % n;
    }
}

/// The labels and placeholders of the fields of the form for a new course.
pub open spec fn add_form_fields() -> Seq<(Seq<char>, Seq<char>)> {
    seq![("Title"@, "My Course"@), ("Credits"@, "0"@), ("Semester"@, "1"@), ("Grade"@, "0.0"@)]
}

/// The label and placeholder of a form field.
#[derive(Clone, Debug, PartialEq)]
pub struct FieldText {
    pub label: String,
    pub placeholder: String,
}

/// A form field labelled `label` with the placeholder `placeholder`.
fn field_text(label: &str, placeholder: &str) -> (f: FieldText)
    ensures
        f.label@ == label@,
        f.placeholder@ == placeholder@,
{
    FieldText { label: String::from_str(label), placeholder: String::from_str(placeholder) }
}

/// The labels and placeholders of the fields of the form for a new course.
pub fn add_form_field_texts() -> (v: Vec<FieldText>)
    ensures
        v@.map_values(|f: FieldText| (f.label@, f.placeholder@)) == add_form_fields(),
{
    let mut v: Vec<FieldText> = Vec::new();
    v.push(field_text("Title", "My Course"));
    v.push(field_text("Credits", "0"));
    v.push(field_text("Semester", "1"));
    v.push(field_text("Grade", "0.0"));
    proof {
        assert(v@.map_values(|f: FieldText| (f.label@, f.placeholder@)) =~= add_form_fields());
    }
    v
}

/// The overlay with the form for a new course.
pub struct AddOverlay<F> {
    pub form: Form<F>,
}

impl<F> AddOverlay<F> {
    /// The overlay over the form's fields.
    pub fn new(fields: Vec<F>) -> (o: AddOverlay<F>)
        ensures
            o.form.fields@ == fields@,
            o.form.focused == 0,
    {
        AddOverlay { form: Form::new(fields) }
    }

    /// Handles `key` and tells whether the overlay closes: Esc and Enter
    /// close it, Tab and Shift-Tab move between the fields.
    pub fn on_key(&mut self, key: Key) -> (closes: bool)
        requires
            key == Key::Tab ==> old(self).form.fields@.len() > 0 && old(self).form.focused < usize::MAX,
            key == Key::BackTab ==> old(self).form.fields@.len() > 0
                && old(self).form.focused + old(self).form.fields@.len() <= usize::MAX,
        ensures
            closes == (key == Key::Esc || key == Key::Enter),
            final(self).form.fields == old(self).form.fields,
            final(self).form.focused == match key {
                Key::Tab => (old(self).form.focused + 1) % (old(self).form.fields@.len() as int),
                Key::BackTab => (old(self).form.focused + old(self).form.fields@.len() - 1) % (old(self).form.fields@.len() as int),
                _ => old(self).form.focused as int,
            },
    {
        match key {
            Key::Esc => true,
            Key::Tab => {
                self.form.focus_next();
                false
            },
            Key::BackTab => {
                self.form.focus_prev();
                false
            },
            Key::Enter => true,
            _ => false,
        }
    }
}

/// Whether the key press quits the application: Control and `q`.
pub fn quits(key: KeyPress) -> (b: bool)
    ensures
        b == (key.ctrl && (key.code == Key::Char('q') || key.code == Key::Char('Q'))),
{
    key.ctrl && (key.code == Key::Char('q') || key.code == Key::Char('Q'))
}

/// The footer's key hints: the page's, then quitting.
pub fn footer_hints(page: Vec<Hint>) -> (v: Vec<Hint>)
    ensures
        hints_view(v@) == hints_view(page@) + seq![("^q "@, "Quit  "@)],
{
    let mut v = page;
    let ghost before = v@;
    v.push(hint("^q ", "Quit  "));
    proof {
        assert(hints_view(v@) =~= hints_view(before) + seq![("^q "@, "Quit  "@)]);
    }
    v
}

/// The filled cells of the insights pane's bar for `completed` out of
/// `total` credits over `width` cells: the share rounded to the nearest
/// cell, halves up; none when there are no credits.
pub open spec fn insights_filled(completed: int, total: int, width: int) -> int {
    if total == 0 {
        0
    } else {
        (2 * completed * width + total) / (2 * total)
    }
}

/// The average as the insights pane shows it: the exact average with two
/// fraction digits, or zero when nothing is graded.
pub open spec fn average_text(s: Stats) -> Seq<char> {
    if s.graded > 0 {
        quotient_text(s.weighted as int, s.graded as int)
    } else {
        "0.00"@
    }
}

/// What the insights pane shows: the average with two fraction digits, the
/// credits achieved, the credit goal, and the filled and empty cells of the
/// bar of achieved credits out of all credits.
pub struct Insights {
    pub average: String,
    pub achieved: String,
    pub want: String,
    pub filled: usize,
    pub empty: usize,
}

/// The filled and empty cells of the insights bar.
pub fn insights_cells(completed: u16, total: u16, width: usize) -> (r: (usize, usize))
    requires
        total > 0 ==> completed <= total,
    ensures
        r.0 == insights_filled(completed as int, total as int, width as int),
        r.0 + r.1 == width,
{
    if total == 0 {
        (0, width)
    } else {
        let c = completed as u128;
        let t = total as u128;
        let w = width as u128;
        proof {
            assert(2 * c * w + t <= 2 * 0x10000 * 0x1_0000_0000_0000_0000 + 0x10000) by (nonlinear_arith)
                requires c <= t, t < 0x10000, w <= 0xffff_ffff_ffff_ffff;
            let x = 2 * c * w + t;
            assert(0 <= x < (w + 1) * (2 * t)) by (nonlinear_arith)
                requires x == 2 * c * w + t, c <= t, t >= 1;
            lemma_quotient_below(x as int, 2 * t as int, w + 1);
        }
        let f = ((2 * c * w + t) / (2 * t)) as usize;
        (f, width - f)
    }
}

impl Gpa {
    /// What the insights pane shows for a bar `width` cells wide.
    pub fn insights(&self, width: usize) -> (r: Insights)
        requires
            credits_all(self.courses@) <= u16::MAX,
        ensures
            ({
                let s = course_stats(self.courses@, self.grading_system);
                &&& r.average@ == average_text(s)
                &&& r.achieved@ == "╭ Achieved: "@ + dec_digits((s.graded + s.points_only) as nat)
                &&& r.want@ == "Want: "@ + dec_digits(self.grading_system.credit_goal as nat) + " ╮"@
                &&& r.filled == insights_filled(s.graded + s.points_only, s.all as int, width as int)
                &&& r.filled + r.empty == width
            }),
    {
        let stats = self.get_stats();
        proof {
            lemma_sums_bounded(self.courses@, self.grading_system);
            assert(stats == course_stats(self.courses@, self.grading_system));
            let w = stats.weighted as int;
            let g = stats.graded as int;
            assert(-0x8000_0000_0000_0000 * g <= w <= 0x8000_0000_0000_0000 * g) by (nonlinear_arith)
                requires -0x8000_0000_0000_0000 * g <= w <= (0x8000_0000_0000_0000 - 1) * g, g >= 0;
            reveal_strlit("0.00");
        }
        let average = if stats.graded > 0 { quotient_string(stats.weighted, stats.graded) } else { String::from_str("0.00") };
        let total = stats.total();
        let mut achieved = String::from_str("╭ Achieved: ");
        push_decimal(&mut achieved, total as u64);
        let mut want = String::from_str("Want: ");
        push_decimal(&mut want, self.grading_system.credit_goal as u64);
        want.append(" ╮");
        let (filled, empty) = insights_cells(total, stats.all, width);
        Insights { average, achieved, want, filled, empty }
    }
}

/// Keys never move the selection of the records pane off the list: with a
/// course selected, a course stays selected.
pub proof fn law_selection_stays_in_list(s: RecordsComponent, key: Key, count: nat)
    requires
        s.selected_state < count,
    ensures
        records_step(s, key, count).0.selected_state < count,
{
}

/// Moving the focus of a form forward and then back returns to the same field.
pub proof fn law_focus_next_then_prev(focused: int, n: int)
    requires
        0 <= focused < n,
    ensures
        ((focused + 1) % n + n - 1) % n == focused,
{
    if focused + 1 < n {
        vstd::arithmetic::div_mod::lemma_small_mod((focused + 1) as nat, n as nat);
        vstd::arithmetic::div_mod::lemma_mod_add_multiples_vanish(focused, n);
        vstd::arithmetic::div_mod::lemma_small_mod(focused as nat, n as nat);
    } else {
        vstd::arithmetic::div_mod::lemma_mod_self_0(n);
        vstd::arithmetic::div_mod::lemma_small_mod((n - 1) as nat, n as nat);
    }
}

} // verus!
