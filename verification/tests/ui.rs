use gpa_rs::model::{Course, Gpa};
use gpa_rs::decimal::Decimal;
use gpa_rs::ui::{
    border_titles, centered_clamp, footer_hints, insights_cells, quits, AddOverlay, Alert, Focus, Key, KeyPress,
    PaneId, RecordsAction, RecordsComponent, Rect, UpcomingComponent, UpcomingContainer,
};

#[test]
fn records_keys_move_the_selection() {
    let mut r = RecordsComponent::new();
    assert_eq!(r.on_key(Key::Up, 3), RecordsAction::Done);
    assert_eq!(r.selected_state, 0);
    r.on_key(Key::Char('j'), 3);
    r.on_key(Key::Down, 3);
    r.on_key(Key::Down, 3);
    assert_eq!(r.selected_state, 2);
    r.on_key(Key::Char('K'), 3);
    assert_eq!(r.selected_state, 1);
    r.on_key(Key::Char('w'), 3);
    assert_eq!((r.selected_state, r.selected_page), (0, 1));
    r.on_key(Key::Char('q'), 3);
    assert_eq!(r.selected_page, 0);
    r.on_key(Key::Down, 0);
    assert_eq!(r.selected_state, 0);
}

#[test]
fn records_filter_takes_the_keys() {
    let mut r = RecordsComponent::new();
    r.on_key(Key::Down, 5);
    r.on_key(Key::Char('/'), 5);
    assert_eq!(r.focus, Focus::Filter);
    assert_eq!(r.on_key(Key::Char('x'), 5), RecordsAction::TypeInFilter);
    assert_eq!(r.commands().len(), 2);
    assert_eq!(r.on_key(Key::Enter, 5), RecordsAction::Done);
    assert_eq!(r.focus, Focus::Table);
    assert_eq!(r.selected_state, 0);
    let hints = r.commands();
    assert_eq!(hints.len(), 4);
    assert_eq!(hints[0].key, "a ");
    assert_eq!(hints[3].label, "Filter  ");
}

#[test]
fn table_offset_keeps_selection_in_view() {
    let mut r = RecordsComponent::new();
    // 11 rows high: 10 visible, half 5
    assert_eq!(r.table_offset(11, 30), 0);
    r.selected_state = 12;
    assert_eq!(r.table_offset(11, 30), 7);
    r.selected_state = 28;
    assert_eq!(r.table_offset(11, 30), 20);
    r.selected_state = 3;
    assert_eq!(r.table_offset(0, 2), 2);
}

#[test]
fn alerts_close_on_enter() {
    let a: Alert<u8> = Alert::new("Saved", Some(7));
    assert_eq!(a.message, "Saved");
    assert!(a.on_key(Key::Enter));
    assert!(!a.on_key(Key::Esc));
    assert_eq!(a.on_confirm, Some(7));
}

#[test]
fn empty_panes() {
    assert!(UpcomingComponent::new().commands().is_empty());
    assert!(UpcomingContainer::new().commands().is_empty());
    assert_ne!(PaneId::Upcoming, PaneId::Courses);
}

#[test]
fn add_overlay_moves_between_fields() {
    let mut o = AddOverlay::new(vec!["title", "credits", "semester", "grade"]);
    assert!(!o.on_key(Key::BackTab));
    assert_eq!(o.form.focused, 3);
    assert!(!o.on_key(Key::Tab));
    assert_eq!(o.form.focused, 0);
    assert!(!o.on_key(Key::Tab));
    assert_eq!(o.form.focused, 1);
    assert!(o.on_key(Key::Esc));
    assert!(o.on_key(Key::Enter));
}

#[test]
fn layout_helpers() {
    let r = centered_clamp(40, Rect { x: 2, y: 1, width: 100, height: 20 });
    assert_eq!(r, Rect { x: 32, y: 1, width: 40, height: 20 });
    let r = centered_clamp(40, Rect { x: 0, y: 0, width: 30, height: 5 });
    assert_eq!(r, Rect { x: 0, y: 0, width: 30, height: 5 });
    assert_eq!(border_titles("Records", None), ("─ Records ".to_string(), "─".to_string()));
    assert_eq!(border_titles("Calendar", Some("← . →")), ("─ Calendar ".to_string(), " ← . → ─".to_string()));
}

#[test]
fn quitting_and_footer() {
    assert!(quits(KeyPress { code: Key::Char('q'), ctrl: true }));
    assert!(!quits(KeyPress { code: Key::Char('q'), ctrl: false }));
    let hints = footer_hints(RecordsComponent::new().commands());
    assert_eq!(hints.len(), 5);
    assert_eq!(hints[4].key, "^q ");
    assert_eq!(hints[4].label, "Quit  ");
}

#[test]
fn insights_pane() {
    assert_eq!(insights_cells(0, 0, 10), (0, 10));
    assert_eq!(insights_cells(30, 60, 20), (10, 10));
    assert_eq!(insights_cells(60, 60, 7), (7, 0));
    let mut g = Gpa::default();
    g.courses.push(Course::new("A".to_string(), 6, 1, Some(Decimal(1700)), true));
    g.courses.push(Course::new("B".to_string(), 6, 1, None, false));
    let i = g.insights(12);
    assert_eq!(i.average, "1.70");
    assert_eq!(i.achieved, "╭ Achieved: 6");
    assert_eq!(i.want, "Want: 180 ╮");
    assert_eq!((i.filled, i.empty), (6, 6));
}

#[test]
fn relaxed_preconditions() {
    // no credits at all: no division, an empty bar
    assert_eq!(insights_cells(5, 0, 10), (0, 10));
    // a focus past the fields wraps around
    let mut f = gpa_rs::ui::Form::new(vec!['a', 'b', 'c']);
    f.focused = 5;
    f.focus_next();
    assert_eq!(f.focused, 0);
    f.focused = 5;
    f.focus_prev();
    assert_eq!(f.focused, 1);
    // keys that do not move the focus need no fields
    let mut o: AddOverlay<char> = AddOverlay::new(Vec::new());
    assert!(o.on_key(Key::Esc));
    assert!(!o.on_key(Key::Char('x')));
    let mut r = RecordsComponent::new();
    r.selected_state = usize::MAX;
    assert_eq!(r.table_offset(1, 3), 3);
}
