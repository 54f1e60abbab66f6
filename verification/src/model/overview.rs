//! The course overview printed on the terminal: a table of courses with a
//! header, the average grade and a progress bar toward the credit goal.

use vstd::prelude::*;
use vstd::utf8::{encode_scalar, encode_utf8};
use crate::commands::{Column, column_in};
use crate::report::{Line, Style, lines_view};
use crate::text::{spaces, pad_left, pad_right, push_padded_left, push_padded_right, push_repeat, repeat_char, dec_digits, push_decimal};
use crate::decimal::{Decimal, quotient_string, quotient_text, all_digits, digits_value, lemma_dec_digits_value};
use crate::model::course::{Course, grade_text, completed_text};
use crate::model::gpa::Gpa;
use crate::model::grading_system::GradingSystem;
use crate::model::stats::{Stats, grade_bound};
use crate::commands::FilterBy;
use crate::model::gpa::filter_matches;
use crate::model::stats::{course_stats, credits_all, lemma_sums_bounded};
use crate::model::sorting::{is_stable_sort_of, positions_in, sort_positions};

verus! {

/// `s` when `on`, else nothing.
pub open spec fn piece(on: bool, s: Seq<char>) -> Seq<char> {
    if on {
        s
    } else {
        Seq::<char>::empty()
    }
}

/// The text of the header row for the columns `cols`: each selected column's
/// label after a space, padded to the column's width.
pub open spec fn header_text(cols: Seq<Column>) -> Seq<char> {
    piece(cols.contains(Column::Title), seq![' '] + pad_right(seq!['T', 'i', 't', 'l', 'e'], 40))
        + piece(cols.contains(Column::Credits), seq![' '] + pad_left(seq!['C', 'r', 'e', 'd', 'i', 't', 's'], 7))
        + piece(cols.contains(Column::Semester), seq![' '] + pad_left(seq!['S', 'e', 'm'], 4))
        + piece(cols.contains(Column::Grade), seq![' '] + pad_left(seq!['G', 'r', 'a', 'd', 'e'], 6))
        + piece(cols.contains(Column::Completed), seq![' '] + pad_left(seq!['✓'], 3))
}

/// The length of the divider under the header: the header's length in
/// UTF-8 bytes, one less when the completed column is shown, else one more.
pub open spec fn divider_len(cols: Seq<Column>) -> int {
    if cols.contains(Column::Completed) {
        encode_utf8(header_text(cols)).len() as int - 1
    } else {
        encode_utf8(header_text(cols)).len() as int + 1
    }
}

/// The two header lines: the labels in bold, then a dimmed divider.
pub open spec fn header_lines(cols: Seq<Column>) -> Seq<Seq<(Seq<char>, Style)>> {
    seq![
        seq![(header_text(cols), Style::Bold)],
        seq![(repeat_char('─', divider_len(cols) as nat), Style::Dimmed)],
    ]
}

/// Every character takes one to four bytes in UTF-8.
pub proof fn lemma_utf8_len_bounds(s: Seq<char>)
    ensures
        s.len() <= encode_utf8(s).len() <= 4 * s.len(),
    decreases s.len(),
{
    if s.len() > 0 {
        lemma_utf8_len_bounds(s.drop_first());
    }
}

/// The header text is short, and not empty when the completed column is shown.
proof fn lemma_header_len(cols: Seq<Column>)
    ensures
        header_text(cols).len() <= 67,
        cols.contains(Column::Completed) ==> header_text(cols).len() >= 1,
        header_text(cols).len() <= encode_utf8(header_text(cols)).len() <= 268,
{
    lemma_utf8_len_bounds(header_text(cols));
}

/// The text of the header row for the columns `cols`.
fn header_string(cols: &[Column]) -> (line: String)
    ensures
        line@ == header_text(cols@),
{
    proof {
        reveal_strlit(" ");
        reveal_strlit("Title");
        reveal_strlit("Credits");
        reveal_strlit("Sem");
        reveal_strlit("Grade");
        reveal_strlit("✓");
    }
    let mut line = String::new();
    let ghost mut expect: Seq<char> = Seq::empty();
    if column_in(cols, Column::Title) {
        line.append(" ");
        push_padded_right(&mut line, "Title", 40);
    }
    proof {
        expect = piece(cols@.contains(Column::Title), seq![' '] + pad_right(seq!['T', 'i', 't', 'l', 'e'], 40));
        assert(line@ =~= expect);
    }
    if column_in(cols, Column::Credits) {
        line.append(" ");
        push_padded_left(&mut line, "Credits", 7);
    }
    proof {
        expect = expect + piece(cols@.contains(Column::Credits), seq![' '] + pad_left(seq!['C', 'r', 'e', 'd', 'i', 't', 's'], 7));
        assert(line@ =~= expect);
    }
    if column_in(cols, Column::Semester) {
        line.append(" ");
        push_padded_left(&mut line, "Sem", 4);
    }
    proof {
        expect = expect + piece(cols@.contains(Column::Semester), seq![' '] + pad_left(seq!['S', 'e', 'm'], 4));
        assert(line@ =~= expect);
    }
    if column_in(cols, Column::Grade) {
        line.append(" ");
        push_padded_left(&mut line, "Grade", 6);
    }
    proof {
        expect = expect + piece(cols@.contains(Column::Grade), seq![' '] + pad_left(seq!['G', 'r', 'a', 'd', 'e'], 6));
        assert(line@ =~= expect);
    }
    if column_in(cols, Column::Completed) {
        line.append(" ");
        push_padded_left(&mut line, "✓", 3);
    }
    proof {
        expect = expect + piece(cols@.contains(Column::Completed), seq![' '] + pad_left(seq!['✓'], 3));
        assert(line@ =~= expect);
    }
    line
}

/// Whether every character of `s` is ASCII.
pub open spec fn all_ascii(s: Seq<char>) -> bool {
    forall|i: int| 0 <= i < s.len() ==> (#[trigger] s[i] as u32) < 0x80
}

/// The UTF-8 length of a concatenation is the sum of the lengths.
proof fn lemma_utf8_len_concat(a: Seq<char>, b: Seq<char>)
    ensures
        encode_utf8(a + b).len() == encode_utf8(a).len() + encode_utf8(b).len(),
    decreases a.len(),
{
    if a.len() > 0 {
        assert((a + b).drop_first() =~= a.drop_first() + b);
        assert((a + b)[0] == a[0]);
        lemma_utf8_len_concat(a.drop_first(), b);
    } else {
        assert(a + b =~= b);
    }
}

/// An ASCII text takes one byte per character.
proof fn lemma_utf8_len_ascii(s: Seq<char>)
    requires
        all_ascii(s),
    ensures
        encode_utf8(s).len() == s.len(),
    decreases s.len(),
{
    if s.len() > 0 {
        assert(all_ascii(s.drop_first())) by {
            assert forall|i: int| 0 <= i < s.drop_first().len() implies (#[trigger] s.drop_first()[i] as u32) < 0x80 by {
                assert(s.drop_first()[i] == s[i + 1]);
            }
        }
        assert((s[0] as u32) < 0x80);
        lemma_utf8_len_ascii(s.drop_first());
    }
}

/// The divider under the header is one longer than the header has
/// characters, whichever columns are shown.
pub proof fn law_divider_one_longer(cols: Seq<Column>)
    ensures
        divider_len(cols) == header_text(cols).len() + 1,
{
    let title = piece(cols.contains(Column::Title), seq![' '] + pad_right(seq!['T', 'i', 't', 'l', 'e'], 40));
    let credits = piece(cols.contains(Column::Credits), seq![' '] + pad_left(seq!['C', 'r', 'e', 'd', 'i', 't', 's'], 7));
    let sem = piece(cols.contains(Column::Semester), seq![' '] + pad_left(seq!['S', 'e', 'm'], 4));
    let grade = piece(cols.contains(Column::Grade), seq![' '] + pad_left(seq!['G', 'r', 'a', 'd', 'e'], 6));
    let check = piece(cols.contains(Column::Completed), seq![' '] + pad_left(seq!['✓'], 3));
    let front = title + credits + sem + grade;
    assert(header_text(cols) == front + check);
    assert(all_ascii(front)) by {
        assert forall|i: int| 0 <= i < front.len() implies (#[trigger] front[i] as u32) < 0x80 by {
            assert(front[i] == ' ' || front[i] == 'T' || front[i] == 'i' || front[i] == 't' || front[i] == 'l'
                || front[i] == 'e' || front[i] == 'C' || front[i] == 'r' || front[i] == 'd' || front[i] == 's'
                || front[i] == 'S' || front[i] == 'm' || front[i] == 'G' || front[i] == 'a');
        }
    }
    lemma_utf8_len_ascii(front);
    lemma_utf8_len_concat(front, check);
    if cols.contains(Column::Completed) {
        let spaces3 = seq![' '] + spaces(2);
        assert(check =~= spaces3 + seq!['✓']);
        assert(all_ascii(spaces3));
        lemma_utf8_len_ascii(spaces3);
        lemma_utf8_len_concat(spaces3, seq!['✓']);
        assert(('✓' as u32) == 0x2713);
        let mark = seq!['✓'];
        assert(mark.drop_first() =~= Seq::<char>::empty());
        assert(encode_utf8(mark.drop_first()).len() == 0);
        assert(vstd::utf8::has_width_3_encoding(0x2713u32));
        assert(encode_scalar(0x2713u32).len() == 3);
        assert(encode_utf8(mark) == encode_scalar(mark[0] as u32) + encode_utf8(mark.drop_first()));
        assert(encode_utf8(mark).len() == 3);
    } else {
        assert(check =~= Seq::<char>::empty());
    }
}

/// Writes the header for the columns `cols` to `out`.
pub fn write_header(out: &mut Vec<Line>, cols: &[Column])
    ensures
        lines_view(final(out)@) == lines_view(old(out)@) + header_lines(cols@),
{
    proof {
        reveal_strlit("─");
        lemma_header_len(cols@);
    }
    let line = header_string(cols);
    let completed = column_in(cols, Column::Completed);
    let whole = line.as_str();
    let n = whole.len();
    let width = if completed { n - 1 } else { n + 1 };
    assert(width == divider_len(cols@));
    let mut first = Line::new();
    first.push(line, Style::Bold);
    assert(first@ =~= seq![(header_text(cols@), Style::Bold)]);
    let mut divider = String::new();
    push_repeat(&mut divider, "─", width);
    let mut second = Line::new();
    second.push(divider, Style::Dimmed);
    assert(second@ =~= seq![(repeat_char('─', divider_len(cols@) as nat), Style::Dimmed)]);
    let ghost before = out@;
    out.push(first);
    out.push(second);
    proof {
        assert(lines_view(out@) =~= lines_view(before) + header_lines(cols@));
    }
}

/// How many of `width` cells of a progress bar are filled for `current` out
/// of `total`: all of them once `current` reaches `total` (a zero total
/// counting as one), else the share rounded to the nearest cell, halves up.
pub open spec fn bar_filled(current: int, total: int, width: int) -> int {
    let t = if total < 1 { 1 } else { total };
    if current >= t {
        width
    } else {
        (2 * current * width + t) / (2 * t)
    }
}

/// The segments of a progress bar: the filled cells in cyan, then the
/// empty ones dimmed, in brackets.
pub open spec fn bar_segments(current: int, total: int, width: int) -> Seq<(Seq<char>, Style)> {
    let f = bar_filled(current, total, width);
    seq![
        (seq!['['], Style::Plain),
        (repeat_char('█', f as nat), Style::Cyan),
        (repeat_char('░', (width - f) as nat), Style::Dimmed),
        (seq![']'], Style::Plain),
    ]
}

/// The filled cells never exceed the width, and fill it once `current`
/// reaches `total`.
pub proof fn law_bar_filled_within_width(current: int, total: int, width: int)
    requires
        0 <= current,
        0 <= width,
    ensures
        0 <= bar_filled(current, total, width) <= width,
        current >= total && current >= 1 ==> bar_filled(current, total, width) == width,
        current == 0 ==> bar_filled(current, total, width) == 0,
{
    let t = if total < 1 { 1 } else { total };
    if current < t {
        let x = 2 * current * width + t;
        assert(0 <= x < (width + 1) * (2 * t)) by (nonlinear_arith)
            requires x == 2 * current * width + t, 0 <= current < t, 0 <= width, t >= 1;
        crate::model::stats::lemma_quotient_below(x, 2 * t, width + 1);
        assert(x / (2 * t) >= 0) by (nonlinear_arith)
            requires x >= 0, t >= 1;
        if current == 0 {
            assert(x == t) by (nonlinear_arith)
                requires x == 2 * current * width + t, current == 0;
            crate::model::stats::lemma_quotient_below(x, 2 * t, 1);
        }
    }
}

/// The filled cells never shrink as the current credits grow.
pub proof fn law_bar_filled_monotone(c1: int, c2: int, total: int, width: int)
    requires
        0 <= c1 <= c2,
        0 <= width,
    ensures
        bar_filled(c1, total, width) <= bar_filled(c2, total, width),
{
    law_bar_filled_within_width(c1, total, width);
    law_bar_filled_within_width(c2, total, width);
    let t = if total < 1 { 1 } else { total };
    if c2 < t {
        assert(2 * c1 * width + t <= 2 * c2 * width + t) by (nonlinear_arith)
            requires c1 <= c2, width >= 0;
        vstd::arithmetic::div_mod::lemma_div_is_ordered(2 * c1 * width + t, 2 * c2 * width + t, 2 * t);
    }
}

/// The number of filled cells of a progress bar.
fn filled_cells(current: u16, total: u16, width: usize) -> (f: usize)
    ensures
        f == bar_filled(current as int, total as int, width as int),
        f <= width,
{
    proof {
        law_bar_filled_within_width(current as int, total as int, width as int);
    }
    let t: u128 = if total < 1 { 1 } else { total as u128 };
    if current as u128 >= t {
        width
    } else {
        let c = current as u128;
        let w = width as u128;
        proof {
            assert(2 * c * w + t <= 2 * 0x10000 * 0x1_0000_0000_0000_0000 + 0x10000) by (nonlinear_arith)
                requires c < 0x10000, w <= 0xffff_ffff_ffff_ffff, t <= 0x10000;
        }
        let f = (2 * c * w + t) / (2 * t);
        f as usize
    }
}

/// A progress bar of `width` cells for `current` out of `total`.
pub fn progress_bar(current: u16, total: u16, width: usize) -> (bar: Line)
    ensures
        bar@ == bar_segments(current as int, total as int, width as int),
{
    proof {
        reveal_strlit("[");
        reveal_strlit("]");
        reveal_strlit("█");
        reveal_strlit("░");
    }
    let f = filled_cells(current, total, width);
    let mut done = String::new();
    push_repeat(&mut done, "█", f);
    let mut rest = String::new();
    push_repeat(&mut rest, "░", width - f);
    let open = String::from_str("[");
    let close = String::from_str("]");
    assert(open@ =~= seq!['[']);
    assert(close@ =~= seq![']']);
    assert(done@ =~= repeat_char('█', f as nat));
    assert(rest@ =~= repeat_char('░', (width - f) as nat));
    let mut bar = Line::new();
    bar.push(open, Style::Plain);
    bar.push(done, Style::Cyan);
    bar.push(rest, Style::Dimmed);
    bar.push(close, Style::Plain);
    proof {
        assert(bar@ =~= bar_segments(current as int, total as int, width as int));
    }
    bar
}

/// `segs` when `on`, else nothing.
pub open spec fn segs_if(on: bool, segs: Seq<(Seq<char>, Style)>) -> Seq<(Seq<char>, Style)> {
    if on {
        segs
    } else {
        Seq::empty()
    }
}

/// The style of a grade in the table: bold red when it fails and failed
/// grades are ignored, green when it is at least as good as the target,
/// red otherwise, dimmed when there is no grade.
pub open spec fn grade_style(sys: GradingSystem, target: Decimal, g: Option<Decimal>) -> Style {
    match g {
        Some(x) => if !sys.spec_is_pass(x) && sys.ignore_failed {
            Style::RedBold
        } else if sys.spec_better(x, target) {
            Style::Green
        } else {
            Style::Red
        },
        None => Style::Dimmed,
    }
}

/// The row of the course `c` for the columns `cols`: each selected cell after
/// a space, padded to the column's width.
pub open spec fn row_segments(sys: GradingSystem, target: Decimal, cols: Seq<Column>, c: Course) -> Seq<(Seq<char>, Style)> {
    segs_if(cols.contains(Column::Title), seq![(seq![' '] + pad_right(c.title@, 40), Style::Plain)])
        + segs_if(cols.contains(Column::Credits), seq![(seq![' '] + pad_left(dec_digits(c.credits as nat), 7), Style::Plain)])
        + segs_if(cols.contains(Column::Semester), seq![(seq![' '] + pad_left(dec_digits(c.semester as nat), 4), Style::Plain)])
        + segs_if(cols.contains(Column::Grade), seq![(seq![' '], Style::Plain), (pad_left(grade_text(c.grade), 6), grade_style(sys, target, c.grade))])
        + segs_if(cols.contains(Column::Completed), seq![(seq![' '], Style::Plain), (pad_left(completed_text(c.completed), 3), Style::Dimmed)])
}

/// The first cells of a course's row are the course's own title and credits:
/// the title after a space, padded on the right to forty characters, then the
/// credits' decimal digits, which read back as the credits, padded on the left
/// with spaces to seven characters after a space.
pub proof fn law_row_title_credits_cells(sys: GradingSystem, target: Decimal, cols: Seq<Column>, c: Course)
    ensures
        ({
            let row = row_segments(sys, target, cols, c);
            let k: int = if cols.contains(Column::Title) { 1int } else { 0int };
            let digits = dec_digits(c.credits as nat);
            &&& cols.contains(Column::Title) ==> row.len() > 0 && row[0] == (seq![' '] + c.title@ + spaces(40 - c.title@.len()), Style::Plain)
            &&& cols.contains(Column::Credits) ==> k < row.len() && row[k] == (seq![' '] + spaces(7 - digits.len()) + digits, Style::Plain)
            &&& all_digits(digits)
            &&& digits_value(digits) == c.credits
        }),
{
    lemma_dec_digits_value(c.credits as nat);
    let digits = dec_digits(c.credits as nat);
    let t = segs_if(cols.contains(Column::Title), seq![(seq![' '] + pad_right(c.title@, 40), Style::Plain)]);
    let cr = segs_if(cols.contains(Column::Credits), seq![(seq![' '] + pad_left(digits, 7), Style::Plain)]);
    let rest = segs_if(cols.contains(Column::Semester), seq![(seq![' '] + pad_left(dec_digits(c.semester as nat), 4), Style::Plain)])
        + segs_if(cols.contains(Column::Grade), seq![(seq![' '], Style::Plain), (pad_left(grade_text(c.grade), 6), grade_style(sys, target, c.grade))])
        + segs_if(cols.contains(Column::Completed), seq![(seq![' '], Style::Plain), (pad_left(completed_text(c.completed), 3), Style::Dimmed)]);
    let row = row_segments(sys, target, cols, c);
    assert(row =~= t + cr + rest);
    assert(seq![' '] + pad_right(c.title@, 40) =~= seq![' '] + c.title@ + spaces(40 - c.title@.len()));
    assert(seq![' '] + pad_left(digits, 7) =~= seq![' '] + spaces(7 - digits.len()) + digits);
    if cols.contains(Column::Title) {
        assert(row[0] == t[0]);
    }
    if cols.contains(Column::Credits) {
        let k: int = if cols.contains(Column::Title) { 1int } else { 0int };
        assert(t.len() == k);
        assert(row[k] == cr[0]);
    }
}

/// The Sem cell of a course's row is the course's own semester: it follows
/// the title and credits cells (where shown), and after a space it holds the
/// semester's decimal digits, which read back as the semester, padded on the
/// left with spaces to four characters.
pub proof fn law_row_semester_cell(sys: GradingSystem, target: Decimal, cols: Seq<Column>, c: Course)
    requires
        cols.contains(Column::Semester),
    ensures
        ({
            let row = row_segments(sys, target, cols, c);
            let k: int = (if cols.contains(Column::Title) { 1int } else { 0int })
                + (if cols.contains(Column::Credits) { 1int } else { 0int });
            let digits = dec_digits(c.semester as nat);
            &&& k < row.len()
            &&& row[k].1 == Style::Plain
            &&& row[k].0 == seq![' '] + spaces(4 - digits.len()) + digits
            &&& all_digits(digits)
            &&& digits_value(digits) == c.semester
        }),
{
    lemma_dec_digits_value(c.semester as nat);
    let digits = dec_digits(c.semester as nat);
    let t = segs_if(cols.contains(Column::Title), seq![(seq![' '] + pad_right(c.title@, 40), Style::Plain)]);
    let cr = segs_if(cols.contains(Column::Credits), seq![(seq![' '] + pad_left(dec_digits(c.credits as nat), 7), Style::Plain)]);
    let se = seq![(seq![' '] + pad_left(digits, 4), Style::Plain)];
    let rest = segs_if(cols.contains(Column::Grade), seq![(seq![' '], Style::Plain), (pad_left(grade_text(c.grade), 6), grade_style(sys, target, c.grade))])
        + segs_if(cols.contains(Column::Completed), seq![(seq![' '], Style::Plain), (pad_left(completed_text(c.completed), 3), Style::Dimmed)]);
    let row = row_segments(sys, target, cols, c);
    assert(row =~= t + cr + se + rest);
    let k: int = (if cols.contains(Column::Title) { 1int } else { 0int })
        + (if cols.contains(Column::Credits) { 1int } else { 0int });
    assert((t + cr).len() == k);
    assert(row[k] == se[0]);
    assert(seq![' '] + pad_left(digits, 4) =~= seq![' '] + spaces(4 - digits.len()) + digits);
}

/// The line with the average, when it is above zero: the graded credits,
/// then the average with two fraction digits, green when it is at least as
/// good as the target, else red.
pub open spec fn average_lines(sys: GradingSystem, target: Decimal, s: Stats) -> Seq<Seq<(Seq<char>, Style)>> {
    if s.graded > 0 && s.weighted > 0 {
        seq![seq![
            ("Average over "@ + dec_digits(s.graded as nat) + " graded credits: "@, Style::Plain),
            (quotient_text(s.weighted as int, s.graded as int), if average_better(sys, s, target) { Style::Green } else { Style::Red }),
        ]]
    } else {
        Seq::empty()
    }
}

/// Whether the exact average of `s` (its weighted sum over its graded
/// credits) is at least as good as `target`.
pub open spec fn average_better(sys: GradingSystem, s: Stats, target: Decimal) -> bool {
    if sys.lower_is_better {
        s.weighted <= target.0 * s.graded
    } else {
        s.weighted >= target.0 * s.graded
    }
}

/// The progress line: a bar of 45 cells for `total` out of `max` credits,
/// then the two numbers dimmed.
pub open spec fn progress_segments(total: int, max: int) -> Seq<(Seq<char>, Style)> {
    seq![("Progress "@, Style::Plain)] + bar_segments(total, max, 45) + seq![
        (" "@, Style::Plain),
        ("("@ + dec_digits(total as nat) + "/"@ + dec_digits(max as nat) + ")"@, Style::Dimmed),
    ]
}

/// The credit count the progress bar measures against: all credits when
/// the courses are filtered, else the credit goal.
pub open spec fn progress_max(g: Gpa, filtered: bool, s: Stats) -> int {
    if filtered {
        s.all as int
    } else {
        g.grading_system.credit_goal as int
    }
}

/// The text of `n` after `prefix`.
fn with_number(prefix: &str, n: u64) -> (s: String)
    ensures
        s@ == prefix@ + dec_digits(n as nat),
{
    let mut s = String::from_str(prefix);
    push_decimal(&mut s, n);
    s
}

impl Gpa {
    /// Writes the row of `course` for the columns `cols`.
    fn write_row(&self, out: &mut Vec<Line>, cols: &[Column], course: &Course)
        ensures
            lines_view(final(out)@) == lines_view(old(out)@).push(row_segments(self.grading_system, self.target_average, cols@, *course)),
    {
        proof {
            reveal_strlit(" ");
        }
        let sys = &self.grading_system;
        let mut line = Line::new();
        let ghost mut expect: Seq<(Seq<char>, Style)> = Seq::empty();
        if column_in(cols, Column::Title) {
            let mut cell = String::from_str(" ");
            push_padded_right(&mut cell, course.title.as_str(), 40);
            assert(cell@ =~= seq![' '] + pad_right(course.title@, 40));
            line.push(cell, Style::Plain);
        }
        proof {
            expect = segs_if(cols@.contains(Column::Title), seq![(seq![' '] + pad_right(course.title@, 40), Style::Plain)]);
            assert(line@ =~= expect);
        }
        if column_in(cols, Column::Credits) {
            let mut digits = String::new();
            push_decimal(&mut digits, course.credits as u64);
            let mut cell = String::from_str(" ");
            push_padded_left(&mut cell, digits.as_str(), 7);
            assert(digits@ =~= dec_digits(course.credits as nat));
            assert(cell@ =~= seq![' '] + pad_left(dec_digits(course.credits as nat), 7));
            line.push(cell, Style::Plain);
        }
        proof {
            reveal_strlit("");
            expect = expect + segs_if(cols@.contains(Column::Credits), seq![(seq![' '] + pad_left(dec_digits(course.credits as nat), 7), Style::Plain)]);
            assert(line@ =~= expect);
        }
        if column_in(cols, Column::Semester) {
            let mut digits = String::new();
            push_decimal(&mut digits, course.semester as u64);
            let mut cell = String::from_str(" ");
            push_padded_left(&mut cell, digits.as_str(), 4);
            assert(digits@ =~= dec_digits(course.semester as nat));
            assert(cell@ =~= seq![' '] + pad_left(dec_digits(course.semester as nat), 4));
            line.push(cell, Style::Plain);
        }
        proof {
            expect = expect + segs_if(cols@.contains(Column::Semester), seq![(seq![' '] + pad_left(dec_digits(course.semester as nat), 4), Style::Plain)]);
            assert(line@ =~= expect);
        }
        if column_in(cols, Column::Grade) {
            let style = match course.grade {
                Some(g) => if !sys.is_pass(g) && sys.ignore_failed {
                    Style::RedBold
                } else if sys.better(g, self.target_average) {
                    Style::Green
                } else {
                    Style::Red
                },
                None => Style::Dimmed,
            };
            let text = course.grade_str();
            let mut cell = String::new();
            push_padded_left(&mut cell, text.as_str(), 6);
            assert(style == grade_style(*sys, self.target_average, course.grade));
            assert(cell@ =~= pad_left(grade_text(course.grade), 6));
            let space = String::from_str(" ");
            assert(space@ =~= seq![' ']);
            line.push(space, Style::Plain);
            line.push(cell, style);
        }
        proof {
            expect = expect + segs_if(cols@.contains(Column::Grade), seq![(seq![' '], Style::Plain), (pad_left(grade_text(course.grade), 6), grade_style(*sys, self.target_average, course.grade))]);
            assert(line@ =~= expect);
        }
        if column_in(cols, Column::Completed) {
            let text = course.completed_str();
            let mut cell = String::new();
            push_padded_left(&mut cell, text.as_str(), 3);
            assert(cell@ =~= pad_left(completed_text(course.completed), 3));
            let space = String::from_str(" ");
            assert(space@ =~= seq![' ']);
            line.push(space, Style::Plain);
            line.push(cell, Style::Dimmed);
        }
        proof {
            expect = expect + segs_if(cols@.contains(Column::Completed), seq![(seq![' '], Style::Plain), (pad_left(completed_text(course.completed), 3), Style::Dimmed)]);
            assert(line@ =~= row_segments(*sys, self.target_average, cols@, *course));
        }
        let ghost before = out@;
        out.push(line);
        proof {
            assert(lines_view(out@) =~= lines_view(before).push(row_segments(*sys, self.target_average, cols@, *course)));
        }
    }

    /// Writes the average line, when the average is above zero.
    fn write_average(&self, out: &mut Vec<Line>, stats: &Stats)
        requires
            -grade_bound() * stats.graded <= stats.weighted <= (grade_bound() - 1) * stats.graded,
        ensures
            lines_view(final(out)@) == lines_view(old(out)@) + average_lines(self.grading_system, self.target_average, *stats),
    {
        proof {
            reveal_strlit(" graded credits: ");
        }
        let ghost before = out@;
        let avg = stats.avg();
        if avg.is_positive() {
            let mut text = with_number("Average over ", stats.graded as u64);
            text.append(" graded credits: ");
            proof {
                let t = self.target_average.0 as int;
                let g = stats.graded as int;
                assert(-0x8000_0000_0000_0000 * 0x10000 <= t * g <= 0x8000_0000_0000_0000 * 0x10000) by (nonlinear_arith)
                    requires -0x8000_0000_0000_0000 <= t < 0x8000_0000_0000_0000, 0 <= g <= 0xffff;
                let w = stats.weighted as int;
                assert(grade_bound() == 0x8000_0000_0000_0000);
                assert(-0x8000_0000_0000_0000 * g <= w <= 0x8000_0000_0000_0000 * g) by (nonlinear_arith)
                    requires -0x8000_0000_0000_0000 * g <= w <= (0x8000_0000_0000_0000 - 1) * g, g >= 0;
            }
            let bound = (self.target_average.0 as i128) * (stats.graded as i128);
            let better = if self.grading_system.lower_is_better { stats.weighted <= bound } else { stats.weighted >= bound };
            let style = if better { Style::Green } else { Style::Red };
            let mut line = Line::new();
            line.push(text, Style::Plain);
            line.push(quotient_string(avg.num, avg.den), style);
            out.push(line);
            proof {
                assert(line@ =~= seq![
                    ("Average over "@ + dec_digits(stats.graded as nat) + " graded credits: "@, Style::Plain),
                    (quotient_text(stats.weighted as int, stats.graded as int), if average_better(self.grading_system, *stats, self.target_average) { Style::Green } else { Style::Red }),
                ]);
                assert(lines_view(out@) =~= lines_view(before) + average_lines(self.grading_system, self.target_average, *stats));
            }
        } else {
            proof {
                assert(lines_view(out@) =~= lines_view(before) + average_lines(self.grading_system, self.target_average, *stats));
            }
        }
    }

    /// Writes the progress line toward the credit goal, or toward all
    /// credits when the courses are filtered.
    fn write_progress(&self, out: &mut Vec<Line>, stats: &Stats, filter: Option<&FilterBy>)
        requires
            stats.graded + stats.points_only <= u16::MAX,
        ensures
            lines_view(final(out)@) == lines_view(old(out)@).push(progress_segments(
                stats.graded + stats.points_only,
                progress_max(*self, filter is Some, *stats),
            )),
    {
        proof {
            reveal_strlit("Progress ");
            reveal_strlit(" ");
            reveal_strlit("/");
            reveal_strlit(")");
        }
        let max = match filter {
            Some(_) => stats.all,
            None => self.grading_system.credit_goal,
        };
        let total = stats.total();
        let mut credits = with_number("(", total as u64);
        credits.append("/");
        push_decimal(&mut credits, max as u64);
        credits.append(")");
        let mut line = Line::new();
        line.push(String::from_str("Progress "), Style::Plain);
        line.append(progress_bar(total, max, 45));
        line.push(String::from_str(" "), Style::Plain);
        line.push(credits, Style::Dimmed);
        let ghost before = out@;
        out.push(line);
        proof {
            let expect = progress_segments(stats.graded + stats.points_only, progress_max(*self, filter is Some, *stats));
            assert(line@ =~= expect);
            assert(lines_view(out@) =~= lines_view(before).push(expect));
        }
    }
}

/// Whether the course `c` passes the optional filter.
pub open spec fn passes(filter: Option<&FilterBy>, c: Course) -> bool {
    match filter {
        Some(f) => filter_matches(*f, c),
        None => true,
    }
}

/// The positions among the first `n` courses of `cs` that pass the filter, in order.
pub open spec fn matching_positions(cs: Seq<Course>, filter: Option<&FilterBy>, n: int) -> Seq<usize>
    decreases n,
{
    if n <= 0 {
        Seq::empty()
    } else if passes(filter, cs[n - 1]) {
        matching_positions(cs, filter, n - 1).push((n - 1) as usize)
    } else {
        matching_positions(cs, filter, n - 1)
    }
}

/// The rows of the courses of `g` at the positions `rows`.
pub open spec fn row_lines(g: Gpa, cols: Seq<Column>, rows: Seq<usize>) -> Seq<Seq<(Seq<char>, Style)>> {
    rows.map_values(|i: usize| row_segments(g.grading_system, g.target_average, cols, g.courses@[i as int]))
}

/// The whole overview: unless `short`, the header, the rows of the courses at
/// `rows` and an empty line; then the average line and the progress line.
pub open spec fn overview_lines(
    g: Gpa,
    filtered: bool,
    cols: Seq<Column>,
    rows: Seq<usize>,
    short: bool,
    s: Stats,
) -> Seq<Seq<(Seq<char>, Style)>> {
    (if short {
        Seq::empty()
    } else {
        header_lines(cols) + row_lines(g, cols, rows) + seq![Seq::<(Seq<char>, Style)>::empty()]
    }) + average_lines(g.grading_system, g.target_average, s) + seq![
        progress_segments(s.graded + s.points_only, progress_max(g, filtered, s)),
    ]
}

/// `v` in reverse order.
fn reversed(v: &Vec<usize>) -> (r: Vec<usize>)
    ensures
        r@ == v@.reverse(),
{
    let mut r: Vec<usize> = Vec::new();
    let n = v.len();
    let mut k: usize = n;
    while k > 0
        invariant
            n == v@.len(),
            k <= n,
            r@ == v@.subrange(k as int, n as int).reverse(),
        decreases k,
    {
        k = k - 1;
        r.push(v[k]);
        proof {
            assert(r@ =~= v@.subrange(k as int, n as int).reverse());
        }
    }
    proof {
        assert(v@.subrange(0, n as int) =~= v@);
    }
    r
}

impl Gpa {
    /// Writes the overview of the courses that pass `filter` to `out`: unless
    /// `short`, the columns `cols` of each course, sorted stably by the columns
    /// `order_by` (the first the most significant) and then reversed when
    /// `reverse`; then the average and the progress over all courses.
    pub fn overview(
        &self,
        out: &mut Vec<Line>,
        filter: Option<&FilterBy>,
        cols: &[Column],
        order_by: &[Column],
        reverse: bool,
        short: bool,
    )
        requires
            credits_all(self.courses@) <= u16::MAX,
        ensures
            exists|sorted: Seq<usize>|
                #[trigger] is_stable_sort_of(self.courses@, sorted, matching_positions(self.courses@, filter, self.courses@.len() as int), order_by@, false)
                && lines_view(final(out)@) == lines_view(old(out)@) + overview_lines(
                    *self,
                    filter is Some,
                    cols@,
                    if reverse { sorted.reverse() } else { sorted },
                    short,
                    course_stats(self.courses@, self.grading_system),
                ),
    {
        let n = self.courses.len();
        let mut rows: Vec<usize> = Vec::new();
        let mut i: usize = 0;
        while i < n
            invariant
                n == self.courses@.len(),
                i <= n,
                rows@ == matching_positions(self.courses@, filter, i as int),
                forall|k: int| 0 <= k < rows@.len() ==> #[trigger] rows@[k] < i,
            decreases n - i,
        {
            let keep = match filter {
                Some(f) => f.matches(&self.courses[i]),
                None => true,
            };
            if keep {
                rows.push(i);
            }
            i = i + 1;
        }
        let ghost matching = rows@;
        sort_positions(&self.courses, &mut rows, order_by, false);
        let ghost sorted = rows@;
        let order = if reverse { reversed(&rows) } else { rows };
        let ghost shown = if reverse { sorted.reverse() } else { sorted };
        assert(order@ == shown);
        assert(positions_in(self.courses@, order@)) by {
            if reverse {
                assert forall|k: int| 0 <= k < order@.len() implies #[trigger] order@[k] < self.courses@.len() by {
                    assert(order@[k] == sorted[sorted.len() - 1 - k]);
                }
            }
        }
        let stats = self.get_stats();
        proof {
            lemma_sums_bounded(self.courses@, self.grading_system);
            assert(stats == course_stats(self.courses@, self.grading_system));
        }
        let ghost start = out@;
        if !short {
            write_header(out, cols);
            let m = order.len();
            let mut k: usize = 0;
            while k < m
                invariant
                    m == order@.len(),
                    k <= m,
                    order@ == shown,
                    positions_in(self.courses@, order@),
                    lines_view(out@) == lines_view(start) + header_lines(cols@) + row_lines(*self, cols@, shown.subrange(0, k as int)),
                decreases m - k,
            {
                let ghost before = out@;
                self.write_row(out, cols, &self.courses[order[k]]);
                k = k + 1;
                proof {
                    assert(row_lines(*self, cols@, shown.subrange(0, k as int))
                        =~= row_lines(*self, cols@, shown.subrange(0, k - 1)).push(
                            row_segments(self.grading_system, self.target_average, cols@, self.courses@[shown[k - 1] as int]),
                        ));
                }
            }
            let ghost before = out@;
            let blank = Line::new();
            assert(blank@ =~= Seq::<(Seq<char>, Style)>::empty());
            out.push(blank);
            proof {
                assert(shown.subrange(0, m as int) =~= shown);
                assert(lines_view(out@) =~= lines_view(before).push(Seq::<(Seq<char>, Style)>::empty()));
            }
        }
        let ghost middle = out@;
        self.write_average(out, &stats);
        self.write_progress(out, &stats, filter);
        proof {
            assert(lines_view(out@) =~= lines_view(start) + overview_lines(*self, filter is Some, cols@, shown, short, stats));
            assert(is_stable_sort_of(self.courses@, sorted, matching, order_by@, false));
        }
    }
}

/// The overview lists a course exactly when it passes the filter, and at
/// most once.
pub proof fn law_matching_positions(cs: Seq<Course>, filter: Option<&FilterBy>, n: int, i: int)
    requires
        0 <= i < n <= cs.len(),
        n <= usize::MAX,
    ensures
        matching_positions(cs, filter, n).contains(i as usize) <==> passes(filter, cs[i]),
        matching_positions(cs, filter, n).no_duplicates(),
        forall|k: int| 0 <= k < matching_positions(cs, filter, n).len() ==> #[trigger] matching_positions(cs, filter, n)[k] < n,
    decreases n,
{
    let prev = matching_positions(cs, filter, n - 1);
    if n - 1 > i {
        law_matching_positions(cs, filter, n - 1, i);
    } else if n - 1 > 0 {
        law_matching_positions(cs, filter, n - 1, 0);
    }
    assert forall|k: int| 0 <= k < prev.len() implies #[trigger] prev[k] < n - 1 by {
        if n - 1 > 0 {
            law_matching_positions(cs, filter, n - 1, 0);
        }
    }
    if passes(filter, cs[n - 1]) {
        let cur = prev.push((n - 1) as usize);
        assert(cur.last() == (n - 1) as usize);
        if i == n - 1 {
            assert(cur[cur.len() - 1] == i as usize);
        } else {
            if cur.contains(i as usize) {
                let k = choose|k: int| 0 <= k < cur.len() && cur[k] == i as usize;
                if k < prev.len() {
                    assert(prev[k] == i as usize);
                }
            }
            if prev.contains(i as usize) {
                let k = choose|k: int| 0 <= k < prev.len() && prev[k] == i as usize;
                assert(cur[k] == i as usize);
            }
        }
    } else {
        if i == n - 1 {
            if prev.contains(i as usize) {
                let k = choose|k: int| 0 <= k < prev.len() && prev[k] == i as usize;
                assert(prev[k] < n - 1);
            }
        }
    }
}

} // verus!
