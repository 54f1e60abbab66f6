# gpa-rs

A personal grade point average tracker for the terminal: courses with their
credits, semesters and grades, a course overview with filters and sorting,
interactive prompts to manage the record, and a small terminal interface.

The library under `src/` is verified with Verus; `app/` is the program around
it (arguments, the JSON file in the configuration directory, colours, prompts
and the terminal interface).

## Layout

- `src/decimal.rs` – grades held exactly in thousandths and averages as exact
  quotients; reading
  decimal literals and writing numbers with a fixed or the shortest number of
  fraction digits.
- `src/text.rs` – trimming, searching, replacing, comparing and padding text.
- `src/commands.rs` – the command line as the library sees it: columns,
  numeric filters and how they are read.
- `src/model/` – courses, exams, semesters, the grading system, statistics,
  the record itself, the orders and the stable sort of courses, and the
  course overview.
- `src/report.rs` – styled lines of output.
- `src/utils.rs` – reading typed grades, telling an interruption from other
  errors.
- `src/settings.rs` – what the settings prompts offer and accept, and how the
  answers change the record.
- `src/ui.rs` – key handling, focus and layout arithmetic of the terminal
  interface.

Grades are decimal numbers with three fraction digits: a grade typed with more
digits is rounded to the nearest thousandth. Averages are kept as exact
quotients and written with two fraction digits, an exact half going to the
even digit.
