//! How courses are ordered by the columns of the overview, and a stable
//! sort of course positions by a list of columns.

use vstd::prelude::*;
use core::cmp::Ordering;
use crate::commands::Column;
use crate::model::course::Course;
use crate::text::{compare_text, text_order, law_text_order_first_difference, law_text_order_prefix_first, lemma_text_order_antisym, lemma_text_order_trans, drop_front, item, lemma_drop_front_step, lemma_drop_front_ends};

verus! {

/// The credits of `c` as a number.
pub open spec fn credits_key(c: Course) -> int {
    c.credits as int
}

/// The semester of `c` as a number.
pub open spec fn semester_key(c: Course) -> int {
    c.semester as int
}

/// The grade of `c` in thousandths (meaningful when graded).
pub open spec fn grade_key(c: Course) -> int {
    c.grade->0.val()
}

/// The completed flag of `c` as a number, completed courses first.
pub open spec fn completed_key(c: Course) -> int {
    if c.completed { 0 } else { 1 }
}

/// The order of two numbers.
pub open spec fn num_order(x: int, y: int) -> Ordering {
    if x < y {
        Ordering::Less
    } else if x == y {
        Ordering::Equal
    } else {
        Ordering::Greater
    }
}

/// The order of `a` and `b` by the column `col`: titles lexicographically,
/// credits and semesters by number, grades by number with graded courses
/// first, completed courses first.
pub open spec fn column_order(col: Column, a: Course, b: Course) -> Ordering {
    match col {
        Column::Title => text_order(a.title@, b.title@),
        Column::Credits => num_order(credits_key(a), credits_key(b)),
        Column::Semester => num_order(semester_key(a), semester_key(b)),
        Column::Grade => match (a.grade, b.grade) {
            (Some(_), Some(_)) => num_order(grade_key(a), grade_key(b)),
            (Some(_), None) => Ordering::Less,
            (None, Some(_)) => Ordering::Greater,
            (None, None) => Ordering::Equal,
        },
        Column::Completed => num_order(completed_key(a), completed_key(b)),
    }
}

/// The order of `a` and `b` by the columns `keys`, the first deciding
/// unless it ties.
pub open spec fn keys_order(keys: Seq<Column>, a: Course, b: Course) -> Ordering
    decreases keys.len(),
{
    if keys.len() == 0 {
        Ordering::Equal
    } else {
        match column_order(keys[0], a, b) {
            Ordering::Equal => keys_order(keys.drop_first(), a, b),
            o => o,
        }
    }
}

/// The opposite of `o`.
pub open spec fn flip(o: Ordering) -> Ordering {
    match o {
        Ordering::Less => Ordering::Greater,
        Ordering::Equal => Ordering::Equal,
        Ordering::Greater => Ordering::Less,
    }
}

/// `o`, or its opposite when `descending`.
pub open spec fn directed(o: Ordering, descending: bool) -> Ordering {
    if descending {
        flip(o)
    } else {
        o
    }
}

/// The order in which a sort by `keys` puts `a` and `b`.
pub open spec fn sort_order(keys: Seq<Column>, descending: bool, a: Course, b: Course) -> Ordering {
    directed(keys_order(keys, a, b), descending)
}

/// By the title column, the course whose title is smaller at the first
/// position where the titles differ comes first, and a title that is a
/// proper prefix of the other comes first.
pub proof fn law_title_column_lexicographic(a: Course, b: Course, i: int)
    requires
        0 <= i <= a.title@.len(),
        i <= b.title@.len(),
        a.title@.subrange(0, i) == b.title@.subrange(0, i),
        (i < a.title@.len() && i < b.title@.len() && a.title@[i] < b.title@[i])
            || (i == a.title@.len() && i < b.title@.len()),
    ensures
        column_order(Column::Title, a, b) == Ordering::Less,
        column_order(Column::Title, b, a) == Ordering::Greater,
{
    if i < a.title@.len() {
        law_text_order_first_difference(a.title@, b.title@, i);
    } else {
        assert forall|j: int| 0 <= j < a.title@.len() implies a.title@[j] == b.title@[j] by {
            assert(a.title@[j] == a.title@.subrange(0, i)[j]);
            assert(b.title@[j] == b.title@.subrange(0, i)[j]);
        }
        law_text_order_prefix_first(a.title@, b.title@);
    }
}

/// Swapping the operands flips the order.
pub proof fn lemma_column_order_antisym(col: Column, a: Course, b: Course)
    ensures
        column_order(col, b, a) == flip(column_order(col, a, b)),
{
    if col == Column::Title {
        lemma_text_order_antisym(a.title@, b.title@);
        lemma_text_order_antisym(b.title@, a.title@);
    }
}

/// The order is transitive.
pub proof fn lemma_column_order_trans(col: Column, a: Course, b: Course, c: Course)
    requires
        column_order(col, a, b) != Ordering::Greater,
        column_order(col, b, c) != Ordering::Greater,
    ensures
        column_order(col, a, c) != Ordering::Greater,
        (column_order(col, a, b) == Ordering::Less || column_order(col, b, c) == Ordering::Less)
            ==> column_order(col, a, c) == Ordering::Less,
{
    if col == Column::Title {
        lemma_text_order_trans(a.title@, b.title@, c.title@);
    }
}

/// Swapping the operands flips the order.
pub proof fn lemma_keys_order_antisym(keys: Seq<Column>, a: Course, b: Course)
    ensures
        keys_order(keys, b, a) == flip(keys_order(keys, a, b)),
    decreases keys.len(),
{
    if keys.len() > 0 {
        lemma_column_order_antisym(keys[0], a, b);
        lemma_keys_order_antisym(keys.drop_first(), a, b);
    }
}

/// The order is transitive.
pub proof fn lemma_keys_order_trans(keys: Seq<Column>, a: Course, b: Course, c: Course)
    requires
        keys_order(keys, a, b) != Ordering::Greater,
        keys_order(keys, b, c) != Ordering::Greater,
    ensures
        keys_order(keys, a, c) != Ordering::Greater,
        (keys_order(keys, a, b) == Ordering::Less || keys_order(keys, b, c) == Ordering::Less)
            ==> keys_order(keys, a, c) == Ordering::Less,
    decreases keys.len(),
{
    if keys.len() > 0 {
        let k = keys[0];
        lemma_column_order_trans(k, a, b, c);
        if column_order(k, a, b) == Ordering::Equal && column_order(k, b, c) == Ordering::Equal {
            lemma_keys_order_trans(keys.drop_first(), a, b, c);
        }
    }
}

/// The sort order is antisymmetric.
pub proof fn lemma_sort_order_antisym(keys: Seq<Column>, descending: bool, a: Course, b: Course)
    ensures
        sort_order(keys, descending, b, a) == flip(sort_order(keys, descending, a, b)),
{
    lemma_keys_order_antisym(keys, a, b);
}

/// The sort order is transitive.
pub proof fn lemma_sort_order_trans(keys: Seq<Column>, descending: bool, a: Course, b: Course, c: Course)
    requires
        sort_order(keys, descending, a, b) != Ordering::Greater,
        sort_order(keys, descending, b, c) != Ordering::Greater,
    ensures
        sort_order(keys, descending, a, c) != Ordering::Greater,
        (sort_order(keys, descending, a, b) == Ordering::Less || sort_order(keys, descending, b, c) == Ordering::Less)
            ==> sort_order(keys, descending, a, c) == Ordering::Less,
{
    if descending {
        lemma_keys_order_antisym(keys, a, b);
        lemma_keys_order_antisym(keys, b, c);
        lemma_keys_order_antisym(keys, a, c);
        lemma_keys_order_trans(keys, c, b, a);
    } else {
        lemma_keys_order_trans(keys, a, b, c);
    }
}

impl Column {
    /// The order of `a` and `b` by this column.
    pub fn compare(&self, a: &Course, b: &Course) -> (r: Ordering)
        ensures
            r == column_order(*self, *a, *b),
    {
        match self {
            Column::Title => compare_text(a.title.as_str(), b.title.as_str()),
            Column::Credits => {
                if a.credits < b.credits {
                    Ordering::Less
                } else if a.credits == b.credits {
                    Ordering::Equal
                } else {
                    Ordering::Greater
                }
            },
            Column::Semester => {
                if a.semester < b.semester {
                    Ordering::Less
                } else if a.semester == b.semester {
                    Ordering::Equal
                } else {
                    Ordering::Greater
                }
            },
            Column::Grade => match (a.grade, b.grade) {
                (Some(ga), Some(gb)) => {
                    if ga.0 < gb.0 {
                        Ordering::Less
                    } else if ga.0 == gb.0 {
                        Ordering::Equal
                    } else {
                        Ordering::Greater
                    }
                },
                (Some(_), None) => Ordering::Less,
                (None, Some(_)) => Ordering::Greater,
                (None, None) => Ordering::Equal,
            },
            Column::Completed => {
                if a.completed == b.completed {
                    Ordering::Equal
                } else if a.completed {
                    Ordering::Less
                } else {
                    Ordering::Greater
                }
            },
        }
    }
}

/// The order in which a sort by `keys` puts `a` and `b`.
pub fn compare_by_keys(keys: &[Column], descending: bool, a: &Course, b: &Course) -> (r: Ordering)
    ensures
        r == sort_order(keys@, descending, *a, *b),
{
    let mut i: usize = 0;
    let n = keys.len();
    proof {
        lemma_drop_front_ends(keys@);
    }
    while i < n
        invariant
            n == keys@.len(),
            i <= keys@.len(),
            keys_order(keys@, *a, *b) == keys_order(drop_front(keys@, i), *a, *b),
        decreases keys@.len() - i,
    {
        proof {
            lemma_drop_front_step(keys@, i);
        }
        let o = keys[i].compare(a, b);
        match o {
            Ordering::Equal => {},
            _ => {
                return if descending {
                    match o {
                        Ordering::Less => Ordering::Greater,
                        _ => Ordering::Less,
                    }
                } else {
                    o
                };
            },
        }
        i = i + 1;
    }
    Ordering::Equal
}


/// Whether `a` does not come after `b` in the order of a sort by `keys`.
pub open spec fn not_after(keys: Seq<Column>, descending: bool, a: Course, b: Course) -> bool {
    sort_order(keys, descending, a, b) != Ordering::Greater
}

/// Whether `a` and `b` tie in the order of a sort by `keys`.
pub open spec fn ties(keys: Seq<Column>, descending: bool, a: Course, b: Course) -> bool {
    sort_order(keys, descending, a, b) == Ordering::Equal
}

/// The sort order is total and ties are symmetric.
pub proof fn lemma_not_after_total(keys: Seq<Column>, descending: bool, a: Course, b: Course)
    ensures
        !not_after(keys, descending, a, b) ==> not_after(keys, descending, b, a) && !ties(keys, descending, b, a),
        ties(keys, descending, a, b) == ties(keys, descending, b, a),
        ties(keys, descending, a, b) ==> not_after(keys, descending, a, b),
        not_after(keys, descending, a, b) && not_after(keys, descending, b, a) ==> ties(keys, descending, a, b),
{
    lemma_sort_order_antisym(keys, descending, a, b);
}

/// The sort order is transitive.
pub proof fn lemma_not_after_trans(keys: Seq<Column>, descending: bool, a: Course, b: Course, c: Course)
    requires
        not_after(keys, descending, a, b),
        not_after(keys, descending, b, c),
    ensures
        not_after(keys, descending, a, c),
        (!ties(keys, descending, a, b) || !ties(keys, descending, b, c)) ==> !ties(keys, descending, a, c),
{
    lemma_sort_order_trans(keys, descending, a, b, c);
}

/// Whether `a` comes after `b` in the order of a sort by `keys`.
pub fn comes_after(keys: &[Column], descending: bool, a: &Course, b: &Course) -> (r: bool)
    ensures
        r == !not_after(keys@, descending, *a, *b),
{
    match compare_by_keys(keys, descending, a, b) {
        Ordering::Greater => true,
        _ => false,
    }
}

} // verus!
