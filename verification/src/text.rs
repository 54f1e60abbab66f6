//! Character-level helpers on the views of strings: trimming, searching,
//! lexicographic comparison, padding and decimal formatting.

use vstd::prelude::*;
use core::cmp::Ordering;
use vstd::string::StrSliceExecFns;

verus! {

/// Unicode `White_Space`, the set that `char::is_whitespace` tests.
pub open spec fn is_white(c: char) -> bool {
    let u = c as u32;
    ||| (9 <= u && u <= 13)
    ||| u == 32
    ||| u == 0x85
    ||| u == 0xA0
    ||| u == 0x1680
    ||| (0x2000 <= u && u <= 0x200A)
    ||| u == 0x2028
    ||| u == 0x2029
    ||| u == 0x202F
    ||| u == 0x205F
    ||| u == 0x3000
}

/// `s` without its leading white space.
pub open spec fn trim_start(s: Seq<char>) -> Seq<char>
    decreases s.len(),
{
    if s.len() > 0 && is_white(s[0]) {
        trim_start(s.drop_first())
    } else {
        s
    }
}

/// `s` without its trailing white space.
pub open spec fn trim_end(s: Seq<char>) -> Seq<char>
    decreases s.len(),
{
    if s.len() > 0 && is_white(s.last()) {
        trim_end(s.drop_last())
    } else {
        s
    }
}

/// `s` without leading and trailing white space, as `str::trim` gives it.
pub open spec fn trim(s: Seq<char>) -> Seq<char> {
    trim_end(trim_start(s))
}

/// Executable test of `is_white`.
pub fn char_is_white(c: char) -> (b: bool)
    ensures
        b == is_white(c),
{
    let u = c as u32;
    (9 <= u && u <= 13) || u == 32 || u == 0x85 || u == 0xA0 || u == 0x1680 || (0x2000 <= u && u
        <= 0x200A) || u == 0x2028 || u == 0x2029 || u == 0x202F || u == 0x205F || u == 0x3000
}

/// The characters of `s`, in order.
pub fn chars_of(s: &str) -> (v: Vec<char>)
    ensures
        v@ == s@,
{
    let n = s.unicode_len();
    let mut v: Vec<char> = Vec::new();
    let mut i: usize = 0;
    while i < n
        invariant
            n == s@.len(),
            i <= n,
            v@ == s@.subrange(0, i as int),
        decreases n - i,
    {
        v.push(s.get_char(i));
        i = i + 1;
    }
    proof {
        assert(s@.subrange(0, n as int) =~= s@);
    }
    v
}

proof fn lemma_trim_start_step(s: Seq<char>, i: int)
    requires
        0 <= i < s.len(),
        forall|k: int| 0 <= k < i ==> is_white(#[trigger] s[k]),
    ensures
        trim_start(s) == trim_start(s.subrange(i, s.len() as int)),
    decreases i,
{
    if i > 0 {
        assert(is_white(s[0]));
        let t = s.drop_first();
        assert forall|k: int| 0 <= k < i - 1 implies is_white(#[trigger] t[k]) by {
            assert(t[k] == s[k + 1]);
        }
        lemma_trim_start_step(t, i - 1);
        assert(t.subrange(i - 1, t.len() as int) =~= s.subrange(i, s.len() as int));
    } else {
        assert(s.subrange(0, s.len() as int) =~= s);
    }
}

proof fn lemma_trim_end_step(s: Seq<char>, j: int)
    requires
        0 <= j <= s.len(),
        forall|k: int| j <= k < s.len() ==> is_white(#[trigger] s[k]),
    ensures
        trim_end(s) == trim_end(s.subrange(0, j)),
    decreases s.len() - j,
{
    if j < s.len() {
        assert(is_white(s.last()));
        let t = s.drop_last();
        assert forall|k: int| j <= k < t.len() implies is_white(#[trigger] t[k]) by {
            assert(t[k] == s[k]);
        }
        lemma_trim_end_step(t, j);
        assert(t.subrange(0, j) =~= s.subrange(0, j));
    } else {
        assert(s.subrange(0, j) =~= s);
    }
}

/// The bounds, within `v[lo..hi]`, of that piece trimmed of white space.
pub fn trim_bounds(v: &Vec<char>, lo: usize, hi: usize) -> (r: (usize, usize))
    requires
        lo <= hi <= v@.len(),
    ensures
        lo <= r.0 <= r.1 <= hi,
        v@.subrange(r.0 as int, r.1 as int) == trim(v@.subrange(lo as int, hi as int)),
{
    let ghost s = v@.subrange(lo as int, hi as int);
    let mut a = lo;
    while a < hi && char_is_white(v[a])
        invariant
            lo <= a <= hi <= v@.len(),
            s == v@.subrange(lo as int, hi as int),
            forall|k: int| lo <= k < a ==> is_white(#[trigger] v@[k]),
        decreases hi - a,
    {
        a = a + 1;
    }
    proof {
        let t = v@.subrange(a as int, hi as int);
        if a < hi {
            assert forall|k: int| 0 <= k < a - lo implies is_white(#[trigger] s[k]) by {
                assert(s[k] == v@[lo + k]);
            }
            lemma_trim_start_step(s, a - lo);
            assert(s.subrange(a - lo, s.len() as int) =~= t);
            assert(!is_white(t[0]));
            assert(trim_start(t) == t);
        } else {
            assert forall|k: int| 0 <= k < s.len() implies is_white(#[trigger] s[k]) by {
                assert(s[k] == v@[lo + k]);
            }
            if s.len() > 0 {
                lemma_trim_start_step(s, s.len() - 1);
                let u = s.subrange(s.len() - 1, s.len() as int);
                assert(u.drop_first() =~= Seq::<char>::empty());
                assert(trim_start(u) == trim_start(u.drop_first()));
            }
            assert(trim_start(s) =~= t);
        }
        assert(trim_start(s) =~= t);
    }
    let mut b = hi;
    while b > a && char_is_white(v[b - 1])
        invariant
            lo <= a <= b <= hi <= v@.len(),
            forall|k: int| b <= k < hi ==> is_white(#[trigger] v@[k]),
        decreases b - a,
    {
        b = b - 1;
    }
    proof {
        let t = v@.subrange(a as int, hi as int);
        assert forall|k: int| b - a <= k < t.len() implies is_white(#[trigger] t[k]) by {
            assert(t[k] == v@[a + k]);
        }
        lemma_trim_end_step(t, b - a);
        let u = t.subrange(0, b - a);
        assert(u =~= v@.subrange(a as int, b as int));
        if b > a {
            assert(!is_white(u.last()));
        }
        assert(trim_end(u) == u);
    }
    (a, b)
}


/// Whether `pat` occurs in `s` starting at position `i`.
pub open spec fn occurs_at(s: Seq<char>, i: int, pat: Seq<char>) -> bool {
    0 <= i && i + pat.len() <= s.len() && s.subrange(i, i + pat.len()) == pat
}

/// Whether `pat` is a piece of `s`, as `str::contains` tests it.
pub open spec fn contains_text(s: Seq<char>, pat: Seq<char>) -> bool {
    exists|i: int| occurs_at(s, i, pat)
}

/// The first position at or after `i` where `pat` occurs in `s`.
pub open spec fn find_from(s: Seq<char>, pat: Seq<char>, i: int) -> Option<int>
    decreases s.len() + 1 - i,
{
    if i < 0 || i + pat.len() > s.len() {
        None
    } else if occurs_at(s, i, pat) {
        Some(i)
    } else {
        find_from(s, pat, i + 1)
    }
}

/// The first position where `pat` occurs in `s`.
pub open spec fn find_first(s: Seq<char>, pat: Seq<char>) -> Option<int> {
    find_from(s, pat, 0)
}

proof fn lemma_find_from_none(s: Seq<char>, pat: Seq<char>, i: int)
    requires
        0 <= i,
        find_from(s, pat, i) is None,
    ensures
        forall|k: int| i <= k ==> !occurs_at(s, k, pat),
    decreases s.len() + 1 - i,
{
    if i + pat.len() <= s.len() {
        lemma_find_from_none(s, pat, i + 1);
    }
}

proof fn lemma_find_from_some(s: Seq<char>, pat: Seq<char>, i: int)
    requires
        0 <= i,
        find_from(s, pat, i) is Some,
    ensures
        occurs_at(s, find_from(s, pat, i)->0, pat),
        i <= find_from(s, pat, i)->0,
        forall|k: int| i <= k < find_from(s, pat, i)->0 ==> !occurs_at(s, k, pat),
    decreases s.len() + 1 - i,
{
    if !occurs_at(s, i, pat) {
        assert(i + pat.len() <= s.len());
        lemma_find_from_some(s, pat, i + 1);
    }
}

/// Whether `pat` occurs in `v` at position `i`.
pub fn matches_at(v: &Vec<char>, i: usize, pat: &Vec<char>) -> (b: bool)
    ensures
        b == occurs_at(v@, i as int, pat@),
{
    let n = v.len();
    if pat.len() > n || i > n - pat.len() {
        return false;
    }
    let mut k: usize = 0;
    while k < pat.len()
        invariant
            n == v@.len(),
            i + pat@.len() <= v@.len(),
            k <= pat@.len(),
            forall|j: int| 0 <= j < k ==> v@[i + j] == pat@[j],
        decreases pat@.len() - k,
    {
        if v[i + k] != pat[k] {
            proof {
                assert(v@.subrange(i as int, i + pat@.len())[k as int] != pat@[k as int]);
            }
            return false;
        }
        k = k + 1;
    }
    proof {
        assert(v@.subrange(i as int, i + pat@.len()) =~= pat@);
    }
    true
}

/// The first position where `pat` occurs in `v`, if any.
pub fn find_text(v: &Vec<char>, pat: &Vec<char>) -> (r: Option<usize>)
    ensures
        match r {
            Some(i) => find_first(v@, pat@) == Some(i as int) && i + pat@.len() <= v@.len(),
            None => find_first(v@, pat@) is None,
        },
{
    if pat.len() > v.len() {
        return None;
    }
    let last = v.len() - pat.len();
    let mut i: usize = 0;
    while i < last
        invariant
            last + pat@.len() == v@.len(),
            i <= last,
            find_first(v@, pat@) == find_from(v@, pat@, i as int),
        decreases last - i,
    {
        if matches_at(v, i, pat) {
            return Some(i);
        }
        i = i + 1;
    }
    if matches_at(v, i, pat) {
        Some(i)
    } else {
        proof {
            assert(find_from(v@, pat@, i + 1) is None);
        }
        None
    }
}

/// Whether `pat` is a piece of `s`.
pub fn text_contains(s: &str, pat: &str) -> (b: bool)
    ensures
        b == contains_text(s@, pat@),
{
    let v = chars_of(s);
    let p = chars_of(pat);
    let r = find_text(&v, &p);
    proof {
        match r {
            Some(i) => {
                lemma_find_from_some(v@, p@, 0);
            },
            None => {
                lemma_find_from_none(v@, p@, 0);
            },
        }
    }
    r.is_some()
}


/// Lexicographic order of two character sequences by code point, which is
/// the order of `String`'s `Ord` (its UTF-8 bytes order the same way).
pub open spec fn text_order(a: Seq<char>, b: Seq<char>) -> Ordering
    decreases a.len(),
{
    if a.len() == 0 {
        if b.len() == 0 {
            Ordering::Equal
        } else {
            Ordering::Less
        }
    } else if b.len() == 0 {
        Ordering::Greater
    } else if a[0] < b[0] {
        Ordering::Less
    } else if a[0] > b[0] {
        Ordering::Greater
    } else {
        text_order(a.drop_first(), b.drop_first())
    }
}

/// The order is antisymmetric, and `Equal` exactly on equal sequences.
pub proof fn lemma_text_order_antisym(a: Seq<char>, b: Seq<char>)
    ensures
        (text_order(a, b) == Ordering::Less) == (text_order(b, a) == Ordering::Greater),
        (text_order(a, b) == Ordering::Equal) == (a == b),
    decreases a.len(),
{
    if a.len() > 0 && b.len() > 0 {
        lemma_text_order_antisym(a.drop_first(), b.drop_first());
        if a[0] == b[0] && a.drop_first() == b.drop_first() {
            assert(a =~= seq![a[0]] + a.drop_first());
            assert(b =~= seq![b[0]] + b.drop_first());
        }
        if a == b {
            assert(a.drop_first() =~= b.drop_first());
        }
    } else if a.len() == 0 && b.len() == 0 {
        assert(a =~= b);
    }
}

/// Titles are ordered at their first difference: where `a` and `b` agree on
/// the first `i` characters and `a`'s next character is smaller, `a` comes
/// first, whatever the lengths of the two.
pub proof fn law_text_order_first_difference(a: Seq<char>, b: Seq<char>, i: int)
    requires
        0 <= i < a.len(),
        i < b.len(),
        a.subrange(0, i) == b.subrange(0, i),
        a[i] < b[i],
    ensures
        text_order(a, b) == Ordering::Less,
        text_order(b, a) == Ordering::Greater,
    decreases i,
{
    if i > 0 {
        assert(a[0] == a.subrange(0, i)[0]);
        assert(b[0] == b.subrange(0, i)[0]);
        assert(a.drop_first().subrange(0, i - 1) =~= a.subrange(0, i).drop_first());
        assert(b.drop_first().subrange(0, i - 1) =~= b.subrange(0, i).drop_first());
        law_text_order_first_difference(a.drop_first(), b.drop_first(), i - 1);
    }
    lemma_text_order_antisym(a, b);
}

/// A proper prefix comes before the longer text.
pub proof fn law_text_order_prefix_first(a: Seq<char>, b: Seq<char>)
    requires
        a.len() < b.len(),
        forall|j: int| 0 <= j < a.len() ==> a[j] == b[j],
    ensures
        text_order(a, b) == Ordering::Less,
        text_order(b, a) == Ordering::Greater,
    decreases a.len(),
{
    if a.len() > 0 {
        assert(a[0] == b[0]);
        assert forall|j: int| 0 <= j < a.drop_first().len() implies a.drop_first()[j] == b.drop_first()[j] by {
            assert(a[j + 1] == b[j + 1]);
        }
        law_text_order_prefix_first(a.drop_first(), b.drop_first());
    }
    lemma_text_order_antisym(a, b);
}

/// The order is transitive.
pub proof fn lemma_text_order_trans(a: Seq<char>, b: Seq<char>, c: Seq<char>)
    requires
        text_order(a, b) != Ordering::Greater,
        text_order(b, c) != Ordering::Greater,
    ensures
        text_order(a, c) != Ordering::Greater,
        (text_order(a, b) == Ordering::Less || text_order(b, c) == Ordering::Less) ==> text_order(a, c) == Ordering::Less,
    decreases a.len(),
{
    if a.len() > 0 && b.len() > 0 && c.len() > 0 && a[0] == b[0] && b[0] == c[0] {
        lemma_text_order_trans(a.drop_first(), b.drop_first(), c.drop_first());
    }
}

/// The part of `s` from position `i` on.
pub open spec fn suffix(s: Seq<char>, i: usize) -> Seq<char> {
    s.subrange(i as int, s.len() as int)
}

/// The character of `s` at position `i`.
pub open spec fn at(s: Seq<char>, i: usize) -> char {
    s[i as int]
}

proof fn lemma_suffix_step(s: Seq<char>, i: usize)
    requires
        i < s.len(),
        i < usize::MAX,
    ensures
        suffix(s, i).len() > 0,
        suffix(s, i)[0] == at(s, i),
        suffix(s, i).drop_first() == suffix(s, (i + 1) as usize),
{
    assert(suffix(s, i).drop_first() =~= suffix(s, (i + 1) as usize));
}

proof fn lemma_suffix_zero(s: Seq<char>)
    ensures
        suffix(s, 0) == s,
{
    assert(suffix(s, 0) =~= s);
}

/// The part of `s` from position `i` on.
pub open spec fn drop_front<T>(s: Seq<T>, i: usize) -> Seq<T> {
    s.subrange(i as int, s.len() as int)
}

/// The element of `s` at position `i`.
pub open spec fn item<T>(s: Seq<T>, i: usize) -> T {
    s[i as int]
}

/// Stepping `drop_front` by one element.
pub proof fn lemma_drop_front_step<T>(s: Seq<T>, i: usize)
    requires
        i < s.len(),
        i < usize::MAX,
    ensures
        drop_front(s, i).len() > 0,
        drop_front(s, i)[0] == item(s, i),
        drop_front(s, i).drop_first() == drop_front(s, (i + 1) as usize),
{
    assert(drop_front(s, i).drop_first() =~= drop_front(s, (i + 1) as usize));
}

/// The ends of `drop_front`.
pub proof fn lemma_drop_front_ends<T>(s: Seq<T>)
    requires
        s.len() <= usize::MAX,
    ensures
        drop_front(s, 0) == s,
        drop_front(s, s.len() as usize).len() == 0,
{
    assert(drop_front(s, 0) =~= s);
}

/// Compares two strings lexicographically, as `String`'s `Ord` does.
pub fn compare_text(a: &str, b: &str) -> (r: Ordering)
    ensures
        r == text_order(a@, b@),
{
    let x = chars_of(a);
    let y = chars_of(b);
    let mut i: usize = 0;
    proof {
        lemma_suffix_zero(x@);
        lemma_suffix_zero(y@);
    }
    while i < x.len() && i < y.len() && x[i] == y[i]
        invariant
            i <= x@.len(),
            i <= y@.len(),
            text_order(x@, y@) == text_order(suffix(x@, i), suffix(y@, i)),
        decreases x@.len() - i,
    {
        proof {
            lemma_suffix_step(x@, i);
            lemma_suffix_step(y@, i);
        }
        i = i + 1;
    }
    if i == x.len() {
        if i == y.len() {
            Ordering::Equal
        } else {
            Ordering::Less
        }
    } else if i == y.len() {
        Ordering::Greater
    } else {
        proof {
            lemma_suffix_step(x@, i);
            lemma_suffix_step(y@, i);
        }
        if x[i] < y[i] {
            Ordering::Less
        } else {
            Ordering::Greater
        }
    }
}


/// The decimal digit of value `d`.
pub open spec fn digit_char(d: int) -> char {
    if d == 0 { '0' } else if d == 1 { '1' } else if d == 2 { '2' } else if d == 3 { '3' }
    else if d == 4 { '4' } else if d == 5 { '5' } else if d == 6 { '6' } else if d == 7 { '7' }
    else if d == 8 { '8' } else { '9' }
}

/// The decimal representation of `n`, without leading zeros ("0" for zero).
pub open spec fn dec_digits(n: nat) -> Seq<char>
    decreases n,
{
    if n < 10 {
        seq![digit_char(n as int)]
    } else {
        dec_digits(n / 10).push(digit_char((n % 10) as int))
    }
}

/// `n` spaces.
pub open spec fn spaces(n: int) -> Seq<char> {
    Seq::new(if n < 0 { 0 } else { n as nat }, |i: int| ' ')
}

/// `s` padded with spaces on the left to `width` characters, as `{:>width}` does.
pub open spec fn pad_left(s: Seq<char>, width: nat) -> Seq<char> {
    spaces(width - s.len()) + s
}

/// `s` padded with spaces on the right to `width` characters, as `{:<width}` does.
pub open spec fn pad_right(s: Seq<char>, width: nat) -> Seq<char> {
    s + spaces(width - s.len())
}

/// `n` copies of the character `c`.
pub open spec fn repeat_char(c: char, n: nat) -> Seq<char> {
    Seq::new(n, |i: int| c)
}

/// The one-character string of the digit `d`.
fn digit_str(d: u64) -> (s: &'static str)
    requires
        d < 10,
    ensures
        s@ == seq![digit_char(d as int)],
{
    match d {
        0 => {
            proof {
                reveal_strlit("0");
            }
            "0"
        },
        1 => {
            proof {
                reveal_strlit("1");
            }
            "1"
        },
        2 => {
            proof {
                reveal_strlit("2");
            }
            "2"
        },
        3 => {
            proof {
                reveal_strlit("3");
            }
            "3"
        },
        4 => {
            proof {
                reveal_strlit("4");
            }
            "4"
        },
        5 => {
            proof {
                reveal_strlit("5");
            }
            "5"
        },
        6 => {
            proof {
                reveal_strlit("6");
            }
            "6"
        },
        7 => {
            proof {
                reveal_strlit("7");
            }
            "7"
        },
        8 => {
            proof {
                reveal_strlit("8");
            }
            "8"
        },
        _ => {
            proof {
                reveal_strlit("9");
            }
            "9"
        },
    }
}

/// Appends the decimal representation of `n` to `out`.
pub fn push_decimal(out: &mut String, n: u64)
    ensures
        final(out)@ == old(out)@ + dec_digits(n as nat),
    decreases n,
{
    if n >= 10 {
        push_decimal(out, n / 10);
    }
    let d = digit_str(n % 10);
    out.append(d);
    proof {
        if n >= 10 {
            assert(old(out)@ + dec_digits(n as nat) =~= old(out)@ + dec_digits((n / 10) as nat) + d@);
        } else {
            assert(dec_digits(n as nat) =~= d@);
        }
    }
}

/// Appends `n` copies of the one-character string `c` to `out`.
pub fn push_repeat(out: &mut String, c: &str, n: usize)
    requires
        c@.len() == 1,
    ensures
        final(out)@ == old(out)@ + repeat_char(c@[0], n as nat),
{
    let mut i: usize = 0;
    while i < n
        invariant
            c@.len() == 1,
            i <= n,
            out@ == old(out)@ + repeat_char(c@[0], i as nat),
        decreases n - i,
    {
        out.append(c);
        i = i + 1;
        proof {
            assert(out@ =~= old(out)@ + repeat_char(c@[0], i as nat));
        }
    }
}

/// Appends `n` spaces to `out`.
pub fn push_spaces(out: &mut String, n: usize)
    ensures
        final(out)@ == old(out)@ + spaces(n as int),
{
    proof {
        reveal_strlit(" ");
    }
    push_repeat(out, " ", n);
    proof {
        assert(repeat_char(' ', n as nat) =~= spaces(n as int));
    }
}

/// Appends `s` padded on the left to `width` characters.
pub fn push_padded_left(out: &mut String, s: &str, width: usize)
    ensures
        final(out)@ == old(out)@ + pad_left(s@, width as nat),
{
    let n = s.unicode_len();
    let gap = if n < width { width - n } else { 0 };
    push_spaces(out, gap);
    out.append(s);
    proof {
        assert(spaces(gap as int) =~= spaces(width - s@.len()));
        assert(final(out)@ =~= old(out)@ + pad_left(s@, width as nat));
    }
}

/// Appends `s` padded on the right to `width` characters.
pub fn push_padded_right(out: &mut String, s: &str, width: usize)
    ensures
        final(out)@ == old(out)@ + pad_right(s@, width as nat),
{
    let n = s.unicode_len();
    let gap = if n < width { width - n } else { 0 };
    out.append(s);
    push_spaces(out, gap);
    proof {
        assert(spaces(gap as int) =~= spaces(width - s@.len()));
        assert(final(out)@ =~= old(out)@ + pad_right(s@, width as nat));
    }
}


/// `s[i..]` with every occurrence of `pat` replaced by `rep`, occurrences
/// taken left to right without overlap, as `str::replace` does.
pub open spec fn replace_from(s: Seq<char>, pat: Seq<char>, rep: Seq<char>, i: int) -> Seq<char>
    decreases s.len() - i,
{
    if i < 0 || i >= s.len() {
        Seq::<char>::empty()
    } else if pat.len() > 0 && occurs_at(s, i, pat) {
        rep + replace_from(s, pat, rep, i + pat.len())
    } else {
        seq![s[i]] + replace_from(s, pat, rep, i + 1)
    }
}

/// `s` with every occurrence of `pat` replaced by `rep`.
pub open spec fn replace_all(s: Seq<char>, pat: Seq<char>, rep: Seq<char>) -> Seq<char> {
    replace_from(s, pat, rep, 0)
}

/// Replaces every occurrence of `pat` in `v` by `rep`.
pub fn replace_text(v: &Vec<char>, pat: &Vec<char>, rep: &Vec<char>) -> (r: Vec<char>)
    requires
        pat@.len() > 0,
    ensures
        r@ == replace_all(v@, pat@, rep@),
{
    let n = v.len();
    let mut out: Vec<char> = Vec::new();
    let mut i: usize = 0;
    while i < n
        invariant
            n == v@.len(),
            pat@.len() > 0,
            i <= n,
            out@ + replace_from(v@, pat@, rep@, i as int) == replace_all(v@, pat@, rep@),
        decreases n - i,
    {
        if matches_at(v, i, pat) {
            let mut k: usize = 0;
            let ghost before = out@;
            while k < rep.len()
                invariant
                    k <= rep@.len(),
                    out@ == before + rep@.subrange(0, k as int),
                decreases rep@.len() - k,
            {
                out.push(rep[k]);
                k = k + 1;
                proof {
                    assert(out@ =~= before + rep@.subrange(0, k as int));
                }
            }
            proof {
                assert(rep@.subrange(0, rep@.len() as int) =~= rep@);
                assert(out@ + replace_from(v@, pat@, rep@, i + pat@.len()) =~= before + (rep@ + replace_from(v@, pat@, rep@, i + pat@.len())));
            }
            i = i + pat.len();
        } else {
            let ghost before = out@;
            out.push(v[i]);
            proof {
                assert(out@ + replace_from(v@, pat@, rep@, i + 1) =~= before + (seq![v@[i as int]] + replace_from(v@, pat@, rep@, i + 1)));
            }
            i = i + 1;
        }
    }
    proof {
        assert(out@ + replace_from(v@, pat@, rep@, i as int) =~= out@);
    }
    out
}

/// The parts of `s` before and after the first occurrence of `pat`, as
/// `str::split_once` gives them.
pub open spec fn split_once(s: Seq<char>, pat: Seq<char>) -> Option<(Seq<char>, Seq<char>)> {
    match find_first(s, pat) {
        Some(i) => Some((s.subrange(0, i), s.subrange(i + pat.len(), s.len() as int))),
        None => None,
    }
}

/// The characters `v[lo..hi]`.
pub fn slice_chars(v: &Vec<char>, lo: usize, hi: usize) -> (r: Vec<char>)
    requires
        lo <= hi <= v@.len(),
    ensures
        r@ == v@.subrange(lo as int, hi as int),
{
    let mut r: Vec<char> = Vec::new();
    let mut i = lo;
    while i < hi
        invariant
            lo <= i <= hi <= v@.len(),
            r@ == v@.subrange(lo as int, i as int),
        decreases hi - i,
    {
        r.push(v[i]);
        i = i + 1;
        proof {
            assert(r@ =~= v@.subrange(lo as int, i as int));
        }
    }
    r
}

/// `v[lo..hi]` trimmed of white space.
pub fn trimmed_piece(v: &Vec<char>, lo: usize, hi: usize) -> (r: Vec<char>)
    requires
        lo <= hi <= v@.len(),
    ensures
        r@ == trim(v@.subrange(lo as int, hi as int)),
{
    let (a, b) = trim_bounds(v, lo, hi);
    slice_chars(v, a, b)
}

/// `s` trimmed of white space at both ends, as `str::trim` gives it.
pub fn trimmed_string(s: &str) -> (r: String)
    ensures
        r@ == trim(s@),
{
    let v = chars_of(s);
    let (a, b) = trim_bounds(&v, 0, v.len());
    proof {
        assert(v@.subrange(0, v@.len() as int) =~= v@);
    }
    String::from_str(s.substring_char(a, b))
}

} // verus!
