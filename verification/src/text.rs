//! Text as a sequence of characters: order, wildcard matching and the reading
//! of scalars. Everything here is stated over `Seq<char>`, the view of `str`.

use vstd::prelude::*;
use vstd::string::*;

verus! {

/// Whether `a` comes strictly before `b` in lexical order, character by
/// character, a proper prefix coming first.
pub open spec fn text_before(a: Seq<char>, b: Seq<char>) -> bool
    decreases a.len(),
{
    if b.len() == 0 {
        false
    } else if a.len() == 0 {
        true
    } else if a[0] != b[0] {
        a[0] < b[0]
    } else {
        text_before(a.drop_first(), b.drop_first())
    }
}

/// Whether `text` matches `pattern`, in which `*` stands for any run of
/// characters, the empty one too, and every other character for itself.
pub open spec fn glob_matches(pattern: Seq<char>, text: Seq<char>) -> bool
    decreases pattern.len(), text.len(),
{
    if pattern.len() == 0 {
        text.len() == 0
    } else if pattern[0] == '*' {
        glob_matches(pattern.drop_first(), text) || (text.len() > 0 && glob_matches(
            pattern,
            text.drop_first(),
        ))
    } else {
        text.len() > 0 && text[0] == pattern[0] && glob_matches(
            pattern.drop_first(),
            text.drop_first(),
        )
    }
}

/// Whether `c` is one of the ten decimal digits.
pub open spec fn is_digit(c: char) -> bool {
    '0' <= c <= '9'
}

/// Whether `s` holds decimal digits only.
pub open spec fn all_digits(s: Seq<char>) -> bool {
    forall|i: int| 0 <= i < s.len() ==> is_digit(#[trigger] s[i])
}

/// The number that a run of decimal digits writes.
pub open spec fn digits_value(s: Seq<char>) -> int
    decreases s.len(),
{
    if s.len() == 0 {
        0
    } else {
        10 * digits_value(s.drop_last()) + (s.last() as int - '0' as int)
    }
}

/// The number that `s` writes, where it is a run of decimal digits, at
/// least one, that writes a number up to `limit`.
pub open spec fn number_of_text(s: Seq<char>, limit: int) -> Option<int> {
    if s.len() > 0 && all_digits(s) && digits_value(s) <= limit {
        Some(digits_value(s))
    } else {
        None
    }
}

/// The integer that `s` writes, where an `i64` holds it: decimal digits, at
/// least one, after an optional `-`. Nothing else is an integer.
pub open spec fn i64_of_text(s: Seq<char>) -> Option<i64> {
    if s.len() > 0 && s[0] == '-' {
        match number_of_text(s.drop_first(), -(i64::MIN as int)) {
            Some(v) => Some((-v) as i64),
            None => None,
        }
    } else {
        match number_of_text(s, i64::MAX as int) {
            Some(v) => Some(v as i64),
            None => None,
        }
    }
}

/// The count that `s` writes, where a `usize` holds it: decimal digits, at
/// least one, and nothing else.
pub open spec fn usize_of_text(s: Seq<char>) -> Option<usize> {
    match number_of_text(s, usize::MAX as int) {
        Some(v) => Some(v as usize),
        None => None,
    }
}

/// The truth value that `s` writes: `true` or `false`, nothing else.
pub open spec fn bool_of_text(s: Seq<char>) -> Option<bool> {
    if s == "true"@ {
        Some(true)
    } else if s == "false"@ {
        Some(false)
    } else {
        None
    }
}

/// The characters of `s`, in order.
pub fn chars_of(s: &str) -> (out: Vec<char>)
    ensures
        out@ == s@,
{
    let n: usize = s.unicode_len();
    let mut out: Vec<char> = Vec::new();
    let mut i: usize = 0;
    while i < n
        invariant
            n == s@.len(),
            i <= n,
            out@ == s@.take(i as int),
        decreases n - i,
    {
        out.push(s.get_char(i));
        i = i + 1;
    }
    out
}

/// Whether `c` occurs in `s`.
pub fn has_char(s: &str, c: char) -> (found: bool)
    ensures
        found == s@.contains(c),
{
    let n: usize = s.unicode_len();
    let mut i: usize = 0;
    while i < n
        invariant
            n == s@.len(),
            i <= n,
            forall|j: int| 0 <= j < i ==> s@[j] != c,
        decreases n - i,
    {
        if s.get_char(i) == c {
            return true;
        }
        i = i + 1;
    }
    false
}

/// No text comes before itself.
pub proof fn lemma_text_before_irreflexive(a: Seq<char>)
    ensures
        !text_before(a, a),
    decreases a.len(),
{
    if a.len() > 0 {
        lemma_text_before_irreflexive(a.drop_first());
    }
}

/// Of two texts at most one comes before the other.
pub proof fn lemma_text_before_asymmetric(a: Seq<char>, b: Seq<char>)
    requires
        text_before(a, b),
    ensures
        !text_before(b, a),
    decreases a.len(),
{
    if a.len() > 0 && b.len() > 0 && a[0] == b[0] {
        lemma_text_before_asymmetric(a.drop_first(), b.drop_first());
    }
}

/// Of two different texts one comes before the other.
pub proof fn lemma_text_before_total(a: Seq<char>, b: Seq<char>)
    requires
        a != b,
    ensures
        text_before(a, b) || text_before(b, a),
    decreases a.len(),
{
    if a.len() > 0 && b.len() > 0 && a[0] == b[0] {
        if a.drop_first() == b.drop_first() {
            assert(a =~= seq![a[0]] + a.drop_first());
            assert(b =~= seq![b[0]] + b.drop_first());
        }
        lemma_text_before_total(a.drop_first(), b.drop_first());
    } else if a.len() == 0 && b.len() == 0 {
        assert(a =~= b);
    }
}

/// What comes before a text comes before all that the text comes before.
pub proof fn lemma_text_before_transitive(a: Seq<char>, b: Seq<char>, c: Seq<char>)
    requires
        text_before(a, b),
        text_before(b, c),
    ensures
        text_before(a, c),
    decreases a.len(),
{
    if a.len() > 0 && b.len() > 0 && c.len() > 0 && a[0] == b[0] && b[0] == c[0] {
        lemma_text_before_transitive(a.drop_first(), b.drop_first(), c.drop_first());
    }
}

/// What a sequence holds from a place on is what it holds at that place,
/// and then what it holds from the next place on.
proof fn lemma_skip_step(s: Seq<char>, i: int)
    requires
        0 <= i < s.len(),
    ensures
        s.skip(i).len() > 0,
        s.skip(i)[0] == s[i],
        s.skip(i).drop_first() == s.skip(i + 1),
{
}

/// Lexical order on character vectors.
pub fn chars_before(a: &Vec<char>, b: &Vec<char>) -> (r: bool)
    ensures
        r == text_before(a@, b@),
{
    let mut i: usize = 0;
    assert(a@.skip(0) =~= a@);
    assert(b@.skip(0) =~= b@);
    while i < a.len() && i < b.len() && a[i] == b[i]
        invariant
            i <= a.len(),
            i <= b.len(),
            text_before(a@, b@) == text_before(a@.skip(i as int), b@.skip(i as int)),
        decreases a.len() - i,
    {
        proof {
            lemma_skip_step(a@, i as int);
            lemma_skip_step(b@, i as int);
        }
        i = i + 1;
    }
    if i >= b.len() {
        false
    } else if i >= a.len() {
        true
    } else {
        proof {
            lemma_skip_step(a@, i as int);
            lemma_skip_step(b@, i as int);
        }
        a[i] < b[i]
    }
}

/// Lexical order on strings, by their characters.
pub fn str_before(a: &str, b: &str) -> (r: bool)
    ensures
        r == text_before(a@, b@),
{
    let x = chars_of(a);
    let y = chars_of(b);
    chars_before(&x, &y)
}

/// Whether `a` and `b` hold the same characters.
pub fn chars_eq(a: &Vec<char>, b: &Vec<char>) -> (r: bool)
    ensures
        r == (a@ == b@),
{
    if a.len() != b.len() {
        return false;
    }
    let mut i: usize = 0;
    while i < a.len()
        invariant
            a.len() == b.len(),
            i <= a.len(),
            forall|j: int| 0 <= j < i ==> a@[j] == b@[j],
        decreases a.len() - i,
    {
        if a[i] != b[i] {
            return false;
        }
        i = i + 1;
    }
    assert(a@ =~= b@);
    true
}

/// Whether two strings hold the same characters.
pub fn str_eq(a: &str, b: &str) -> (r: bool)
    ensures
        r == (a@ == b@),
{
    let x = chars_of(a);
    let y = chars_of(b);
    chars_eq(&x, &y)
}

/// How `glob_matches` goes from one character of the pattern to the next.
proof fn lemma_glob_step(p: Seq<char>, t: Seq<char>, i: int, j: int)
    requires
        0 <= i < p.len(),
        0 <= j <= t.len(),
    ensures
        glob_matches(p.skip(i), t.skip(j)) == if p[i] == '*' {
            glob_matches(p.skip(i + 1), t.skip(j)) || (j < t.len() && glob_matches(
                p.skip(i),
                t.skip(j + 1),
            ))
        } else {
            j < t.len() && t[j] == p[i] && glob_matches(p.skip(i + 1), t.skip(j + 1))
        },
{
    lemma_skip_step(p, i);
    if j < t.len() {
        lemma_skip_step(t, j);
    }
}

/// Whether `text` matches the wildcard `pattern`.
pub fn glob_match(pattern: &str, text: &str) -> (r: bool)
    ensures
        r == glob_matches(pattern@, text@),
{
    let p = chars_of(pattern);
    let t = chars_of(text);
    let n: usize = p.len();
    let m: usize = t.len();
    // row[j] tells whether the text from place j on matches the pattern
    // from place i on; the rows are filled from the end of the pattern
    let mut row: Vec<bool> = Vec::new();
    let mut j: usize = 0;
    while j < m
        invariant
            j <= m,
            row.len() == j,
            forall|k: int| 0 <= k < j ==> !row@[k],
        decreases m - j,
    {
        row.push(false);
        j = j + 1;
    }
    row.push(true);
    let mut i: usize = n;
    while i > 0
        invariant
            i <= n,
            n == p.len(),
            m == t.len(),
            row.len() == m + 1,
            forall|k: int|
                0 <= k <= m ==> #[trigger] row@[k] == glob_matches(
                    p@.skip(i as int),
                    t@.skip(k),
                ),
        decreases i,
    {
        i = i - 1;
        if p[i] == '*' {
            let mut j: usize = m + 1;
            while j > 0
                invariant
                    j <= m + 1,
                    i < n,
                    n == p.len(),
                    m == t.len(),
                    p@[i as int] == '*',
                    row.len() == m + 1,
                    forall|k: int|
                        0 <= k < j ==> #[trigger] row@[k] == glob_matches(
                            p@.skip(i + 1),
                            t@.skip(k),
                        ),
                    forall|k: int|
                        j <= k <= m ==> #[trigger] row@[k] == glob_matches(
                            p@.skip(i as int),
                            t@.skip(k),
                        ),
                decreases j,
            {
                j = j - 1;
                proof {
                    lemma_glob_step(p@, t@, i as int, j as int);
                }
                let matches: bool = row[j] || (j < m && row[j + 1]);
                row.set(j, matches);
            }
        } else {
            let mut j: usize = 0;
            while j <= m
                invariant
                    j <= m + 1,
                    i < n,
                    n == p.len(),
                    m == t.len(),
                    p@[i as int] != '*',
                    row.len() == m + 1,
                    forall|k: int|
                        0 <= k < j ==> #[trigger] row@[k] == glob_matches(
                            p@.skip(i as int),
                            t@.skip(k),
                        ),
                    forall|k: int|
                        j <= k <= m ==> #[trigger] row@[k] == glob_matches(
                            p@.skip(i + 1),
                            t@.skip(k),
                        ),
                decreases m + 1 - j,
            {
                proof {
                    lemma_glob_step(p@, t@, i as int, j as int);
                }
                let matches: bool = j < m && t[j] == p[i] && row[j + 1];
                row.set(j, matches);
                j = j + 1;
            }
        }
    }
    assert(p@.skip(0) =~= p@);
    assert(t@.skip(0) =~= t@);
    row[0]
}

/// A run of digits writes at least ten times what it writes without its
/// last digit.
proof fn lemma_digits_value_bounds(s: Seq<char>)
    requires
        all_digits(s),
    ensures
        0 <= digits_value(s),
        s.len() > 0 ==> digits_value(s.drop_last()) <= digits_value(s) / 10,
    decreases s.len(),
{
    if s.len() > 0 {
        lemma_digits_value_bounds(s.drop_last());
    }
}

/// A longer run of digits writes no smaller number than its prefixes do.
proof fn lemma_digits_value_grows(s: Seq<char>, k: int)
    requires
        all_digits(s),
        0 <= k <= s.len(),
    ensures
        digits_value(s.take(k)) <= digits_value(s),
    decreases s.len() - k,
{
    if k < s.len() {
        lemma_digits_value_grows(s, k + 1);
        assert(s.take(k + 1).drop_last() =~= s.take(k));
        lemma_digits_value_bounds(s.take(k + 1));
    } else {
        assert(s.take(k) =~= s);
    }
}

/// The number that the characters from `start` on write, up to `limit`.
fn read_number(c: &Vec<char>, start: usize, limit: u64) -> (r: Option<u64>)
    requires
        start <= c.len(),
    ensures
        match r {
            Some(v) => number_of_text(c@.skip(start as int), limit as int) == Some(v as int),
            None => number_of_text(c@.skip(start as int), limit as int) is None,
        },
{
    let n: usize = c.len();
    if start == n {
        return None;
    }
    let ghost d: Seq<char> = c@.skip(start as int);
    let mut acc: u64 = 0;
    let mut i: usize = start;
    while i < n
        invariant
            start <= i <= n,
            n == c.len(),
            d == c@.skip(start as int),
            all_digits(d.take(i - start)),
            acc == digits_value(d.take(i - start)),
            acc <= limit,
        decreases n - i,
    {
        let ch: char = c[i];
        if !('0' <= ch && ch <= '9') {
            assert(d[i - start] == ch);
            return None;
        }
        let digit: u128 = (ch as u32 - '0' as u32) as u128;
        let ghost longer: Seq<char> = d.take(i - start + 1);
        proof {
            assert(longer.drop_last() =~= d.take(i - start));
            assert forall|j: int| 0 <= j < longer.len() implies is_digit(#[trigger] longer[j]) by {
                if j < i - start {
                    assert(longer[j] == d.take(i - start)[j]);
                }
            }
        }
        let next: u128 = acc as u128 * 10 + digit;
        if next > limit as u128 {
            proof {
                if all_digits(d) {
                    lemma_digits_value_grows(d, i - start + 1);
                }
            }
            return None;
        }
        acc = next as u64;
        i = i + 1;
    }
    assert(d.take(n - start) =~= d);
    Some(acc)
}

/// The integer that `s` writes, where it writes one that an `i64` holds.
pub fn parse_i64(s: &str) -> (r: Option<i64>)
    ensures
        r == i64_of_text(s@),
{
    let c = chars_of(s);
    if c.len() > 0 && c[0] == '-' {
        match read_number(&c, 1, 0x8000_0000_0000_0000) {
            Some(v) => if v == 0x8000_0000_0000_0000 {
                Some(i64::MIN)
            } else {
                Some(-(v as i64))
            },
            None => None,
        }
    } else {
        assert(c@.skip(0) =~= s@);
        match read_number(&c, 0, 0x7fff_ffff_ffff_ffff) {
            Some(v) => Some(v as i64),
            None => None,
        }
    }
}

/// The count that `s` writes, where it writes one that a `usize` holds.
pub fn parse_usize(s: &str) -> (r: Option<usize>)
    ensures
        r == usize_of_text(s@),
{
    let c = chars_of(s);
    assert(c@.skip(0) =~= s@);
    match read_number(&c, 0, usize::MAX as u64) {
        Some(v) => Some(v as usize),
        None => None,
    }
}

/// The truth value that `s` writes.
pub fn parse_bool(s: &str) -> (r: Option<bool>)
    ensures
        r == bool_of_text(s@),
{
    if str_eq(s, "true") {
        Some(true)
    } else if str_eq(s, "false") {
        Some(false)
    } else {
        None
    }
}

} // verus!
