use vstd::prelude::*;

verus! {

/// ASCII letter or decimal digit.
pub open spec fn is_alnum(c: char) -> bool {
    ('a' <= c && c <= 'z') || ('A' <= c && c <= 'Z') || ('0' <= c && c <= '9')
}

/// ASCII decimal digit.
pub open spec fn is_digit(c: char) -> bool {
    '0' <= c && c <= '9'
}

/// Length of the longest run of alphanumeric characters of `s` from index `i`.
pub open spec fn alnum_run(s: Seq<char>, i: int) -> nat
    decreases s.len() - i,
{
    if 0 <= i < s.len() && is_alnum(s[i]) {
        1 + alnum_run(s, i + 1)
    } else {
        0
    }
}

/// Length of the longest run of decimal digits of `s` from index `i`.
pub open spec fn digit_run(s: Seq<char>, i: int) -> nat
    decreases s.len() - i,
{
    if 0 <= i < s.len() && is_digit(s[i]) {
        1 + digit_run(s, i + 1)
    } else {
        0
    }
}

/// Numeric value of the decimal digits `s[i..j]`.
pub open spec fn digits_value(s: Seq<char>, i: int, j: int) -> nat
    decreases j - i,
{
    if i < j {
        (10 * digits_value(s, i, j - 1) + ((s[j - 1] as u32) - ('0' as u32))) as nat
    } else {
        0
    }
}

/// Whether `s` holds the character `c` at index `i`.
pub open spec fn char_at(s: Seq<char>, i: int, c: char) -> bool {
    0 <= i < s.len() && s[i] == c
}

pub fn is_alnum_char(c: char) -> (b: bool)
    ensures
        b == is_alnum(c),
{
    ('a' <= c && c <= 'z') || ('A' <= c && c <= 'Z') || ('0' <= c && c <= '9')
}

pub fn is_digit_char(c: char) -> (b: bool)
    ensures
        b == is_digit(c),
{
    '0' <= c && c <= '9'
}

/// Whether `s`, of `n` characters, holds `c` at index `i`.
pub fn char_at_exec(s: &str, n: usize, i: usize, c: char) -> (b: bool)
    requires
        n == s@.len(),
    ensures
        b == char_at(s@, i as int, c),
{
    i < n && s.get_char(i) == c
}

/// End of the alphanumeric run of `s` that starts at `i`.
pub fn alnum_end(s: &str, n: usize, i: usize) -> (j: usize)
    requires
        n == s@.len(),
        i <= n,
    ensures
        j == i + alnum_run(s@, i as int),
        j <= n,
{
    let mut j: usize = i;
    while j < n && is_alnum_char(s.get_char(j))
        invariant
            i <= j <= n,
            n == s@.len(),
            alnum_run(s@, i as int) == (j - i) + alnum_run(s@, j as int),
        decreases n - j,
    {
        j = j + 1;
    }
    j
}

/// End of the decimal digit run of `s` that starts at `i`.
pub fn digit_end(s: &str, n: usize, i: usize) -> (j: usize)
    requires
        n == s@.len(),
        i <= n,
    ensures
        j == i + digit_run(s@, i as int),
        j <= n,
{
    let mut j: usize = i;
    while j < n && is_digit_char(s.get_char(j))
        invariant
            i <= j <= n,
            n == s@.len(),
            digit_run(s@, i as int) == (j - i) + digit_run(s@, j as int),
        decreases n - j,
    {
        j = j + 1;
    }
    j
}

/// An alphanumeric run never reaches past the end of `s`.
pub proof fn lemma_alnum_run_bound(s: Seq<char>, i: int)
    requires
        0 <= i,
    ensures
        alnum_run(s, i) == 0 || i + alnum_run(s, i) <= s.len(),
    decreases s.len() - i,
{
    if i < s.len() {
        lemma_alnum_run_bound(s, i + 1);
    }
}

/// In the first `m` characters of `s`, the alphanumeric run from `i` is the
/// run in `s`, cut at `m`.
pub proof fn lemma_alnum_run_take(s: Seq<char>, m: int, i: int)
    requires
        0 <= i <= m <= s.len(),
    ensures
        alnum_run(s.take(m), i) == (if alnum_run(s, i) <= m - i {
            alnum_run(s, i)
        } else {
            (m - i) as nat
        }),
    decreases m - i,
{
    if i < m {
        assert(s.take(m)[i] == s[i]);
        lemma_alnum_run_take(s, m, i + 1);
    }
}

/// A digit run never reaches past the end of `s`.
pub proof fn lemma_digit_run_bound(s: Seq<char>, i: int)
    requires
        0 <= i,
    ensures
        digit_run(s, i) == 0 || i + digit_run(s, i) <= s.len(),
    decreases s.len() - i,
{
    if i < s.len() {
        lemma_digit_run_bound(s, i + 1);
    }
}

/// In the first `m` characters of `s`, the digit run from `i` is the run in
/// `s`, cut at `m`.
pub proof fn lemma_digit_run_take(s: Seq<char>, m: int, i: int)
    requires
        0 <= i <= m <= s.len(),
    ensures
        digit_run(s.take(m), i) == (if digit_run(s, i) <= m - i {
            digit_run(s, i)
        } else {
            (m - i) as nat
        }),
    decreases m - i,
{
    if i < m {
        assert(s.take(m)[i] == s[i]);
        lemma_digit_run_take(s, m, i + 1);
    }
}

/// The value of digits within the first `m` characters does not depend on
/// what follows them.
pub proof fn lemma_digits_value_take(s: Seq<char>, m: int, i: int, j: int)
    requires
        0 <= i,
        j <= m <= s.len(),
    ensures
        digits_value(s.take(m), i, j) == digits_value(s, i, j),
    decreases j - i,
{
    if i < j {
        assert(s.take(m)[j - 1] == s[j - 1]);
        lemma_digits_value_take(s, m, i, j - 1);
    }
}

} // verus!
