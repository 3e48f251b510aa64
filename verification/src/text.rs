use vstd::prelude::*;

verus! {

/// The decimal digit that stands for `d`, for `d` below ten.
pub open spec fn digit_char(d: nat) -> char {
    if d == 0 {
        '0'
    } else if d == 1 {
        '1'
    } else if d == 2 {
        '2'
    } else if d == 3 {
        '3'
    } else if d == 4 {
        '4'
    } else if d == 5 {
        '5'
    } else if d == 6 {
        '6'
    } else if d == 7 {
        '7'
    } else if d == 8 {
        '8'
    } else {
        '9'
    }
}

/// The decimal numeral of `n`, without leading zeros.
pub open spec fn decimal(n: nat) -> Seq<char>
    decreases n,
{
    if n < 10 {
        seq![digit_char(n)]
    } else {
        decimal(n / 10).push(digit_char(n % 10))
    }
}

/// What a decimal digit stands for; `None` for any other character.
pub open spec fn digit_value(c: char) -> Option<nat> {
    if c == '0' {
        Some(0)
    } else if c == '1' {
        Some(1)
    } else if c == '2' {
        Some(2)
    } else if c == '3' {
        Some(3)
    } else if c == '4' {
        Some(4)
    } else if c == '5' {
        Some(5)
    } else if c == '6' {
        Some(6)
    } else if c == '7' {
        Some(7)
    } else if c == '8' {
        Some(8)
    } else if c == '9' {
        Some(9)
    } else {
        None
    }
}

/// Whether `c` is a decimal digit.
pub open spec fn is_digit(c: char) -> bool {
    digit_value(c) is Some
}

/// The number that a run of digits writes, leading zeros allowed; `None`
/// where a character is no digit. The empty run writes zero.
pub open spec fn digits_value(s: Seq<char>) -> Option<nat>
    decreases s.len(),
{
    if s.len() == 0 {
        Some(0)
    } else {
        match (digits_value(s.drop_last()), digit_value(s.last())) {
            (Some(high), Some(low)) => Some(10 * high + low),
            _ => None,
        }
    }
}

/// The number that `s` writes, where `s` is a numeral as `decimal` gives it:
/// one to five digits, no leading zero but for zero itself.
pub open spec fn numeral_value(s: Seq<char>) -> Option<nat> {
    if 1 <= s.len() <= 5 && (s.len() == 1 || s[0] != '0') {
        digits_value(s)
    } else {
        None
    }
}

/// How many digits stand at the front of `s`.
pub open spec fn leading_digits(s: Seq<char>) -> nat
    decreases s.len(),
{
    if s.len() > 0 && is_digit(s[0]) {
        1 + leading_digits(s.drop_first())
    } else {
        0
    }
}

/// How many digits stand at the end of `s`.
pub open spec fn trailing_digits(s: Seq<char>) -> nat
    decreases s.len(),
{
    if s.len() > 0 && is_digit(s.last()) {
        1 + trailing_digits(s.drop_last())
    } else {
        0
    }
}

/// `pat` stands in `t` at index `at`.
pub open spec fn occurs_at(t: Seq<char>, at: int, pat: Seq<char>) -> bool {
    0 <= at && at + pat.len() <= t.len() && t.subrange(at, at + pat.len()) == pat
}

/// The greatest index in `lo..=hi` at which `pat` stands in `t`.
pub open spec fn last_occurrence(t: Seq<char>, pat: Seq<char>, lo: int, hi: int) -> Option<int>
    decreases hi - lo + 1,
{
    if hi < lo {
        None
    } else if occurs_at(t, hi, pat) {
        Some(hi)
    } else {
        last_occurrence(t, pat, lo, hi - 1)
    }
}

/// `c` stands somewhere in `t`.
pub open spec fn has_char(t: Seq<char>, c: char) -> bool {
    exists|i: int| 0 <= i < t.len() && t[i] == c
}

/// The digits of `n` are digits, and they write `n`.
pub proof fn lemma_decimal_digits_value(n: nat)
    ensures
        digits_value(decimal(n)) == Some(n),
        decimal(n).len() >= 1,
        n >= 1 ==> decimal(n)[0] != '0',
        n < 10 ==> decimal(n).len() == 1,
        10 <= n < 100 ==> decimal(n).len() == 2,
        100 <= n < 1000 ==> decimal(n).len() == 3,
        1000 <= n < 10000 ==> decimal(n).len() == 4,
        10000 <= n < 100000 ==> decimal(n).len() == 5,
        forall|i: int| 0 <= i < decimal(n).len() ==> is_digit(#[trigger] decimal(n)[i]),
    decreases n,
{
    if n < 10 {
        let s = decimal(n);
        assert(s.drop_last().len() == 0);
        assert(digits_value(s.drop_last()) == Some(0nat));
        assert(digit_value(s.last()) == Some(n));
    } else {
        lemma_decimal_digits_value(n / 10);
        let s = decimal(n);
        assert(s.drop_last() =~= decimal(n / 10));
        assert(digit_value(digit_char(n % 10)) == Some(n % 10));
        assert(s[0] == decimal(n / 10)[0]);
    }
}

/// A numeral below 100000 is read back as the number it was written from.
pub proof fn lemma_numeral_of_decimal(n: nat)
    requires
        n < 100000,
    ensures
        numeral_value(decimal(n)) == Some(n),
{
    lemma_decimal_digits_value(n);
    if n == 0 {
        assert(decimal(n).len() == 1);
    }
}

/// The characters of `s`, one by one.
pub fn chars_of(s: &str) -> (out: Vec<char>)
    ensures
        out@ == s@,
{
    let mut out: Vec<char> = Vec::new();
    for c in it: s.chars()
        invariant
            it.seq() == s@,
            out@ == it.seq().subrange(0, it.index()),
    {
        out.push(c);
        assert(out@ =~= it.seq().subrange(0, it.index() + 1));
    }
    assert(out@ =~= s@);
    out
}

/// The digit `d` as a text.
fn digit_text(d: u8) -> (out: &'static str)
    requires
        d < 10,
    ensures
        out@ == seq![digit_char(d as nat)],
{
    proof {
        reveal_strlit("0");
        reveal_strlit("1");
        reveal_strlit("2");
        reveal_strlit("3");
        reveal_strlit("4");
        reveal_strlit("5");
        reveal_strlit("6");
        reveal_strlit("7");
        reveal_strlit("8");
        reveal_strlit("9");
    }
    let out = if d == 0 {
        "0"
    } else if d == 1 {
        "1"
    } else if d == 2 {
        "2"
    } else if d == 3 {
        "3"
    } else if d == 4 {
        "4"
    } else if d == 5 {
        "5"
    } else if d == 6 {
        "6"
    } else if d == 7 {
        "7"
    } else if d == 8 {
        "8"
    } else {
        "9"
    };
    assert(out@ =~= seq![digit_char(d as nat)]);
    out
}

/// Appends the decimal numeral of `n` to `s`.
pub fn push_decimal(s: &mut String, n: u16)
    ensures
        final(s)@ == old(s)@ + decimal(n as nat),
    decreases n,
{
    if n < 10 {
        s.append(digit_text(n as u8));
    } else {
        push_decimal(s, n / 10);
        s.append(digit_text((n % 10) as u8));
        assert(final(s)@ =~= old(s)@ + decimal(n as nat));
    }
}

/// The value of one digit.
pub fn digit_of(c: char) -> (out: Option<u8>)
    ensures
        match out {
            Some(d) => digit_value(c) == Some(d as nat),
            None => digit_value(c) is None,
        },
{
    match c {
        '0' => Some(0),
        '1' => Some(1),
        '2' => Some(2),
        '3' => Some(3),
        '4' => Some(4),
        '5' => Some(5),
        '6' => Some(6),
        '7' => Some(7),
        '8' => Some(8),
        '9' => Some(9),
        _ => None,
    }
}

/// Reads the numeral that `t` holds from `from` up to `to`.
pub fn read_numeral(t: &Vec<char>, from: usize, to: usize) -> (out: Option<u32>)
    requires
        from <= to <= t.len(),
    ensures
        match out {
            Some(v) => numeral_value(t@.subrange(from as int, to as int)) == Some(v as nat),
            None => numeral_value(t@.subrange(from as int, to as int)) is None,
        },
{
    let ghost s = t@.subrange(from as int, to as int);
    if to - from < 1 || to - from > 5 {
        return None;
    }
    if to - from > 1 && t[from] == '0' {
        assert(s[0] == t@[from as int]);
        return None;
    }
    assert(s[0] == t@[from as int]);
    let mut value: u32 = 0;
    let mut i: usize = from;
    while i < to
        invariant
            from <= i <= to <= t.len(),
            to - from <= 5,
            s == t@.subrange(from as int, to as int),
            digits_value(s.subrange(0, i - from)) == Some(value as nat),
            value < pow10((i - from) as nat),
        decreases to - i,
    {
        let ghost before = s.subrange(0, i - from);
        let ghost after = s.subrange(0, i - from + 1);
        assert(after.drop_last() =~= before);
        assert(after.last() == t@[i as int]);
        match digit_of(t[i]) {
            Some(d) => {
                assert(pow10((i - from + 1) as nat) == 10 * pow10((i - from) as nat));
                assert(pow10((i - from + 1) as nat) <= 100000) by {
                    reveal_with_fuel(pow10, 7);
                }
                value = value * 10 + d as u32;
            },
            None => {
                proof {
                    lemma_digits_value_none(s, i - from);
                }
                return None;
            },
        }
        i = i + 1;
    }
    assert(s.subrange(0, to - from) =~= s);
    Some(value)
}

/// Ten to the power of `k`.
pub open spec fn pow10(k: nat) -> nat
    decreases k,
{
    if k == 0 {
        1
    } else {
        10 * pow10((k - 1) as nat)
    }
}

/// A run that holds a character that is no digit writes no number.
pub proof fn lemma_digits_value_none(s: Seq<char>, at: int)
    requires
        0 <= at < s.len(),
        !is_digit(s[at]),
    ensures
        digits_value(s) is None,
    decreases s.len(),
{
    if at == s.len() - 1 {
    } else {
        assert(s.drop_last()[at] == s[at]);
        lemma_digits_value_none(s.drop_last(), at);
    }
}

/// Whether `pat` stands in `t` at index `at`.
pub fn stands_at(t: &Vec<char>, at: usize, pat: &Vec<char>) -> (out: bool)
    ensures
        out == occurs_at(t@, at as int, pat@),
{
    if pat.len() > t.len() || at > t.len() - pat.len() {
        return false;
    }
    let mut i: usize = 0;
    while i < pat.len()
        invariant
            at + pat.len() <= t.len(),
            i <= pat.len(),
            t@.subrange(at as int, at + i) == pat@.subrange(0, i as int),
        decreases pat.len() - i,
    {
        if t[at + i] != pat[i] {
            assert(t@.subrange(at as int, at + pat.len())[i as int] != pat@[i as int]);
            return false;
        }
        i = i + 1;
        assert(t@.subrange(at as int, at + i) =~= t@.subrange(at as int, at + i - 1).push(
            t@[at + i - 1],
        ));
        assert(pat@.subrange(0, i as int) =~= pat@.subrange(0, i - 1).push(pat@[i - 1]));
    }
    assert(pat@.subrange(0, pat.len() as int) =~= pat@);
    true
}

/// The greatest index from `lo` to `hi` at which `pat` stands in `t`.
pub fn find_last(t: &Vec<char>, pat: &Vec<char>, lo: usize, hi: usize) -> (out: Option<usize>)
    ensures
        match out {
            Some(k) => last_occurrence(t@, pat@, lo as int, hi as int) == Some(k as int) && lo
                <= k <= hi && k + pat.len() <= t.len(),
            None => last_occurrence(t@, pat@, lo as int, hi as int) is None,
        },
{
    if hi < lo {
        return None;
    }
    let mut k: usize = hi;
    loop
        invariant
            lo <= k <= hi,
            last_occurrence(t@, pat@, lo as int, hi as int) == last_occurrence(
                t@,
                pat@,
                lo as int,
                k as int,
            ),
        decreases k - lo,
    {
        if stands_at(t, k, pat) {
            return Some(k);
        }
        if k == lo {
            assert(last_occurrence(t@, pat@, lo as int, lo - 1) is None);
            return None;
        }
        k = k - 1;
    }
}

/// Whether `c` stands in `t`.
pub fn contains_char(t: &Vec<char>, c: char) -> (out: bool)
    ensures
        out == has_char(t@, c),
{
    let mut i: usize = 0;
    while i < t.len()
        invariant
            i <= t.len(),
            forall|j: int| 0 <= j < i ==> t@[j] != c,
        decreases t.len() - i,
    {
        if t[i] == c {
            return true;
        }
        i = i + 1;
    }
    false
}

/// The text that `t` holds from `from` up to `to`.
pub fn text_of(t: &Vec<char>, from: usize, to: usize, source: &str) -> (out: String)
    requires
        from <= to <= t.len(),
        t@ == source@,
    ensures
        out@ == t@.subrange(from as int, to as int),
{
    String::from_str(source.substring_char(from, to))
}

/// `t` without the digits at its end, and those digits.
pub open spec fn split_number(t: Seq<char>) -> (Seq<char>, Seq<char>) {
    let d = trailing_digits(t);
    (t.subrange(0, t.len() - d), t.subrange(t.len() - d, t.len() as int))
}

/// Whether a word ends at `c`: at a space or a line feed.
pub open spec fn ends_word(c: char) -> bool {
    c == ' ' || c == '\n'
}

/// Where the last word of `t` starts: the longest run at the end of `t`
/// that holds neither a space nor a line feed.
pub open spec fn word_start(t: Seq<char>) -> int
    decreases t.len(),
{
    if t.len() == 0 || ends_word(t.last()) {
        t.len() as int
    } else {
        word_start(t.drop_last())
    }
}

/// The last word of `t`.
pub open spec fn last_word(t: Seq<char>) -> Seq<char> {
    t.subrange(word_start(t), t.len() as int)
}

/// Every character of `s` is a digit.
pub open spec fn all_digits(s: Seq<char>) -> bool {
    forall|i: int| 0 <= i < s.len() ==> is_digit(#[trigger] s[i])
}

/// No character of `s` ends a word.
pub open spec fn one_word(s: Seq<char>) -> bool {
    forall|i: int| 0 <= i < s.len() ==> !ends_word(#[trigger] s[i])
}

/// Digits written behind a text that does not end in a digit are split off
/// again, all of them and no more.
pub proof fn lemma_split_number(a: Seq<char>, d: Seq<char>)
    requires
        all_digits(d),
        a.len() == 0 || !is_digit(a.last()),
    ensures
        trailing_digits(a + d) == d.len(),
        split_number(a + d) == (a, d),
    decreases d.len(),
{
    if d.len() == 0 {
        assert(a + d =~= a);
    } else {
        assert((a + d).last() == d.last());
        assert((a + d).drop_last() =~= a + d.drop_last());
        lemma_split_number(a, d.drop_last());
    }
    assert((a + d).subrange(0, a.len() as int) =~= a);
    assert((a + d).subrange(a.len() as int, (a + d).len() as int) =~= d);
}

/// A word written behind a text that is empty or ends a word is the last
/// word of the whole.
pub proof fn lemma_last_word(a: Seq<char>, w: Seq<char>)
    requires
        one_word(w),
        a.len() == 0 || ends_word(a.last()),
    ensures
        word_start(a + w) == a.len(),
        last_word(a + w) == w,
    decreases w.len(),
{
    if w.len() == 0 {
        assert(a + w =~= a);
    } else {
        assert((a + w).last() == w.last());
        assert((a + w).drop_last() =~= a + w.drop_last());
        lemma_last_word(a, w.drop_last());
    }
    assert((a + w).subrange(a.len() as int, (a + w).len() as int) =~= w);
}

/// How many digits stand in `t` just before `end`.
pub fn count_trailing_digits(t: &Vec<char>, end: usize) -> (out: usize)
    requires
        end <= t.len(),
    ensures
        out == trailing_digits(t@.subrange(0, end as int)),
        out <= end,
{
    let mut k: usize = end;
    while k > 0
        invariant
            k <= end <= t.len(),
            trailing_digits(t@.subrange(0, end as int)) == (end - k) + trailing_digits(
                t@.subrange(0, k as int),
            ),
        decreases k,
    {
        let ghost part = t@.subrange(0, k as int);
        assert(part.last() == t@[k - 1]);
        assert(part.drop_last() =~= t@.subrange(0, k - 1));
        if digit_of(t[k - 1]).is_none() {
            return end - k;
        }
        k = k - 1;
    }
    end
}

/// Where the word starts that stands in `t` just before `end`.
pub fn find_word_start(t: &Vec<char>, end: usize) -> (out: usize)
    requires
        end <= t.len(),
    ensures
        out == word_start(t@.subrange(0, end as int)),
        out <= end,
{
    let mut k: usize = end;
    while k > 0
        invariant
            k <= end <= t.len(),
            word_start(t@.subrange(0, end as int)) == word_start(t@.subrange(0, k as int)),
        decreases k,
    {
        let ghost part = t@.subrange(0, k as int);
        assert(part.last() == t@[k - 1]);
        assert(part.drop_last() =~= t@.subrange(0, k - 1));
        if t[k - 1] == ' ' || t[k - 1] == '\n' {
            return k;
        }
        k = k - 1;
    }
    0
}

/// How many digits stand in `t` from `from` on.
pub fn count_leading_digits(t: &Vec<char>, from: usize) -> (out: usize)
    requires
        from <= t.len(),
    ensures
        out == leading_digits(t@.subrange(from as int, t.len() as int)),
        from + out <= t.len(),
{
    let n = t.len();
    let mut k: usize = from;
    while k < n
        invariant
            from <= k <= n,
            n == t.len(),
            leading_digits(t@.subrange(from as int, n as int)) == (k - from) + leading_digits(
                t@.subrange(k as int, n as int),
            ),
        decreases n - k,
    {
        let ghost part = t@.subrange(k as int, n as int);
        assert(part[0] == t@[k as int]);
        assert(part.drop_first() =~= t@.subrange(k + 1, n as int));
        if digit_of(t[k]).is_none() {
            return k - from;
        }
        k = k + 1;
    }
    n - from
}

/// The least index in `lo..=hi` at which `pat` stands in `t`.
pub open spec fn first_occurrence(t: Seq<char>, pat: Seq<char>, lo: int, hi: int) -> Option<int>
    decreases hi - lo + 1,
{
    if hi < lo {
        None
    } else if occurs_at(t, lo, pat) {
        Some(lo)
    } else {
        first_occurrence(t, pat, lo + 1, hi)
    }
}

/// The least index from `lo` to `hi` at which `pat` stands in `t`.
pub fn find_first(t: &Vec<char>, pat: &Vec<char>, lo: usize, hi: usize) -> (out: Option<usize>)
    requires
        hi < usize::MAX,
    ensures
        match out {
            Some(k) => first_occurrence(t@, pat@, lo as int, hi as int) == Some(k as int) && lo
                <= k <= hi && k + pat.len() <= t.len(),
            None => first_occurrence(t@, pat@, lo as int, hi as int) is None,
        },
{
    if hi < lo {
        return None;
    }
    let mut k: usize = lo;
    while k <= hi
        invariant
            lo <= k,
            hi < usize::MAX,
            k <= hi + 1,
            first_occurrence(t@, pat@, lo as int, hi as int) == first_occurrence(
                t@,
                pat@,
                k as int,
                hi as int,
            ),
        decreases hi + 1 - k,
    {
        if stands_at(t, k, pat) {
            return Some(k);
        }
        k = k + 1;
    }
    None
}

/// Whether `c` is white space: a space, a tab, a carriage return or a line feed.
pub open spec fn is_blank(c: char) -> bool {
    c == ' ' || c == '\t' || c == '\r' || c == '\n'
}

/// How many spaces stand at the front of `t`.
pub open spec fn leading_spaces(t: Seq<char>) -> nat
    decreases t.len(),
{
    if t.len() > 0 && t[0] == ' ' {
        1 + leading_spaces(t.drop_first())
    } else {
        0
    }
}

/// How many characters of white space stand at the front of `t`.
pub open spec fn leading_blanks(t: Seq<char>) -> nat
    decreases t.len(),
{
    if t.len() > 0 && is_blank(t[0]) {
        1 + leading_blanks(t.drop_first())
    } else {
        0
    }
}

/// How many characters of white space stand at the end of `t`.
pub open spec fn trailing_blanks(t: Seq<char>) -> nat
    decreases t.len(),
{
    if t.len() > 0 && is_blank(t.last()) {
        1 + trailing_blanks(t.drop_last())
    } else {
        0
    }
}

/// `t` without the white space at its front and at its end.
pub open spec fn trimmed(t: Seq<char>) -> Seq<char> {
    if leading_blanks(t) >= t.len() {
        Seq::empty()
    } else {
        t.subrange(leading_blanks(t) as int, t.len() - trailing_blanks(t))
    }
}

/// How many spaces stand at the front of `t`.
pub fn count_leading_spaces(t: &Vec<char>) -> (out: usize)
    ensures
        out == leading_spaces(t@),
        out <= t.len(),
{
    let n = t.len();
    let mut k: usize = 0;
    assert(t@.subrange(0, n as int) =~= t@);
    while k < n
        invariant
            k <= n,
            n == t.len(),
            leading_spaces(t@) == k + leading_spaces(t@.subrange(k as int, n as int)),
        decreases n - k,
    {
        let ghost part = t@.subrange(k as int, n as int);
        assert(part[0] == t@[k as int]);
        assert(part.drop_first() =~= t@.subrange(k + 1, n as int));
        if t[k] != ' ' {
            return k;
        }
        k = k + 1;
    }
    n
}

/// Whether `c` is white space.
fn blank(c: char) -> (out: bool)
    ensures
        out == is_blank(c),
{
    c == ' ' || c == '\t' || c == '\r' || c == '\n'
}

/// Where `t` without the white space around it starts and ends.
pub fn trim_bounds(t: &Vec<char>) -> (out: (usize, usize))
    ensures
        out.0 <= out.1 <= t.len(),
        trimmed(t@) == t@.subrange(out.0 as int, out.1 as int),
{
    let n = t.len();
    let mut a: usize = 0;
    assert(t@.subrange(0, n as int) =~= t@);
    while a < n && blank(t[a])
        invariant
            a <= n,
            n == t.len(),
            leading_blanks(t@) == a + leading_blanks(t@.subrange(a as int, n as int)),
        decreases n - a,
    {
        let ghost part = t@.subrange(a as int, n as int);
        assert(part[0] == t@[a as int]);
        assert(part.drop_first() =~= t@.subrange(a + 1, n as int));
        a = a + 1;
    }
    if a == n {
        assert(t@.subrange(n as int, n as int) =~= Seq::<char>::empty());
        return (n, n);
    }
    assert(t@.subrange(a as int, n as int)[0] == t@[a as int]);
    assert(leading_blanks(t@) == a);
    let mut b: usize = n;
    while b > a + 1 && blank(t[b - 1])
        invariant
            a < b <= n,
            n == t.len(),
            !is_blank(t@[a as int]),
            trailing_blanks(t@) == (n - b) + trailing_blanks(t@.subrange(0, b as int)),
        decreases b,
    {
        let ghost part = t@.subrange(0, b as int);
        assert(part.last() == t@[b - 1]);
        assert(part.drop_last() =~= t@.subrange(0, b - 1));
        b = b - 1;
    }
    assert(t@.subrange(0, b as int).last() == t@[b - 1]);
    (a, b)
}

/// Digits written before a text that does not start with a digit are all
/// the digits at the front of the whole.
pub proof fn lemma_leading_digits(d: Seq<char>, rest: Seq<char>)
    requires
        all_digits(d),
        rest.len() == 0 || !is_digit(rest[0]),
    ensures
        leading_digits(d + rest) == d.len(),
    decreases d.len(),
{
    if d.len() == 0 {
        assert(d + rest =~= rest);
    } else {
        assert((d + rest)[0] == d[0]);
        assert((d + rest).drop_first() =~= d.drop_first() + rest);
        lemma_leading_digits(d.drop_first(), rest);
    }
}

/// Where `pat` stands at `at` and nowhere behind it up to `hi`, `at` is its
/// last occurrence.
pub proof fn lemma_last_occurrence(t: Seq<char>, pat: Seq<char>, lo: int, hi: int, at: int)
    requires
        lo <= at <= hi,
        occurs_at(t, at, pat),
        forall|k: int| at < k <= hi ==> !occurs_at(t, k, pat),
    ensures
        last_occurrence(t, pat, lo, hi) == Some(at),
    decreases hi - at,
{
    if hi > at {
        lemma_last_occurrence(t, pat, lo, hi - 1, at);
    }
}

/// A number as a text may write it in full: `+` or nothing, then one digit
/// or more, leading zeros allowed. `None` where `s` is not written so.
pub open spec fn signed_digits_value(s: Seq<char>) -> Option<nat> {
    let digits = if s.len() > 0 && s[0] == '+' {
        s.drop_first()
    } else {
        s
    };
    if digits.len() == 0 {
        None
    } else {
        digits_value(digits)
    }
}

/// The front of a run of digits writes no more than the whole run.
pub proof fn lemma_digits_value_front(s: Seq<char>, k: int)
    requires
        0 <= k <= s.len(),
        digits_value(s) is Some,
    ensures
        digits_value(s.subrange(0, k)) is Some,
        digits_value(s.subrange(0, k))->0 <= digits_value(s)->0,
    decreases s.len(),
{
    if k == s.len() {
        assert(s.subrange(0, k) =~= s);
    } else {
        assert(s.drop_last().subrange(0, k) =~= s.subrange(0, k));
        lemma_digits_value_front(s.drop_last(), k);
    }
}

/// Reads the number up to `limit` that `t` writes in full from `from` up to
/// `to`.
pub fn read_number_up_to(t: &Vec<char>, from: usize, to: usize, limit: u16) -> (out: Option<u16>)
    requires
        from <= to <= t.len(),
    ensures
        match signed_digits_value(t@.subrange(from as int, to as int)) {
            Some(v) => if v <= limit {
                out == Some(v as u16)
            } else {
                out is None
            },
            None => out is None,
        },
{
    let ghost whole = t@.subrange(from as int, to as int);
    let start = if from < to && t[from] == '+' {
        from + 1
    } else {
        from
    };
    assert(whole.len() > 0 ==> whole[0] == t@[from as int]);
    let ghost digits = t@.subrange(start as int, to as int);
    assert(start > from ==> whole.drop_first() =~= digits);
    assert(start == from ==> whole == digits);
    if start == to {
        return None;
    }
    let mut value: u32 = 0;
    let mut i: usize = start;
    assert(digits.subrange(0, 0).len() == 0);
    assert(signed_digits_value(whole) == digits_value(digits));
    while i < to
        invariant
            start <= i <= to <= t.len(),
            from <= start,
            whole == t@.subrange(from as int, to as int),
            signed_digits_value(whole) == digits_value(digits),
            digits == t@.subrange(start as int, to as int),
            digits_value(digits.subrange(0, i - start)) == Some(value as nat),
            value <= limit,
        decreases to - i,
    {
        let ghost before = digits.subrange(0, i - start);
        let ghost after = digits.subrange(0, i - start + 1);
        assert(after.drop_last() =~= before);
        assert(after.last() == t@[i as int]);
        match digit_of(t[i]) {
            Some(d) => {
                let next = value * 10 + d as u32;
                if next > limit as u32 {
                    proof {
                        assert(digits_value(after) == Some(next as nat));
                        if digits_value(digits) is Some {
                            lemma_digits_value_front(digits, i - start + 1);
                        }
                    }
                    return None;
                }
                value = next;
            },
            None => {
                proof {
                    lemma_digits_value_none(digits, i - start);
                }
                return None;
            },
        }
        i = i + 1;
    }
    assert(digits.subrange(0, to - start) =~= digits);
    Some(value as u16)
}

} // verus!
