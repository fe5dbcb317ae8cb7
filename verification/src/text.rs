//! The plain-text building blocks of the save files: decimal numbers, `lines()`-style line
//! splitting and splitting a line at a separator, all over sequences of characters.

use vstd::prelude::*;

verus! {

// ─── Digits ─────────────────────────────────────────────────────────────────────

/// The value of an ASCII decimal digit, or `None` for any other character.
pub open spec fn digit_of(c: char) -> Option<nat> {
    if c == '0' { Some(0) }
    else if c == '1' { Some(1) }
    else if c == '2' { Some(2) }
    else if c == '3' { Some(3) }
    else if c == '4' { Some(4) }
    else if c == '5' { Some(5) }
    else if c == '6' { Some(6) }
    else if c == '7' { Some(7) }
    else if c == '8' { Some(8) }
    else if c == '9' { Some(9) }
    else { None }
}

/// The ASCII digit for `d` (`d < 10`).
pub open spec fn digit_char(d: nat) -> char {
    if d == 0 { '0' }
    else if d == 1 { '1' }
    else if d == 2 { '2' }
    else if d == 3 { '3' }
    else if d == 4 { '4' }
    else if d == 5 { '5' }
    else if d == 6 { '6' }
    else if d == 7 { '7' }
    else if d == 8 { '8' }
    else { '9' }
}

/// Whether every character of `s` is an ASCII decimal digit.
pub open spec fn all_digits(s: Seq<char>) -> bool {
    forall|i: int| 0 <= i < s.len() ==> (#[trigger] digit_of(s[i])) is Some
}

/// The number written by the digit string `s`, most significant digit first.
pub open spec fn digits_value(s: Seq<char>) -> nat
    decreases s.len(),
{
    if s.len() == 0 {
        0
    } else {
        digits_value(s.drop_last()) * 10 + match digit_of(s.last()) {
            Some(d) => d,
            None => 0,
        }
    }
}

/// The shortest decimal spelling of `n` (no sign, no leading zeros; `0` is "0").
pub open spec fn decimal(n: nat) -> Seq<char>
    decreases n,
{
    if n < 10 {
        seq![digit_char(n)]
    } else {
        decimal(n / 10).push(digit_char(n % 10))
    }
}

/// What Rust's `str::parse` gives for an unsigned integer type whose largest value is `max`:
/// an optional leading `+`, then one or more ASCII digits whose value does not exceed `max`.
pub open spec fn parse_unsigned(s: Seq<char>, max: nat) -> Option<nat> {
    let digits = if s.len() > 0 && s[0] == '+' { s.drop_first() } else { s };
    if digits.len() > 0 && all_digits(digits) && digits_value(digits) <= max {
        Some(digits_value(digits))
    } else {
        None
    }
}

// ─── Searching and splitting ────────────────────────────────────────────────────

/// The index of the first `c` in `s`, or `s.len()` when `s` has none.
pub open spec fn find_char(s: Seq<char>, c: char) -> nat
    decreases s.len(),
{
    if s.len() == 0 {
        0
    } else if s[0] == c {
        0
    } else {
        1 + find_char(s.drop_first(), c)
    }
}

/// `s` without one trailing carriage return.
pub open spec fn strip_cr(l: Seq<char>) -> Seq<char> {
    if l.len() > 0 && l.last() == '\r' {
        l.drop_last()
    } else {
        l
    }
}

/// The lines of `s` as Rust's `str::lines` yields them: split after each `\n`, the `\n` (and a
/// `\r` right before it) removed, and no empty line after a final `\n`.
pub open spec fn lines(s: Seq<char>) -> Seq<Seq<char>>
    decreases s.len(),
{
    if s.len() == 0 {
        Seq::empty()
    } else {
        let i = find_char(s, '\n');
        if i < s.len() {
            seq![strip_cr(s.take(i as int))] + lines(s.skip(i as int + 1))
        } else {
            seq![s]
        }
    }
}

/// Rust's `str::split_once` at the first `c`.
pub open spec fn split_once(s: Seq<char>, c: char) -> Option<(Seq<char>, Seq<char>)> {
    let i = find_char(s, c);
    if i < s.len() {
        Some((s.take(i as int), s.skip(i as int + 1)))
    } else {
        None
    }
}

/// The fields of `s` as Rust's `str::split(c)` yields them (always at least one field).
pub open spec fn split_char(s: Seq<char>, c: char) -> Seq<Seq<char>>
    decreases s.len(),
{
    let i = find_char(s, c);
    if i < s.len() {
        seq![s.take(i as int)] + split_char(s.skip(i as int + 1), c)
    } else {
        seq![s]
    }
}

/// The text `sep + ls[0] + sep + ls[1] + ...`: each piece preceded by the separator.
pub open spec fn joined(ls: Seq<Seq<char>>, sep: char) -> Seq<char>
    decreases ls.len(),
{
    if ls.len() == 0 {
        Seq::empty()
    } else {
        seq![sep] + ls[0] + joined(ls.drop_first(), sep)
    }
}

/// A line that `lines` hands back unchanged: not empty, no `\n`, no trailing `\r`.
pub open spec fn plain_line(l: Seq<char>) -> bool {
    &&& l.len() > 0
    &&& forall|i: int| 0 <= i < l.len() ==> l[i] != '\n'
    &&& l.last() != '\r'
}

// ─── Lemmas ──────────────────────────────────────────────────────────────────────

/// `find_char` is the first occurrence.
pub proof fn lemma_find_char(s: Seq<char>, c: char)
    ensures
        find_char(s, c) <= s.len(),
        find_char(s, c) < s.len() ==> s[find_char(s, c) as int] == c,
        forall|j: int| 0 <= j < find_char(s, c) ==> s[j] != c,
    decreases s.len(),
{
    if s.len() > 0 && s[0] != c {
        lemma_find_char(s.drop_first(), c);
        assert forall|j: int| 0 <= j < find_char(s, c) implies s[j] != c by {
            if j > 0 {
                assert(s[j] == s.drop_first()[j - 1]);
            }
        }
    }
}

/// A position `k` before which `c` does not occur, and at which `c` occurs or `s` ends, is the
/// one `find_char` gives.
pub proof fn lemma_find_char_at(s: Seq<char>, c: char, k: nat)
    requires
        k <= s.len(),
        k < s.len() ==> s[k as int] == c,
        forall|j: int| 0 <= j < k ==> s[j] != c,
    ensures
        find_char(s, c) == k,
{
    lemma_find_char(s, c);
    if find_char(s, c) < k {
        assert(s[find_char(s, c) as int] == c);
    }
}

/// `digit_of` reads back what `digit_char` writes.
pub proof fn lemma_digit_char(d: nat)
    requires
        d < 10,
    ensures
        digit_of(digit_char(d)) == Some(d),
{
}

/// The digits of `decimal(n)` spell `n`.
pub proof fn lemma_decimal(n: nat)
    ensures
        decimal(n).len() > 0,
        all_digits(decimal(n)),
        digits_value(decimal(n)) == n,
        decimal(n)[0] != '+',
    decreases n,
{
    lemma_digit_char(n % 10);
    if n < 10 {
        assert(decimal(n).drop_last() =~= Seq::<char>::empty());
        assert(digits_value(decimal(n)) == digits_value(Seq::<char>::empty()) * 10 + n);
    } else {
        lemma_decimal(n / 10);
        let s = decimal(n);
        assert(s.drop_last() =~= decimal(n / 10));
        assert(s.last() == digit_char(n % 10));
        assert(digits_value(s) == (n / 10) * 10 + n % 10);
        assert forall|i: int| 0 <= i < s.len() implies (#[trigger] digit_of(s[i])) is Some by {
            if i < s.len() - 1 {
                assert(s[i] == decimal(n / 10)[i]);
            }
        }
        assert(s[0] == decimal(n / 10)[0]);
    }
}

/// A decimal spelling contains no character that is not a digit.
pub proof fn lemma_decimal_has_no(n: nat, c: char)
    requires
        digit_of(c) is None,
    ensures
        forall|i: int| 0 <= i < decimal(n).len() ==> decimal(n)[i] != c,
{
    lemma_decimal(n);
}

/// A decimal spelling is a plain line without commas.
pub proof fn lemma_decimal_plain(n: nat)
    ensures
        plain_line(decimal(n)),
        forall|i: int| 0 <= i < decimal(n).len() ==> decimal(n)[i] != ',',
{
    lemma_decimal(n);
    lemma_decimal_has_no(n, '\n');
    lemma_decimal_has_no(n, '\r');
    lemma_decimal_has_no(n, ',');
}

/// `parse_unsigned` reads back what `decimal` writes.
pub proof fn lemma_parse_decimal(n: nat, max: nat)
    requires
        n <= max,
    ensures
        parse_unsigned(decimal(n), max) == Some(n),
{
    lemma_decimal(n);
}

/// Taking one more digit multiplies by ten and adds it.
proof fn lemma_digits_value_step(s: Seq<char>, k: int)
    requires
        0 <= k < s.len(),
    ensures
        digits_value(s.take(k + 1)) == digits_value(s.take(k)) * 10 + match digit_of(s[k]) {
            Some(d) => d,
            None => 0,
        },
{
    assert(s.take(k + 1).drop_last() =~= s.take(k));
}

/// A longer prefix never has a smaller value.
proof fn lemma_digits_value_prefix(s: Seq<char>, k: int)
    requires
        0 <= k <= s.len(),
    ensures
        digits_value(s.take(k)) <= digits_value(s),
    decreases s.len() - k,
{
    if k < s.len() {
        lemma_digits_value_step(s, k);
        lemma_digits_value_prefix(s, k + 1);
    } else {
        assert(s.take(k) =~= s);
    }
}

/// `lines` of a line without `\n` followed by `\n` and more text.
pub proof fn lemma_lines_cons(a: Seq<char>, rest: Seq<char>)
    requires
        forall|i: int| 0 <= i < a.len() ==> a[i] != '\n',
        a.len() == 0 || a.last() != '\r',
    ensures
        lines(a + seq!['\n'] + rest) == seq![a] + lines(rest),
{
    let s = a + seq!['\n'] + rest;
    lemma_find_char_at(s, '\n', a.len());
    assert(s.take(a.len() as int) =~= a);
    assert(s.skip(a.len() as int + 1) =~= rest);
}

/// `lines` of a single non-empty line without `\n`.
pub proof fn lemma_lines_single(a: Seq<char>)
    requires
        a.len() > 0,
        forall|i: int| 0 <= i < a.len() ==> a[i] != '\n',
    ensures
        lines(a) == seq![a],
{
    lemma_find_char_at(a, '\n', a.len());
}

/// `split_once` of `a`, the separator and `b`, where `a` has no separator.
pub proof fn lemma_split_once_at(a: Seq<char>, c: char, b: Seq<char>)
    requires
        forall|i: int| 0 <= i < a.len() ==> a[i] != c,
    ensures
        split_once(a + seq![c] + b, c) == Some((a, b)),
{
    let s = a + seq![c] + b;
    lemma_find_char_at(s, c, a.len());
    assert(s.take(a.len() as int) =~= a);
    assert(s.skip(a.len() as int + 1) =~= b);
}

/// `split_char` of `a`, the separator and `b`, where `a` has no separator.
pub proof fn lemma_split_char_cons(a: Seq<char>, c: char, b: Seq<char>)
    requires
        forall|i: int| 0 <= i < a.len() ==> a[i] != c,
    ensures
        split_char(a + seq![c] + b, c) == seq![a] + split_char(b, c),
{
    let s = a + seq![c] + b;
    lemma_find_char_at(s, c, a.len());
    assert(s.take(a.len() as int) =~= a);
    assert(s.skip(a.len() as int + 1) =~= b);
}

/// `split_char` of text without the separator is that text alone.
pub proof fn lemma_split_char_single(a: Seq<char>, c: char)
    requires
        forall|i: int| 0 <= i < a.len() ==> a[i] != c,
    ensures
        split_char(a, c) == seq![a],
{
    lemma_find_char_at(a, c, a.len());
}

/// Appending a piece to a joined text.
pub proof fn lemma_joined_push(ls: Seq<Seq<char>>, l: Seq<char>, sep: char)
    ensures
        joined(ls.push(l), sep) == joined(ls, sep) + seq![sep] + l,
    decreases ls.len(),
{
    if ls.len() == 0 {
        assert(ls.push(l).drop_first() =~= Seq::<Seq<char>>::empty());
        assert(ls.push(l)[0] == l);
        assert(joined(ls.push(l).drop_first(), sep) == Seq::<char>::empty());
        assert(joined(ls.push(l), sep) =~= joined(ls, sep) + seq![sep] + l);
    } else {
        lemma_joined_push(ls.drop_first(), l, sep);
        assert(ls.push(l).drop_first() =~= ls.drop_first().push(l));
        assert(joined(ls.push(l), sep) =~= joined(ls, sep) + seq![sep] + l);
    }
}

/// `lines` splits a first line and newline-joined plain lines back apart.
pub proof fn lemma_lines_of_joined(a: Seq<char>, ls: Seq<Seq<char>>)
    requires
        plain_line(a),
        forall|i: int| 0 <= i < ls.len() ==> plain_line(#[trigger] ls[i]),
    ensures
        lines(a + joined(ls, '\n')) == seq![a] + ls,
    decreases ls.len(),
{
    if ls.len() == 0 {
        assert(a + joined(ls, '\n') =~= a);
        lemma_lines_single(a);
        assert(seq![a] + ls =~= seq![a]);
    } else {
        let rest = ls[0] + joined(ls.drop_first(), '\n');
        assert(a + joined(ls, '\n') =~= a + seq!['\n'] + rest);
        lemma_lines_cons(a, rest);
        assert(plain_line(ls[0]));
        lemma_lines_of_joined(ls[0], ls.drop_first());
        assert(seq![a] + (seq![ls[0]] + ls.drop_first()) =~= seq![a] + ls);
    }
}

/// `split_char` splits a first field and joined fields back apart.
pub proof fn lemma_split_of_joined(a: Seq<char>, ls: Seq<Seq<char>>, c: char)
    requires
        forall|i: int| 0 <= i < a.len() ==> a[i] != c,
        forall|k: int, i: int| 0 <= k < ls.len() && 0 <= i < ls[k].len() ==> #[trigger] ls[k][i] != c,
    ensures
        split_char(a + joined(ls, c), c) == seq![a] + ls,
    decreases ls.len(),
{
    if ls.len() == 0 {
        assert(a + joined(ls, c) =~= a);
        lemma_split_char_single(a, c);
        assert(seq![a] + ls =~= seq![a]);
    } else {
        let rest = ls[0] + joined(ls.drop_first(), c);
        assert(a + joined(ls, c) =~= a + seq![c] + rest);
        lemma_split_char_cons(a, c, rest);
        assert forall|i: int| 0 <= i < ls[0].len() implies ls[0][i] != c by {
            assert(ls[0][i] != c);
        }
        assert forall|k: int, i: int| 0 <= k < ls.drop_first().len() && 0 <= i < ls.drop_first()[k].len()
            implies #[trigger] ls.drop_first()[k][i] != c by {
            assert(ls.drop_first()[k] == ls[k + 1]);
        }
        lemma_split_of_joined(ls[0], ls.drop_first(), c);
        assert(seq![a] + (seq![ls[0]] + ls.drop_first()) =~= seq![a] + ls);
    }
}

// ─── Executable helpers ──────────────────────────────────────────────────────────

/// Appends one character to `s` (`String::push`).
#[verifier::external_body]
pub(crate) fn push_char(s: &mut String, c: char)
    ensures
        final(s)@ == old(s)@.push(c),
{
    s.push(c);
}

/// The characters of `s`, in order.
pub fn chars_of(s: &str) -> (r: Vec<char>)
    ensures
        r@ == s@,
{
    let n = s.unicode_len();
    let mut r: Vec<char> = Vec::new();
    let mut i: usize = 0;
    while i < n
        invariant
            n == s@.len(),
            i <= n,
            r@ == s@.take(i as int),
        decreases n - i,
    {
        let c = s.get_char(i);
        r.push(c);
        i = i + 1;
        assert(r@ =~= s@.take(i as int));
    }
    assert(r@ =~= s@);
    r
}

/// The value of an ASCII decimal digit, or `None`.
pub fn digit_value(c: char) -> (r: Option<u64>)
    ensures
        r matches Some(d) ==> digit_of(c) == Some(d as nat) && d < 10,
        r is None <==> digit_of(c) is None,
{
    if c == '0' { Some(0) }
    else if c == '1' { Some(1) }
    else if c == '2' { Some(2) }
    else if c == '3' { Some(3) }
    else if c == '4' { Some(4) }
    else if c == '5' { Some(5) }
    else if c == '6' { Some(6) }
    else if c == '7' { Some(7) }
    else if c == '8' { Some(8) }
    else if c == '9' { Some(9) }
    else { None }
}

/// The digit character for `d < 10`.
pub fn digit_to_char(d: u64) -> (c: char)
    requires
        d < 10,
    ensures
        c == digit_char(d as nat),
{
    if d == 0 { '0' }
    else if d == 1 { '1' }
    else if d == 2 { '2' }
    else if d == 3 { '3' }
    else if d == 4 { '4' }
    else if d == 5 { '5' }
    else if d == 6 { '6' }
    else if d == 7 { '7' }
    else if d == 8 { '8' }
    else { '9' }
}

/// Appends the decimal spelling of `n` to `s`.
pub fn push_decimal(s: &mut String, n: u64)
    ensures
        final(s)@ == old(s)@ + decimal(n as nat),
    decreases n,
{
    if n >= 10 {
        push_decimal(s, n / 10);
    }
    let c = digit_to_char(n % 10);
    push_char(s, c);
    proof {
        if n >= 10 {
            assert(final(s)@ =~= old(s)@ + decimal(n as nat));
        } else {
            assert(final(s)@ =~= old(s)@ + decimal(n as nat));
        }
    }
}

/// Appends `lit` to `s`.
pub fn push_str(s: &mut String, lit: &str)
    ensures
        final(s)@ == old(s)@ + lit@,
{
    s.append(lit);
}

/// The index of the first `c` in `t[start..end]`, or `end` when there is none.
pub fn find_in(t: &Vec<char>, start: usize, end: usize, c: char) -> (r: usize)
    requires
        start <= end <= t.len(),
    ensures
        r == start + find_char(t@.subrange(start as int, end as int), c),
        start <= r <= end,
{
    let mut i = start;
    while i < end && t[i] != c
        invariant
            start <= i <= end <= t.len(),
            forall|j: int| start <= j < i ==> t@[j] != c,
        decreases end - i,
    {
        i = i + 1;
    }
    proof {
        let s = t@.subrange(start as int, end as int);
        assert forall|j: int| 0 <= j < (i - start) implies s[j] != c by {
            assert(s[j] == t@[start + j]);
        }
        if i < end {
            assert(s[(i - start) as int] == t@[i as int]);
        }
        lemma_find_char_at(s, c, (i - start) as nat);
    }
    i
}

/// Reads the line that starts at `pos`: returns where its text ends (a line break and a `\r`
/// before it are left out) and where the next line starts.
pub fn next_line(t: &Vec<char>, pos: usize) -> (r: (usize, usize))
    requires
        pos < t.len(),
    ensures
        pos <= r.0 <= r.1 <= t.len(),
        pos < r.1,
        lines(t@.skip(pos as int)) == seq![t@.subrange(pos as int, r.0 as int)] + lines(
            t@.skip(r.1 as int),
        ),
{
    let n = t.len();
    let nl = find_in(t, pos, n, '\n');
    let ghost s = t@.skip(pos as int);
    assert(t@.subrange(pos as int, n as int) =~= s);
    if nl < n {
        let mut end = nl;
        if end > pos && t[end - 1] == '\r' {
            end = end - 1;
        }
        proof {
            let i = (nl - pos) as int;
            assert(s.skip(i + 1) =~= t@.skip(nl as int + 1));
            assert(strip_cr(s.take(i)) =~= t@.subrange(pos as int, end as int));
        }
        (end, nl + 1)
    } else {
        proof {
            assert(t@.skip(n as int) =~= Seq::<char>::empty());
            assert(t@.subrange(pos as int, n as int) =~= s);
        }
        (n, n)
    }
}

/// Whether `t[start..end]` is exactly the text `lit`.
pub fn range_is(t: &Vec<char>, start: usize, end: usize, lit: &str) -> (r: bool)
    requires
        start <= end <= t.len(),
    ensures
        r == (t@.subrange(start as int, end as int) == lit@),
{
    let n = lit.unicode_len();
    if end - start != n {
        proof {
            if t@.subrange(start as int, end as int) == lit@ {
                assert(t@.subrange(start as int, end as int).len() == lit@.len());
            }
        }
        return false;
    }
    let mut i: usize = 0;
    while i < n
        invariant
            n == lit@.len(),
            end - start == n,
            start <= end <= t.len(),
            i <= n,
            forall|j: int| 0 <= j < i ==> t@[start + j] == lit@[j],
        decreases n - i,
    {
        if t[start + i] != lit.get_char(i) {
            proof {
                assert(t@.subrange(start as int, end as int)[i as int] != lit@[i as int]);
            }
            return false;
        }
        i = i + 1;
    }
    assert(t@.subrange(start as int, end as int) =~= lit@);
    true
}

/// Parses `t[start..end]` the way `str::parse` parses an unsigned integer type whose largest
/// value is `max`.
pub fn parse_uint(t: &Vec<char>, start: usize, end: usize, max: u64) -> (r: Option<u64>)
    requires
        start <= end <= t.len(),
    ensures
        r matches Some(v) ==> parse_unsigned(t@.subrange(start as int, end as int), max as nat)
            == Some(v as nat),
        r is None ==> parse_unsigned(t@.subrange(start as int, end as int), max as nat) is None,
{
    let ghost s = t@.subrange(start as int, end as int);
    let mut first = start;
    if start < end && t[start] == '+' {
        first = start + 1;
    }
    let ghost digits = t@.subrange(first as int, end as int);
    assert(digits =~= (if s.len() > 0 && s[0] == '+' { s.drop_first() } else { s }));
    if first == end {
        return None;
    }
    let mut v: u64 = 0;
    let mut i = first;
    while i < end
        invariant
            start <= first < end <= t.len(),
            first <= i <= end,
            digits == t@.subrange(first as int, end as int),
            s == t@.subrange(start as int, end as int),
            digits == (if s.len() > 0 && s[0] == '+' { s.drop_first() } else { s }),
            v as nat == digits_value(digits.take(i - first)),
            v <= max,
            forall|j: int| 0 <= j < i - first ==> (#[trigger] digit_of(digits[j])) is Some,
        decreases end - i,
    {
        let k = i - first;
        proof {
            lemma_digits_value_step(digits, k as int);
            assert(digits[k as int] == t@[i as int]);
        }
        match digit_value(t[i]) {
            None => {
                proof {
                    assert(digit_of(digits[k as int]) is None);
                }
                return None;
            },
            Some(d) => {
                if d > max || v > (max - d) / 10 {
                    proof {
                        if d <= max {
                            assert(v * 10 + d > max) by (nonlinear_arith)
                                requires
                                    v > (max - d) / 10,
                                    d <= max,
                            ;
                        }
                        lemma_digits_value_prefix(digits, k + 1);
                    }
                    return None;
                }
                proof {
                    assert(v * 10 + d <= max) by (nonlinear_arith)
                        requires
                            v <= (max - d) / 10,
                            d <= max,
                    ;
                }
                v = v * 10 + d;
                i = i + 1;
            },
        }
    }
    assert(digits.take(i - first) =~= digits);
    Some(v)
}

/// The start and end (exclusive) in `t` of each line that `lines` yields.
pub fn line_ranges(t: &Vec<char>) -> (r: Vec<(usize, usize)>)
    ensures
        r.len() == lines(t@).len(),
        forall|i: int|
            #![trigger r[i]] 0 <= i < r.len() ==> r[i].0 <= r[i].1 <= t.len() && t@.subrange(
                r[i].0 as int,
                r[i].1 as int,
            ) == lines(t@)[i],
{
    let ghost ls = lines(t@);
    let mut r: Vec<(usize, usize)> = Vec::new();
    let mut pos: usize = 0;
    assert(t@.skip(0) =~= t@);
    assert(ls.skip(0) =~= ls);
    while pos < t.len()
        invariant
            ls == lines(t@),
            pos <= t.len(),
            r.len() <= ls.len(),
            ls.skip(r.len() as int) == lines(t@.skip(pos as int)),
            forall|i: int|
                #![trigger r[i]] 0 <= i < r.len() ==> r[i].0 <= r[i].1 <= t.len() && t@.subrange(
                    r[i].0 as int,
                    r[i].1 as int,
                ) == ls[i],
        decreases t.len() - pos,
    {
        let (end, next) = next_line(t, pos);
        proof {
            let k = r.len() as int;
            assert(ls.skip(k).len() > 0);
            assert(ls.skip(k)[0] == ls[k]);
            assert(ls.skip(k + 1) =~= ls.skip(k).drop_first());
            assert(lines(t@.skip(next as int)) =~= (seq![t@.subrange(pos as int, end as int)]
                + lines(t@.skip(next as int))).drop_first());
        }
        let ghost old_r = r@;
        r.push((pos, end));
        proof {
            assert forall|i: int| #![trigger r[i]] 0 <= i < r.len() implies r[i].0 <= r[i].1 <= t.len()
                && t@.subrange(r[i].0 as int, r[i].1 as int) == ls[i] by {
                if i < old_r.len() {
                    assert(r[i] == old_r[i]);
                }
            }
        }
        pos = next;
    }
    proof {
        assert(t@.skip(pos as int) =~= Seq::<char>::empty());
        assert(ls.skip(r.len() as int).len() == 0);
    }
    r
}

/// The start and end (exclusive) in `t` of each field that `split_char` yields for
/// `t[start..end]`.
pub fn field_ranges(t: &Vec<char>, start: usize, end: usize, c: char) -> (r: Vec<(usize, usize)>)
    requires
        start <= end <= t.len(),
    ensures
        r.len() == split_char(t@.subrange(start as int, end as int), c).len(),
        forall|i: int|
            #![trigger r[i]] 0 <= i < r.len() ==> r[i].0 <= r[i].1 <= t.len() && t@.subrange(
                r[i].0 as int,
                r[i].1 as int,
            ) == split_char(t@.subrange(start as int, end as int), c)[i],
{
    let ghost fs = split_char(t@.subrange(start as int, end as int), c);
    let mut r: Vec<(usize, usize)> = Vec::new();
    let mut cur: usize = start;
    let mut done = false;
    assert(fs.skip(0) =~= fs);
    while !done
        invariant
            fs == split_char(t@.subrange(start as int, end as int), c),
            start <= cur <= end <= t.len(),
            r.len() <= fs.len(),
            done ==> r.len() == fs.len(),
            !done ==> fs.skip(r.len() as int) == split_char(t@.subrange(cur as int, end as int), c),
            forall|i: int|
                #![trigger r[i]] 0 <= i < r.len() ==> r[i].0 <= r[i].1 <= t.len() && t@.subrange(
                    r[i].0 as int,
                    r[i].1 as int,
                ) == fs[i],
        decreases end - cur + (if done { 0int } else { 1int }),
    {
        let f = find_in(t, cur, end, c);
        let ghost s = t@.subrange(cur as int, end as int);
        proof {
            let k = r.len() as int;
            let i = find_char(s, c);
            assert(fs.skip(k).len() > 0);
            assert(fs.skip(k)[0] == fs[k]);
            if i < s.len() {
                assert(s.take(i as int) =~= t@.subrange(cur as int, f as int));
                assert(s.skip(i as int + 1) =~= t@.subrange(f + 1, end as int));
                assert(fs.skip(k + 1) =~= fs.skip(k).drop_first());
                assert(split_char(t@.subrange(f + 1, end as int), c) =~= (seq![s.take(i as int)]
                    + split_char(s.skip(i as int + 1), c)).drop_first());
            } else {
                assert(s =~= t@.subrange(cur as int, f as int));
                assert(fs.skip(k).len() == 1);
            }
        }
        let ghost old_r = r@;
        r.push((cur, f));
        proof {
            assert forall|i: int| #![trigger r[i]] 0 <= i < r.len() implies r[i].0 <= r[i].1 <= t.len()
                && t@.subrange(r[i].0 as int, r[i].1 as int) == fs[i] by {
                if i < old_r.len() {
                    assert(r[i] == old_r[i]);
                }
            }
        }
        if f == end {
            done = true;
        } else {
            cur = f + 1;
        }
    }
    r
}

} // verus!
