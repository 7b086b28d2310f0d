//! Decimal numerals over character sequences: the textual form of the
//! numeric ids that appear in mention tokens, together with proofs that
//! printing and parsing invert each other.

use vstd::prelude::*;

verus! {

/// The character for a single decimal digit value.
pub open spec fn digit_char(d: int) -> char {
    if d == 0 {
        '0'
    } else if d == 1 {
        '1'
    } else if d == 2 {
        '2'
    } else if d == 3 {
        '3'
    } else if d == 4 {
        '4'
    } else if d == 5 {
        '5'
    } else if d == 6 {
        '6'
    } else if d == 7 {
        '7'
    } else if d == 8 {
        '8'
    } else {
        '9'
    }
}

/// The value of a decimal digit character; 10 marks a non-digit.
pub open spec fn char_digit(c: char) -> int {
    if c == '0' {
        0
    } else if c == '1' {
        1
    } else if c == '2' {
        2
    } else if c == '3' {
        3
    } else if c == '4' {
        4
    } else if c == '5' {
        5
    } else if c == '6' {
        6
    } else if c == '7' {
        7
    } else if c == '8' {
        8
    } else if c == '9' {
        9
    } else {
        10
    }
}

pub open spec fn is_digit(c: char) -> bool {
    char_digit(c) < 10
}

pub open spec fn all_digits(s: Seq<char>) -> bool {
    forall|i: int| 0 <= i < s.len() ==> is_digit(#[trigger] s[i])
}

/// The canonical decimal numeral of a natural number (no leading zero,
/// except the single digit of zero itself).
pub open spec fn digits_of(n: nat) -> Seq<char>
    decreases n,
{
    if n < 10 {
        seq![digit_char(n as int)]
    } else {
        digits_of(n / 10).push(digit_char((n % 10) as int))
    }
}

/// The numeric value of a digit sequence.
pub open spec fn num_of(s: Seq<char>) -> nat
    decreases s.len(),
{
    if s.len() == 0 {
        0
    } else {
        num_of(s.drop_last()) * 10 + (char_digit(s.last()) as nat)
    }
}

pub proof fn lemma_digit_char_value(d: int)
    requires
        0 <= d < 10,
    ensures
        char_digit(digit_char(d)) == d,
        is_digit(digit_char(d)),
{
}

/// Printing then reading a number is the identity; the numeral is
/// nonempty, made of digits, and has no leading zero.
pub proof fn lemma_digits_of_num(n: nat)
    ensures
        num_of(digits_of(n)) == n,
        digits_of(n).len() >= 1,
        all_digits(digits_of(n)),
        n >= 10 ==> digits_of(n)[0] != '0',
        n < 10 ==> digits_of(n).len() == 1,
    decreases n,
{
    if n < 10 {
        lemma_digit_char_value(n as int);
        let s = digits_of(n);
        assert(s == seq![digit_char(n as int)]);
        assert(s.drop_last() =~= Seq::<char>::empty());
        assert(num_of(Seq::<char>::empty()) == 0);
        assert(s.last() == digit_char(n as int));
        assert(num_of(s) == num_of(s.drop_last()) * 10 + (char_digit(s.last()) as nat));
    } else {
        lemma_digits_of_num(n / 10);
        lemma_digit_char_value((n % 10) as int);
        let s = digits_of(n / 10).push(digit_char((n % 10) as int));
        assert(s.drop_last() =~= digits_of(n / 10));
        assert(s.last() == digit_char((n % 10) as int));
        assert(num_of(s) == (n / 10) * 10 + n % 10);
        assert((n / 10) * 10 + n % 10 == n) by (nonlinear_arith);
        assert(digits_of(n / 10)[0] != '0') by {
            if n / 10 < 10 {
                assert(n / 10 >= 1);
                lemma_digit_char_value((n / 10) as int);
            }
        }
        assert(s[0] == digits_of(n / 10)[0]);
    }
}

/// A nonempty all-digit sequence without a leading zero is the canonical
/// numeral of its own value.
pub proof fn lemma_num_of_canonical(s: Seq<char>)
    requires
        s.len() >= 1,
        all_digits(s),
        s.len() > 1 ==> s[0] != '0',
    ensures
        digits_of(num_of(s)) == s,
    decreases s.len(),
{
    if s.len() == 1 {
        let d = char_digit(s[0]);
        assert(s.drop_last() =~= Seq::<char>::empty());
        assert(num_of(Seq::<char>::empty()) == 0);
        assert(s.last() == s[0]);
        assert(num_of(s) == num_of(s.drop_last()) * 10 + (char_digit(s.last()) as nat));
        assert(num_of(s) == d);
        assert(digits_of(num_of(s)) =~= s);
    } else {
        let p = s.drop_last();
        let d = char_digit(s.last());
        assert(all_digits(p));
        assert(p[0] == s[0]);
        lemma_num_of_canonical(p);
        assert(num_of(p) >= 1) by {
            lemma_num_of_positive(p);
        }
        let n = num_of(s);
        assert(n == num_of(p) * 10 + d);
        assert(n >= 10 && n / 10 == num_of(p) && n % 10 == d) by (nonlinear_arith)
            requires
                n == num_of(p) * 10 + d,
                num_of(p) >= 1,
                0 <= d < 10,
        ;
        assert(digits_of(n) =~= s) by {
            assert(digits_of(n) == digits_of(num_of(p)).push(digit_char(d)));
            lemma_digit_char_inverse(s.last());
        }
    }
}

/// A digit sequence that does not start with '0' has a positive value,
/// provided it is nonempty.
pub proof fn lemma_num_of_positive(s: Seq<char>)
    requires
        s.len() >= 1,
        all_digits(s),
        s[0] != '0',
    ensures
        num_of(s) >= 1,
    decreases s.len(),
{
    if s.len() == 1 {
        assert(char_digit(s[0]) >= 1);
    } else {
        lemma_num_of_positive(s.drop_last());
        assert(num_of(s.drop_last()) * 10 >= 10) by (nonlinear_arith)
            requires
                num_of(s.drop_last()) >= 1,
        ;
    }
}

pub proof fn lemma_digit_char_inverse(c: char)
    requires
        is_digit(c),
    ensures
        digit_char(char_digit(c)) == c,
{
}

/// Prints a number as its decimal digits.
pub fn u64_to_digits(n: u64) -> (v: Vec<char>)
    ensures
        v@ == digits_of(n as nat),
    decreases n,
{
    if n < 10 {
        let c = digit_to_char((n % 10) as u8);
        let mut v: Vec<char> = Vec::new();
        v.push(c);
        proof {
            assert(v@ =~= digits_of(n as nat));
        }
        v
    } else {
        let mut v = u64_to_digits(n / 10);
        let c = digit_to_char((n % 10) as u8);
        v.push(c);
        proof {
            assert(v@ =~= digits_of(n as nat));
        }
        v
    }
}

fn digit_to_char(d: u8) -> (c: char)
    requires
        d < 10,
    ensures
        c == digit_char(d as int),
{
    if d == 0 {
        '0'
    } else if d == 1 {
        '1'
    } else if d == 2 {
        '2'
    } else if d == 3 {
        '3'
    } else if d == 4 {
        '4'
    } else if d == 5 {
        '5'
    } else if d == 6 {
        '6'
    } else if d == 7 {
        '7'
    } else if d == 8 {
        '8'
    } else {
        '9'
    }
}

/// Tests whether a character is a decimal digit.
pub fn char_is_digit(c: char) -> (r: bool)
    ensures
        r == is_digit(c),
{
    c == '0' || c == '1' || c == '2' || c == '3' || c == '4' || c == '5' || c == '6' || c == '7'
        || c == '8' || c == '9'
}

fn char_to_digit(c: char) -> (d: u8)
    requires
        is_digit(c),
    ensures
        d == char_digit(c),
{
    if c == '0' {
        0
    } else if c == '1' {
        1
    } else if c == '2' {
        2
    } else if c == '3' {
        3
    } else if c == '4' {
        4
    } else if c == '5' {
        5
    } else if c == '6' {
        6
    } else if c == '7' {
        7
    } else if c == '8' {
        8
    } else {
        9
    }
}

/// Reads the value of the digit characters in `s[from..to]`; `None` when
/// a character is not a digit or the value does not fit in a `u64`.
pub fn parse_u64(s: &Vec<char>, from: usize, to: usize) -> (r: Option<u64>)
    requires
        from <= to <= s@.len(),
    ensures
        match r {
            Some(n) => all_digits(s@.subrange(from as int, to as int)) && n as nat == num_of(
                s@.subrange(from as int, to as int),
            ),
            None => !all_digits(s@.subrange(from as int, to as int)) || num_of(
                s@.subrange(from as int, to as int),
            ) > u64::MAX,
        },
{
    let mut acc: u64 = 0;
    let mut i: usize = from;
    while i < to
        invariant
            from <= i <= to <= s@.len(),
            all_digits(s@.subrange(from as int, i as int)),
            acc as nat == num_of(s@.subrange(from as int, i as int)),
        decreases to - i,
    {
        let c = s[i];
        if !char_is_digit(c) {
            proof {
                let full = s@.subrange(from as int, to as int);
                assert(full[i - from] == c);
                assert(!all_digits(full));
            }
            return None;
        }
        let d = char_to_digit(c);
        let next = match acc.checked_mul(10) {
            Some(t) => t.checked_add(d as u64),
            None => None,
        };
        proof {
            let p = s@.subrange(from as int, i as int);
            let q = s@.subrange(from as int, i + 1 as int);
            assert(q.drop_last() =~= p);
            assert(q.last() == c);
        }
        match next {
            Some(t) => {
                acc = t;
            },
            None => {
                proof {
                    let q = s@.subrange(from as int, i + 1 as int);
                    assert(num_of(q) > u64::MAX);
                    lemma_num_of_prefix_le(s@.subrange(from as int, to as int), q.len() as int);
                    assert(s@.subrange(from as int, to as int).subrange(0, q.len() as int) =~= q);
                }
                return None;
            },
        }
        i = i + 1;
    }
    proof {
        assert(s@.subrange(from as int, i as int) =~= s@.subrange(from as int, to as int));
    }
    Some(acc)
}

/// The length of the run of digit characters in `s` starting at `from`.
pub open spec fn digit_run(s: Seq<char>, from: int) -> int
    decreases s.len() - from,
{
    if from < 0 || from >= s.len() || !is_digit(s[from]) {
        0
    } else {
        1 + digit_run(s, from + 1)
    }
}

/// A digit run is exactly the digits laid down, when a non-digit (or the
/// end) follows them.
pub proof fn lemma_digit_run_exact(s: Seq<char>, from: int, m: int)
    requires
        0 <= from,
        from + m <= s.len(),
        0 <= m,
        forall|i: int| from <= i < from + m ==> is_digit(#[trigger] s[i]),
        from + m < s.len() ==> !is_digit(s[from + m]),
    ensures
        digit_run(s, from) == m,
    decreases m,
{
    if m == 0 {
    } else {
        lemma_digit_run_exact(s, from + 1, m - 1);
    }
}

/// Every character inside a digit run is a digit, and the run is
/// maximal.
pub proof fn lemma_digit_run_digits(s: Seq<char>, from: int)
    requires
        0 <= from <= s.len(),
    ensures
        from + digit_run(s, from) <= s.len(),
        forall|j: int| from <= j < from + digit_run(s, from) ==> is_digit(#[trigger] s[j]),
        from + digit_run(s, from) < s.len() ==> !is_digit(s[from + digit_run(s, from)]),
    decreases s.len() - from,
{
    if from < s.len() && is_digit(s[from]) {
        lemma_digit_run_digits(s, from + 1);
    }
}

/// Measures the run of digit characters starting at `from`.
pub fn scan_digit_run(v: &Vec<char>, from: usize) -> (k: usize)
    requires
        from <= v@.len(),
    ensures
        k == digit_run(v@, from as int),
        from + k <= v@.len(),
        forall|j: int| from <= j < from + k ==> is_digit(#[trigger] v@[j]),
        from + k < v@.len() ==> !is_digit(v@[from + k]),
{
    let mut i: usize = from;
    loop
        invariant
            from <= i <= v@.len(),
            forall|j: int| from <= j < i ==> is_digit(#[trigger] v@[j]),
        ensures
            from <= i <= v@.len(),
            i == v@.len() || !is_digit(v@[i as int]),
            forall|j: int| from <= j < i ==> is_digit(#[trigger] v@[j]),
        decreases v@.len() - i,
    {
        if i >= v.len() {
            break ;
        }
        if !char_is_digit(v[i]) {
            break ;
        }
        i = i + 1;
    }
    proof {
        lemma_digit_run_exact(v@, from as int, i - from);
    }
    i - from
}

/// The value of a digit sequence is at least the value of any prefix.
pub proof fn lemma_num_of_prefix_le(s: Seq<char>, k: int)
    requires
        0 <= k <= s.len(),
    ensures
        num_of(s.subrange(0, k)) <= num_of(s),
    decreases s.len() - k,
{
    if k == s.len() {
        assert(s.subrange(0, k) =~= s);
    } else {
        lemma_num_of_prefix_le(s, k + 1);
        let p = s.subrange(0, k);
        let q = s.subrange(0, k + 1);
        assert(q.drop_last() =~= p);
        assert(num_of(q) == num_of(p) * 10 + char_digit(q.last()));
        assert(num_of(p) * 10 >= num_of(p)) by (nonlinear_arith)
            requires
                num_of(p) >= 0,
        ;
        assert(char_digit(q.last()) >= 0);
    }
}

} // verus!
