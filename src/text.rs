use vstd::prelude::*;

verus! {

/// The characters of a string, in order.
pub fn chars_of(s: &str) -> (v: Vec<char>)
    ensures
        v@ == s@,
{
    let mut v: Vec<char> = Vec::new();
    for c in it: s.chars()
        invariant
            it.seq() == s@,
            v@ == it.seq().take(it.index() as int),
    {
        v.push(c);
    }
    assert(v@ =~= s@);
    v
}

pub open spec fn is_digit(c: char) -> bool {
    '0' <= c && c <= '9'
}

pub open spec fn digit_value(c: char) -> int {
    (c as u32) as int - ('0' as u32) as int
}

pub open spec fn all_digits(s: Seq<char>) -> bool {
    forall|i: int| 0 <= i < s.len() ==> is_digit(#[trigger] s[i])
}

/// The value of a string of decimal digits.
pub open spec fn numeral_value(s: Seq<char>) -> int
    decreases s.len(),
{
    if s.len() == 0 {
        0
    } else {
        numeral_value(s.drop_last()) * 10 + digit_value(s.last())
    }
}

/// A string of one or more decimal digits whose value fits an `i64`.
pub open spec fn is_integer_text(s: Seq<char>) -> bool {
    s.len() > 0 && all_digits(s) && numeral_value(s) <= i64::MAX
}

/// Digits, one point, digits: the text of a float literal.
pub open spec fn is_decimal_text(s: Seq<char>) -> bool {
    exists|k: int|
        0 < k < s.len() - 1 && s[k] == '.' && forall|i: int|
            0 <= i < s.len() && i != k ==> is_digit(#[trigger] s[i])
}

proof fn lemma_numeral_grows(s: Seq<char>, i: int, j: int)
    requires
        0 <= i <= j <= s.len(),
        all_digits(s),
    ensures
        numeral_value(s.take(i)) <= numeral_value(s.take(j)),
        0 <= numeral_value(s.take(i)),
    decreases j,
{
    if j > 0 {
        assert(s.take(j).drop_last() =~= s.take(j - 1));
        if i < j {
            lemma_numeral_grows(s, i, j - 1);
        } else {
            lemma_numeral_grows(s, i - 1, j - 1);
            assert(s.take(i).drop_last() =~= s.take(i - 1));
        }
    }
}

/// Reads a decimal integer; `None` unless the text is digits whose value
/// fits an `i64`.
pub fn parse_integer(s: &str) -> (r: Option<i64>)
    ensures
        r == (if is_integer_text(s@) {
            Some(numeral_value(s@) as i64)
        } else {
            None
        }),
{
    let c = chars_of(s);
    if c.len() == 0 {
        return None;
    }
    let mut i: usize = 0;
    while i < c.len()
        invariant
            c@ == s@,
            i <= c.len(),
            forall|j: int| 0 <= j < i ==> is_digit(#[trigger] c@[j]),
        decreases c.len() - i,
    {
        if !('0' <= c[i] && c[i] <= '9') {
            return None;
        }
        i = i + 1;
    }
    let mut value: i64 = 0;
    let mut i: usize = 0;
    while i < c.len()
        invariant
            c@ == s@,
            all_digits(c@),
            i <= c.len(),
            value as int == numeral_value(c@.take(i as int)),
        decreases c.len() - i,
    {
        proof {
            assert(c@.take(i + 1).drop_last() =~= c@.take(i as int));
            lemma_numeral_grows(c@, i as int, i as int);
        }
        let d = (c[i] as u32 - '0' as u32) as i64;
        let next = match value.checked_mul(10) {
            Some(v) => v.checked_add(d),
            None => None,
        };
        match next {
            Some(v) => {
                value = v;
            },
            None => {
                proof {
                    lemma_numeral_grows(c@, i + 1, c@.len() as int);
                    assert(c@.take(c@.len() as int) =~= c@);
                }
                return None;
            },
        }
        i = i + 1;
    }
    assert(c@.take(c@.len() as int) =~= c@);
    Some(value)
}

/// Whether the text is digits, one point, digits.
pub fn is_decimal(s: &str) -> (b: bool)
    ensures
        b == is_decimal_text(s@),
{
    let c = chars_of(s);
    let n = c.len();
    let mut dot: Option<usize> = None;
    let mut i: usize = 0;
    while i < n
        invariant
            c@ == s@,
            n == c.len(),
            i <= n,
            match dot {
                Some(k) => 0 < k < n - 1 && k < i && c@[k as int] == '.' && forall|j: int|
                    0 <= j < i && j != k ==> is_digit(#[trigger] c@[j]),
                None => forall|j: int| 0 <= j < i ==> is_digit(#[trigger] c@[j]),
            },
        decreases n - i,
    {
        let ch = c[i];
        if ch == '.' {
            if dot.is_some() || i == 0 || i + 1 == n {
                proof {
                    if is_decimal_text(s@) {
                        let k = choose|k: int|
                            0 < k < s@.len() - 1 && s@[k] == '.' && forall|j: int|
                                0 <= j < s@.len() && j != k ==> is_digit(#[trigger] s@[j]);
                        if k != i {
                            assert(is_digit(s@[i as int]));
                        }
                        match dot {
                            Some(k2) => {
                                assert(is_digit(s@[k2 as int]));
                            },
                            None => {},
                        }
                    }
                }
                return false;
            }
            dot = Some(i);
        } else if !('0' <= ch && ch <= '9') {
            proof {
                if is_decimal_text(s@) {
                    let k = choose|k: int|
                        0 < k < s@.len() - 1 && s@[k] == '.' && forall|j: int|
                            0 <= j < s@.len() && j != k ==> is_digit(#[trigger] s@[j]);
                    assert(k != i);
                    assert(is_digit(s@[i as int]));
                }
            }
            return false;
        }
        i = i + 1;
    }
    match dot {
        Some(k) => {
            assert(0 < k < s@.len() - 1 && s@[k as int] == '.' && forall|j: int|
                0 <= j < s@.len() && j != k ==> is_digit(#[trigger] s@[j]));
            true
        },
        None => {
            proof {
                if is_decimal_text(s@) {
                    let k = choose|k: int|
                        0 < k < s@.len() - 1 && s@[k] == '.' && forall|j: int|
                            0 <= j < s@.len() && j != k ==> is_digit(#[trigger] s@[j]);
                    assert(is_digit(s@[k]));
                }
            }
            false
        },
    }
}

} // verus!
