//! Decimal text of integers, as `{}` and `{:0N}` print them.
use vstd::prelude::*;

verus! {

pub open spec fn digit_char(d: int) -> char {
    if d == 0 {
        '0'
    } else if d == 1 {
        '1'
    } else if d == 2 {
        '2'
    } else if d == 3 {
        '3'
    } else if d == 4 {
        '4'
    } else if d == 5 {
        '5'
    } else if d == 6 {
        '6'
    } else if d == 7 {
        '7'
    } else if d == 8 {
        '8'
    } else {
        '9'
    }
}

/// Decimal digits of a natural number, most significant first, no leading zeros.
pub open spec fn digits(n: nat) -> Seq<char>
    decreases n,
{
    if n < 10 {
        seq![digit_char(n as int)]
    } else {
        digits(n / 10) + seq![digit_char((n % 10) as int)]
    }
}

/// `n` zeros.
pub open spec fn zeros(n: int) -> Seq<char>
    decreases n,
{
    if n <= 0 {
        Seq::empty()
    } else {
        zeros(n - 1).push('0')
    }
}

/// Decimal text of an integer: a minus sign before negative numbers.
pub open spec fn decimal(n: int) -> Seq<char> {
    if n < 0 {
        seq!['-'] + digits((-n) as nat)
    } else {
        digits(n as nat)
    }
}

/// Decimal text padded with zeros after the sign to at least `width` characters.
pub open spec fn zero_padded(n: int, width: int) -> Seq<char> {
    if n < 0 {
        let d = digits((-n) as nat);
        seq!['-'] + zeros(width - 1 - d.len()) + d
    } else {
        let d = digits(n as nat);
        zeros(width - d.len()) + d
    }
}

pub proof fn lemma_digits_len(n: nat)
    ensures
        1 <= digits(n).len() <= 1 + n / 10,
    decreases n,
{
    if n >= 10 {
        lemma_digits_len(n / 10);
    }
}

fn digit_str(d: u64) -> (s: &'static str)
    requires
        d < 10,
    ensures
        s@ == seq![digit_char(d as int)],
{
    proof {
        reveal_strlit("0");
        reveal_strlit("1");
        reveal_strlit("2");
        reveal_strlit("3");
        reveal_strlit("4");
        reveal_strlit("5");
        reveal_strlit("6");
        reveal_strlit("7");
        reveal_strlit("8");
        reveal_strlit("9");
    }
    match d {
        0 => "0",
        1 => "1",
        2 => "2",
        3 => "3",
        4 => "4",
        5 => "5",
        6 => "6",
        7 => "7",
        8 => "8",
        _ => "9",
    }
}

/// Appends the digits of `n`.
pub fn push_digits(s: &mut String, n: u64)
    ensures
        final(s)@ == old(s)@ + digits(n as nat),
    decreases n,
{
    if n >= 10 {
        push_digits(s, n / 10);
    }
    s.append(digit_str(n % 10));
    proof {
        if n < 10 {
            assert(n % 10 == n);
        }
    }
}

/// Appends the decimal text of `n`.
pub fn push_decimal(s: &mut String, n: i64)
    ensures
        final(s)@ == old(s)@ + decimal(n as int),
{
    if n < 0 {
        proof {
            reveal_strlit("-");
        }
        s.append("-");
        let m: u64 = if n == i64::MIN {
            9_223_372_036_854_775_808u64
        } else {
            (-n) as u64
        };
        push_digits(s, m);
    } else {
        push_digits(s, n as u64);
    }
}

/// Appends `n` zeros.
fn push_zeros(s: &mut String, n: u64)
    ensures
        final(s)@ == old(s)@ + zeros(n as int),
{
    proof {
        reveal_strlit("0");
    }
    let mut i: u64 = 0;
    while i < n
        invariant
            i <= n,
            s@ == old(s)@ + zeros(i as int),
        decreases n - i,
    {
        proof {
            reveal_strlit("0");
        }
        let ghost before = s@;
        s.append("0");
        assert(s@ =~= old(s)@ + zeros(i + 1));
        i += 1;
    }
}

/// Length of the decimal digits of `n`.
fn digit_count(n: u64) -> (c: u64)
    ensures
        c as int == digits(n as nat).len(),
    decreases n,
{
    if n < 10 {
        1
    } else {
        proof {
            lemma_digits_len(n as nat / 10);
        }
        digit_count(n / 10) + 1
    }
}

/// Appends the decimal text of `n`, zero-padded after the sign to `width` characters.
pub fn push_zero_padded(s: &mut String, n: i64, width: u64)
    requires
        width <= 32,
    ensures
        final(s)@ == old(s)@ + zero_padded(n as int, width as int),
{
    let neg = n < 0;
    let m: u64 = if n == i64::MIN {
        9_223_372_036_854_775_808u64
    } else if neg {
        (-n) as u64
    } else {
        n as u64
    };
    let c = digit_count(m);
    if neg {
        proof {
            reveal_strlit("-");
        }
        s.append("-");
        if width >= 1 && width - 1 > c {
            push_zeros(s, width - 1 - c);
        } else {
            assert(zeros(width - 1 - c) == Seq::<char>::empty());
        }
    } else {
        if width > c {
            push_zeros(s, width - c);
        } else {
            assert(zeros(width - c) == Seq::<char>::empty());
        }
    }
    push_digits(s, m);
    assert(s@ =~= old(s)@ + zero_padded(n as int, width as int));
}

} // verus!
