use vstd::prelude::*;

verus! {

/// The decimal digit of `d`, for `0 <= d < 10`.
pub open spec fn digit_char(d: int) -> char {
    (d + 48) as char
}

/// An ASCII decimal digit.
pub open spec fn is_digit(c: char) -> bool {
    '0' <= c && c <= '9'
}

/// The value of a run of decimal digits, most significant first.
pub open spec fn digits_value(d: Seq<char>) -> int
    decreases d.len(),
{
    if d.len() == 0 {
        0
    } else {
        digits_value(d.drop_last()) * 10 + (d.last() as int - 48)
    }
}

/// The decimal numeral of `n`, without leading zeros ("0" for zero).
pub open spec fn decimal(n: nat) -> Seq<char>
    decreases n,
{
    if n < 10 {
        seq![digit_char(n as int)]
    } else {
        decimal(n / 10).push(digit_char((n % 10) as int))
    }
}

/// A non-empty run of digits with no leading zero, unless it is "0" itself.
pub open spec fn is_numeral(d: Seq<char>) -> bool {
    &&& d.len() >= 1
    &&& forall|i: int| 0 <= i < d.len() ==> is_digit(#[trigger] d[i])
    &&& d.len() > 1 ==> d[0] != '0'
}

pub(crate) proof fn lemma_decimal(n: nat)
    ensures
        is_numeral(decimal(n)),
        digits_value(decimal(n)) == n,
        n >= 1 ==> decimal(n)[0] != '0',
        n < 10 ==> decimal(n).len() == 1,
        n < 100 ==> decimal(n).len() <= 2,
        n < 1000 ==> decimal(n).len() <= 3,
    decreases n,
{
    let d = decimal(n);
    if n < 10 {
        assert(d.drop_last() =~= Seq::<char>::empty());
        assert(digits_value(d.drop_last()) == 0);
    } else {
        lemma_decimal(n / 10);
        let h = decimal(n / 10);
        assert(d.drop_last() =~= h);
        assert(d[0] == h[0]);
        assert forall|i: int| 0 <= i < d.len() implies is_digit(#[trigger] d[i]) by {
            if i < h.len() {
                assert(d[i] == h[i]);
            }
        }
        assert(d.last() == digit_char((n % 10) as int));
        assert(n == (n / 10) * 10 + n % 10);
    }
}

proof fn lemma_numeral_is_decimal(d: Seq<char>)
    requires
        is_numeral(d),
    ensures
        digits_value(d) >= 0,
        decimal(digits_value(d) as nat) == d,
    decreases d.len(),
{
    let v = digits_value(d);
    let h = d.drop_last();
    let k = d.last() as int - 48;
    assert(is_digit(d[d.len() - 1]));
    assert(0 <= k < 10);
    if d.len() == 1 {
        assert(h =~= Seq::<char>::empty());
        assert(digits_value(h) == 0);
        assert(v == k);
        assert(decimal(v as nat) =~= d);
    } else {
        assert(is_digit(h[0]) && h[0] == d[0]);
        assert forall|i: int| 0 <= i < h.len() implies is_digit(#[trigger] h[i]) by {
            assert(h[i] == d[i]);
        }
        if h.len() > 1 {
            assert(h[0] != '0');
        }
        lemma_numeral_is_decimal(h);
        let w = digits_value(h);
        if w == 0 {
            assert(decimal(0) =~= seq!['0']);
            assert(h[0] == '0');
        }
        assert(w >= 1);
        assert(v == w * 10 + k);
        assert(v / 10 == w && v % 10 == k) by (nonlinear_arith)
            requires
                v == w * 10 + k,
                0 <= k < 10,
        ;
        assert(decimal(v as nat) == decimal(w as nat).push(digit_char(k)));
        assert(decimal(v as nat) =~= d);
    }
}

/// The octave whose numeral is `cs[lo..]`, if there is one.
pub(crate) fn octave_in(cs: &Vec<char>, lo: usize) -> (r: Option<u8>)
    requires
        lo <= cs@.len(),
    ensures
        match r {
            Some(o) => decimal(o as nat) == cs@.subrange(lo as int, cs@.len() as int),
            None => forall|o: u8| decimal(o as nat) != cs@.subrange(lo as int, cs@.len() as int),
        },
{
    let n = cs.len();
    let ghost d = cs@.subrange(lo as int, n as int);
    // An octave has at most three digits.
    if n - lo == 0 || n - lo > 3 {
        proof {
            assert forall|o: u8| decimal(o as nat) != d by {
                lemma_decimal(o as nat);
            }
        }
        return None;
    }
    if n - lo > 1 && cs[lo] == '0' {
        proof {
            assert forall|o: u8| decimal(o as nat) != d by {
                lemma_decimal(o as nat);
                if decimal(o as nat) == d {
                    assert(d[0] == cs@[lo as int]);
                }
            }
        }
        return None;
    }
    let mut acc: u32 = 0;
    let mut i: usize = lo;
    while i < n
        invariant
            lo <= i <= n,
            n == cs@.len(),
            n - lo <= 3,
            d == cs@.subrange(lo as int, n as int),
            acc == digits_value(cs@.subrange(lo as int, i as int)),
            forall|j: int| lo <= j < i ==> is_digit(#[trigger] cs@[j]),
            i - lo <= 2 ==> acc < 100,
            i - lo <= 1 ==> acc < 10,
            i == lo ==> acc == 0,
            acc < 1000,
        decreases n - i,
    {
        let c = cs[i];
        if c < '0' || c > '9' {
            proof {
                assert forall|o: u8| decimal(o as nat) != d by {
                    lemma_decimal(o as nat);
                    if decimal(o as nat) == d {
                        assert(d[i - lo] == c);
                    }
                }
            }
            return None;
        }
        proof {
            assert(cs@.subrange(lo as int, i + 1).drop_last() =~= cs@.subrange(lo as int, i as int));
        }
        acc = acc * 10 + (c as u32 - '0' as u32);
        i = i + 1;
    }
    proof {
        assert(cs@.subrange(lo as int, i as int) =~= d);
    }
    if acc > 255 {
        proof {
            assert forall|o: u8| decimal(o as nat) != d by {
                lemma_decimal(o as nat);
            }
        }
        return None;
    }
    proof {
        assert forall|j: int| 0 <= j < d.len() implies is_digit(#[trigger] d[j]) by {
            assert(d[j] == cs@[lo + j]);
        }
        if d.len() > 1 {
            assert(d[0] == cs@[lo as int]);
        }
        lemma_numeral_is_decimal(d);
    }
    Some(acc as u8)
}

/// The one-character string of the digit `d`.
fn digit_str(d: u8) -> (r: &'static str)
    requires
        d < 10,
    ensures
        r@ == seq![digit_char(d as int)],
{
    match d {
        0 => {
            proof { reveal_strlit("0"); }
            "0"
        },
        1 => {
            proof { reveal_strlit("1"); }
            "1"
        },
        2 => {
            proof { reveal_strlit("2"); }
            "2"
        },
        3 => {
            proof { reveal_strlit("3"); }
            "3"
        },
        4 => {
            proof { reveal_strlit("4"); }
            "4"
        },
        5 => {
            proof { reveal_strlit("5"); }
            "5"
        },
        6 => {
            proof { reveal_strlit("6"); }
            "6"
        },
        7 => {
            proof { reveal_strlit("7"); }
            "7"
        },
        8 => {
            proof { reveal_strlit("8"); }
            "8"
        },
        _ => {
            proof { reveal_strlit("9"); }
            "9"
        },
    }
}

/// Appends the decimal numeral of `n`.
pub(crate) fn push_decimal(out: &mut String, n: u8)
    ensures
        final(out)@ == old(out)@ + decimal(n as nat),
{
    let ghost start = out@;
    if n >= 100 {
        out.append(digit_str(n / 100));
    }
    if n >= 10 {
        out.append(digit_str(n / 10 % 10));
    }
    out.append(digit_str(n % 10));
    proof {
        let v = n as nat;
        if n >= 100 {
            assert(v / 10 / 10 == v / 100);
            assert(decimal(v / 10 / 10) == seq![digit_char((v / 100) as int)]);
            assert(decimal(v / 10) == decimal(v / 10 / 10).push(digit_char((v / 10 % 10) as int)));
        }
        if n >= 10 {
            assert(decimal(v) == decimal(v / 10).push(digit_char((v % 10) as int)));
        }
        assert(out@ =~= start + decimal(v));
    }
}

} // verus!
