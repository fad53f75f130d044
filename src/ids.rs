//! Job identifiers: the decimal form of a natural number.
use vstd::prelude::*;

verus! {

/// The character of the decimal digit `d`.
pub open spec fn digit_char(d: nat) -> char {
    if d == 0 {
        '0'
    } else if d == 1 {
        '1'
    } else if d == 2 {
        '2'
    } else if d == 3 {
        '3'
    } else if d == 4 {
        '4'
    } else if d == 5 {
        '5'
    } else if d == 6 {
        '6'
    } else if d == 7 {
        '7'
    } else if d == 8 {
        '8'
    } else {
        '9'
    }
}

/// The value of the digit character `c`, when it is one.
pub open spec fn digit_value(c: char) -> Option<nat> {
    if c == '0' {
        Some(0)
    } else if c == '1' {
        Some(1)
    } else if c == '2' {
        Some(2)
    } else if c == '3' {
        Some(3)
    } else if c == '4' {
        Some(4)
    } else if c == '5' {
        Some(5)
    } else if c == '6' {
        Some(6)
    } else if c == '7' {
        Some(7)
    } else if c == '8' {
        Some(8)
    } else if c == '9' {
        Some(9)
    } else {
        None
    }
}

/// `n` written in decimal, without leading zeros.
pub open spec fn decimal(n: nat) -> Seq<char>
    decreases n,
{
    if n < 10 {
        seq![digit_char(n)]
    } else {
        decimal(n / 10).push(digit_char(n % 10))
    }
}

/// Every character of `s` is a decimal digit.
pub open spec fn all_digits(s: Seq<char>) -> bool {
    forall|i: int| 0 <= i < s.len() ==> (#[trigger] digit_value(s[i])) is Some
}

/// The number that the digits `s` spell, most significant first.
pub open spec fn digits_value(s: Seq<char>) -> nat
    decreases s.len(),
{
    if s.len() == 0 {
        0
    } else {
        digits_value(s.drop_last()) * 10 + digit_value(s.last()).unwrap_or(0)
    }
}

/// `s` is a number in the form that `decimal` writes: digits only, at least
/// one, and no leading zero unless the number is zero itself.
pub open spec fn canonical(s: Seq<char>) -> bool {
    &&& s.len() > 0
    &&& all_digits(s)
    &&& (s.len() == 1 || s[0] != '0')
}

/// The number whose decimal form is `s`, if there is one.
pub open spec fn id_number(s: Seq<char>) -> Option<nat> {
    if canonical(s) {
        Some(digits_value(s))
    } else {
        None
    }
}

proof fn lemma_digit_round_trip(d: nat)
    requires
        d < 10,
    ensures
        digit_value(digit_char(d)) == Some(d),
{
}

proof fn lemma_decimal_canonical(n: nat)
    ensures
        canonical(decimal(n)),
        digits_value(decimal(n)) == n,
        n > 0 ==> decimal(n)[0] != '0',
    decreases n,
{
    if n < 10 {
        lemma_digit_round_trip(n);
        let s = decimal(n);
        assert(s.drop_last() =~= Seq::<char>::empty());
        assert(digits_value(Seq::<char>::empty()) == 0);
        assert(digits_value(s) == n);
    } else {
        lemma_decimal_canonical(n / 10);
        lemma_digit_round_trip(n % 10);
        let p = decimal(n / 10);
        let s = decimal(n);
        assert(s.drop_last() =~= p);
        assert(s.last() == digit_char(n % 10));
        assert(digits_value(s) == (n / 10) * 10 + n % 10);
        assert(s[0] == p[0]);
        assert forall|i: int| 0 <= i < s.len() implies (#[trigger] digit_value(s[i])) is Some by {
            if i < p.len() {
                assert(s[i] == p[i]);
                assert(digit_value(p[i]) is Some);
            }
        }
    }
}

proof fn lemma_canonical_decimal(s: Seq<char>)
    requires
        canonical(s),
    ensures
        decimal(digits_value(s)) == s,
        s.len() > 1 ==> digits_value(s) >= 10,
    decreases s.len(),
{
    let d = digit_value(s.last()).unwrap();
    assert(digit_value(s[s.len() - 1]) is Some);
    assert(digit_char(d) == s.last());
    if s.len() == 1 {
        assert(s.drop_last() =~= Seq::<char>::empty());
        assert(digits_value(Seq::<char>::empty()) == 0);
        assert(digits_value(s) == d);
        assert(decimal(d) =~= s);
    } else {
        let p = s.drop_last();
        assert(p[0] == s[0]);
        assert forall|i: int| 0 <= i < p.len() implies (#[trigger] digit_value(p[i])) is Some by {
            assert(p[i] == s[i]);
            assert(digit_value(s[i]) is Some);
        }
        lemma_canonical_decimal(p);
        let v = digits_value(p);
        if v == 0 {
            lemma_decimal_canonical(0);
            assert(decimal(0) == p);
            assert(p.len() == 1);
            assert(p[0] == '0');
            assert(false);
        }
        assert((v * 10 + d) / 10 == v);
        assert((v * 10 + d) % 10 == d);
        assert(digits_value(s) == v * 10 + d);
        assert(decimal(v * 10 + d) == p.push(digit_char(d)));
        assert(p.push(s.last()) =~= s);
    }
}

proof fn lemma_prefix_value_le(s: Seq<char>, j: int)
    requires
        0 <= j <= s.len(),
    ensures
        digits_value(s.subrange(0, j)) <= digits_value(s),
    decreases s.len(),
{
    if j < s.len() {
        let p = s.drop_last();
        assert(p.subrange(0, j) =~= s.subrange(0, j));
        lemma_prefix_value_le(p, j);
    } else {
        assert(s.subrange(0, j) =~= s);
    }
}

/// Distinct numbers have distinct decimal forms, and reading a decimal form
/// back gives the number it was written from.
pub proof fn lemma_decimal_injective(a: nat, b: nat)
    ensures
        id_number(decimal(a)) == Some(a),
        a != b ==> decimal(a) != decimal(b),
{
    lemma_decimal_canonical(a);
    lemma_decimal_canonical(b);
}

/// A string is the decimal form of `n` exactly when it reads back as `n`.
pub proof fn lemma_id_number_decimal(s: Seq<char>, n: nat)
    ensures
        (id_number(s) == Some(n)) <==> (decimal(n) == s),
{
    lemma_decimal_canonical(n);
    if canonical(s) {
        lemma_canonical_decimal(s);
    }
}

fn digit_str(d: u64) -> (r: &'static str)
    requires
        d < 10,
    ensures
        r@ == seq![digit_char(d as nat)],
{
    proof {
        reveal_strlit("0");
        reveal_strlit("1");
        reveal_strlit("2");
        reveal_strlit("3");
        reveal_strlit("4");
        reveal_strlit("5");
        reveal_strlit("6");
        reveal_strlit("7");
        reveal_strlit("8");
        reveal_strlit("9");
    }
    if d == 0 {
        "0"
    } else if d == 1 {
        "1"
    } else if d == 2 {
        "2"
    } else if d == 3 {
        "3"
    } else if d == 4 {
        "4"
    } else if d == 5 {
        "5"
    } else if d == 6 {
        "6"
    } else if d == 7 {
        "7"
    } else if d == 8 {
        "8"
    } else {
        "9"
    }
}

fn char_digit(c: char) -> (r: Option<u64>)
    ensures
        match digit_value(c) {
            Some(v) => r == Some(v as u64),
            None => r is None,
        },
{
    match c {
        '0' => Some(0),
        '1' => Some(1),
        '2' => Some(2),
        '3' => Some(3),
        '4' => Some(4),
        '5' => Some(5),
        '6' => Some(6),
        '7' => Some(7),
        '8' => Some(8),
        '9' => Some(9),
        _ => None,
    }
}

/// The decimal form of `n`.
pub fn render_id(n: u64) -> (r: String)
    ensures
        r@ == decimal(n as nat),
{
    let mut m: u64 = n / 10;
    let mut acc = String::from_str(digit_str(n % 10));
    while m > 0
        invariant
            m == 0 ==> acc@ == decimal(n as nat),
            m > 0 ==> decimal(m as nat) + acc@ == decimal(n as nat),
        decreases m,
    {
        let ghost before = acc@;
        acc = String::from_str(digit_str(m % 10)).concat(acc.as_str());
        proof {
            if m < 10 {
                assert(decimal(m as nat) =~= seq![digit_char(m as nat)]);
            } else {
                let q = decimal((m / 10) as nat);
                assert(decimal(m as nat) == q.push(digit_char((m % 10) as nat)));
                assert(q + acc@ =~= q.push(digit_char((m % 10) as nat)) + before);
            }
        }
        m = m / 10;
    }
    acc
}

/// The number whose decimal form is `s`, when it fits in a `u64`.
pub fn parse_id(s: &str) -> (r: Option<u64>)
    ensures
        r is Some <==> (id_number(s@) is Some && id_number(s@).unwrap() <= u64::MAX),
        r is Some ==> r.unwrap() as nat == id_number(s@).unwrap(),
{
    let len = s.unicode_len();
    if len == 0 {
        return None;
    }
    if len > 1 && s.get_char(0) == '0' {
        return None;
    }
    let mut acc: u64 = 0;
    let mut i: usize = 0;
    while i < len
        invariant
            len == s@.len(),
            0 <= i <= len,
            all_digits(s@.subrange(0, i as int)),
            acc as nat == digits_value(s@.subrange(0, i as int)),
            len > 1 ==> s@[0] != '0',
        decreases len - i,
    {
        let c = s.get_char(i);
        let ghost next = s@.subrange(0, i + 1);
        proof {
            assert(next.drop_last() =~= s@.subrange(0, i as int));
            assert(next.last() == c);
        }
        let d = match char_digit(c) {
            Some(d) => d,
            None => {
                assert(!all_digits(s@)) by {
                    assert(digit_value(s@[i as int]) is None);
                }
                return None;
            },
        };
        if acc > (u64::MAX - d) / 10 {
            proof {
                assert(acc * 10 + d > u64::MAX) by (nonlinear_arith)
                    requires
                        acc > (u64::MAX - d) / 10,
                        d < 10,
                ;
                lemma_prefix_value_le(s@, i + 1);
            }
            return None;
        }
        acc = acc * 10 + d;
        proof {
            assert forall|k: int| 0 <= k < next.len() implies (#[trigger] digit_value(next[k])) is Some by {
                if k < i {
                    assert(next[k] == s@.subrange(0, i as int)[k]);
                }
            }
        }
        i = i + 1;
    }
    assert(s@.subrange(0, len as int) =~= s@);
    Some(acc)
}

} // verus!
