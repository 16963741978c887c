//! Decimal text for integers: printing and parsing, with exact
//! specifications.

use vstd::prelude::*;

verus! {

/// The decimal digit character for a value below ten.
pub open spec fn dec_digit(n: int) -> char {
    if n == 0 {
        '0'
    } else if n == 1 {
        '1'
    } else if n == 2 {
        '2'
    } else if n == 3 {
        '3'
    } else if n == 4 {
        '4'
    } else if n == 5 {
        '5'
    } else if n == 6 {
        '6'
    } else if n == 7 {
        '7'
    } else if n == 8 {
        '8'
    } else {
        '9'
    }
}

/// The decimal text of a natural number, without leading zeros.
pub open spec fn nat_str(n: nat) -> Seq<char>
    decreases n,
{
    if n < 10 {
        seq![dec_digit(n as int)]
    } else {
        nat_str(n / 10) + seq![dec_digit((n % 10) as int)]
    }
}

/// The decimal text of an integer: a minus sign for negative values.
pub open spec fn int_str(i: int) -> Seq<char> {
    if i < 0 {
        seq!['-'] + nat_str((-i) as nat)
    } else {
        nat_str(i as nat)
    }
}

/// Print a natural number in decimal.
pub fn u64_to_dec(n: u64) -> (r: Vec<char>)
    ensures
        r@ == nat_str(n as nat),
{
    let mut digits: Vec<char> = Vec::new();
    let mut m: u64 = n;
    loop
        invariant
            nat_str(n as nat) == nat_str(m as nat) + digits@,
        decreases m,
    {
        let ghost pre = digits@;
        let d = m % 10;
        let c = dec_digit_exec(d);
        digits.insert(0, c);
        proof {
            assert(digits@ =~= seq![dec_digit(d as int)] + pre);
        }
        m = m / 10;
        if m == 0 {
            proof {
                assert(nat_str(n as nat) =~= digits@) by {
                    if (n as nat) < 10 {
                        assert(pre =~= Seq::<char>::empty());
                        assert(nat_str(n as nat) =~= seq![dec_digit(n as int)] + pre);
                    }
                }
            }
            return digits;
        }
        proof {
            assert(nat_str(m as nat * 10 + d as nat) == nat_str(m as nat) + seq![
                dec_digit(d as int),
            ]) by {
                let big: nat = m as nat * 10 + d as nat;
                assert(big >= 10);
                assert(big / 10 == m as nat) by (nonlinear_arith)
                    requires
                        d < 10,
                        big == m as nat * 10 + d as nat,
                {
                }
                assert(big % 10 == d as nat) by (nonlinear_arith)
                    requires
                        d < 10,
                        big == m as nat * 10 + d as nat,
                {
                }
            }
            assert((nat_str(m as nat) + seq![dec_digit(d as int)]) + pre =~= nat_str(m as nat)
                + digits@);
        }
    }
}

fn dec_digit_exec(d: u64) -> (c: char)
    requires
        d < 10,
    ensures
        c == dec_digit(d as int),
{
    if d == 0 {
        '0'
    } else if d == 1 {
        '1'
    } else if d == 2 {
        '2'
    } else if d == 3 {
        '3'
    } else if d == 4 {
        '4'
    } else if d == 5 {
        '5'
    } else if d == 6 {
        '6'
    } else if d == 7 {
        '7'
    } else if d == 8 {
        '8'
    } else {
        '9'
    }
}

/// Print a signed integer in decimal.
pub fn i64_to_dec(n: i64) -> (r: Vec<char>)
    ensures
        r@ == int_str(n as int),
{
    if n >= 0 {
        u64_to_dec(n as u64)
    } else {
        let mag: u64 = ((-(n + 1)) as u64) + 1;
        proof {
            assert(mag as int == -(n as int));
        }
        let mut out: Vec<char> = Vec::new();
        out.push('-');
        let mut digits = u64_to_dec(mag);
        let ghost pre = out@;
        out.append(&mut digits);
        proof {
            assert(out@ =~= seq!['-'] + nat_str(mag as nat));
        }
        out
    }
}

/// The numeric value of a sequence of decimal digit characters.
pub open spec fn is_dec_digit(c: char) -> bool {
    '0' <= c && c <= '9'
}

pub open spec fn digit_val(c: char) -> int {
    c as int - '0' as int
}

pub open spec fn dec_val(s: Seq<char>) -> int
    decreases s.len(),
{
    if s.len() == 0 {
        0
    } else {
        dec_val(s.drop_last()) * 10 + digit_val(s.last())
    }
}

/// Parse a non-empty all-digit sequence as an unsigned value; `None` when a
/// non-digit occurs, the sequence is empty, or the value exceeds `u64::MAX`.
pub fn parse_u64(s: &Vec<char>) -> (r: Option<u64>)
    ensures
        match r {
            Some(v) => {
                &&& s@.len() > 0
                &&& forall|i: int| 0 <= i < s@.len() ==> is_dec_digit(#[trigger] s@[i])
                &&& v as int == dec_val(s@)
            },
            None => s@.len() == 0 || (exists|i: int|
                0 <= i < s@.len() && !is_dec_digit(#[trigger] s@[i])) || dec_val(s@)
                > u64::MAX as int,
        },
{
    if s.len() == 0 {
        return None;
    }
    let mut acc: u64 = 0;
    let mut i: usize = 0;
    while i < s.len()
        invariant
            i <= s@.len(),
            forall|j: int| 0 <= j < i ==> is_dec_digit(#[trigger] s@[j]),
            acc as int == dec_val(s@.take(i as int)),
            dec_val(s@.take(i as int)) <= u64::MAX as int,
        decreases s@.len() - i,
    {
        let c = s[i];
        if !('0' <= c && c <= '9') {
            return None;
        }
        let d: u64 = (c as u32 as u64) - ('0' as u32 as u64);
        proof {
            assert(s@.take(i + 1).drop_last() =~= s@.take(i as int));
            assert(s@.take(i + 1).last() == s@[i as int]);
        }
        if acc > (u64::MAX - d) / 10 {
            proof {
                assert(dec_val(s@.take(i + 1)) == acc as int * 10 + d);
                assert(acc as int * 10 + d > u64::MAX as int) by (nonlinear_arith)
                    requires
                        acc as int > (u64::MAX as int - d) / 10,
                        0 <= d < 10,
                        0 <= acc as int <= u64::MAX as int,
                {
                }
                if forall|j: int| 0 <= j < s@.len() ==> is_dec_digit(#[trigger] s@[j]) {
                    lemma_dec_val_monotone(s@.take(i + 1), s@);
                }
            }
            return None;
        }
        proof {
            assert(acc as int * 10 + d <= u64::MAX as int) by (nonlinear_arith)
                requires
                    acc as int <= (u64::MAX as int - d) / 10,
                    0 <= d < 10,
                    0 <= acc as int,
            {
            }
        }
        acc = acc * 10 + d;
        i = i + 1;
    }
    proof {
        assert(s@.take(i as int) =~= s@);
    }
    Some(acc)
}

/// A longer digit string never has a smaller value.
proof fn lemma_dec_val_monotone(p: Seq<char>, s: Seq<char>)
    requires
        p.len() <= s.len(),
        forall|i: int| 0 <= i < p.len() ==> p[i] == s[i],
        forall|i: int| 0 <= i < s.len() ==> is_dec_digit(#[trigger] s[i]),
        p =~= s.take(p.len() as int),
    ensures
        dec_val(p) <= dec_val(s),
    decreases s.len() - p.len(),
{
    if p.len() < s.len() {
        let q = s.take(p.len() as int + 1);
        assert(q.drop_last() =~= p);
        assert(is_dec_digit(q.last()));
        assert(dec_val(q) == dec_val(p) * 10 + digit_val(q.last()));
        lemma_dec_val_nonneg(p);
        assert(dec_val(p) * 10 >= dec_val(p)) by (nonlinear_arith)
            requires
                dec_val(p) >= 0,
        {
        }
        assert(digit_val(q.last()) >= 0);
        assert(dec_val(p) <= dec_val(q));
        assert(forall|i: int| 0 <= i < q.len() ==> q[i] == s[i]);
        lemma_dec_val_monotone(q, s);
    } else {
        assert(s.take(p.len() as int) =~= s);
    }
}

pub proof fn lemma_dec_val_nonneg(s: Seq<char>)
    requires
        forall|i: int| 0 <= i < s.len() ==> is_dec_digit(#[trigger] s[i]),
    ensures
        dec_val(s) >= 0,
    decreases s.len(),
{
    if s.len() > 0 {
        assert(s.drop_last() =~= s.take(s.len() - 1));
        lemma_dec_val_nonneg(s.drop_last());
        assert(dec_val(s.drop_last()) * 10 >= 0) by (nonlinear_arith)
            requires
                dec_val(s.drop_last()) >= 0,
        {
        }
    }
}


/// Every character of a printed natural number is a digit.
pub proof fn lemma_nat_str_digits(n: nat)
    ensures
        nat_str(n).len() >= 1,
        forall|j: int| 0 <= j < nat_str(n).len() ==> is_dec_digit(#[trigger] nat_str(n)[j]),
    decreases n,
{
    if n < 10 {
        assert(is_dec_digit(dec_digit(n as int)));
    } else {
        lemma_nat_str_digits(n / 10);
        assert(is_dec_digit(dec_digit((n % 10) as int)));
        assert forall|j: int| 0 <= j < nat_str(n).len() implies is_dec_digit(
            #[trigger] nat_str(n)[j],
        ) by {
            if j < nat_str(n / 10).len() {
                assert(nat_str(n)[j] == nat_str(n / 10)[j]);
            } else {
                assert(nat_str(n)[j] == dec_digit((n % 10) as int));
            }
        }
    }
}

/// Reading a printed natural number back yields the number.
pub proof fn lemma_dec_val_nat_str(n: nat)
    ensures
        dec_val(nat_str(n)) == n,
    decreases n,
{
    if n < 10 {
        assert(nat_str(n).drop_last() =~= Seq::<char>::empty());
        assert(nat_str(n).last() == dec_digit(n as int));
        assert(digit_val(dec_digit(n as int)) == n);
        assert(dec_val(Seq::<char>::empty()) == 0);
        assert(dec_val(nat_str(n)) == dec_val(nat_str(n).drop_last()) * 10 + digit_val(
            nat_str(n).last(),
        ));
    } else {
        lemma_dec_val_nat_str(n / 10);
        let s = nat_str(n);
        assert(s.len() > 0);
        assert(s.drop_last() =~= nat_str(n / 10));
        assert(s.last() == dec_digit((n % 10) as int));
        assert(digit_val(dec_digit((n % 10) as int)) == n % 10);
        assert(dec_val(s) == dec_val(s.drop_last()) * 10 + digit_val(s.last()));
        assert(dec_val(s) == (n / 10) * 10 + (n % 10));
        assert((n / 10) * 10 + n % 10 == n) by (nonlinear_arith)
            requires
                n >= 0,
        {
        }
    }
}

} // verus!
