//! Decimal rendering of unsigned integers, as bytes and as text.
use vstd::prelude::*;
use vstd::string::*;

verus! {

/// The ASCII byte of the decimal digit `d` (`d < 10`).
pub open spec fn digit_byte(d: nat) -> u8 {
    (48 + d) as u8
}

/// The shortest decimal rendering of `n`, most significant digit first.
pub open spec fn decimal_bytes(n: nat) -> Seq<u8>
    decreases n,
{
    if n < 10 {
        seq![digit_byte(n)]
    } else {
        decimal_bytes(n / 10).push(digit_byte(n % 10))
    }
}

/// `decimal_bytes(n)` left-padded with `'0'` to at least ten digits.
pub open spec fn zero_padded_10(n: nat) -> Seq<u8> {
    let d = decimal_bytes(n);
    if d.len() >= 10 {
        d
    } else {
        Seq::new((10 - d.len()) as nat, |i: int| 48u8) + d
    }
}

/// The decimal rendering of `n` as text.
pub open spec fn decimal_text(n: nat) -> Seq<char> {
    decimal_bytes(n).map_values(|b: u8| b as char)
}

/// A rendering is never empty and never longer than the number itself (for `n >= 1`).
pub proof fn lemma_decimal_len(n: nat)
    ensures
        decimal_bytes(n).len() >= 1,
        n >= 1 ==> decimal_bytes(n).len() <= n,
        n < 10 <==> decimal_bytes(n).len() == 1,
    decreases n,
{
    if n >= 10 {
        lemma_decimal_len(n / 10);
    }
}

/// Padding only adds leading zeros: the padded rendering ends with the plain rendering, every
/// byte before it is `'0'`, and it is ten bytes long unless the number has more digits.
pub proof fn lemma_zero_padded_10(n: nat)
    ensures
        ({
            let p = zero_padded_10(n);
            let d = decimal_bytes(n);
            &&& p.len() == if d.len() >= 10 { d.len() } else { 10 }
            &&& p.subrange(p.len() - d.len(), p.len() as int) == d
            &&& forall|i: int| 0 <= i < p.len() - d.len() ==> p[i] == 48u8
        }),
{
    let p = zero_padded_10(n);
    let d = decimal_bytes(n);
    assert(p.subrange(p.len() - d.len(), p.len() as int) =~= d);
}

/// Appends the decimal rendering of `n` to `out`.
pub fn push_decimal(out: &mut Vec<u8>, n: usize)
    ensures
        final(out)@ == old(out)@ + decimal_bytes(n as nat),
    decreases n,
{
    if n >= 10 {
        push_decimal(out, n / 10);
    }
    let d: u8 = (n % 10) as u8;
    out.push(48 + d);
    proof {
        if n >= 10 {
            assert(decimal_bytes(n as nat) == decimal_bytes((n / 10) as nat).push(digit_byte((n % 10) as nat)));
        }
    }
    assert(out@ =~= old(out)@ + decimal_bytes(n as nat));
}

/// The number of digits in the decimal rendering of `n`.
pub fn decimal_len(n: usize) -> (r: usize)
    ensures
        r == decimal_bytes(n as nat).len(),
    decreases n,
{
    if n < 10 {
        1
    } else {
        let k = decimal_len(n / 10);
        proof {
            lemma_decimal_len((n / 10) as nat);
        }
        k + 1
    }
}

/// Appends the decimal rendering of `n`, left-padded with zeros to ten digits.
pub fn push_zero_padded_10(out: &mut Vec<u8>, n: usize)
    ensures
        final(out)@ == old(out)@ + zero_padded_10(n as nat),
{
    let len = decimal_len(n);
    let mut k: usize = len;
    let ghost start = out@;
    while k < 10
        invariant
            len == decimal_bytes(n as nat).len(),
            len <= k <= 10 || (len > 10 && k == len),
            out@ =~= start + Seq::new((k - len) as nat, |i: int| 48u8),
        decreases 10 - k,
    {
        out.push(48u8);
        k = k + 1;
    }
    push_decimal(out, n);
    proof {
        if len >= 10 {
            assert(Seq::new((k - len) as nat, |i: int| 48u8) =~= Seq::<u8>::empty());
        }
    }
    assert(out@ =~= start + zero_padded_10(n as nat));
}

/// The decimal digit `d` as a one-character string.
fn digit_str(d: usize) -> (r: &'static str)
    requires
        d < 10,
    ensures
        r@ == seq![digit_byte(d as nat) as char],
{
    proof {
        reveal_strlit("0");
        reveal_strlit("1");
        reveal_strlit("2");
        reveal_strlit("3");
        reveal_strlit("4");
        reveal_strlit("5");
        reveal_strlit("6");
        reveal_strlit("7");
        reveal_strlit("8");
        reveal_strlit("9");
    }
    match d {
        0 => "0",
        1 => "1",
        2 => "2",
        3 => "3",
        4 => "4",
        5 => "5",
        6 => "6",
        7 => "7",
        8 => "8",
        _ => "9",
    }
}

/// Appends the decimal rendering of `n` to the text `out`.
pub fn push_decimal_text(out: &mut String, n: usize)
    ensures
        final(out)@ == old(out)@ + decimal_text(n as nat),
    decreases n,
{
    if n >= 10 {
        push_decimal_text(out, n / 10);
    }
    out.append(digit_str(n % 10));
    proof {
        let b = decimal_bytes(n as nat);
        if n >= 10 {
            let p = decimal_bytes((n / 10) as nat);
            assert(b == p.push(digit_byte((n % 10) as nat)));
            assert(decimal_text(n as nat) =~= decimal_text((n / 10) as nat).push(digit_byte((n % 10) as nat) as char));
        } else {
            assert(decimal_text(n as nat) =~= seq![digit_byte(n as nat) as char]);
        }
    }
    assert(out@ =~= old(out)@ + decimal_text(n as nat));
}

} // verus!
