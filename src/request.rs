//! The client's request generator: request `i` carries the label
//! `"msg "` followed by `i + 1` in decimal, padded to two digits.
use vstd::prelude::*;
use vstd::string::StringExecFns;
use crate::message::EchoRequest;

verus! {

/// The character of a decimal digit.
pub open spec fn digit_char(d: nat) -> char {
    if d == 0 { '0' }
    else if d == 1 { '1' }
    else if d == 2 { '2' }
    else if d == 3 { '3' }
    else if d == 4 { '4' }
    else if d == 5 { '5' }
    else if d == 6 { '6' }
    else if d == 7 { '7' }
    else if d == 8 { '8' }
    else { '9' }
}

/// The decimal digits of `n`, most significant first, without leading zeros.
pub open spec fn decimal(n: nat) -> Seq<char>
    decreases n,
{
    if n < 10 {
        seq![digit_char(n)]
    } else {
        decimal(n / 10).push(digit_char(n % 10))
    }
}

/// `n` in decimal, with a leading zero when it has a single digit.
pub open spec fn two_digit(n: nat) -> Seq<char> {
    if n < 10 {
        seq!['0'] + decimal(n)
    } else {
        decimal(n)
    }
}

/// The label of request `i` (counted from zero).
pub open spec fn label_of(i: nat) -> Seq<char> {
    seq!['m', 's', 'g', ' '] + two_digit(i + 1)
}

fn digit_str(d: u128) -> (r: &'static str)
    requires
        d < 10,
    ensures
        r@ == seq![digit_char(d as nat)],
{
    proof {
        reveal_strlit("0");
        reveal_strlit("1");
        reveal_strlit("2");
        reveal_strlit("3");
        reveal_strlit("4");
        reveal_strlit("5");
        reveal_strlit("6");
        reveal_strlit("7");
        reveal_strlit("8");
        reveal_strlit("9");
    }
    if d == 0 { "0" }
    else if d == 1 { "1" }
    else if d == 2 { "2" }
    else if d == 3 { "3" }
    else if d == 4 { "4" }
    else if d == 5 { "5" }
    else if d == 6 { "6" }
    else if d == 7 { "7" }
    else if d == 8 { "8" }
    else { "9" }
}

fn push_decimal(s: &mut String, n: u128)
    ensures
        final(s)@ == old(s)@ + decimal(n as nat),
    decreases n,
{
    if n < 10 {
        s.append(digit_str(n));
    } else {
        push_decimal(s, n / 10);
        s.append(digit_str(n % 10));
        assert(final(s)@ =~= old(s)@ + decimal(n as nat));
    }
}

/// The label of request `i`: `"msg 01"` for `i == 0`, `"msg 02"` for
/// `i == 1`, and so on; from `i == 99` on the number has three digits or more.
pub fn request_label(i: usize) -> (r: String)
    ensures
        r@ == label_of(i as nat),
{
    let n: u128 = i as u128 + 1;
    let mut s = String::from_str("msg ");
    proof {
        reveal_strlit("msg ");
        reveal_strlit("0");
    }
    if n < 10 {
        s.append("0");
    }
    push_decimal(&mut s, n);
    assert(s@ =~= label_of(i as nat));
    s
}

/// Request `i` of the sequence that the client sends.
pub fn echo_request(i: usize) -> (r: EchoRequest)
    ensures
        r@ == label_of(i as nat),
{
    EchoRequest::new(request_label(i))
}

} // verus!
