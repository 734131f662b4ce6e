//! Text forms of the scalar values carried in a patch: decimal integers and
//! identifiers in their hyphenated hexadecimal form.

use vstd::prelude::*;

verus! {

/// The decimal digit for `d < 10`.
pub open spec fn digit_char(d: nat) -> char {
    if d == 0 { '0' }
    else if d == 1 { '1' }
    else if d == 2 { '2' }
    else if d == 3 { '3' }
    else if d == 4 { '4' }
    else if d == 5 { '5' }
    else if d == 6 { '6' }
    else if d == 7 { '7' }
    else if d == 8 { '8' }
    else { '9' }
}

pub open spec fn is_digit(c: char) -> bool {
    '0' <= c && c <= '9'
}

pub open spec fn digit_value(c: char) -> nat {
    ((c as int) - ('0' as int)) as nat
}

/// The shortest decimal text of `n`.
pub open spec fn nat_text(n: nat) -> Seq<char>
    decreases n,
{
    if n < 10 {
        seq![digit_char(n)]
    } else {
        nat_text(n / 10).push(digit_char(n % 10))
    }
}

/// The decimal text of `x`, with a leading `-` when it is negative.
pub open spec fn dec_text(x: int) -> Seq<char> {
    if x < 0 {
        seq!['-'] + nat_text((-x) as nat)
    } else {
        nat_text(x as nat)
    }
}

pub open spec fn all_digits(s: Seq<char>) -> bool {
    s.len() > 0 && forall|i: int| 0 <= i < s.len() ==> is_digit(#[trigger] s[i])
}

/// The value of a string of decimal digits.
pub open spec fn digits_value(s: Seq<char>) -> nat
    decreases s.len(),
{
    if s.len() == 0 {
        0
    } else {
        digits_value(s.drop_last()) * 10 + digit_value(s.last())
    }
}

/// The value of an optional sign followed by one or more decimal digits.
pub open spec fn signed_value(s: Seq<char>) -> Option<int> {
    if s.len() > 0 && s[0] == '-' {
        if all_digits(s.drop_first()) { Some(-(digits_value(s.drop_first()) as int)) } else { None }
    } else if s.len() > 0 && s[0] == '+' {
        if all_digits(s.drop_first()) { Some(digits_value(s.drop_first()) as int) } else { None }
    } else if all_digits(s) {
        Some(digits_value(s) as int)
    } else {
        None
    }
}

/// The `i64` that the text `s` denotes, if it denotes one in range.
pub open spec fn i64_parse(s: Seq<char>) -> Option<i64> {
    match signed_value(s) {
        Some(v) => if i64::MIN <= v && v <= i64::MAX { Some(v as i64) } else { None },
        None => None,
    }
}

/// The lowercase hexadecimal digit for `d < 16`.
pub open spec fn hex_char(d: nat) -> char {
    if d < 10 { digit_char(d) }
    else if d == 10 { 'a' }
    else if d == 11 { 'b' }
    else if d == 12 { 'c' }
    else if d == 13 { 'd' }
    else if d == 14 { 'e' }
    else { 'f' }
}

/// The `k`-th of the 32 hexadecimal digits of `v`, most significant first.
pub open spec fn nibble(v: u128, k: int) -> nat {
    (((v as int) / vstd::arithmetic::power::pow(16, (31 - k) as nat)) % 16) as nat
}

/// Which hexadecimal digit stands at position `i` of the hyphenated form.
pub open spec fn hyphenated_digit(i: int) -> int {
    if i < 8 { i }
    else if i < 13 { i - 1 }
    else if i < 18 { i - 2 }
    else if i < 23 { i - 3 }
    else { i - 4 }
}

/// The hyphenated lowercase text of an identifier: 8-4-4-4-12 hexadecimal digits.
pub open spec fn uuid_text(v: u128) -> Seq<char> {
    Seq::new(36, |i: int|
        if i == 8 || i == 13 || i == 18 || i == 23 { '-' }
        else { hex_char(nibble(v, hyphenated_digit(i))) })
}

/// What `uuid::Uuid::parse_str` makes of a text, as a 128-bit value.
pub uninterp spec fn uuid_parse_of(s: Seq<char>) -> Option<u128>;

/// Relies on `i64`'s `Display` (through `ToString`): the decimal digits of the
/// value, after a `-` when it is negative.
#[verifier::external_body]
pub(crate) fn i64_to_text(x: i64) -> (r: String)
    ensures
        r@ == dec_text(x as int),
{
    x.to_string()
}

/// Relies on `str::parse::<i64>`: an optional `+` or `-` followed by one or
/// more decimal digits, whose value must fit in an `i64`.
#[verifier::external_body]
pub(crate) fn parse_i64(s: &str) -> (r: Option<i64>)
    ensures
        r == i64_parse(s@),
{
    s.parse::<i64>().ok()
}

/// Relies on `uuid::Uuid::parse_str` (with `Uuid::as_u128`): among the forms it
/// accepts is the hyphenated lowercase one that `Uuid`'s `Display` writes.
#[verifier::external_body]
pub(crate) fn parse_uuid(s: &str) -> (r: Option<u128>)
    ensures
        r == uuid_parse_of(s@),
        forall|v: u128| s@ == uuid_text(v) ==> r == Some(v),
{
    match uuid::Uuid::parse_str(s) {
        Ok(u) => Some(u.as_u128()),
        Err(_) => None,
    }
}

/// Relies on `uuid::Uuid::from_u128` and `Uuid`'s `Display`: the hyphenated
/// lowercase form, most significant digit first.
#[verifier::external_body]
pub(crate) fn uuid_to_text(v: u128) -> (r: String)
    ensures
        r@ == uuid_text(v),
{
    uuid::Uuid::from_u128(v).to_string()
}

/// Relies on `uuid::Uuid::new_v4` (with `Uuid::as_u128`): a random identifier
/// whose version digit is 4 and whose variant bits are `10`.
#[verifier::external_body]
pub(crate) fn random_uuid() -> (r: u128)
    ensures
        (r >> 76u128) & 15u128 == 4,
        (r >> 62u128) & 3u128 == 2,
{
    uuid::Uuid::new_v4().as_u128()
}

/// Relies on `SystemTime::elapsed` of `std::time::UNIX_EPOCH`: the time since
/// the epoch in milliseconds, `None` when the clock stands before it.
#[verifier::external_body]
pub(crate) fn clock_millis() -> (r: Option<u128>) {
    match std::time::UNIX_EPOCH.elapsed() {
        Ok(d) => Some(d.as_millis()),
        Err(_) => None,
    }
}

/// The milliseconds of a clock reading as an `i64`: zero for a clock before
/// the epoch, and `i64::MAX` past what an `i64` holds.
pub open spec fn millis_of(reading: Option<u128>) -> i64 {
    match reading {
        Some(ms) => if ms <= i64::MAX as u128 { ms as i64 } else { i64::MAX },
        None => 0,
    }
}

/// Turns a clock reading into milliseconds since the epoch.
pub fn millis_from_reading(reading: Option<u128>) -> (r: i64)
    ensures
        r == millis_of(reading),
        r >= 0,
{
    match reading {
        Some(ms) => if ms <= i64::MAX as u128 { ms as i64 } else { i64::MAX },
        None => 0,
    }
}

pub proof fn lemma_nat_text(n: nat)
    ensures
        all_digits(nat_text(n)),
        digits_value(nat_text(n)) == n,
    decreases n,
{
    if n < 10 {
        let s = nat_text(n);
        assert(s.drop_last() =~= Seq::<char>::empty());
        assert(digit_value(digit_char(n)) == n);
        assert(digits_value(Seq::<char>::empty()) == 0);
        assert(digits_value(s) == digits_value(s.drop_last()) * 10 + digit_value(s.last()));
    } else {
        lemma_nat_text(n / 10);
        let s = nat_text(n);
        assert(s.drop_last() =~= nat_text(n / 10));
        assert(digit_value(digit_char(n % 10)) == n % 10);
        assert((n / 10) * 10 + n % 10 == n) by (nonlinear_arith);
        assert(digits_value(s) == digits_value(nat_text(n / 10)) * 10 + digit_value(s.last()));
        assert forall|i: int| 0 <= i < s.len() implies is_digit(#[trigger] s[i]) by {
            if i < s.len() - 1 {
                assert(s[i] == nat_text(n / 10)[i]);
            }
        }
    }
}

/// Parsing the decimal text of an `i64` gives the value back.
pub proof fn lemma_i64_text_round_trip(x: i64)
    ensures
        i64_parse(dec_text(x as int)) == Some(x),
{
    if x < 0 {
        let m = (-(x as int)) as nat;
        lemma_nat_text(m);
        let s = dec_text(x as int);
        assert(s.drop_first() =~= nat_text(m));
    } else {
        lemma_nat_text(x as nat);
        let s = nat_text(x as nat);
        assert(is_digit(s[0]));
    }
}

} // verus!
