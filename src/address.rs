//! IPv4 addresses: validated parsing from dotted-decimal text and the
//! canonical text of an address.

use vstd::prelude::*;

use crate::error::Error;
use crate::text::{chars_of, lemma_split_join, lemma_split_without_sep, split_bounds, split_on};

verus! {

/// An IPv4 address, as its four octets in order.
#[derive(Clone, Copy, Debug, PartialEq, Eq, Structural)]
pub struct Address(pub u8, pub u8, pub u8, pub u8);

pub open spec fn is_digit(c: char) -> bool {
    '0' <= c && c <= '9'
}

pub open spec fn digit_value(c: char) -> nat {
    match c {
        '1' => 1,
        '2' => 2,
        '3' => 3,
        '4' => 4,
        '5' => 5,
        '6' => 6,
        '7' => 7,
        '8' => 8,
        '9' => 9,
        _ => 0,
    }
}

pub open spec fn digit_char(d: nat) -> char {
    if d == 0 {
        '0'
    } else if d == 1 {
        '1'
    } else if d == 2 {
        '2'
    } else if d == 3 {
        '3'
    } else if d == 4 {
        '4'
    } else if d == 5 {
        '5'
    } else if d == 6 {
        '6'
    } else if d == 7 {
        '7'
    } else if d == 8 {
        '8'
    } else {
        '9'
    }
}

pub open spec fn all_digits(t: Seq<char>) -> bool {
    forall|i: int| 0 <= i < t.len() ==> is_digit(#[trigger] t[i])
}

/// The number that a run of decimal digits denotes.
pub open spec fn digits_value(t: Seq<char>) -> nat
    decreases t.len(),
{
    if t.len() == 0 {
        0
    } else {
        digits_value(t.drop_last()) * 10 + digit_value(t.last())
    }
}

/// The digits of a segment once an optional leading `+` is set aside, as
/// the standard parse of an unsigned integer accepts it.
pub open spec fn unsigned_digits(t: Seq<char>) -> Seq<char> {
    if t.len() > 0 && t[0] == '+' {
        t.drop_first()
    } else {
        t
    }
}

/// The octet that a segment denotes: one or more decimal digits, optionally
/// after a `+`, with a value of at most 255.
pub open spec fn octet_of(t: Seq<char>) -> Option<u8> {
    let d = unsigned_digits(t);
    if d.len() > 0 && all_digits(d) && digits_value(d) <= 255 {
        Some(digits_value(d) as u8)
    } else {
        None
    }
}

/// The address that dotted-decimal text denotes: exactly four segments
/// separated by `.`, each of them an octet.
pub open spec fn address_of(s: Seq<char>) -> Option<Address> {
    let segs = split_on(s, '.');
    if segs.len() == 4 && octet_of(segs[0]) is Some && octet_of(segs[1]) is Some && octet_of(
        segs[2],
    ) is Some && octet_of(segs[3]) is Some {
        Some(
            Address(
                octet_of(segs[0])->0,
                octet_of(segs[1])->0,
                octet_of(segs[2])->0,
                octet_of(segs[3])->0,
            ),
        )
    } else {
        None
    }
}

/// The decimal digits of `n`, without leading zeros.
pub open spec fn decimal(n: nat) -> Seq<char>
    decreases n,
{
    if n < 10 {
        seq![digit_char(n)]
    } else {
        decimal(n / 10).push(digit_char(n % 10))
    }
}

/// The canonical dotted-decimal text of an address.
pub open spec fn address_text(a: Address) -> Seq<char> {
    decimal(a.0 as nat) + seq!['.'] + decimal(a.1 as nat) + seq!['.'] + decimal(a.2 as nat) + seq![
        '.',
    ] + decimal(a.3 as nat)
}

impl Address {
    pub fn new(a: u8, b: u8, c: u8, d: u8) -> (r: Address)
        ensures
            r == Address(a, b, c, d),
    {
        Address(a, b, c, d)
    }

    /// The octets in order.
    pub fn octets(&self) -> (r: [u8; 4])
        ensures
            r@ == seq![self.0, self.1, self.2, self.3],
    {
        let r = [self.0, self.1, self.2, self.3];
        assert(r@ =~= seq![self.0, self.1, self.2, self.3]);
        r
    }

    /// The canonical dotted-decimal text, such as `203.0.113.7`.
    pub fn to_text(&self) -> (r: String)
        ensures
            r@ == address_text(*self),
    {
        let mut s = String::new();
        append_decimal(&mut s, self.0);
        s.append(".");
        append_decimal(&mut s, self.1);
        s.append(".");
        append_decimal(&mut s, self.2);
        s.append(".");
        append_decimal(&mut s, self.3);
        proof {
            reveal_strlit(".");
        }
        assert(s@ =~= address_text(*self));
        s
    }
}

fn digit_text(d: u8) -> (r: &'static str)
    requires
        d < 10,
    ensures
        r@ == seq![digit_char(d as nat)],
{
    proof {
        reveal_strlit("0");
        reveal_strlit("1");
        reveal_strlit("2");
        reveal_strlit("3");
        reveal_strlit("4");
        reveal_strlit("5");
        reveal_strlit("6");
        reveal_strlit("7");
        reveal_strlit("8");
        reveal_strlit("9");
    }
    let r = if d == 0 {
        "0"
    } else if d == 1 {
        "1"
    } else if d == 2 {
        "2"
    } else if d == 3 {
        "3"
    } else if d == 4 {
        "4"
    } else if d == 5 {
        "5"
    } else if d == 6 {
        "6"
    } else if d == 7 {
        "7"
    } else if d == 8 {
        "8"
    } else {
        "9"
    };
    assert(r@ =~= seq![digit_char(d as nat)]);
    r
}

fn append_decimal(s: &mut String, n: u8)
    ensures
        final(s)@ == old(s)@ + decimal(n as nat),
{
    let ghost m = n as nat;
    if n >= 100 {
        s.append(digit_text(n / 100));
        s.append(digit_text((n / 10) % 10));
        s.append(digit_text(n % 10));
        assert(decimal(m / 100) == seq![digit_char(m / 100)]);
        assert(decimal(m / 10) == decimal(m / 100).push(digit_char((m / 10) % 10)));
        assert(decimal(m) == decimal(m / 10).push(digit_char(m % 10)));
    } else if n >= 10 {
        s.append(digit_text(n / 10));
        s.append(digit_text(n % 10));
        assert(decimal(m / 10) == seq![digit_char(m / 10)]);
        assert(decimal(m) == decimal(m / 10).push(digit_char(m % 10)));
    } else {
        s.append(digit_text(n));
    }
    assert(final(s)@ =~= old(s)@ + decimal(m));
}

fn digit_of(c: char) -> (r: u32)
    requires
        is_digit(c),
    ensures
        r as nat == digit_value(c),
        r < 10,
{
    if c == '1' {
        1
    } else if c == '2' {
        2
    } else if c == '3' {
        3
    } else if c == '4' {
        4
    } else if c == '5' {
        5
    } else if c == '6' {
        6
    } else if c == '7' {
        7
    } else if c == '8' {
        8
    } else if c == '9' {
        9
    } else {
        0
    }
}

/// The octet that `chars[start..end]` denotes.
fn parse_octet(chars: &Vec<char>, start: usize, end: usize) -> (r: Option<u8>)
    requires
        start <= end,
        end <= chars@.len(),
    ensures
        r == octet_of(chars@.subrange(start as int, end as int)),
{
    let ghost t = chars@.subrange(start as int, end as int);
    let mut first = start;
    if start < end && chars[start] == '+' {
        first = start + 1;
    }
    let ghost d = chars@.subrange(first as int, end as int);
    assert(d =~= unsigned_digits(t));
    if first == end {
        return None;
    }
    let mut value: u32 = 0;
    let mut too_big = false;
    let mut j = first;
    while j < end
        invariant
            first <= j <= end <= chars@.len(),
            d == chars@.subrange(first as int, end as int),
            d == unsigned_digits(chars@.subrange(start as int, end as int)),
            all_digits(chars@.subrange(first as int, j as int)),
            !too_big ==> value as nat == digits_value(chars@.subrange(first as int, j as int)),
            !too_big ==> value <= 255,
            too_big ==> digits_value(chars@.subrange(first as int, j as int)) > 255,
        decreases end - j,
    {
        let c = chars[j];
        let ghost before = chars@.subrange(first as int, j as int);
        let ghost after = chars@.subrange(first as int, j + 1);
        assert(after.drop_last() =~= before);
        assert(after.last() == c);
        if !is_digit_char(c) {
            assert(d[j - first] == c);
            assert(!all_digits(d));
            return None;
        }
        if !too_big {
            let next = value * 10 + digit_of(c);
            if next > 255 {
                too_big = true;
            } else {
                value = next;
            }
        }
        j = j + 1;
    }
    assert(chars@.subrange(first as int, j as int) =~= d);
    if too_big {
        None
    } else {
        Some(value as u8)
    }
}

fn is_digit_char(c: char) -> (r: bool)
    ensures
        r == is_digit(c),
{
    '0' <= c && c <= '9'
}

/// Parses dotted-decimal text into an address: exactly four segments, each
/// an unsigned decimal octet.
pub fn parse_address(s: &str) -> (r: Result<Address, Error>)
    ensures
        r == match address_of(s@) {
            Some(a) => Ok::<Address, Error>(a),
            None => Err(Error::Parse),
        },
{
    let chars = chars_of(s);
    let bounds = split_bounds(&chars, '.');
    if bounds.len() != 4 {
        return Err(Error::Parse);
    }
    let a = parse_octet(&chars, bounds[0].0, bounds[0].1);
    let b = parse_octet(&chars, bounds[1].0, bounds[1].1);
    let c = parse_octet(&chars, bounds[2].0, bounds[2].1);
    let d = parse_octet(&chars, bounds[3].0, bounds[3].1);
    match (a, b, c, d) {
        (Some(a), Some(b), Some(c), Some(d)) => Ok(Address(a, b, c, d)),
        _ => Err(Error::Parse),
    }
}

/// Parses the text of an IPv4 address, as the address discovery service
/// returns it and as a published A record holds it.
pub fn string_to_ipv4(ip_as_string: String) -> (r: Result<Address, Error>)
    ensures
        r == match address_of(ip_as_string@) {
            Some(a) => Ok::<Address, Error>(a),
            None => Err(Error::Parse),
        },
{
    parse_address(ip_as_string.as_str())
}

proof fn lemma_decimal(n: nat)
    ensures
        decimal(n).len() > 0,
        all_digits(decimal(n)),
        digits_value(decimal(n)) == n,
    decreases n,
{
    if n < 10 {
        assert(decimal(n).drop_last() =~= Seq::<char>::empty());
        assert(digit_value(digit_char(n)) == n);
        assert(digits_value(Seq::<char>::empty()) == 0);
        assert(digits_value(decimal(n)) == digits_value(Seq::<char>::empty()) * 10 + digit_value(
            digit_char(n),
        ));
    } else {
        lemma_decimal(n / 10);
        let p = decimal(n / 10);
        assert(decimal(n).drop_last() =~= p);
        assert(digit_value(digit_char(n % 10)) == n % 10);
        assert(digits_value(decimal(n)) == digits_value(p) * 10 + n % 10);
        assert forall|i: int| 0 <= i < decimal(n).len() implies is_digit(#[trigger] decimal(n)[i]) by {
            if i < p.len() {
                assert(decimal(n)[i] == p[i]);
            }
        }
    }
}

proof fn lemma_octet_text(n: u8)
    ensures
        octet_of(decimal(n as nat)) == Some(n),
        split_on(decimal(n as nat), '.') == seq![decimal(n as nat)],
{
    let t = decimal(n as nat);
    lemma_decimal(n as nat);
    assert(is_digit(t[0]));
    assert(unsigned_digits(t) == t);
    assert forall|i: int| 0 <= i < t.len() implies t[i] != '.' by {
        assert(is_digit(t[i]));
    }
    lemma_split_without_sep(t, '.');
}

/// Every address parses back from its canonical text, so canonical text
/// round-trips through parsing to the same text.
pub proof fn lemma_text_round_trip(a: Address)
    ensures
        address_of(address_text(a)) == Some(a),
{
    let t0 = decimal(a.0 as nat);
    let t1 = decimal(a.1 as nat);
    let t2 = decimal(a.2 as nat);
    let t3 = decimal(a.3 as nat);
    lemma_octet_text(a.0);
    lemma_octet_text(a.1);
    lemma_octet_text(a.2);
    lemma_octet_text(a.3);
    lemma_split_join(t0, t1, '.');
    lemma_split_join(t0 + seq!['.'] + t1, t2, '.');
    lemma_split_join(t0 + seq!['.'] + t1 + seq!['.'] + t2, t3, '.');
    let segs = split_on(address_text(a), '.');
    assert(segs =~= seq![t0, t1, t2, t3]);
}

/// Dotted-decimal text of four segments, each the canonical decimal form of
/// a value in 0..=255, parses, and the address's text is that same text.
pub proof fn lemma_valid_text_parses(b0: u8, b1: u8, b2: u8, b3: u8, s: Seq<char>)
    requires
        s == decimal(b0 as nat) + seq!['.'] + decimal(b1 as nat) + seq!['.'] + decimal(b2 as nat)
            + seq!['.'] + decimal(b3 as nat),
    ensures
        address_of(s) == Some(Address(b0, b1, b2, b3)),
        address_text(address_of(s)->0) == s,
{
    lemma_text_round_trip(Address(b0, b1, b2, b3));
}

/// Text with fewer or more than four segments, or with a segment that is not
/// an unsigned decimal octet, does not parse.
pub proof fn lemma_invalid_text_rejected(s: Seq<char>)
    requires
        split_on(s, '.').len() != 4 || exists|k: int|
            0 <= k < split_on(s, '.').len() && #[trigger] octet_of(split_on(s, '.')[k]) is None,
    ensures
        address_of(s) is None,
{
    if split_on(s, '.').len() == 4 {
        let k = choose|k: int|
            0 <= k < split_on(s, '.').len() && #[trigger] octet_of(split_on(s, '.')[k]) is None;
        assert(k == 0 || k == 1 || k == 2 || k == 3);
    }
}

} // verus!
