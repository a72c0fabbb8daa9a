//! Writing an address as text.
//!
//! An IPv4 address is written as its four octets in decimal, joined by
//! dots. An IPv6 address is written as its segments in lower-case
//! hexadecimal without leading zeros, joined by colons, with the longest
//! run of two or more zero segments, the first of them if several are as
//! long, replaced by `::`; an IPv4-mapped address is written as `::ffff:`
//! and the IPv4 address it carries.

use vstd::prelude::*;
use crate::address::{Address, Ipv4Address, Ipv6Address};

verus! {

/// The character that writes the digit `d`, below 16; lower case above 9.
pub open spec fn digit_char(d: int) -> char {
    if d < 10 {
        (0x30 + d) as u8 as char
    } else {
        (0x57 + d) as u8 as char
    }
}

/// `n` in decimal, without leading zeros.
pub open spec fn decimal_text(n: nat) -> Seq<char>
    decreases n,
{
    if n < 10 {
        seq![digit_char(n as int)]
    } else {
        decimal_text(n / 10).push(digit_char((n % 10) as int))
    }
}

/// `n` in lower-case hexadecimal, without leading zeros.
pub open spec fn hex_text(n: nat) -> Seq<char>
    decreases n,
{
    if n < 16 {
        seq![digit_char(n as int)]
    } else {
        hex_text(n / 16).push(digit_char((n % 16) as int))
    }
}

/// The text of an IPv4 address.
pub open spec fn ipv4_text(a: Ipv4Address) -> Seq<char> {
    decimal_text(a.0 as nat) + seq!['.'] + decimal_text(a.1 as nat) + seq!['.'] + decimal_text(
        a.2 as nat,
    ) + seq!['.'] + decimal_text(a.3 as nat)
}

/// `segments` in hexadecimal, joined by colons.
pub open spec fn joined_hex(segments: Seq<u16>) -> Seq<char>
    decreases segments.len(),
{
    if segments.len() == 0 {
        Seq::empty()
    } else if segments.len() == 1 {
        hex_text(segments[0] as nat)
    } else {
        joined_hex(segments.drop_last()) + seq![':'] + hex_text(segments.last() as nat)
    }
}

/// A run of segments: where it starts and how many it holds.
pub struct Run {
    pub start: int,
    pub len: int,
}

/// How many zero segments stand directly before index `i`.
pub open spec fn zeros_before(segments: Seq<u16>, i: int) -> int
    decreases i,
{
    if i <= 0 || i > segments.len() || segments[i - 1] != 0 {
        0
    } else {
        1 + zeros_before(segments, i - 1)
    }
}

/// The longest run of zeros among the first `i` segments, the first of
/// them if several are as long.
pub open spec fn longest_zero_run(segments: Seq<u16>, i: int) -> Run
    decreases i,
{
    if i <= 0 {
        Run { start: 0, len: 0 }
    } else {
        let before = longest_zero_run(segments, i - 1);
        let here = zeros_before(segments, i);
        if here > before.len {
            Run { start: i - here, len: here }
        } else {
            before
        }
    }
}

/// The text of an IPv6 address.
pub open spec fn ipv6_text(a: Ipv6Address) -> Seq<char> {
    let s = a.segments();
    let zeros = longest_zero_run(s, 8);
    if a.is_ipv4_mapped() {
        seq![':', ':', 'f', 'f', 'f', 'f', ':'] + ipv4_text(a.low_ipv4())
    } else if zeros.len > 1 {
        joined_hex(s.take(zeros.start)) + seq![':', ':'] + joined_hex(
            s.skip(zeros.start + zeros.len),
        )
    } else {
        joined_hex(s)
    }
}

/// The text of an address.
pub open spec fn address_text(a: Address) -> Seq<char> {
    match a {
        Address::V4(a) => ipv4_text(a),
        Address::V6(a) => ipv6_text(a),
    }
}

/// `String::push` appends the character to the string: what was there
/// stays, in order, and the character comes last.
pub assume_specification[ String::push ](s: &mut String, c: char)
    ensures
        final(s)@ == old(s)@.push(c),
;

/// The character that writes a digit; see [`digit_char`].
pub fn char_of_digit(d: u8) -> (c: char)
    requires
        d < 16,
    ensures
        c == digit_char(d as int),
{
    if d < 10 {
        (0x30 + d) as char
    } else {
        (0x57 + d) as char
    }
}

/// Appends `n` in decimal to `out`.
pub fn push_decimal(out: &mut String, n: u8)
    ensures
        final(out)@ == old(out)@ + decimal_text(n as nat),
{
    reveal_with_fuel(decimal_text, 3);
    if n >= 100 {
        out.push(char_of_digit(n / 100));
    }
    if n >= 10 {
        out.push(char_of_digit((n / 10) % 10));
    }
    out.push(char_of_digit(n % 10));
    assert(final(out)@ =~= old(out)@ + decimal_text(n as nat));
}

/// Appends `n` in hexadecimal to `out`.
pub fn push_hex(out: &mut String, n: u16)
    ensures
        final(out)@ == old(out)@ + hex_text(n as nat),
{
    reveal_with_fuel(hex_text, 4);
    if n >= 0x1000 {
        out.push(char_of_digit((n / 0x1000) as u8));
    }
    if n >= 0x100 {
        out.push(char_of_digit(((n / 0x100) % 16) as u8));
    }
    if n >= 0x10 {
        out.push(char_of_digit(((n / 0x10) % 16) as u8));
    }
    out.push(char_of_digit((n % 16) as u8));
    assert(final(out)@ =~= old(out)@ + hex_text(n as nat));
}

/// Appends the text of an IPv4 address to `out`.
pub fn push_ipv4(out: &mut String, a: &Ipv4Address)
    ensures
        final(out)@ == old(out)@ + ipv4_text(*a),
{
    push_decimal(out, a.0);
    out.push('.');
    push_decimal(out, a.1);
    out.push('.');
    push_decimal(out, a.2);
    out.push('.');
    push_decimal(out, a.3);
    assert(final(out)@ =~= old(out)@ + ipv4_text(*a));
}

/// Appends the segments of `segments` from index `from` up to index `to`,
/// in hexadecimal and joined by colons, to `out`.
pub fn push_joined_hex(out: &mut String, segments: &Vec<u16>, from: usize, to: usize)
    requires
        from <= to <= segments@.len(),
    ensures
        final(out)@ == old(out)@ + joined_hex(segments@.subrange(from as int, to as int)),
{
    let mut i: usize = from;
    assert(out@ =~= old(out)@ + joined_hex(segments@.subrange(from as int, from as int)));
    while i < to
        invariant
            from <= i <= to <= segments@.len(),
            out@ == old(out)@ + joined_hex(segments@.subrange(from as int, i as int)),
        decreases to - i,
    {
        let ghost before = segments@.subrange(from as int, i as int);
        let ghost with_next = segments@.subrange(from as int, i + 1);
        assert(with_next.drop_last() =~= before);
        if i > from {
            out.push(':');
        }
        push_hex(out, segments[i]);
        assert(out@ =~= old(out)@ + joined_hex(with_next));
        i += 1;
    }
}

/// Finds the longest run of zeros in `segments`, the first of them if
/// several are as long: where it starts and how many segments it holds.
pub fn find_zero_run(segments: &Vec<u16>) -> (r: (usize, usize))
    ensures
        r.0 + r.1 <= segments@.len(),
        longest_zero_run(segments@, segments@.len() as int) == (Run {
            start: r.0 as int,
            len: r.1 as int,
        }),
{
    let mut start: usize = 0;
    let mut len: usize = 0;
    let mut here: usize = 0;
    let mut i: usize = 0;
    while i < segments.len()
        invariant
            0 <= i <= segments@.len(),
            here <= i,
            start + len <= i,
            here == zeros_before(segments@, i as int),
            longest_zero_run(segments@, i as int) == (Run { start: start as int, len: len as int }),
        decreases segments@.len() - i,
    {
        if segments[i] == 0 {
            here += 1;
            if here > len {
                start = i + 1 - here;
                len = here;
            }
        } else {
            here = 0;
        }
        i += 1;
    }
    (start, len)
}

impl Ipv4Address {
    /// The address as text; see [`ipv4_text`].
    pub fn to_text(&self) -> (r: String)
        ensures
            r@ == ipv4_text(*self),
    {
        let mut out = String::new();
        push_ipv4(&mut out, self);
        assert(out@ =~= ipv4_text(*self));
        out
    }
}

impl Ipv6Address {
    /// The segments in a vector.
    pub fn to_segments(&self) -> (r: Vec<u16>)
        ensures
            r@ == self.segments(),
    {
        let r = vec![self.0, self.1, self.2, self.3, self.4, self.5, self.6, self.7];
        assert(r@ =~= self.segments());
        r
    }

    /// The address as text; see [`ipv6_text`].
    pub fn to_text(&self) -> (r: String)
        ensures
            r@ == ipv6_text(*self),
    {
        let mut out = String::new();
        if self.0 == 0 && self.1 == 0 && self.2 == 0 && self.3 == 0 && self.4 == 0 && self.5
            == 0xFFFF {
            out.push(':');
            out.push(':');
            out.push('f');
            out.push('f');
            out.push('f');
            out.push('f');
            out.push(':');
            push_ipv4(&mut out, &self.unpack_low());
            assert(out@ =~= ipv6_text(*self));
        } else {
            let segments = self.to_segments();
            let (start, len) = find_zero_run(&segments);
            if len > 1 {
                push_joined_hex(&mut out, &segments, 0, start);
                out.push(':');
                out.push(':');
                push_joined_hex(&mut out, &segments, start + len, 8);
                assert(segments@.take(start as int) =~= segments@.subrange(0, start as int));
                assert(segments@.skip(start + len) =~= segments@.subrange(start + len, 8));
                assert(out@ =~= ipv6_text(*self));
            } else {
                push_joined_hex(&mut out, &segments, 0, 8);
                assert(segments@.subrange(0, 8) =~= segments@);
                assert(out@ =~= ipv6_text(*self));
            }
        }
        out
    }
}

impl Address {
    /// The address as text; see [`address_text`].
    pub fn to_text(&self) -> (r: String)
        ensures
            r@ == address_text(*self),
    {
        match self {
            Address::V4(a) => a.to_text(),
            Address::V6(a) => a.to_text(),
        }
    }
}

} // verus!
