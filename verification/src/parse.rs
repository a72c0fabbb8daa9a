//! Reading an address from its text.
//!
//! An IPv4 address is written as four decimal numbers joined by dots, each
//! at most 255 and without a leading zero. An IPv6 address is written as
//! eight groups of one to four hexadecimal digits joined by colons; one run
//! of zero groups may be left out and marked by `::`, and the last two
//! groups may be written as an IPv4 address.

use vstd::prelude::*;
use crate::address::{join_bytes, pack, Address, Ipv4Address, Ipv6Address};
use crate::text::{chars_of, spans_cover, split, split_span, Span};

verus! {

/// The value of `c` as a digit in the given radix, 10 or 16: a digit is
/// worth less than the radix. The digits above 9 are the letters `a` to
/// `f`, in either case.
pub open spec fn digit(c: char, radix: int) -> Option<int> {
    let n = c as u32 as int;
    let d = if 0x30 <= n <= 0x39 {
        n - 0x30
    } else if 0x41 <= n <= 0x46 {
        n - 0x41 + 10
    } else if 0x61 <= n <= 0x66 {
        n - 0x61 + 10
    } else {
        radix
    };
    if d < radix {
        Some(d)
    } else {
        None
    }
}

/// Whether every character of `s` is a digit in the given radix.
pub open spec fn all_digits(s: Seq<char>, radix: int) -> bool {
    forall|i: int| 0 <= i < s.len() ==> digit(#[trigger] s[i], radix) is Some
}

/// The number that the digits `s` write in the given radix, the most
/// significant digit first.
pub open spec fn number(s: Seq<char>, radix: int) -> int
    decreases s.len(),
{
    if s.len() == 0 {
        0
    } else {
        number(s.drop_last(), radix) * radix + match digit(s.last(), radix) {
            Some(d) => d,
            None => 0,
        }
    }
}

/// The octet that `f` writes: one to three decimal digits, without a
/// leading zero, worth at most 255.
pub open spec fn octet_of_text(f: Seq<char>) -> Option<u8> {
    if 1 <= f.len() <= 3 && all_digits(f, 10) && (f.len() == 1 || f[0] != '0') && number(f, 10)
        <= 255 {
        Some(number(f, 10) as u8)
    } else {
        None
    }
}

/// The segment that `f` writes: one to four hexadecimal digits.
pub open spec fn segment_of_text(f: Seq<char>) -> Option<u16> {
    if 1 <= f.len() <= 4 && all_digits(f, 16) {
        Some(number(f, 16) as u16)
    } else {
        None
    }
}

/// The IPv4 address that `s` writes, if it writes one.
pub open spec fn ipv4_of_text(s: Seq<char>) -> Option<Ipv4Address> {
    let f = split(s, '.');
    if f.len() == 4 && octet_of_text(f[0]) is Some && octet_of_text(f[1]) is Some
        && octet_of_text(f[2]) is Some && octet_of_text(f[3]) is Some {
        Some(
            Ipv4Address(
                octet_of_text(f[0])->0,
                octet_of_text(f[1])->0,
                octet_of_text(f[2])->0,
                octet_of_text(f[3])->0,
            ),
        )
    } else {
        None
    }
}

/// The index of the first `::` in `s`.
pub open spec fn double_colon(s: Seq<char>) -> Option<int>
    decreases s.len(),
{
    if s.len() < 2 {
        None
    } else if s[0] == ':' && s[1] == ':' {
        Some(0)
    } else {
        match double_colon(s.drop_first()) {
            Some(i) => Some(i + 1),
            None => None,
        }
    }
}

/// Whether each of `fields` writes a segment.
pub open spec fn all_segments(fields: Seq<Seq<char>>) -> bool {
    forall|i: int| 0 <= i < fields.len() ==> segment_of_text(#[trigger] fields[i]) is Some
}

/// The segments that `fields` write, in order.
pub open spec fn segments_of(fields: Seq<Seq<char>>) -> Seq<u16> {
    Seq::new(fields.len(), |i: int| segment_of_text(fields[i])->0)
}

/// The two segments that hold an IPv4 address.
pub open spec fn segments_of_ipv4(a: Ipv4Address) -> Seq<u16> {
    seq![join_bytes(a.0, a.1) as u16, join_bytes(a.2, a.3) as u16]
}

/// The segments that `t` writes as groups joined by colons; the empty text
/// writes none. With `v4_tail`, the last group may be an IPv4 address,
/// which stands for two segments.
pub open spec fn groups_of_text(t: Seq<char>, v4_tail: bool) -> Option<Seq<u16>> {
    let f = split(t, ':');
    if t.len() == 0 {
        Some(Seq::empty())
    } else if v4_tail && ipv4_of_text(f.last()) is Some {
        if all_segments(f.drop_last()) {
            Some(segments_of(f.drop_last()) + segments_of_ipv4(ipv4_of_text(f.last())->0))
        } else {
            None
        }
    } else if all_segments(f) {
        Some(segments_of(f))
    } else {
        None
    }
}

/// `n` zero segments.
pub open spec fn zero_segments(n: int) -> Seq<u16> {
    Seq::new(n as nat, |i: int| 0u16)
}

/// The IPv6 address that `s` writes, if it writes one. Without `::` the
/// text holds all eight segments. With `::`, what stands before it are the
/// first segments, what stands behind it the last ones, at most seven
/// together, and the segments between are zero.
pub open spec fn ipv6_of_text(s: Seq<char>) -> Option<Ipv6Address> {
    match double_colon(s) {
        None => match groups_of_text(s, true) {
            Some(g) => if g.len() == 8 {
                Some(Ipv6Address::from_segments(g))
            } else {
                None
            },
            None => None,
        },
        Some(i) => match (groups_of_text(s.take(i), false), groups_of_text(s.skip(i + 2), true)) {
            (Some(head), Some(tail)) => if head.len() + tail.len() <= 7 {
                Some(
                    Ipv6Address::from_segments(
                        head + zero_segments(8 - head.len() - tail.len()) + tail,
                    ),
                )
            } else {
                None
            },
            _ => None,
        },
    }
}

/// The address that `s` writes, if it writes one: an IPv4 address, or else
/// an IPv6 address.
pub open spec fn address_of_text(s: Seq<char>) -> Option<Address> {
    match ipv4_of_text(s) {
        Some(a) => Some(Address::V4(a)),
        None => match ipv6_of_text(s) {
            Some(a) => Some(Address::V6(a)),
            None => None,
        },
    }
}

/// The first `::` stands where no earlier pair of characters is one.
pub proof fn lemma_double_colon_is(s: Seq<char>, k: int)
    requires
        0 <= k,
        forall|i: int|
            0 <= i < k && i + 1 < s.len() ==> !(#[trigger] s[i] == ':' && s[i + 1] == ':'),
    ensures
        k + 1 < s.len() && s[k] == ':' && s[k + 1] == ':' ==> double_colon(s) == Some(k),
        k + 1 >= s.len() ==> double_colon(s) is None,
    decreases s.len(),
{
    if s.len() >= 2 && k > 0 {
        let rest = s.drop_first();
        assert forall|i: int| 0 <= i < k - 1 && i + 1 < rest.len() implies !(#[trigger] rest[i] == ':'
            && rest[i + 1] == ':') by {
            assert(rest[i] == s[i + 1]);
            assert(rest[i + 1] == s[i + 2]);
        }
        assert(!(s[0] == ':' && s[1] == ':'));
        lemma_double_colon_is(rest, k - 1);
        if k + 1 < s.len() {
            assert(rest[k - 1] == s[k]);
            assert(rest[k] == s[k + 1]);
        }
    }
}

/// A number of `len` digits is less than the radix to the power `len`, for
/// the lengths and radices that addresses use.
pub proof fn lemma_number_bound(s: Seq<char>, radix: int)
    requires
        radix == 10 || radix == 16,
        s.len() <= 4,
    ensures
        0 <= number(s, radix),
        s.len() == 0 ==> number(s, radix) == 0,
        s.len() == 1 ==> number(s, radix) < radix,
        s.len() == 2 ==> number(s, radix) < radix * radix,
        s.len() == 3 ==> number(s, radix) < radix * radix * radix,
        s.len() == 4 ==> number(s, radix) < radix * radix * radix * radix,
    decreases s.len(),
{
    if s.len() > 0 {
        lemma_number_bound(s.drop_last(), radix);
    }
}

/// The value of a character as a digit; see [`digit`].
pub fn digit_of(c: char, radix: u32) -> (r: Option<u32>)
    ensures
        match r {
            Some(d) => digit(c, radix as int) == Some(d as int),
            None => digit(c, radix as int) is None,
        },
{
    let n: u32 = c as u32;
    let d: u32 = if 0x30 <= n && n <= 0x39 {
        n - 0x30
    } else if 0x41 <= n && n <= 0x46 {
        n - 0x41 + 10
    } else if 0x61 <= n && n <= 0x66 {
        n - 0x61 + 10
    } else {
        radix
    };
    if d < radix {
        Some(d)
    } else {
        None
    }
}

/// Reads the number that the part of `s` under `span` writes, if that part
/// is made of one to `max_len` digits.
fn read_number(s: &Vec<char>, span: Span, radix: u32, max_len: usize) -> (r: Option<u32>)
    requires
        span.fits(s@.len()),
        radix == 10 || radix == 16,
        max_len <= 4,
    ensures
        match r {
            Some(v) => {
                &&& 1 <= span.of(s@).len() <= max_len
                &&& all_digits(span.of(s@), radix as int)
                &&& v == number(span.of(s@), radix as int)
            },
            None => !(1 <= span.of(s@).len() <= max_len && all_digits(
                span.of(s@),
                radix as int,
            )),
        },
{
    let ghost f = span.of(s@);
    let len: usize = span.end - span.start;
    if len < 1 || len > max_len {
        return None;
    }
    let mut value: u32 = 0;
    let mut i: usize = 0;
    while i < len
        invariant
            span.fits(s@.len()),
            f == span.of(s@),
            len == span.end - span.start,
            len <= 4,
            radix == 10 || radix == 16,
            0 <= i <= len,
            all_digits(f.take(i as int), radix as int),
            value == number(f.take(i as int), radix as int),
        decreases len - i,
    {
        proof {
            lemma_number_bound(f.take(i as int), radix as int);
            assert(f.take(i + 1).drop_last() =~= f.take(i as int));
            assert(f.take(i + 1).last() == s@[span.start + i]);
        }
        match digit_of(s[span.start + i], radix) {
            Some(d) => {
                assert(value < 16 * 16 * 16) by (nonlinear_arith)
                    requires
                        i <= 3,
                        radix == 10 || radix == 16,
                        i == 0 ==> value == 0,
                        i == 1 ==> value < radix,
                        i == 2 ==> value < radix * radix,
                        i == 3 ==> value < radix * radix * radix,
                ;
                value = value * radix + d;
                assert forall|j: int| 0 <= j < i + 1 implies digit(
                    #[trigger] f.take(i + 1)[j],
                    radix as int,
                ) is Some by {
                    if j < i {
                        assert(f.take(i as int)[j] == f.take(i + 1)[j]);
                    }
                }
            },
            None => {
                assert(f[i as int] == s@[span.start + i]);
                return None;
            },
        }
        i += 1;
    }
    assert(f.take(len as int) =~= f);
    Some(value)
}

/// Reads the octet that the part of `s` under `span` writes.
pub fn parse_octet(s: &Vec<char>, span: Span) -> (r: Option<u8>)
    requires
        span.fits(s@.len()),
    ensures
        r == octet_of_text(span.of(s@)),
{
    match read_number(s, span, 10, 3) {
        Some(v) => {
            assert(span.of(s@)[0] == s@[span.start as int]);
            if (span.end - span.start > 1 && s[span.start] == '0') || v > 255 {
                None
            } else {
                Some(v as u8)
            }
        },
        None => None,
    }
}

/// Reads the segment that the part of `s` under `span` writes.
pub fn parse_segment(s: &Vec<char>, span: Span) -> (r: Option<u16>)
    requires
        span.fits(s@.len()),
    ensures
        r == segment_of_text(span.of(s@)),
{
    match read_number(s, span, 16, 4) {
        Some(v) => {
            proof {
                lemma_number_bound(span.of(s@), 16);
            }
            Some(v as u16)
        },
        None => None,
    }
}

/// Reads the IPv4 address that the part of `s` under `span` writes.
pub fn parse_ipv4_span(s: &Vec<char>, span: Span) -> (r: Option<Ipv4Address>)
    requires
        span.fits(s@.len()),
    ensures
        r == ipv4_of_text(span.of(s@)),
{
    let fields = split_span(s, span, '.');
    if fields.len() != 4 {
        return None;
    }
    let a = match parse_octet(s, fields[0]) {
        Some(v) => v,
        None => { return None; },
    };
    let b = match parse_octet(s, fields[1]) {
        Some(v) => v,
        None => { return None; },
    };
    let c = match parse_octet(s, fields[2]) {
        Some(v) => v,
        None => { return None; },
    };
    let d = match parse_octet(s, fields[3]) {
        Some(v) => v,
        None => { return None; },
    };
    Some(Ipv4Address(a, b, c, d))
}

/// Finds the first `::` in the part of `s` under `span`: its index in `s`.
fn find_double_colon(s: &Vec<char>, span: Span) -> (r: Option<usize>)
    requires
        span.fits(s@.len()),
    ensures
        match r {
            Some(i) => span.start <= i && i + 2 <= span.end && double_colon(span.of(s@)) == Some(
                i - span.start,
            ),
            None => double_colon(span.of(s@)) is None,
        },
{
    let ghost f = span.of(s@);
    let mut i: usize = span.start;
    while i < span.end && i + 1 < span.end
        invariant
            span.fits(s@.len()),
            f == span.of(s@),
            span.start <= i,
            forall|j: int|
                0 <= j < i - span.start && j + 1 < f.len() ==> !(#[trigger] f[j] == ':' && f[j + 1]
                    == ':'),
        decreases span.end - i,
    {
        assert(f[i - span.start] == s@[i as int]);
        assert(f[i - span.start + 1] == s@[i + 1]);
        if s[i] == ':' && s[i + 1] == ':' {
            proof {
                lemma_double_colon_is(f, i - span.start);
            }
            return Some(i);
        }
        i += 1;
    }
    proof {
        lemma_double_colon_is(f, i - span.start);
    }
    None
}

/// Reads the segments that the part of `s` under `span` writes as groups
/// joined by colons; see [`groups_of_text`].
fn parse_groups(s: &Vec<char>, span: Span, v4_tail: bool) -> (r: Option<Vec<u16>>)
    requires
        span.fits(s@.len()),
    ensures
        match r {
            Some(v) => groups_of_text(span.of(s@), v4_tail) == Some(v@),
            None => groups_of_text(span.of(s@), v4_tail) is None,
        },
{
    let mut out: Vec<u16> = Vec::new();
    if span.start == span.end {
        assert(out@ =~= Seq::<u16>::empty());
        return Some(out);
    }
    let ghost f = split(span.of(s@), ':');
    let fields = split_span(s, span, ':');
    let mut count: usize = fields.len();
    let mut tail: Option<Ipv4Address> = None;
    if v4_tail {
        assert(fields@[count - 1].of(s@) == f.last());
        tail = parse_ipv4_span(s, fields[count - 1]);
        if tail.is_some() {
            count = count - 1;
        }
    }
    let ghost hex = f.take(count as int);
    assert(tail is Some ==> hex =~= f.drop_last());
    assert(tail is None ==> hex =~= f);
    let mut i: usize = 0;
    while i < count
        invariant
            span.fits(s@.len()),
            spans_cover(s@, fields@, f),
            hex == f.take(count as int),
            count <= fields@.len(),
            span.of(s@).len() > 0,
            f == split(span.of(s@), ':'),
            v4_tail ==> tail == ipv4_of_text(f.last()),
            !v4_tail ==> tail is None,
            tail is Some ==> hex == f.drop_last(),
            tail is None ==> hex == f,
            0 <= i <= count,
            out@.len() == i,
            forall|j: int| 0 <= j < i ==> segment_of_text(#[trigger] hex[j]) == Some(out@[j]),
        decreases count - i,
    {
        assert(fields@[i as int].of(s@) == hex[i as int]);
        match parse_segment(s, fields[i]) {
            Some(v) => {
                out.push(v);
            },
            None => {
                assert(!all_segments(hex));
                return None;
            },
        }
        i += 1;
    }
    assert(all_segments(hex));
    assert(out@ =~= segments_of(hex));
    match tail {
        Some(a) => {
            let ghost before = out@;
            out.push(pack(a.0, a.1));
            out.push(pack(a.2, a.3));
            assert(out@ =~= before + segments_of_ipv4(a));
        },
        None => {},
    }
    Some(out)
}

/// Reads the IPv6 address that the part of `s` under `span` writes.
pub fn parse_ipv6_span(s: &Vec<char>, span: Span) -> (r: Option<Ipv6Address>)
    requires
        span.fits(s@.len()),
    ensures
        r == ipv6_of_text(span.of(s@)),
{
    let ghost f = span.of(s@);
    match find_double_colon(s, span) {
        None => match parse_groups(s, span, true) {
            Some(g) => {
                if g.len() == 8 {
                    Some(Ipv6Address(g[0], g[1], g[2], g[3], g[4], g[5], g[6], g[7]))
                } else {
                    None
                }
            },
            None => None,
        },
        Some(i) => {
            let before = Span { start: span.start, end: i };
            let behind = Span { start: i + 2, end: span.end };
            assert(before.of(s@) =~= f.take(i - span.start));
            assert(behind.of(s@) =~= f.skip(i - span.start + 2));
            let head = match parse_groups(s, before, false) {
                Some(g) => g,
                None => { return None; },
            };
            let tail = match parse_groups(s, behind, true) {
                Some(g) => g,
                None => { return None; },
            };
            if head.len() > 7 || tail.len() > 7 - head.len() {
                return None;
            }
            let ghost all = head@ + zero_segments(8 - head@.len() - tail@.len()) + tail@;
            let mut segments: Vec<u16> = Vec::new();
            let mut k: usize = 0;
            while k < 8
                invariant
                    head@.len() + tail@.len() <= 7,
                    all == head@ + zero_segments(8 - head@.len() - tail@.len()) + tail@,
                    0 <= k <= 8,
                    segments@.len() == k,
                    forall|j: int| 0 <= j < k ==> segments@[j] == all[j],
                decreases 8 - k,
            {
                let v: u16 = if k < head.len() {
                    head[k]
                } else if k < 8 - tail.len() {
                    0
                } else {
                    tail[k - (8 - tail.len())]
                };
                segments.push(v);
                k += 1;
            }
            Some(
                Ipv6Address(
                    segments[0],
                    segments[1],
                    segments[2],
                    segments[3],
                    segments[4],
                    segments[5],
                    segments[6],
                    segments[7],
                ),
            )
        },
    }
}

/// Reads the address that the part of `s` under `span` writes.
pub fn parse_address_span(s: &Vec<char>, span: Span) -> (r: Option<Address>)
    requires
        span.fits(s@.len()),
    ensures
        r == address_of_text(span.of(s@)),
{
    match parse_ipv4_span(s, span) {
        Some(a) => Some(Address::V4(a)),
        None => match parse_ipv6_span(s, span) {
            Some(a) => Some(Address::V6(a)),
            None => None,
        },
    }
}

/// Reads the address that `text` writes: `Some` exactly for a text that is,
/// from its first character to its last, an IPv4 or an IPv6 address.
pub fn parse_address(text: &str) -> (r: Option<Address>)
    ensures
        r == address_of_text(text@),
{
    let s = chars_of(text);
    let whole = Span { start: 0, end: s.len() };
    assert(whole.of(s@) =~= text@);
    parse_address_span(&s, whole)
}

} // verus!
