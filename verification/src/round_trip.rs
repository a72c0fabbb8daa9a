//! Reading and writing agree: the text that the library writes for an
//! address is read back as that address, and an IPv4 address has no other
//! text.

use vstd::prelude::*;
use crate::address::{Address, Ipv4Address, Ipv6Address};
use crate::format::{
    address_text, decimal_text, digit_char, hex_text, ipv4_text, ipv6_text, joined_hex,
    longest_zero_run, zeros_before,
};
use crate::parse::{
    address_of_text, all_digits, digit, double_colon, groups_of_text, ipv4_of_text, ipv6_of_text,
    lemma_double_colon_is, number, octet_of_text, segment_of_text, segments_of, segments_of_ipv4,
    zero_segments,
};
use crate::text::{
    first_index, lemma_first_index_free, lemma_first_index_is, lemma_split_fields, split,
};

verus! {

/// `fields` joined by `sep`.
pub open spec fn join(fields: Seq<Seq<char>>, sep: char) -> Seq<char>
    decreases fields.len(),
{
    if fields.len() == 0 {
        Seq::empty()
    } else if fields.len() == 1 {
        fields[0]
    } else {
        fields[0] + seq![sep] + join(fields.drop_first(), sep)
    }
}

/// Whether `s` holds the character `c`.
pub open spec fn holds(s: Seq<char>, c: char) -> bool {
    exists|i: int| 0 <= i < s.len() && s[i] == c
}

/// The character of a digit is read as that digit.
pub proof fn lemma_digit_char(d: int)
    requires
        0 <= d < 16,
    ensures
        digit(digit_char(d), 16) == Some(d),
        d < 10 ==> digit(digit_char(d), 10) == Some(d),
        d != 0 ==> digit_char(d) != '0',
        d == 0 ==> digit_char(d) == '0',
{
}

/// A decimal digit is written as the character that was read.
pub proof fn lemma_digit_char_of_digit(c: char)
    requires
        digit(c, 10) is Some,
    ensures
        digit_char(digit(c, 10)->0) == c,
        (c == '0') <==> digit(c, 10) == Some(0int),
{
}

/// Neither a dot nor a colon is a digit.
pub proof fn lemma_digits_hold_no_separator(s: Seq<char>, radix: int)
    requires
        radix == 10 || radix == 16,
        all_digits(s, radix),
    ensures
        !holds(s, '.'),
        !holds(s, ':'),
{
    assert(digit('.', radix) is None);
    assert(digit(':', radix) is None);
}

/// Splitting loses nothing: the fields of `s`, joined again by the
/// separator, are `s`.
pub proof fn lemma_join_split(s: Seq<char>, sep: char)
    ensures
        join(split(s, sep), sep) == s,
    decreases s.len(),
{
    let k = first_index(s, sep) as int;
    lemma_first_index_free(s, sep);
    if k < s.len() {
        let rest = s.skip(k + 1);
        lemma_join_split(rest, sep);
        lemma_split_fields(rest, sep);
        let fields = seq![s.take(k)] + split(rest, sep);
        assert(fields.drop_first() =~= split(rest, sep));
        assert(s.take(k) + seq![sep] + rest =~= s);
    }
}

/// A text that does not hold the separator is one field.
pub proof fn lemma_split_one(s: Seq<char>, sep: char)
    requires
        !holds(s, sep),
    ensures
        split(s, sep) == seq![s],
{
    lemma_first_index_is(s, sep, s.len() as int);
}

/// Behind a first field that does not hold the separator, the fields of
/// the rest follow.
pub proof fn lemma_split_joined(a: Seq<char>, b: Seq<char>, sep: char)
    requires
        !holds(a, sep),
    ensures
        split(a + seq![sep] + b, sep) == seq![a] + split(b, sep),
{
    let s = a + seq![sep] + b;
    assert forall|i: int| 0 <= i < a.len() implies s[i] != sep by {
        assert(s[i] == a[i]);
    }
    assert(s[a.len() as int] == sep);
    lemma_first_index_is(s, sep, a.len() as int);
    assert(s.take(a.len() as int) =~= a);
    assert(s.skip(a.len() as int + 1) =~= b);
}

/// What [`decimal_text`] writes is read as the number written: digits
/// only, as many as the number needs, the first of them no zero unless the
/// number is below ten.
pub proof fn lemma_decimal_text(n: nat)
    ensures
        all_digits(decimal_text(n), 10),
        number(decimal_text(n), 10) == n,
        decimal_text(n).len() >= 1,
        n < 10 ==> decimal_text(n).len() == 1,
        10 <= n < 100 ==> decimal_text(n).len() == 2,
        100 <= n < 1000 ==> decimal_text(n).len() == 3,
        n >= 10 ==> decimal_text(n)[0] != '0',
    decreases n,
{
    let t = decimal_text(n);
    if n < 10 {
        lemma_digit_char(n as int);
        assert(t.drop_last() =~= Seq::<char>::empty());
        assert(number(t.drop_last(), 10) == 0);
    } else {
        let before = decimal_text(n / 10);
        lemma_decimal_text(n / 10);
        lemma_digit_char((n % 10) as int);
        assert(t.drop_last() =~= before);
        assert(t[0] == before[0]);
        assert forall|i: int| 0 <= i < t.len() implies digit(#[trigger] t[i], 10) is Some by {
            if i < before.len() {
                assert(t[i] == before[i]);
            }
        }
    }
}

/// What [`hex_text`] writes for a segment is read as that segment: one to
/// four hexadecimal digits.
pub proof fn lemma_hex_text(n: nat)
    requires
        n <= 0xFFFF,
    ensures
        all_digits(hex_text(n), 16),
        number(hex_text(n), 16) == n,
        1 <= hex_text(n).len() <= 4,
        n < 0x1000 ==> hex_text(n).len() <= 3,
        n < 0x100 ==> hex_text(n).len() <= 2,
        n < 0x10 ==> hex_text(n).len() == 1,
        segment_of_text(hex_text(n)) == Some(n as u16),
    decreases n,
{
    let t = hex_text(n);
    if n < 16 {
        lemma_digit_char(n as int);
        assert(t.drop_last() =~= Seq::<char>::empty());
        assert(number(t.drop_last(), 16) == 0);
    } else {
        let before = hex_text(n / 16);
        lemma_hex_text(n / 16);
        lemma_digit_char((n % 16) as int);
        assert(t.drop_last() =~= before);
        assert forall|i: int| 0 <= i < t.len() implies digit(#[trigger] t[i], 16) is Some by {
            if i < before.len() {
                assert(t[i] == before[i]);
            }
        }
    }
}

/// An octet's decimal text is read as that octet.
pub proof fn lemma_octet_round_trip(v: u8)
    ensures
        octet_of_text(decimal_text(v as nat)) == Some(v),
        !holds(decimal_text(v as nat), '.'),
        !holds(decimal_text(v as nat), ':'),
{
    lemma_decimal_text(v as nat);
    lemma_digits_hold_no_separator(decimal_text(v as nat), 10);
}

/// The fields of an IPv4 address's text are the decimal texts of its
/// octets.
pub proof fn lemma_ipv4_text_fields(a: Ipv4Address)
    ensures
        split(ipv4_text(a), '.') == seq![
            decimal_text(a.0 as nat),
            decimal_text(a.1 as nat),
            decimal_text(a.2 as nat),
            decimal_text(a.3 as nat),
        ],
{
    let d0 = decimal_text(a.0 as nat);
    let d1 = decimal_text(a.1 as nat);
    let d2 = decimal_text(a.2 as nat);
    let d3 = decimal_text(a.3 as nat);
    lemma_octet_round_trip(a.0);
    lemma_octet_round_trip(a.1);
    lemma_octet_round_trip(a.2);
    lemma_octet_round_trip(a.3);
    let r2 = d2 + seq!['.'] + d3;
    let r1 = d1 + seq!['.'] + r2;
    assert(ipv4_text(a) =~= d0 + seq!['.'] + r1);
    lemma_split_joined(d0, r1, '.');
    lemma_split_joined(d1, r2, '.');
    lemma_split_joined(d2, d3, '.');
    lemma_split_one(d3, '.');
    assert(seq![d0] + (seq![d1] + (seq![d2] + seq![d3])) =~= seq![d0, d1, d2, d3]);
}

/// The text of an IPv4 address is read back as that address.
pub proof fn lemma_ipv4_round_trip(a: Ipv4Address)
    ensures
        ipv4_of_text(ipv4_text(a)) == Some(a),
{
    lemma_ipv4_text_fields(a);
    lemma_octet_round_trip(a.0);
    lemma_octet_round_trip(a.1);
    lemma_octet_round_trip(a.2);
    lemma_octet_round_trip(a.3);
}

/// Decimal digits without a leading zero are the decimal text of their
/// number.
pub proof fn lemma_decimal_canonical(f: Seq<char>)
    requires
        f.len() >= 1,
        all_digits(f, 10),
        f.len() == 1 || f[0] != '0',
    ensures
        f == decimal_text(number(f, 10) as nat),
        number(f, 10) >= 0,
        f.len() >= 2 ==> number(f, 10) >= 10,
        f[0] != '0' ==> number(f, 10) >= 1,
    decreases f.len(),
{
    let last = f.last();
    let d = digit(last, 10)->0;
    assert(digit(f[f.len() - 1], 10) is Some);
    lemma_digit_char_of_digit(last);
    lemma_digit_char_of_digit(f[0]);
    let before = f.drop_last();
    if f.len() == 1 {
        assert(before =~= Seq::<char>::empty());
        assert(number(before, 10) == 0);
        assert(f =~= seq![digit_char(d)]);
    } else {
        assert forall|i: int| 0 <= i < before.len() implies digit(#[trigger] before[i], 10)
            is Some by {
            assert(before[i] == f[i]);
        }
        assert(before[0] == f[0]);
        lemma_decimal_canonical(before);
        let n = number(f, 10);
        assert(n == number(before, 10) * 10 + d);
        assert(n / 10 == number(before, 10));
        assert(n % 10 == d);
        assert(f =~= before.push(last));
    }
}

/// An IPv4 address has one text: whatever is read as the address is the
/// text that is written for it.
pub proof fn lemma_ipv4_text_unique(s: Seq<char>, a: Ipv4Address)
    requires
        ipv4_of_text(s) == Some(a),
    ensures
        s == ipv4_text(a),
{
    let f = split(s, '.');
    lemma_join_split(s, '.');
    lemma_decimal_canonical(f[0]);
    lemma_decimal_canonical(f[1]);
    lemma_decimal_canonical(f[2]);
    lemma_decimal_canonical(f[3]);
    let f1 = f.drop_first();
    let f2 = f1.drop_first();
    let f3 = f2.drop_first();
    assert(f1[0] == f[1]);
    assert(f2[0] == f[2]);
    assert(f3[0] == f[3]);
    assert(join(f3, '.') == f[3]);
    assert(join(f2, '.') == f[2] + seq!['.'] + f[3]);
    assert(join(f1, '.') == f[1] + seq!['.'] + (f[2] + seq!['.'] + f[3]));
    assert(s == f[0] + seq!['.'] + (f[1] + seq!['.'] + (f[2] + seq!['.'] + f[3])));
    assert(s =~= ipv4_text(a));
}

/// Behind fields that are followed by a last field without the separator,
/// that field comes last.
pub proof fn lemma_split_push(x: Seq<char>, y: Seq<char>, sep: char)
    requires
        !holds(y, sep),
    ensures
        split(x + seq![sep] + y, sep) == split(x, sep).push(y),
    decreases x.len(),
{
    let s = x + seq![sep] + y;
    let k = first_index(x, sep) as int;
    lemma_first_index_free(x, sep);
    if k >= x.len() {
        assert forall|i: int| 0 <= i < x.len() implies x[i] != sep by {}
        lemma_split_joined(x, y, sep);
        lemma_split_one(y, sep);
        assert(seq![x] + seq![y] =~= seq![x].push(y));
    } else {
        assert forall|i: int| 0 <= i < k implies s[i] != sep by {
            assert(s[i] == x[i]);
        }
        assert(s[k] == x[k]);
        lemma_first_index_is(s, sep, k);
        let rest = x.skip(k + 1);
        assert(s.take(k) =~= x.take(k));
        assert(s.skip(k + 1) =~= rest + seq![sep] + y);
        lemma_split_push(rest, y, sep);
        assert(seq![x.take(k)] + split(rest, sep).push(y) =~= (seq![x.take(k)] + split(
            rest,
            sep,
        )).push(y));
    }
}

/// Whether `t` has the outline of groups joined by single colons: it is
/// not empty, neither begins nor ends with a colon, holds no two colons
/// side by side, and holds no dot.
pub open spec fn plain_groups(t: Seq<char>) -> bool {
    &&& t.len() >= 1
    &&& t[0] != ':'
    &&& t.last() != ':'
    &&& forall|i: int| 0 <= i < t.len() - 1 ==> !(#[trigger] t[i] == ':' && t[i + 1] == ':')
    &&& forall|i: int| 0 <= i < t.len() ==> #[trigger] t[i] != '.'
}

/// The hexadecimal text of a segment holds digits only.
pub proof fn lemma_hex_text_plain(v: u16)
    ensures
        plain_groups(hex_text(v as nat)),
        !holds(hex_text(v as nat), ':'),
        !holds(hex_text(v as nat), '.'),
        ipv4_of_text(hex_text(v as nat)) is None,
{
    let h = hex_text(v as nat);
    lemma_hex_text(v as nat);
    lemma_digits_hold_no_separator(h, 16);
    assert forall|i: int| 0 <= i < h.len() implies #[trigger] h[i] != '.' && h[i] != ':' by {
        assert(digit(h[i], 16) is Some);
    }
    lemma_split_one(h, '.');
}

/// What [`joined_hex`] writes for one segment or more: the segments'
/// texts, with single colons between them.
pub proof fn lemma_joined_hex_fields(segments: Seq<u16>)
    requires
        segments.len() >= 1,
    ensures
        plain_groups(joined_hex(segments)),
        split(joined_hex(segments), ':').len() == segments.len(),
        forall|i: int|
            0 <= i < segments.len() ==> #[trigger] split(joined_hex(segments), ':')[i] == hex_text(
                segments[i] as nat,
            ),
    decreases segments.len(),
{
    let text = joined_hex(segments);
    let h = hex_text(segments.last() as nat);
    lemma_hex_text_plain(segments.last());
    if segments.len() == 1 {
        lemma_split_one(h, ':');
    } else {
        let before = joined_hex(segments.drop_last());
        lemma_joined_hex_fields(segments.drop_last());
        lemma_split_push(before, h, ':');
        assert(text == before + seq![':'] + h);
        assert forall|i: int| 0 <= i < text.len() - 1 implies !(#[trigger] text[i] == ':'
            && text[i + 1] == ':') by {
            if i + 1 < before.len() {
                assert(text[i] == before[i]);
                assert(text[i + 1] == before[i + 1]);
            } else if i + 1 == before.len() {
                assert(text[i] == before.last());
            } else if i == before.len() {
                assert(text[i + 1] == h[0]);
            } else {
                assert(text[i] == h[i - before.len() - 1]);
            }
        }
        assert forall|i: int| 0 <= i < text.len() implies #[trigger] text[i] != '.' by {
            if i < before.len() {
                assert(text[i] == before[i]);
            } else if i > before.len() {
                assert(text[i] == h[i - before.len() - 1]);
            }
        }
        assert(text[0] == before[0]);
        assert(text.last() == h.last());
        assert forall|i: int| 0 <= i < segments.len() implies #[trigger] split(text, ':')[i]
            == hex_text(segments[i] as nat) by {
            if i < segments.len() - 1 {
                assert(split(text, ':')[i] == split(before, ':')[i]);
                assert(segments.drop_last()[i] == segments[i]);
            }
        }
    }
}

/// Segments joined by colons are read back as those segments.
pub proof fn lemma_groups_round_trip(segments: Seq<u16>, v4_tail: bool)
    ensures
        groups_of_text(joined_hex(segments), v4_tail) == Some(segments),
        segments.len() == 0 <==> joined_hex(segments).len() == 0,
{
    let text = joined_hex(segments);
    if segments.len() == 0 {
        assert(segments =~= Seq::<u16>::empty());
    } else {
        lemma_joined_hex_fields(segments);
        let f = split(text, ':');
        lemma_hex_text_plain(segments.last());
        assert(f.last() == hex_text(segments.last() as nat));
        assert forall|i: int| 0 <= i < f.len() implies segment_of_text(#[trigger] f[i]) == Some(
            segments[i],
        ) by {
            lemma_hex_text(segments[i] as nat);
        }
        assert(segments_of(f) =~= segments);
    }
}

/// What stands directly before index `i` is a run of zeros, and no longer
/// run ends there.
pub proof fn lemma_zeros_before(segments: Seq<u16>, i: int)
    requires
        0 <= i <= segments.len(),
    ensures
        0 <= zeros_before(segments, i) <= i,
        forall|j: int| i - zeros_before(segments, i) <= j < i ==> segments[j] == 0,
        zeros_before(segments, i) < i ==> segments[i - zeros_before(segments, i) - 1] != 0,
    decreases i,
{
    if i > 0 && segments[i - 1] == 0 {
        lemma_zeros_before(segments, i - 1);
    }
}

/// Whether the `len` segments from index `start` on are all zero.
pub open spec fn is_zero_run(segments: Seq<u16>, start: int, len: int) -> bool {
    &&& 0 <= start
    &&& 0 <= len
    &&& start + len <= segments.len()
    &&& forall|j: int| start <= j < start + len ==> segments[j] == 0
}

/// The run that [`longest_zero_run`] finds among the first `i` segments is
/// a run of zeros; no run of zeros there is longer, and none as long
/// starts before it.
pub proof fn lemma_longest_zero_run(segments: Seq<u16>, i: int)
    requires
        0 <= i <= segments.len(),
    ensures
        is_zero_run(segments, longest_zero_run(segments, i).start, longest_zero_run(segments, i).len),
        longest_zero_run(segments, i).start + longest_zero_run(segments, i).len <= i,
        forall|start: int, len: int|
            #![trigger is_zero_run(segments, start, len)]
            is_zero_run(segments, start, len) && start + len <= i ==> {
                &&& len <= longest_zero_run(segments, i).len
                &&& len == longest_zero_run(segments, i).len && len > 0 ==> start
                    >= longest_zero_run(segments, i).start
            },
    decreases i,
{
    if i > 0 {
        lemma_longest_zero_run(segments, i - 1);
        lemma_zeros_before(segments, i);
        let before = longest_zero_run(segments, i - 1);
        let here = zeros_before(segments, i);
        let found = longest_zero_run(segments, i);
        assert forall|start: int, len: int|
            #![trigger is_zero_run(segments, start, len)]
            is_zero_run(segments, start, len) && start + len <= i implies len <= found.len && (len
            == found.len && len > 0 ==> start >= found.start) by {
            if start + len == i && len > 0 {
                if len > here {
                    assert(segments[i - here - 1] == 0);
                }
                assert(is_zero_run(segments, start, len - 1));
            } else if len > 0 {
                assert(start + len <= i - 1);
            }
        }
    }
}

/// An IPv4 address's text holds no colon.
pub proof fn lemma_ipv4_text_holds_no_colon(a: Ipv4Address)
    ensures
        !holds(ipv4_text(a), ':'),
{
    let d0 = decimal_text(a.0 as nat);
    let d1 = decimal_text(a.1 as nat);
    let d2 = decimal_text(a.2 as nat);
    let d3 = decimal_text(a.3 as nat);
    lemma_octet_round_trip(a.0);
    lemma_octet_round_trip(a.1);
    lemma_octet_round_trip(a.2);
    lemma_octet_round_trip(a.3);
    let t = ipv4_text(a);
    assert forall|i: int| 0 <= i < t.len() implies t[i] != ':' by {
        if i < d0.len() {
            assert(t[i] == d0[i]);
        } else if i == d0.len() {
        } else if i < d0.len() + 1 + d1.len() {
            assert(t[i] == d1[i - d0.len() - 1]);
        } else if i == d0.len() + 1 + d1.len() {
        } else if i < d0.len() + 1 + d1.len() + 1 + d2.len() {
            assert(t[i] == d2[i - d0.len() - 1 - d1.len() - 1]);
        } else if i == d0.len() + 1 + d1.len() + 1 + d2.len() {
        } else {
            assert(t[i] == d3[i - d0.len() - 1 - d1.len() - 1 - d2.len() - 1]);
        }
    }
}

/// The first `::` of a text that leaves out zeros stands between what is
/// written before it and what is written behind it.
pub proof fn lemma_double_colon_between(head: Seq<char>, tail: Seq<char>)
    requires
        head.len() == 0 || plain_groups(head),
    ensures
        double_colon(head + seq![':', ':'] + tail) == Some(head.len() as int),
        (head + seq![':', ':'] + tail).take(head.len() as int) == head,
        (head + seq![':', ':'] + tail).skip(head.len() as int + 2) == tail,
{
    let s = head + seq![':', ':'] + tail;
    let k = head.len() as int;
    assert forall|i: int| 0 <= i < k && i + 1 < s.len() implies !(#[trigger] s[i] == ':' && s[i
        + 1] == ':') by {
        assert(s[i] == head[i]);
        if i + 1 < k {
            assert(s[i + 1] == head[i + 1]);
        }
    }
    assert(s[k] == ':');
    assert(s[k + 1] == ':');
    lemma_double_colon_is(s, k);
    assert(s.take(k) =~= head);
    assert(s.skip(k + 2) =~= tail);
}

/// The text of an IPv4-mapped address is read back as that address.
pub proof fn lemma_mapped_text_round_trip(a: Ipv6Address)
    requires
        a.is_ipv4_mapped(),
    ensures
        ipv6_of_text(ipv6_text(a)) == Some(a),
{
    let text = ipv6_text(a);
    let low = a.low_ipv4();
    let low_text = ipv4_text(low);
    let ffff = hex_text(0xFFFF);
    let tail = ffff + seq![':'] + low_text;
    let none = Seq::<char>::empty();
    assert(ffff =~= seq!['f', 'f', 'f', 'f']) by {
        reveal_with_fuel(hex_text, 4);
    }
    assert(text =~= none + seq![':', ':'] + tail);
    lemma_double_colon_between(none, tail);
    let groups = seq![0xFFFFu16] + segments_of_ipv4(low);
    assert(groups_of_text(tail, true) == Some(groups)) by {
        lemma_hex_text_plain(0xFFFF);
        lemma_hex_text(0xFFFF);
        lemma_ipv4_text_holds_no_colon(low);
        lemma_split_joined(ffff, low_text, ':');
        lemma_split_one(low_text, ':');
        lemma_ipv4_round_trip(low);
        let f = split(tail, ':');
        assert(f =~= seq![ffff, low_text]);
        assert(f.last() == low_text);
        assert(f.drop_last() =~= seq![ffff]);
        assert(segments_of(f.drop_last()) =~= seq![0xFFFFu16]);
    }
    assert(groups_of_text(none, false) == Some(Seq::<u16>::empty()));
    let all = Seq::<u16>::empty() + zero_segments(8 - 0 - groups.len()) + groups;
    assert(groups.len() == 3);
    assert(all.len() == 8);
    assert(all[0] == 0 && all[1] == 0 && all[2] == 0 && all[3] == 0 && all[4] == 0);
    assert(all[5] == 0xFFFF);
    assert(all[6] == a.6);
    assert(all[7] == a.7);
    assert(Ipv6Address::from_segments(all) == a);
}

/// The text of an IPv4-mapped address is no IPv4 address's text.
pub proof fn lemma_mapped_not_ipv4(a: Ipv6Address)
    requires
        a.is_ipv4_mapped(),
    ensures
        ipv4_of_text(ipv6_text(a)) is None,
{
    let text = ipv6_text(a);
    let low = a.low_ipv4();
    let d0 = decimal_text(low.0 as nat);
    let d1 = decimal_text(low.1 as nat);
    let d2 = decimal_text(low.2 as nat);
    let d3 = decimal_text(low.3 as nat);
    let first = seq![':', ':', 'f', 'f', 'f', 'f', ':'] + d0;
    let rest = d1 + seq!['.'] + d2 + seq!['.'] + d3;
    lemma_octet_round_trip(low.0);
    assert forall|i: int| 0 <= i < first.len() implies first[i] != '.' by {
        if i >= 7 {
            assert(first[i] == d0[i - 7]);
        }
    }
    assert(text =~= first + seq!['.'] + rest);
    lemma_split_joined(first, rest, '.');
    assert(split(text, '.')[0] == first);
    assert(digit(first[0], 10) is None);
}

/// The text of an address with a run of zeros left out is read back as
/// that address.
pub proof fn lemma_compressed_round_trip(a: Ipv6Address)
    requires
        !a.is_ipv4_mapped(),
        longest_zero_run(a.segments(), 8).len > 1,
    ensures
        ipv6_of_text(ipv6_text(a)) == Some(a),
        ipv4_of_text(ipv6_text(a)) is None,
{
    let s = a.segments();
    let text = ipv6_text(a);
    let zeros = longest_zero_run(s, 8);
    lemma_longest_zero_run(s, 8);
    let before = s.take(zeros.start);
    let behind = s.skip(zeros.start + zeros.len);
    let head = joined_hex(before);
    let tail = joined_hex(behind);
    lemma_groups_round_trip(before, false);
    lemma_groups_round_trip(behind, true);
    if before.len() > 0 {
        lemma_joined_hex_fields(before);
    }
    if behind.len() > 0 {
        lemma_joined_hex_fields(behind);
    }
    lemma_double_colon_between(head, tail);
    let all = before + zero_segments(8 - before.len() - behind.len()) + behind;
    assert(all =~= s);
    assert(Ipv6Address::from_segments(s) == a);
    assert forall|i: int| 0 <= i < text.len() implies text[i] != '.' by {
        if i < head.len() {
            assert(text[i] == head[i]);
        } else if i >= head.len() + 2 {
            assert(text[i] == tail[i - head.len() - 2]);
        }
    }
    lemma_not_ipv4(text);
}

/// The text of an address with all its segments written is read back as
/// that address.
pub proof fn lemma_full_round_trip(a: Ipv6Address)
    requires
        !a.is_ipv4_mapped(),
        longest_zero_run(a.segments(), 8).len <= 1,
    ensures
        ipv6_of_text(ipv6_text(a)) == Some(a),
        ipv4_of_text(ipv6_text(a)) is None,
{
    let s = a.segments();
    let text = ipv6_text(a);
    lemma_groups_round_trip(s, true);
    lemma_joined_hex_fields(s);
    lemma_double_colon_is(text, text.len() as int);
    assert(Ipv6Address::from_segments(s) == a);
    lemma_not_ipv4(text);
}

/// The text of an IPv6 address is read back as that address, and is no
/// IPv4 address's text.
pub proof fn lemma_ipv6_round_trip(a: Ipv6Address)
    ensures
        ipv6_of_text(ipv6_text(a)) == Some(a),
        ipv4_of_text(ipv6_text(a)) is None,
{
    if a.is_ipv4_mapped() {
        lemma_mapped_text_round_trip(a);
        lemma_mapped_not_ipv4(a);
    } else if longest_zero_run(a.segments(), 8).len > 1 {
        lemma_compressed_round_trip(a);
    } else {
        lemma_full_round_trip(a);
    }
}

/// A text without a dot is no IPv4 address's text.
pub proof fn lemma_not_ipv4(s: Seq<char>)
    requires
        forall|i: int| 0 <= i < s.len() ==> s[i] != '.',
    ensures
        ipv4_of_text(s) is None,
{
    lemma_split_one(s, '.');
}

/// The text of an address is read back as that address.
pub proof fn lemma_address_round_trip(a: Address)
    ensures
        address_of_text(address_text(a)) == Some(a),
{
    match a {
        Address::V4(a) => lemma_ipv4_round_trip(a),
        Address::V6(a) => lemma_ipv6_round_trip(a),
    }
}

} // verus!
