//! IP addresses as literals: four decimal octets with dots between them, or
//! eight groups of hexadecimal digits with colons between them, of which one
//! run of zero groups may be written `::` and the last two as four octets.

use vstd::prelude::*;
use crate::chars::{
    all_in, at, digit_of, is_at, lemma_run_end, lemma_run_end_unique, run_end, scan, to_chars, Class,
};
use crate::number::{decimal_text, lemma_canonical_numeral, lemma_decimal_text, radix_value};

verus! {

/// An IP address.
#[derive(Clone, Copy, Debug, PartialEq, Eq)]
pub enum IpAddress {
    /// The four octets of an IPv4 address, the first as written first.
    V4([u8; 4]),
    /// The eight 16-bit segments of an IPv6 address, the first as written first.
    V6([u16; 8]),
}

/// An IP address as a sequence of octets or of segments.
pub enum IpView {
    V4(Seq<u8>),
    V6(Seq<u16>),
}

impl View for IpAddress {
    type V = IpView;

    open spec fn view(&self) -> IpView {
        match *self {
            IpAddress::V4(octets) => IpView::V4(octets@),
            IpAddress::V6(segments) => IpView::V6(segments@),
        }
    }
}

/// What was read from a literal, and the index at which it ends.
pub struct Read<T> {
    pub value: T,
    pub end: int,
}

/// The octet written in decimal digits from index `from` of `s` on, and where
/// it ends: one to three digits, as many as stand there, without a leading
/// zero, and 255 at most.
pub open spec fn octet_at(s: Seq<char>, from: int) -> Option<Read<u8>> {
    let end = run_end(s, from, Class::Digit);
    let value = radix_value(s.subrange(from, end), 10);
    if 0 <= from && 1 <= end - from <= 3 && (end - from == 1 || s[from] != '0') && value <= 255 {
        Some(Read { value: value as u8, end })
    } else {
        None
    }
}

/// The `count` octets written from index `from` of `s` on with one dot between
/// each two, and where they end.
pub open spec fn octets_at(s: Seq<char>, from: int, count: nat) -> Option<Read<Seq<u8>>>
    decreases count,
{
    if count == 0 {
        Some(Read { value: Seq::empty(), end: from })
    } else if count == 1 {
        match octet_at(s, from) {
            Some(octet) => Some(Read { value: seq![octet.value], end: octet.end }),
            None => None,
        }
    } else {
        match octets_at(s, from, (count - 1) as nat) {
            Some(octets) => if at(s, octets.end, '.') {
                match octet_at(s, octets.end + 1) {
                    Some(octet) => Some(
                        Read { value: octets.value.push(octet.value), end: octet.end },
                    ),
                    None => None,
                }
            } else {
                None
            },
            None => None,
        }
    }
}

/// The IPv4 address that `s` is the literal of.
pub open spec fn ipv4_literal(s: Seq<char>) -> Option<Seq<u8>> {
    match octets_at(s, 0, 4) {
        Some(octets) => if octets.end == s.len() {
            Some(octets.value)
        } else {
            None
        },
        None => None,
    }
}

/// The segment written in hexadecimal digits from index `from` of `s` on, and
/// where it ends: one to four digits, as many as stand there.
pub open spec fn group_at(s: Seq<char>, from: int) -> Option<Read<u16>> {
    let end = run_end(s, from, Class::Hex);
    if 0 <= from && 1 <= end - from <= 4 {
        Some(Read { value: radix_value(s.subrange(from, end), 16) as u16, end })
    } else {
        None
    }
}

/// The segment that two octets make, the first being its high half.
pub open spec fn segment_of(high: u8, low: u8) -> u16 {
    (high as u16 * 256 + low as u16) as u16
}

/// Segments read from a literal: their values, where they end, and whether
/// the last two were written as four octets.
pub struct Groups {
    pub segments: Seq<u16>,
    pub end: int,
    pub embedded: bool,
}

/// The segments written from index `from` of `s` on, `room` at most, with one
/// colon between each two; `first` says that no colon comes before the first.
/// Four octets may stand for the last two segments; nothing is read after
/// them.
pub open spec fn groups_at(s: Seq<char>, from: int, first: bool, room: nat) -> Groups
    decreases room,
{
    let start = if first {
        from
    } else {
        from + 1
    };
    let nothing = Groups { segments: Seq::empty(), end: from, embedded: false };
    if room == 0 || (!first && !at(s, from, ':')) {
        nothing
    } else if room >= 2 && octets_at(s, start, 4) is Some {
        let octets = octets_at(s, start, 4)->0;
        Groups {
            segments: seq![
                segment_of(octets.value[0], octets.value[1]),
                segment_of(octets.value[2], octets.value[3]),
            ],
            end: octets.end,
            embedded: true,
        }
    } else {
        match group_at(s, start) {
            Some(segment) => {
                let rest = groups_at(s, segment.end, false, (room - 1) as nat);
                Groups {
                    segments: seq![segment.value] + rest.segments,
                    end: rest.end,
                    embedded: rest.embedded,
                }
            },
            None => nothing,
        }
    }
}

/// `count` segments of zero.
pub open spec fn zeros(count: nat) -> Seq<u16> {
    Seq::new(count, |i: int| 0u16)
}

/// The IPv6 address that `s` is the literal of.
pub open spec fn ipv6_literal(s: Seq<char>) -> Option<Seq<u16>> {
    let head = groups_at(s, 0, true, 8);
    if head.segments.len() == 8 {
        if head.end == s.len() {
            Some(head.segments)
        } else {
            None
        }
    } else if !head.embedded && at(s, head.end, ':') && at(s, head.end + 1, ':') {
        let tail = groups_at(s, head.end + 2, true, (7 - head.segments.len()) as nat);
        if tail.end == s.len() {
            Some(
                head.segments + zeros((8 - head.segments.len() - tail.segments.len()) as nat)
                    + tail.segments,
            )
        } else {
            None
        }
    } else {
        None
    }
}

/// The IP address that `s` is the literal of.
pub open spec fn ip_literal(s: Seq<char>) -> Option<IpView> {
    match ipv4_literal(s) {
        Some(octets) => Some(IpView::V4(octets)),
        None => match ipv6_literal(s) {
            Some(segments) => Some(IpView::V6(segments)),
            None => None,
        },
    }
}

/// No more segments are read than there is room for, and none past the end.
pub proof fn lemma_groups_at(s: Seq<char>, from: int, first: bool, room: nat)
    requires
        0 <= from <= s.len(),
    ensures
        groups_at(s, from, first, room).segments.len() <= room,
        from <= groups_at(s, from, first, room).end <= s.len(),
    decreases room,
{
    let start = if first {
        from
    } else {
        from + 1
    };
    if room == 0 || (!first && !at(s, from, ':')) {
    } else if room >= 2 && octets_at(s, start, 4) is Some {
        lemma_octets_at(s, start, 4);
    } else if group_at(s, start) is Some {
        lemma_run_end(s, start, Class::Hex);
        lemma_groups_at(s, group_at(s, start)->0.end, false, (room - 1) as nat);
    }
}

/// Octets that are read are as many as asked for, and end within the text.
pub proof fn lemma_octets_at(s: Seq<char>, from: int, count: nat)
    requires
        0 <= from <= s.len(),
        octets_at(s, from, count) is Some,
    ensures
        octets_at(s, from, count)->0.value.len() == count,
        from <= octets_at(s, from, count)->0.end <= s.len(),
    decreases count,
{
    if count == 0 {
    } else if count == 1 {
        lemma_run_end(s, from, Class::Digit);
    } else {
        lemma_octets_at(s, from, (count - 1) as nat);
        let dot = octets_at(s, from, (count - 1) as nat)->0.end;
        lemma_run_end(s, dot + 1, Class::Digit);
    }
}

/// A literal of either kind has as many parts as its kind has.
pub proof fn lemma_ip_literal_len(s: Seq<char>)
    ensures
        ip_literal(s) matches Some(IpView::V4(octets)) ==> octets.len() == 4,
        ip_literal(s) matches Some(IpView::V6(segments)) ==> segments.len() == 8,
{
    if ipv4_literal(s) is Some {
        lemma_octets_at(s, 0, 4);
    } else if ipv6_literal(s) is Some {
        let head = groups_at(s, 0, true, 8);
        lemma_groups_at(s, 0, true, 8);
        if head.segments.len() != 8 {
            lemma_groups_at(s, head.end + 2, true, (7 - head.segments.len()) as nat);
        }
    }
}

/// The text of an IPv4 address: its four octets in decimal digits, with a dot
/// between each two.
pub open spec fn ipv4_text(octets: Seq<u8>) -> Seq<char>
    recommends
        octets.len() == 4,
{
    decimal_text(octets[0] as nat) + seq!['.'] + decimal_text(octets[1] as nat) + seq!['.']
        + decimal_text(octets[2] as nat) + seq!['.'] + decimal_text(octets[3] as nat)
}

/// An octet that is read is written in the decimal digits of its value, and
/// no digit follows it.
proof fn lemma_octet_read(s: Seq<char>, from: int)
    requires
        0 <= from <= s.len(),
        octet_at(s, from) is Some,
    ensures
        from < octet_at(s, from)->0.end <= s.len(),
        s.subrange(from, octet_at(s, from)->0.end) == decimal_text(
            octet_at(s, from)->0.value as nat,
        ),
        octet_at(s, from)->0.end == run_end(s, from, Class::Digit),
{
    let end = run_end(s, from, Class::Digit);
    let digits = s.subrange(from, end);
    lemma_run_end(s, from, Class::Digit);
    assert forall|i: int| 0 <= i < digits.len() implies Class::Digit.has(#[trigger] digits[i]) by {
        assert(digits[i] == s[from + i]);
    }
    assert(digits[0] == s[from]);
    lemma_canonical_numeral(digits);
}

/// Where the decimal digits of an octet stand and no digit follows them, the
/// octet is read.
proof fn lemma_octet_written(s: Seq<char>, from: int, value: u8)
    requires
        0 <= from,
        from + decimal_text(value as nat).len() <= s.len(),
        s.subrange(from, from + decimal_text(value as nat).len()) == decimal_text(value as nat),
        from + decimal_text(value as nat).len() == s.len() || !Class::Digit.has(
            s[from + decimal_text(value as nat).len()],
        ),
    ensures
        octet_at(s, from) == Some(
            Read { value, end: from + decimal_text(value as nat).len() },
        ),
{
    let text = decimal_text(value as nat);
    let end = from + text.len();
    lemma_decimal_text(value as nat);
    assert forall|i: int| from <= i < end implies Class::Digit.has(#[trigger] s[i]) by {
        assert(s[i] == s.subrange(from, end)[i - from]);
        assert(Class::Digit.has(text[i - from]));
    }
    lemma_run_end_unique(s, from, end, Class::Digit);
    assert(s[from] == s.subrange(from, end)[0]);
}

/// The literal of an IPv4 address is four octets that are read one after the
/// other, with dots between them, up to the end of the text.
proof fn lemma_octets_unchain(s: Seq<char>)
    requires
        ipv4_literal(s) is Some,
    ensures
        ({
            let a = octet_at(s, 0);
            let b = octet_at(s, a->0.end + 1);
            let c = octet_at(s, b->0.end + 1);
            let d = octet_at(s, c->0.end + 1);
            &&& a is Some && at(s, a->0.end, '.')
            &&& b is Some && at(s, b->0.end, '.')
            &&& c is Some && at(s, c->0.end, '.')
            &&& d is Some && d->0.end == s.len()
            &&& ipv4_literal(s)->0 == seq![a->0.value, b->0.value, c->0.value, d->0.value]
        }),
{
    reveal_with_fuel(octets_at, 5);
    let a = octet_at(s, 0);
    let b = octet_at(s, a->0.end + 1);
    let c = octet_at(s, b->0.end + 1);
    let d = octet_at(s, c->0.end + 1);
    assert(octets_at(s, 0, 4) is Some);
    assert(octets_at(s, 0, 3) is Some);
    assert(octets_at(s, 0, 2) is Some);
    assert(octets_at(s, 0, 1) is Some);
    assert(octets_at(s, 0, 1)->0.value =~= seq![a->0.value]);
    assert(octets_at(s, 0, 2)->0.value =~= seq![a->0.value, b->0.value]);
    assert(octets_at(s, 0, 3)->0.value =~= seq![a->0.value, b->0.value, c->0.value]);
    assert(octets_at(s, 0, 4)->0.value =~= seq![a->0.value, b->0.value, c->0.value, d->0.value]);
}

/// The literal of an IPv4 address is the text of the address.
proof fn lemma_ipv4_read(s: Seq<char>)
    requires
        ipv4_literal(s) is Some,
    ensures
        ipv4_literal(s)->0.len() == 4,
        s == ipv4_text(ipv4_literal(s)->0),
{
    lemma_octets_unchain(s);
    let a = octet_at(s, 0)->0;
    lemma_octet_read(s, 0);
    let b = octet_at(s, a.end + 1)->0;
    lemma_octet_read(s, a.end + 1);
    let c = octet_at(s, b.end + 1)->0;
    lemma_octet_read(s, b.end + 1);
    let d = octet_at(s, c.end + 1)->0;
    lemma_octet_read(s, c.end + 1);
    let octets = seq![a.value, b.value, c.value, d.value];
    assert(ipv4_literal(s)->0 == octets);
    let ta = s.subrange(0, a.end);
    let tb = s.subrange(a.end + 1, b.end);
    let tc = s.subrange(b.end + 1, c.end);
    let td = s.subrange(c.end + 1, d.end);
    assert(s =~= ta + seq!['.'] + tb + seq!['.'] + tc + seq!['.'] + td);
    assert(ipv4_text(octets) == ta + seq!['.'] + tb + seq!['.'] + tc + seq!['.'] + td);
}

/// The text of an IPv4 address is a literal of the address.
proof fn lemma_ipv4_written(octets: Seq<u8>)
    requires
        octets.len() == 4,
    ensures
        ipv4_literal(ipv4_text(octets)) == Some(octets),
{
    let s = ipv4_text(octets);
    let ta = decimal_text(octets[0] as nat);
    let tb = decimal_text(octets[1] as nat);
    let tc = decimal_text(octets[2] as nat);
    let td = decimal_text(octets[3] as nat);
    lemma_decimal_text(octets[0] as nat);
    lemma_decimal_text(octets[1] as nat);
    lemma_decimal_text(octets[2] as nat);
    lemma_decimal_text(octets[3] as nat);
    let pa = ta.len() as int;
    let pb = pa + 1 + tb.len();
    let pc = pb + 1 + tc.len();
    let pd = pc + 1 + td.len();
    assert(s.len() == pd);
    assert(s[pa] == '.');
    assert(s[pb] == '.');
    assert(s[pc] == '.');
    assert(s.subrange(0, pa) =~= ta);
    assert(s.subrange(pa + 1, pb) =~= tb);
    assert(s.subrange(pb + 1, pc) =~= tc);
    assert(s.subrange(pc + 1, pd) =~= td);
    lemma_octet_written(s, 0, octets[0]);
    lemma_octet_written(s, pa + 1, octets[1]);
    lemma_octet_written(s, pb + 1, octets[2]);
    lemma_octet_written(s, pc + 1, octets[3]);
    lemma_octets_chain(s, octets, pa, pb, pc, pd);
}

/// Four octets that are read one after the other with dots between them are
/// read as an address.
proof fn lemma_octets_chain(s: Seq<char>, octets: Seq<u8>, pa: int, pb: int, pc: int, pd: int)
    requires
        octets.len() == 4,
        octet_at(s, 0) == Some(Read { value: octets[0], end: pa }),
        at(s, pa, '.'),
        octet_at(s, pa + 1) == Some(Read { value: octets[1], end: pb }),
        at(s, pb, '.'),
        octet_at(s, pb + 1) == Some(Read { value: octets[2], end: pc }),
        at(s, pc, '.'),
        octet_at(s, pc + 1) == Some(Read { value: octets[3], end: pd }),
        pd == s.len(),
    ensures
        ipv4_literal(s) == Some(octets),
{
    reveal_with_fuel(octets_at, 5);
    assert(octets_at(s, 0, 1) == Some(Read { value: seq![octets[0]], end: pa }));
    assert(octets_at(s, 0, 2) == Some(Read { value: seq![octets[0]].push(octets[1]), end: pb }));
    assert(octets_at(s, 0, 3) == Some(
        Read { value: seq![octets[0]].push(octets[1]).push(octets[2]), end: pc },
    ));
    assert(seq![octets[0]].push(octets[1]).push(octets[2]).push(octets[3]) =~= octets);
}

/// A text is the literal of an IPv4 address exactly when it is the four
/// octets of the address in decimal digits with a dot between each two.
pub proof fn lemma_ipv4_literal(s: Seq<char>, octets: Seq<u8>)
    requires
        octets.len() == 4,
    ensures
        ipv4_literal(s) == Some(octets) <==> s == ipv4_text(octets),
{
    if ipv4_literal(s) is Some {
        lemma_ipv4_read(s);
    }
    lemma_ipv4_written(octets);
}

/// One more than the greatest value that `count` hexadecimal digits can have,
/// for the counts that a segment can have.
spec fn cap(count: int) -> int {
    if count <= 0 {
        1
    } else if count == 1 {
        16
    } else if count == 2 {
        256
    } else if count == 3 {
        4096
    } else {
        65536
    }
}

/// The value of at most four digits, decimal (`hex` false) or hexadecimal.
fn read_digits(s: &Vec<char>, from: usize, to: usize, hex: bool) -> (v: u32)
    requires
        from <= to <= s.len(),
        to - from <= 4,
        all_in(s@, from as int, to as int, Class::Hex),
    ensures
        v == radix_value(s@.subrange(from as int, to as int), if hex { 16 } else { 10 }),
        v < 65536,
{
    let ghost radix: nat = if hex { 16 } else { 10 };
    let mut acc: u32 = 0;
    let mut i: usize = from;
    while i < to
        invariant
            from <= i <= to <= s.len(),
            to - from <= 4,
            radix == (if hex { 16nat } else { 10nat }),
            all_in(s@, from as int, to as int, Class::Hex),
            acc == radix_value(s@.subrange(from as int, i as int), radix),
            acc < cap(i - from),
        decreases to - i,
    {
        let d: u32 = digit_of(s[i]) as u32;
        proof {
            assert(s@.subrange(from as int, i + 1).drop_last() =~= s@.subrange(
                from as int,
                i as int,
            ));
            assert(s@.subrange(from as int, i + 1).last() == s@[i as int]);
        }
        acc = if hex {
            acc * 16 + d
        } else {
            acc * 10 + d
        };
        i = i + 1;
    }
    acc
}

/// Reads the octet written from index `from` of `s` on.
fn read_octet(s: &Vec<char>, from: usize) -> (r: Option<(u8, usize)>)
    requires
        from <= s.len(),
    ensures
        match r {
            Some((value, end)) => octet_at(s@, from as int) == Some(
                Read { value, end: end as int },
            ) && from < end <= s.len(),
            None => octet_at(s@, from as int) is None,
        },
{
    let end = scan(s, from, Class::Digit);
    proof {
        lemma_run_end(s@, from as int, Class::Digit);
    }
    if end == from || end - from > 3 {
        return None;
    }
    if end - from > 1 && s[from] == '0' {
        return None;
    }
    assert(all_in(s@, from as int, end as int, Class::Hex));
    let value = read_digits(s, from, end, false);
    if value > 255 {
        return None;
    }
    Some((value as u8, end))
}

/// Reads the four octets written from index `from` of `s` on.
fn read_octets(s: &Vec<char>, from: usize) -> (r: Option<([u8; 4], usize)>)
    requires
        from <= s.len(),
    ensures
        match r {
            Some((octets, end)) => octets_at(s@, from as int, 4) == Some(
                Read { value: octets@, end: end as int },
            ) && from < end <= s.len(),
            None => octets_at(s@, from as int, 4) is None,
        },
{
    reveal_with_fuel(octets_at, 5);
    let (a, end) = match read_octet(s, from) {
        Some(found) => found,
        None => {
            return None;
        },
    };
    if !is_at(s, end, '.') {
        return None;
    }
    let (b, end) = match read_octet(s, end + 1) {
        Some(found) => found,
        None => {
            return None;
        },
    };
    if !is_at(s, end, '.') {
        return None;
    }
    let (c, end) = match read_octet(s, end + 1) {
        Some(found) => found,
        None => {
            return None;
        },
    };
    if !is_at(s, end, '.') {
        return None;
    }
    let (d, end) = match read_octet(s, end + 1) {
        Some(found) => found,
        None => {
            return None;
        },
    };
    let octets: [u8; 4] = [a, b, c, d];
    assert(octets@ =~= seq![a].push(b).push(c).push(d));
    Some((octets, end))
}

/// Reads the segment written from index `from` of `s` on.
fn read_group(s: &Vec<char>, from: usize) -> (r: Option<(u16, usize)>)
    requires
        from <= s.len(),
    ensures
        match r {
            Some((value, end)) => group_at(s@, from as int) == Some(
                Read { value, end: end as int },
            ) && from < end <= s.len(),
            None => group_at(s@, from as int) is None,
        },
{
    let end = scan(s, from, Class::Hex);
    proof {
        lemma_run_end(s@, from as int, Class::Hex);
    }
    if end == from || end - from > 4 {
        return None;
    }
    let value = read_digits(s, from, end, true);
    Some((value as u16, end))
}

/// Reads the segments written from index `from` of `s` on, `room` at most, and
/// appends them to `out`. Gives the index at which they end, and whether the
/// last two were written as four octets.
fn read_groups(s: &Vec<char>, from: usize, first: bool, room: usize, out: &mut Vec<u16>) -> (r: (
    usize,
    bool,
))
    requires
        from <= s.len(),
    ensures
        final(out)@ == old(out)@ + groups_at(s@, from as int, first, room as nat).segments,
        r.0 == groups_at(s@, from as int, first, room as nat).end,
        r.1 == groups_at(s@, from as int, first, room as nat).embedded,
        from <= r.0 <= s.len(),
    decreases room,
{
    if room == 0 || (!first && !is_at(s, from, ':')) {
        assert(out@ =~= old(out)@ + Seq::<u16>::empty());
        return (from, false);
    }
    let start = if first {
        from
    } else {
        from + 1
    };
    if room >= 2 {
        if let Some((octets, end)) = read_octets(s, start) {
            let high: u16 = octets[0] as u16 * 256 + octets[1] as u16;
            let low: u16 = octets[2] as u16 * 256 + octets[3] as u16;
            out.push(high);
            out.push(low);
            assert(out@ =~= old(out)@ + seq![high, low]);
            return (end, true);
        }
    }
    match read_group(s, start) {
        Some((segment, end)) => {
            out.push(segment);
            let ghost pushed = out@;
            let r = read_groups(s, end, false, room - 1, out);
            proof {
                let rest = groups_at(s@, end as int, false, (room - 1) as nat);
                assert(out@ =~= old(out)@ + (seq![segment] + rest.segments));
            }
            r
        },
        None => {
            assert(out@ =~= old(out)@ + Seq::<u16>::empty());
            (from, false)
        },
    }
}

/// Reads the IPv6 address that `s` is the literal of.
fn read_ipv6(s: &Vec<char>) -> (r: Option<[u16; 8]>)
    ensures
        match r {
            Some(segments) => ipv6_literal(s@) == Some(segments@),
            None => ipv6_literal(s@) is None,
        },
{
    let mut head: Vec<u16> = Vec::new();
    let (end, embedded) = read_groups(s, 0, true, 8, &mut head);
    proof {
        lemma_groups_at(s@, 0, true, 8);
        assert(head@ =~= groups_at(s@, 0, true, 8).segments);
    }
    let mut segments: [u16; 8] = [0, 0, 0, 0, 0, 0, 0, 0];
    let mut tail: Vec<u16> = Vec::new();
    if head.len() == 8 {
        if end != s.len() {
            return None;
        }
    } else {
        if embedded || !is_at(s, end, ':') || !is_at(s, end + 1, ':') {
            return None;
        }
        let room = 7 - head.len();
        let (tail_end, _) = read_groups(s, end + 2, true, room, &mut tail);
        proof {
            lemma_groups_at(s@, end + 2, true, room as nat);
            assert(tail@ =~= groups_at(s@, end + 2, true, room as nat).segments);
        }
        if tail_end != s.len() {
            return None;
        }
    }
    let gap = 8 - head.len() - tail.len();
    let mut i: usize = 0;
    while i < head.len()
        invariant
            0 <= i <= head.len(),
            head.len() + tail.len() <= 8,
            forall|k: int| 0 <= k < i ==> segments@[k] == head@[k],
            forall|k: int| i <= k < 8 ==> segments@[k] == 0,
        decreases head.len() - i,
    {
        segments[i] = head[i];
        i = i + 1;
    }
    let mut j: usize = 0;
    while j < tail.len()
        invariant
            0 <= j <= tail.len(),
            head.len() + tail.len() + gap == 8,
            forall|k: int| 0 <= k < head.len() ==> segments@[k] == head@[k],
            forall|k: int| head.len() <= k < head.len() + gap ==> segments@[k] == 0,
            forall|k: int| 0 <= k < j ==> segments@[head.len() + gap + k] == tail@[k],
        decreases tail.len() - j,
    {
        segments[head.len() + gap + j] = tail[j];
        j = j + 1;
    }
    assert(segments@ =~= head@ + zeros(gap as nat) + tail@);
    assert(head.len() == 8 ==> head@ + zeros(gap as nat) + tail@ =~= head@);
    Some(segments)
}

impl IpAddress {
    /// Reads an IP address from its literal; `None` if `text` is no literal.
    pub fn parse(text: &str) -> (r: Option<IpAddress>)
        ensures
            match r {
                Some(addr) => ip_literal(text@) == Some(addr@),
                None => ip_literal(text@) is None,
            },
    {
        let s = to_chars(text);
        if let Some((octets, end)) = read_octets(&s, 0) {
            if end == s.len() {
                return Some(IpAddress::V4(octets));
            }
        }
        match read_ipv6(&s) {
            Some(segments) => Some(IpAddress::V6(segments)),
            None => None,
        }
    }
}

} // verus!
