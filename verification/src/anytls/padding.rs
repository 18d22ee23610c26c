//! Schemes by which the first packets of a session are padded.
use crate::anytls::string_map::{map_of_lines, StringMap, StringMapExt};
use crate::crypto::{md5, md5_digest, random_between};
use crate::octets::copy_range;
use crate::outbound::trojan::{hex, hex_digit};
use crate::text::{
    chars_of, decimal, decimal_text, from_utf8, joined_by, lemma_decimal_round_trip,
    lemma_decimal_word, lemma_find_is_first, lemma_split_joined, lemma_split_once,
    lemma_utf8_round_trip, lines, parse_number, parse_number_chars, same_chars,
    split, split_chars, split_once, split_once_chars, utf8, utf8_lossy, views, without_return,
};
use vstd::prelude::*;

verus! {

/// The size that asks whether payload is left.
pub const CHECK_MARK: i32 = -1;

/// A scheme: how many packets are padded, and how each of them is.
#[derive(Clone, Debug)]
pub struct PaddingFactory {
    pub scheme: StringMap,
    pub raw_scheme: Vec<u8>,
    pub stop: u32,
    pub md5: String,
}

/// The settings of a scheme.
pub open spec fn scheme_of(raw: Seq<u8>) -> Map<Seq<char>, Seq<char>> {
    map_of_lines(lines(utf8_lossy(raw)))
}

/// How many packets a scheme pads; `None` where it does not say.
pub open spec fn stop_of(scheme: Map<Seq<char>, Seq<char>>) -> Option<nat> {
    if scheme.dom().contains("stop"@) {
        parse_number(scheme["stop"@], 0xffff_ffff)
    } else {
        None
    }
}

/// A digest in hexadecimal digits.
pub open spec fn hex_text(bytes: Seq<u8>) -> Seq<char> {
    Seq::new(2 * bytes.len(), |i: int| hex(bytes)[i] as char)
}

fn write_hex(bytes: &[u8]) -> (text: String)
    requires
        bytes@.len() <= 0x1000_0000,
    ensures
        text@ == hex_text(bytes@),
{
    let mut text = String::new();
    for i in 0..bytes.len()
        invariant
            bytes@.len() <= 0x1000_0000,
            text@ =~= hex_text(bytes@).take(2 * i as int),
    {
        let byte: u8 = bytes[i];
        assert(hex(bytes@)[2 * i as int] == hex_digit(byte / 16));
        assert(hex(bytes@)[2 * i + 1] == hex_digit(byte % 16));
        text.push(digit_char(byte / 16));
        text.push(digit_char(byte % 16));
    }
    assert(hex_text(bytes@).take(2 * bytes@.len() as int) =~= hex_text(bytes@));
    text
}

fn digit_char(nibble: u8) -> (c: char)
    requires
        nibble < 16,
    ensures
        c == hex_digit(nibble) as char,
{
    if nibble < 10 {
        (48 + nibble) as char
    } else {
        (87 + nibble) as char
    }
}

/// One size of a packet.
#[derive(Clone, Copy, Debug, PartialEq, Eq)]
pub enum SizeRange {
    /// Ask whether payload is left.
    Check,
    /// A size between two others.
    Between(i64, i64),
}

/// What a part of a rule says; `None` where it makes no sense.
pub open spec fn size_range(part: Seq<char>) -> Option<SizeRange> {
    if part == "c"@ {
        Some(SizeRange::Check)
    } else {
        match split_once(part, seq!['-']) {
            None => None,
            Some((left, right)) => match (
                parse_number(left, 0x7fff_ffff_ffff_ffff),
                parse_number(right, 0x7fff_ffff_ffff_ffff),
            ) {
                (Some(one), Some(other)) => if one > 0 && other > 0 {
                    Some(
                        if one <= other {
                            SizeRange::Between(one as i64, other as i64)
                        } else {
                            SizeRange::Between(other as i64, one as i64)
                        },
                    )
                } else {
                    None
                },
                _ => None,
            },
        }
    }
}

/// What the parts of a rule say, without those that make no sense.
pub open spec fn size_ranges(parts: Seq<Seq<char>>) -> Seq<SizeRange>
    decreases parts.len(),
{
    if parts.len() == 0 {
        Seq::empty()
    } else {
        let head = size_ranges(parts.drop_last());
        match size_range(parts.last()) {
            Some(range) => head.push(range),
            None => head,
        }
    }
}

/// The ranges of a packet's sizes.
pub open spec fn packet_ranges(scheme: Map<Seq<char>, Seq<char>>, packet: nat) -> Seq<SizeRange> {
    if scheme.dom().contains(decimal(packet)) {
        size_ranges(split(scheme[decimal(packet)], seq![',']))
    } else {
        Seq::empty()
    }
}

/// Whether a size is one that a range allows.
pub open spec fn size_fits(size: i32, range: SizeRange) -> bool {
    match range {
        SizeRange::Check => size == CHECK_MARK,
        SizeRange::Between(low, high) => exists|drawn: i64|
            low <= drawn <= high && size == #[trigger] (drawn as i32),
    }
}

impl PaddingFactory {
    pub open spec fn wf(self) -> bool {
        self.scheme.wf()
    }

    /// Whether this is the factory of a scheme.
    pub open spec fn is_of(self, raw: Seq<u8>) -> bool {
        &&& self.wf()
        &&& self.scheme@ == scheme_of(raw)
        &&& self.raw_scheme@ == raw
        &&& stop_of(scheme_of(raw)) == Some(self.stop as nat)
        &&& self.md5@ == hex_text(md5_digest(raw))
    }

    pub fn new(raw_scheme: &[u8]) -> (made: Option<PaddingFactory>)
        ensures
            match stop_of(scheme_of(raw_scheme@)) {
                Some(_) => made matches Some(factory) && factory.is_of(raw_scheme@),
                None => made is None,
            },
            from_utf8(raw_scheme@) matches Some(text) ==> scheme_of(raw_scheme@) == map_of_lines(
                lines(text),
            ),
    {
        let scheme = StringMap::from_bytes(raw_scheme);
        if scheme.is_empty() {
            return None;
        }
        let text = match scheme.get("stop") {
            Some(text) => text,
            None => return None,
        };
        let chars = chars_of(text.as_str());
        let stop: u32 = match parse_number_chars(chars.as_slice(), 0xffff_ffff) {
            Some(stop) => stop as u32,
            None => return None,
        };
        let digest = md5(raw_scheme);
        let copy = copy_range(raw_scheme, 0, raw_scheme.len());
        assert(copy@ =~= raw_scheme@);
        Some(PaddingFactory { scheme, raw_scheme: copy, stop, md5: write_hex(&digest) })
    }

    /// The ranges of a packet's sizes.
    pub fn ranges(&self, packet: u32) -> (ranges: Vec<SizeRange>)
        requires
            self.wf(),
        ensures
            ranges@ == packet_ranges(self.scheme@, packet as nat),
    {
        let mut ranges: Vec<SizeRange> = Vec::new();
        let key = decimal_text(packet as u64);
        let rule = match self.scheme.get(key.as_str()) {
            Some(rule) => rule,
            None => return ranges,
        };
        let chars = chars_of(rule.as_str());
        let comma = vec![','];
        assert(comma@ =~= seq![',']);
        let parts = split_chars(chars.as_slice(), comma.as_slice());
        let ghost all = split(rule@, seq![',']);
        for i in 0..parts.len()
            invariant
                views(parts@) == all,
                ranges@ == size_ranges(all.take(i as int)),
        {
            assert(all.take(i + 1).drop_last() =~= all.take(i as int));
            assert(all.take(i + 1).last() == parts@[i as int]@);
            if let Some(range) = read_range(parts[i].as_slice()) {
                ranges.push(range);
            }
        }
        assert(all.take(parts@.len() as int) =~= all);
        ranges
    }

    /// The sizes of a packet, drawn at random within their ranges.
    pub fn generate_record_payload_sizes(&self, pkt: u32) -> (sizes: Vec<i32>)
        requires
            self.wf(),
        ensures
            sizes@.len() == packet_ranges(self.scheme@, pkt as nat).len(),
            forall|i: int|
                0 <= i < sizes@.len() ==> size_fits(
                    #[trigger] sizes@[i],
                    packet_ranges(self.scheme@, pkt as nat)[i],
                ),
    {
        let ranges = self.ranges(pkt);
        let ghost all = packet_ranges(self.scheme@, pkt as nat);
        proof {
            lemma_ranges_ordered(all, self.scheme@, pkt as nat);
        }
        let mut sizes: Vec<i32> = Vec::new();
        for i in 0..ranges.len()
            invariant
                ranges@ == all,
                forall|j: int| 0 <= j < all.len() ==> range_ordered(#[trigger] all[j]),
                sizes@.len() == i,
                forall|j: int| 0 <= j < i ==> size_fits(#[trigger] sizes@[j], all[j]),
        {
            match ranges[i] {
                SizeRange::Check => {
                    sizes.push(CHECK_MARK);
                },
                SizeRange::Between(low, high) => {
                    assert(range_ordered(all[i as int]));
                    let drawn: i64 = if low == high {
                        low
                    } else {
                        random_between(low, high)
                    };
                    let size: i32 = #[verifier::truncate] (drawn as i32);
                    sizes.push(size);
                },
            }
        }
        sizes
    }

    pub fn md5(&self) -> (text: &str)
        ensures
            text@ == self.md5@,
    {
        self.md5.as_str()
    }

    pub fn raw_scheme(&self) -> (bytes: &[u8])
        ensures
            bytes@ == self.raw_scheme@,
    {
        self.raw_scheme.as_slice()
    }

    pub fn stop(&self) -> (count: u32)
        ensures
            count == self.stop,
    {
        self.stop
    }
}

/// Whether a range begins at or before its end.
pub open spec fn range_ordered(range: SizeRange) -> bool {
    range matches SizeRange::Between(low, high) ==> 0 < low <= high
}

proof fn lemma_ranges_ordered(
    ranges: Seq<SizeRange>,
    scheme: Map<Seq<char>, Seq<char>>,
    packet: nat,
)
    requires
        ranges == packet_ranges(scheme, packet),
    ensures
        forall|i: int| 0 <= i < ranges.len() ==> range_ordered(#[trigger] ranges[i]),
{
    if scheme.dom().contains(decimal(packet)) {
        lemma_parts_ordered(split(scheme[decimal(packet)], seq![',']));
    }
}

proof fn lemma_parts_ordered(parts: Seq<Seq<char>>)
    ensures
        forall|i: int|
            0 <= i < size_ranges(parts).len() ==> range_ordered(#[trigger] size_ranges(parts)[i]),
    decreases parts.len(),
{
    if parts.len() > 0 {
        lemma_parts_ordered(parts.drop_last());
        let head = size_ranges(parts.drop_last());
        let all = size_ranges(parts);
        if let Some(range) = size_range(parts.last()) {
            assert(range_ordered(range));
        }
        assert forall|i: int| 0 <= i < all.len() implies range_ordered(#[trigger] all[i]) by {
            if i < head.len() {
                assert(all[i] == head[i]);
            }
        }
    }
}

/// Sizes are positive, but for those that ask whether payload is left.
pub proof fn law_ranges_positive(scheme: Map<Seq<char>, Seq<char>>, packet: nat, at: int)
    requires
        0 <= at < packet_ranges(scheme, packet).len(),
    ensures
        packet_ranges(scheme, packet)[at] matches SizeRange::Between(low, high) ==> 0 < low <= high,
{
    lemma_ranges_ordered(packet_ranges(scheme, packet), scheme, packet);
    assert(range_ordered(packet_ranges(scheme, packet)[at]));
}

fn read_range(part: &[char]) -> (range: Option<SizeRange>)
    ensures
        range == size_range(part@),
{
    let check = chars_of("c");
    if same_chars(part, check.as_slice()) {
        return Some(SizeRange::Check);
    }
    let dash = vec!['-'];
    assert(dash@ =~= seq!['-']);
    match split_once_chars(part, dash.as_slice()) {
        None => None,
        Some((left, right)) => {
            let one = parse_number_chars(left.as_slice(), 0x7fff_ffff_ffff_ffff);
            let other = parse_number_chars(right.as_slice(), 0x7fff_ffff_ffff_ffff);
            match (one, other) {
                (Some(one), Some(other)) => {
                    if one > 0 && other > 0 {
                        if one <= other {
                            Some(SizeRange::Between(one as i64, other as i64))
                        } else {
                            Some(SizeRange::Between(other as i64, one as i64))
                        }
                    } else {
                        None
                    }
                },
                _ => None,
            }
        },
    }
}

/// The scheme that is used where no other is known.
pub open spec fn default_scheme() -> Seq<char> {
    "stop=8\n0=30-30\n1=100-400\n2=400-500,c,500-1000,c,500-1000,c,500-1000,c,500-1000\n3=9-9,500-1000\n4=500-1000\n5=500-1000\n6=500-1000\n7=500-1000"@
}

/// The lines of the default scheme.
spec fn default_lines() -> Seq<Seq<char>> {
    seq![
        "stop=8"@,
        "0=30-30"@,
        "1=100-400"@,
        "2=400-500,c,500-1000,c,500-1000,c,500-1000,c,500-1000"@,
        "3=9-9,500-1000"@,
        "4=500-1000"@,
        "5=500-1000"@,
        "6=500-1000"@,
        "7=500-1000"@
    ]
}

/// No line but the first begins with an `s`.
proof fn lemma_default_lines()
    ensures
        default_scheme() == joined_by(default_lines(), '\n'),
        default_lines()[0] == "stop"@ + seq!['='] + "8"@,
        forall|i: int|
            0 <= i < 9 ==> !(#[trigger] default_lines()[i]).contains('\n')
                && default_lines()[i].len() > 0,
        forall|i: int| 1 <= i < 9 ==> (#[trigger] default_lines()[i])[0] != 's',
        default_lines().len() == 9,
        "stop"@[0] == 's',
        "stop"@.len() == 4,
        !"stop"@.contains('='),
{
    reveal_strlit("stop=8\n0=30-30\n1=100-400\n2=400-500,c,500-1000,c,500-1000,c,500-1000,c,500-1000\n3=9-9,500-1000\n4=500-1000\n5=500-1000\n6=500-1000\n7=500-1000");
    reveal_strlit("stop=8");
    reveal_strlit("0=30-30");
    reveal_strlit("1=100-400");
    reveal_strlit("2=400-500,c,500-1000,c,500-1000,c,500-1000,c,500-1000");
    reveal_strlit("3=9-9,500-1000");
    reveal_strlit("4=500-1000");
    reveal_strlit("5=500-1000");
    reveal_strlit("6=500-1000");
    reveal_strlit("7=500-1000");
    reveal_strlit("stop");
    reveal_strlit("8");
    let all = default_lines();
    reveal_with_fuel(joined_by, 10);
    assert(default_scheme() =~= joined_by(all, '\n'));
    assert(all[0] =~= "stop"@ + seq!['='] + "8"@);
}

/// Lines after the first do not say again what the first says.
proof fn lemma_stop_stays(lines: Seq<Seq<char>>, key: Seq<char>, value: Seq<char>)
    requires
        lines.len() > 0,
        key.len() > 0,
        !key.contains('='),
        lines[0] == key + seq!['='] + value,
        forall|i: int|
            1 <= i < lines.len() ==> (#[trigger] lines[i]).len() > 0 && lines[i][0] != key[0],
    ensures
        map_of_lines(lines).dom().contains(key),
        map_of_lines(lines)[key] == value,
    decreases lines.len(),
{
    if lines.len() == 1 {
        lemma_split_once(key, '=', value);
        assert(lines.drop_last() =~= Seq::empty());
    } else {
        let head = lines.drop_last();
        assert forall|i: int| 1 <= i < head.len() implies (#[trigger] head[i]).len() > 0
            && head[i][0] != key[0] by {
            assert(head[i] == lines[i]);
        }
        lemma_stop_stays(head, key, value);
        let last = lines.last();
        assert(last == lines[lines.len() - 1]);
        lemma_find_is_first(last, seq!['=']);
        if let Some((other, _)) = split_once(last, seq!['=']) {
            if other.len() > 0 {
                assert(other[0] == last[0]);
            }
            assert(other != key);
        }
    }
}

proof fn lemma_default_stop()
    ensures
        stop_of(map_of_lines(lines(default_scheme()))) == Some(8nat),
{
    let all = default_lines();
    lemma_default_lines();
    lemma_split_joined(all, '\n');
    let parts = split(default_scheme(), seq!['\n']);
    assert(parts == all);
    let made = lines(default_scheme());
    assert(all[8].len() > 0);
    assert(made.len() == 9);
    reveal_strlit("8");
    assert(all[0].last() == '8') by {
        assert(all[0].last() == "8"@[0]);
    }
    assert(made[0] == without_return(all[0]));
    assert(made[0] == all[0]);
    assert forall|i: int| 1 <= i < made.len() implies (#[trigger] made[i]).len() > 0 && made[i][0]
        != 's' by {
        assert(all[i].len() > 0);
        assert(all[i][0] != 's');
        lemma_default_first(i);
    }
    lemma_stop_stays(made, "stop"@, "8"@);
    assert("8"@ =~= seq!['8']);
    assert("8"@.drop_last() =~= Seq::<char>::empty());
    assert(crate::text::decimal_value(Seq::<char>::empty()) == 0);
    assert(crate::text::all_digits("8"@));
    assert(crate::text::decimal_value("8"@) == 8);
}

/// A line of the default scheme keeps its first character without a carriage
/// return at its end.
proof fn lemma_default_first(i: int)
    requires
        1 <= i < 9,
    ensures
        without_return(default_lines()[i]) == default_lines()[i],
{
    reveal_strlit("0=30-30");
    reveal_strlit("1=100-400");
    reveal_strlit("2=400-500,c,500-1000,c,500-1000,c,500-1000,c,500-1000");
    reveal_strlit("3=9-9,500-1000");
    reveal_strlit("4=500-1000");
    reveal_strlit("5=500-1000");
    reveal_strlit("6=500-1000");
    reveal_strlit("7=500-1000");
}

impl Default for PaddingFactory {
    fn default() -> (factory: PaddingFactory)
        ensures
            factory.is_of(utf8(default_scheme())),
            factory.stop == 8,
    {
        let text = "stop=8\n0=30-30\n1=100-400\n2=400-500,c,500-1000,c,500-1000,c,500-1000,c,500-1000\n3=9-9,500-1000\n4=500-1000\n5=500-1000\n6=500-1000\n7=500-1000";
        let made = PaddingFactory::new(text.as_bytes());
        proof {
            lemma_utf8_round_trip(default_scheme());
            lemma_default_stop();
        }
        made.unwrap()
    }
}

/// A part of a rule is `c`, or two positive numbers with a dash between them,
/// the smaller and the larger size in either order.
pub proof fn law_size_range(one: nat, other: nat)
    requires
        0 < one <= 0x7fff_ffff_ffff_ffff,
        0 < other <= 0x7fff_ffff_ffff_ffff,
    ensures
        size_range(decimal(one) + seq!['-'] + decimal(other)) == Some(
            if one <= other {
                SizeRange::Between(one as i64, other as i64)
            } else {
                SizeRange::Between(other as i64, one as i64)
            },
        ),
        size_range(seq!['c']) == Some(SizeRange::Check),
{
    let part = decimal(one) + seq!['-'] + decimal(other);
    lemma_decimal_word(one);
    lemma_decimal_word(other);
    lemma_decimal_round_trip(one, 0x7fff_ffff_ffff_ffff);
    lemma_decimal_round_trip(other, 0x7fff_ffff_ffff_ffff);
    assert(!decimal(one).contains('-')) by {
        assert forall|i: int| 0 <= i < decimal(one).len() implies decimal(one)[i] != '-' by {
            assert('0' <= decimal(one)[i]);
        }
    }
    lemma_split_once(decimal(one), '-', decimal(other));
    reveal_strlit("c");
    assert("c"@ =~= seq!['c']);
    assert(part.len() >= 3);
}

/// A rule's parts count in their order, without those that make no sense.
pub proof fn law_size_ranges(parts: Seq<Seq<char>>, last: Seq<char>)
    ensures
        size_ranges(Seq::empty()).len() == 0,
        size_ranges(parts.push(last)) == (match size_range(last) {
            Some(range) => size_ranges(parts).push(range),
            None => size_ranges(parts),
        }),
{
    assert(parts.push(last).drop_last() =~= parts);
}

/// The sizes of a packet are those that the scheme has under the packet's
/// number, with commas between them, and none where it has nothing there.
pub proof fn law_packet_ranges(
    scheme: Map<Seq<char>, Seq<char>>,
    packet: nat,
    parts: Seq<Seq<char>>,
)
    requires
        parts.len() > 0,
        forall|i: int| 0 <= i < parts.len() ==> !(#[trigger] parts[i]).contains(','),
    ensures
        !scheme.dom().contains(decimal(packet)) ==> packet_ranges(scheme, packet).len() == 0,
        scheme.dom().contains(decimal(packet)) && scheme[decimal(packet)] == joined_by(parts, ',')
            ==> packet_ranges(scheme, packet) == size_ranges(parts),
{
    lemma_split_joined(parts, ',');
}

/// A scheme says under `stop` how many packets are padded; without that, or
/// where it is no number, it is no scheme.
pub proof fn law_stop(scheme: Map<Seq<char>, Seq<char>>, count: nat)
    requires
        count <= 0xffff_ffff,
    ensures
        !scheme.dom().contains("stop"@) ==> stop_of(scheme) is None,
        scheme.dom().contains("stop"@) && scheme["stop"@] == decimal(count) ==> stop_of(scheme)
            == Some(count),
{
    lemma_decimal_round_trip(count, 0xffff_ffff);
}

/// A size that is drawn lies within its range; a check is marked by minus one.
pub proof fn law_size_fits(size: i32, low: i64, high: i64)
    requires
        0 < low <= high <= 0x7fff_ffff,
    ensures
        size_fits(size, SizeRange::Between(low, high)) <==> low <= size <= high,
        size_fits(size, SizeRange::Check) <==> size == -1,
{
    if low <= size <= high {
        let drawn = size as i64;
        assert(low <= drawn <= high && size == (drawn as i32));
    }
}

/// The scheme that is used where no other is known pads eight packets. A scheme
/// is named by its MD5 digest in two hexadecimal digits for each byte, from `0`
/// to `9` and from `a` to `f`.
pub proof fn law_schemes(bytes: Seq<u8>, at: int)
    requires
        0 <= at < bytes.len(),
    ensures
        default_scheme()
            == "stop=8\n0=30-30\n1=100-400\n2=400-500,c,500-1000,c,500-1000,c,500-1000,c,500-1000\n3=9-9,500-1000\n4=500-1000\n5=500-1000\n6=500-1000\n7=500-1000"@,
        ({
            let value = |digit: char|
                if '0' <= digit && digit <= '9' {
                    digit as int - 48
                } else if 'a' <= digit && digit <= 'f' {
                    digit as int - 87
                } else {
                    16
                };
            let text = hex_text(bytes);
            &&& text.len() == 2 * bytes.len()
            &&& value(text[2 * at]) < 16 && value(text[2 * at + 1]) < 16
            &&& value(text[2 * at]) * 16 + value(text[2 * at + 1]) == bytes[at]
        }),
        CHECK_MARK == -1,
{
    crate::outbound::trojan::law_hex(bytes, at);
    let text = hex_text(bytes);
    assert(text[2 * at] == hex(bytes)[2 * at] as char);
    assert(text[2 * at + 1] == hex(bytes)[2 * at + 1] as char);
}

/// A part of a rule without a dash that is not `c` makes no sense, and neither
/// does one with a number that is zero or none.
pub proof fn law_no_range(left: Seq<char>, right: Seq<char>)
    requires
        !left.contains('-'),
    ensures
        left != seq!['c'] ==> size_range(left) is None,
        parse_number(left, 0x7fff_ffff_ffff_ffff) is None || parse_number(
            right,
            0x7fff_ffff_ffff_ffff,
        ) is None ==> size_range(left + seq!['-'] + right) is None,
        parse_number(left, 0x7fff_ffff_ffff_ffff) == Some(0nat) || parse_number(
            right,
            0x7fff_ffff_ffff_ffff,
        ) == Some(0nat) ==> size_range(left + seq!['-'] + right) is None,
{
    reveal_strlit("c");
    assert("c"@ =~= seq!['c']);
    let part = left + seq!['-'] + right;
    lemma_split_once(left, '-', right);
    assert(part != seq!['c']) by {
        assert(part[left.len() as int] == '-');
        if part == seq!['c'] {
            assert(left.len() == 0);
        }
    }
    lemma_find_is_first(left, seq!['-']);
    if let Some(at) = crate::text::find(left, seq!['-']) {
        assert(left.subrange(at, at + 1)[0] == left[at]);
    }
}

} // verus!
