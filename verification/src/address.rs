use crate::decimal::{all_digits, digits_value, read_digits};
use crate::hex::{group_of, read_group};
use crate::scan::{find_byte, find_from};
use vstd::prelude::*;
use vstd::slice::slice_subrange;
use vstd::string::StringSliceAdditionalSpecFns;

verus! {

/// An IP address: the four octets of version 4, or the eight 16-bit groups
/// of version 6.
#[derive(Clone, Copy, Debug, PartialEq, Eq)]
pub enum IpAddress {
    V4([u8; 4]),
    V6([u16; 8]),
}

/// An IP address as mathematical values.
pub ghost enum AddressModel {
    V4(Seq<u8>),
    V6(Seq<u16>),
}

impl View for IpAddress {
    type V = AddressModel;

    open spec fn view(&self) -> AddressModel {
        match *self {
            IpAddress::V4(octets) => AddressModel::V4(octets@),
            IpAddress::V6(groups) => AddressModel::V6(groups@),
        }
    }
}

/// The octet that `field` denotes in dotted-decimal notation: one to three
/// decimal digits, without a leading zero before another digit, that denote
/// at most 255.
pub open spec fn octet_of(field: Seq<u8>) -> Option<u8> {
    if 1 <= field.len() <= 3 && all_digits(field) && (field.len() > 1 ==> field[0] != 0x30)
        && digits_value(field) <= 255 {
        Some(digits_value(field) as u8)
    } else {
        None
    }
}

/// The four octets that `text` denotes in dotted-decimal notation: four
/// fields, each an octet, with a dot between each two.
pub open spec fn ipv4_of(text: Seq<u8>) -> Option<Seq<u8>> {
    let end0 = find_from(text, 0, 0x2e);
    let end1 = find_from(text, end0 + 1, 0x2e);
    let end2 = find_from(text, end1 + 1, 0x2e);
    let end3 = find_from(text, end2 + 1, 0x2e);
    if end0 < text.len() && end1 < text.len() && end2 < text.len() && end3 == text.len() {
        let a = octet_of(text.subrange(0, end0 as int));
        let b = octet_of(text.subrange(end0 as int + 1, end1 as int));
        let c = octet_of(text.subrange(end1 as int + 1, end2 as int));
        let d = octet_of(text.subrange(end2 as int + 1, end3 as int));
        if a is Some && b is Some && c is Some && d is Some {
            Some(seq![a->0, b->0, c->0, d->0])
        } else {
            None
        }
    } else {
        None
    }
}

/// The two 16-bit groups that four octets fill, the first octet in the high
/// half of the first group.
pub open spec fn pair_of(octets: Seq<u8>) -> Seq<u16> {
    seq![(octets[0] * 256 + octets[1]) as u16, (octets[2] * 256 + octets[3]) as u16]
}

/// The groups that a non-empty list of fields denotes, the fields parted by
/// colons: each field is a group of hexadecimal digits, but that the last
/// may be a dotted-decimal address where `dotted` allows it, which stands
/// for two groups.
pub open spec fn groups_of(text: Seq<u8>, dotted: bool) -> Option<Seq<u16>>
    decreases text.len(),
{
    let end = find_from(text, 0, 0x3a);
    if end >= text.len() {
        if group_of(text) is Some {
            Some(seq![group_of(text)->0])
        } else if dotted && ipv4_of(text) is Some {
            Some(pair_of(ipv4_of(text)->0))
        } else {
            None
        }
    } else {
        let first = group_of(text.subrange(0, end as int));
        let rest = groups_of(text.subrange(end as int + 1, text.len() as int), dotted);
        if first is Some && rest is Some {
            Some(seq![first->0] + rest->0)
        } else {
            None
        }
    }
}

/// The groups that a list of fields denotes, which may be empty.
pub open spec fn group_list(text: Seq<u8>, dotted: bool) -> Option<Seq<u16>> {
    if text.len() == 0 {
        Some(Seq::empty())
    } else {
        groups_of(text, dotted)
    }
}

/// The first place at or after `start` where two colons stand side by side,
/// or the length of `text` where none do.
pub open spec fn gap_from(text: Seq<u8>, start: int) -> int
    decreases text.len() - start,
{
    if start + 1 >= text.len() {
        text.len() as int
    } else if text[start] == 0x3a && text[start + 1] == 0x3a {
        start
    } else {
        gap_from(text, start + 1)
    }
}

/// `count` groups of zero.
pub open spec fn zero_groups(count: int) -> Seq<u16> {
    Seq::new(count as nat, |i: int| 0u16)
}

/// The eight groups that `text` denotes as an address of version 6. Without
/// a double colon, `text` is a list of fields that make up eight groups. With
/// one, the fields before the first double colon and those behind it make up
/// at most seven groups, the former without a dotted-decimal field, and
/// groups of zero stand between them.
pub open spec fn ipv6_of(text: Seq<u8>) -> Option<Seq<u16>> {
    let gap = gap_from(text, 0);
    if gap >= text.len() {
        let groups = groups_of(text, true);
        if groups is Some && groups->0.len() == 8 {
            groups
        } else {
            None
        }
    } else {
        let head = group_list(text.subrange(0, gap), false);
        let tail = group_list(text.subrange(gap + 2, text.len() as int), true);
        if head is Some && tail is Some && head->0.len() + tail->0.len() <= 7 {
            Some(head->0 + zero_groups(8 - head->0.len() - tail->0.len()) + tail->0)
        } else {
            None
        }
    }
}

/// The address that `text` denotes: one of version 4 in dotted-decimal
/// notation, or else one of version 6.
pub open spec fn address_text(text: Seq<u8>) -> Option<AddressModel> {
    if ipv4_of(text) is Some {
        Some(AddressModel::V4(ipv4_of(text)->0))
    } else if ipv6_of(text) is Some {
        Some(AddressModel::V6(ipv6_of(text)->0))
    } else {
        None
    }
}

/// Reads `text[start..end]` as one octet of a dotted-decimal address.
pub fn read_octet(text: &[u8], start: usize, end: usize) -> (octet: Option<u8>)
    requires
        start <= end <= text.len(),
    ensures
        octet == octet_of(text@.subrange(start as int, end as int)),
{
    let len: usize = end - start;
    if len == 0 || len > 3 {
        return None;
    }
    assert(text@.subrange(start as int, end as int)[0] == text@[start as int]);
    if len > 1 && text[start] == 0x30 {
        return None;
    }
    match read_digits(text, start, end, 255) {
        None => None,
        Some(value) => if value > 255 {
            None
        } else {
            Some(value as u8)
        },
    }
}

/// Reads an address in dotted-decimal notation.
pub fn parse_ipv4(text: &[u8]) -> (octets: Option<[u8; 4]>)
    ensures
        match octets {
            Some(found) => ipv4_of(text@) == Some(found@),
            None => ipv4_of(text@) is None,
        },
{
    let len = text.len();
    let end0 = find_byte(text, 0, 0x2e);
    if end0 >= len {
        return None;
    }
    let end1 = find_byte(text, end0 + 1, 0x2e);
    if end1 >= len {
        return None;
    }
    let end2 = find_byte(text, end1 + 1, 0x2e);
    if end2 >= len {
        return None;
    }
    let end3 = find_byte(text, end2 + 1, 0x2e);
    if end3 < len {
        return None;
    }
    let a = read_octet(text, 0, end0);
    let b = read_octet(text, end0 + 1, end1);
    let c = read_octet(text, end1 + 1, end2);
    let d = read_octet(text, end2 + 1, end3);
    match (a, b, c, d) {
        (Some(a), Some(b), Some(c), Some(d)) => {
            let found: [u8; 4] = [a, b, c, d];
            assert(found@ =~= seq![a, b, c, d]);
            Some(found)
        },
        _ => None,
    }
}

/// What a list of fields denotes whose first fields gave `front` and whose
/// other fields give `rest`.
pub open spec fn joined(front: Seq<u16>, rest: Option<Seq<u16>>) -> Option<Seq<u16>> {
    match rest {
        Some(groups) => Some(front + groups),
        None => None,
    }
}

/// Reads a non-empty list of fields parted by colons.
pub fn parse_groups(text: &[u8], dotted: bool) -> (groups: Option<Vec<u16>>)
    ensures
        match groups {
            Some(found) => groups_of(text@, dotted) == Some(found@),
            None => groups_of(text@, dotted) is None,
        },
{
    let mut found: Vec<u16> = Vec::new();
    let mut rest: &[u8] = text;
    assert(Seq::<u16>::empty() + groups_of(text@, dotted)->0 =~= groups_of(text@, dotted)->0);
    loop
        invariant
            groups_of(text@, dotted) == joined(found@, groups_of(rest@, dotted)),
        decreases rest.len(),
    {
        let end = find_byte(rest, 0, 0x3a);
        if end >= rest.len() {
            match read_group(rest) {
                Some(group) => {
                    assert(found@ + seq![group] =~= found@.push(group));
                    found.push(group);
                    return Some(found);
                },
                None => {},
            }
            if !dotted {
                return None;
            }
            match parse_ipv4(rest) {
                Some(octets) => {
                    let high: u16 = octets[0] as u16 * 256 + octets[1] as u16;
                    let low: u16 = octets[2] as u16 * 256 + octets[3] as u16;
                    assert(found@ + pair_of(octets@) =~= found@.push(high).push(low));
                    found.push(high);
                    found.push(low);
                    return Some(found);
                },
                None => {
                    return None;
                },
            }
        }
        let field = slice_subrange(rest, 0, end);
        match read_group(field) {
            None => {
                return None;
            },
            Some(group) => {
                let next = slice_subrange(rest, end + 1, rest.len());
                proof {
                    let after = groups_of(next@, dotted);
                    if after is Some {
                        assert(found@ + (seq![group] + after->0) =~= found@.push(group) + after->0);
                    }
                }
                found.push(group);
                rest = next;
            },
        }
    }
}

/// Reads a list of fields parted by colons, which may be empty.
pub fn parse_group_list(text: &[u8], dotted: bool) -> (groups: Option<Vec<u16>>)
    ensures
        match groups {
            Some(found) => group_list(text@, dotted) == Some(found@),
            None => group_list(text@, dotted) is None,
        },
{
    if text.len() == 0 {
        let found: Vec<u16> = Vec::new();
        assert(found@ =~= Seq::<u16>::empty());
        Some(found)
    } else {
        parse_groups(text, dotted)
    }
}

/// The first place where two colons stand side by side, or the length of
/// `text`.
pub fn find_gap(text: &[u8]) -> (place: usize)
    ensures
        place == gap_from(text@, 0),
        place <= text.len(),
        place < text.len() ==> place + 2 <= text.len(),
{
    let len = text.len();
    if len < 2 {
        return len;
    }
    let mut i: usize = 0;
    while i < len - 1
        invariant
            gap_from(text@, 0) == gap_from(text@, i as int),
            i <= len - 1,
            len == text.len(),
        decreases len - i,
    {
        if text[i] == 0x3a && text[i + 1] == 0x3a {
            return i;
        }
        i += 1;
    }
    text.len()
}

/// The group at place `i` of the eight that `head`, groups of zero and
/// `tail` make up.
fn group_at(head: &Vec<u16>, tail: &Vec<u16>, i: usize) -> (group: u16)
    requires
        head.len() + tail.len() <= 8,
        i < 8,
    ensures
        group == (head@ + zero_groups(8 - head.len() - tail.len()) + tail@)[i as int],
{
    if i < head.len() {
        head[i]
    } else if i >= 8 - tail.len() {
        tail[i - (8 - tail.len())]
    } else {
        0
    }
}

/// Reads an address of version 6.
pub fn parse_ipv6(text: &[u8]) -> (groups: Option<[u16; 8]>)
    ensures
        match groups {
            Some(found) => ipv6_of(text@) == Some(found@),
            None => ipv6_of(text@) is None,
        },
{
    let len = text.len();
    let gap = find_gap(text);
    let empty: Vec<u16> = Vec::new();
    let (head, tail) = if gap >= len {
        match parse_groups(text, true) {
            Some(all) => {
                if all.len() != 8 {
                    return None;
                }
                (all, empty)
            },
            None => {
                return None;
            },
        }
    } else {
        let head = parse_group_list(slice_subrange(text, 0, gap), false);
        let tail = parse_group_list(slice_subrange(text, gap + 2, len), true);
        match (head, tail) {
            (Some(head), Some(tail)) => {
                if head.len() > 7 || tail.len() > 7 - head.len() {
                    return None;
                }
                (head, tail)
            },
            _ => {
                return None;
            },
        }
    };
    let found: [u16; 8] = [
        group_at(&head, &tail, 0),
        group_at(&head, &tail, 1),
        group_at(&head, &tail, 2),
        group_at(&head, &tail, 3),
        group_at(&head, &tail, 4),
        group_at(&head, &tail, 5),
        group_at(&head, &tail, 6),
        group_at(&head, &tail, 7),
    ];
    assert(found@ =~= head@ + zero_groups(8 - head.len() - tail.len()) + tail@);
    Some(found)
}

/// Reads an IP address of either version.
pub fn parse_address(text: &str) -> (address: Option<IpAddress>)
    ensures
        match address {
            Some(found) => address_text(text.spec_bytes()) == Some(found@),
            None => address_text(text.spec_bytes()) is None,
        },
{
    let bytes = text.as_bytes();
    match parse_ipv4(bytes) {
        Some(octets) => Some(IpAddress::V4(octets)),
        None => match parse_ipv6(bytes) {
            Some(groups) => Some(IpAddress::V6(groups)),
            None => None,
        },
    }
}

/// An address read from text has the four octets of version 4 or the
/// eight groups of version 6.
pub proof fn lemma_address_text_sizes(text: Seq<u8>)
    ensures
        match address_text(text) {
            Some(AddressModel::V4(octets)) => octets.len() == 4,
            Some(AddressModel::V6(groups)) => groups.len() == 8,
            None => true,
        },
{
}

} // verus!
