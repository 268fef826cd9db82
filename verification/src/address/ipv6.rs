//! The text form of IPv6 addresses.

use crate::address::digits::{
    all_digits, digit_char, digit_str, field_views, lemma_number_bound, number, parse_number, split,
    split_fields,
};
use crate::address::ipv4::{ipv4_number, ipv4_text, parse_v4_range, push_v4};
use vstd::prelude::*;
use vstd::string::StringExecFns;

verus! {

/// A field of an IPv6 address: one to four hexadecimal digits.
pub open spec fn group(field: Seq<char>) -> Option<int> {
    if 1 <= field.len() <= 4 && all_digits(field, 16) {
        Some(number(field, 16))
    } else {
        None
    }
}

/// The numbers that `fields` write, each field being one group.
pub open spec fn groups(fields: Seq<Seq<char>>) -> Option<Seq<int>>
    decreases fields.len(),
{
    if fields.len() == 0 {
        Some(Seq::empty())
    } else {
        match (groups(fields.drop_last()), group(fields.last())) {
            (Some(before), Some(g)) => Some(before.push(g)),
            _ => None,
        }
    }
}

/// Like `groups`, but the last field may be a dotted IPv4 address, which
/// stands for two groups.
pub open spec fn groups_with_tail(fields: Seq<Seq<char>>) -> Option<Seq<int>> {
    if fields.len() > 0 && ipv4_number(fields.last()) is Some {
        let v = ipv4_number(fields.last())->0;
        match groups(fields.drop_last()) {
            Some(before) => Some(before.push(v / 65536).push(v % 65536)),
            None => None,
        }
    } else {
        groups(fields)
    }
}

/// Two colons stand in `s` at positions `at` and `at + 1`.
pub open spec fn double_colon_at(s: Seq<char>, at: int) -> bool {
    0 <= at && at + 1 < s.len() && s[at] == ':' && s[at + 1] == ':'
}

/// `at` is the first position of `s` where two colons stand.
pub open spec fn is_first_double_colon(s: Seq<char>, at: int) -> bool {
    double_colon_at(s, at) && forall|q: int| 0 <= q < at ==> !double_colon_at(s, q)
}

/// The first position of `s` where two colons stand.
pub open spec fn first_double_colon(s: Seq<char>) -> Option<int> {
    if exists|at: int| is_first_double_colon(s, at) {
        Some(choose|at: int| is_first_double_colon(s, at))
    } else {
        None
    }
}

/// The groups on one side of a double colon: none where the side is empty,
/// else its fields between single colons.
pub open spec fn side_groups(side: Seq<char>, with_tail: bool) -> Option<Seq<int>> {
    if side.len() == 0 {
        Some(Seq::empty())
    } else if with_tail {
        groups_with_tail(split(side, ':'))
    } else {
        groups(split(side, ':'))
    }
}

/// `count` groups of zero.
pub open spec fn zero_groups(count: int) -> Seq<int> {
    Seq::new(count as nat, |i: int| 0int)
}

/// The eight groups of the IPv6 address that `text` writes.
///
/// Without a double colon the text holds eight groups between single colons,
/// the last two of which may be written as a dotted IPv4 address. With a
/// double colon, which stands for one or more groups of zero, the groups
/// before it are plain, those after it may end in a dotted IPv4 address, and
/// there are at most seven of them in all.
pub open spec fn ipv6_groups(text: Seq<char>) -> Option<Seq<int>> {
    match first_double_colon(text) {
        None => match groups_with_tail(split(text, ':')) {
            Some(all) => if all.len() == 8 {
                Some(all)
            } else {
                None
            },
            None => None,
        },
        Some(at) => match (
            side_groups(text.take(at), false),
            side_groups(text.skip(at + 2), true),
        ) {
            (Some(left), Some(right)) => if left.len() + right.len() <= 7 {
                Some(left + zero_groups(8 - left.len() - right.len()) + right)
            } else {
                None
            },
            _ => None,
        },
    }
}

/// The number of an IPv6 address from its eight groups, the first the most
/// significant.
pub open spec fn groups_number(g: Seq<int>) -> int {
    ((((((g[0] * 65536 + g[1]) * 65536 + g[2]) * 65536 + g[3]) * 65536 + g[4]) * 65536 + g[5])
        * 65536 + g[6]) * 65536 + g[7]
}

/// The number of the IPv6 address that `text` writes.
pub open spec fn ipv6_number(text: Seq<char>) -> Option<int> {
    match ipv6_groups(text) {
        Some(g) => Some(groups_number(g)),
        None => None,
    }
}

/// The groups in `v` as mathematical integers.
pub open spec fn group_values(v: Seq<u16>) -> Seq<int> {
    Seq::new(v.len(), |i: int| v[i] as int)
}

/// A number below 65536 in lower-case hexadecimal digits, without leading
/// zeros.
pub open spec fn hex_text(g: int) -> Seq<char> {
    if g < 16 {
        seq![digit_char(g)]
    } else if g < 256 {
        seq![digit_char(g / 16), digit_char(g % 16)]
    } else if g < 4096 {
        seq![digit_char(g / 256), digit_char(g / 16 % 16), digit_char(g % 16)]
    } else {
        seq![
            digit_char(g / 4096),
            digit_char(g / 256 % 16),
            digit_char(g / 16 % 16),
            digit_char(g % 16),
        ]
    }
}

/// The eight groups of the IPv6 address with number `v`, the first the most
/// significant.
pub open spec fn number_groups(v: int) -> Seq<int> {
    seq![
        v / 0x1_0000_0000_0000_0000_0000_0000_0000 % 65536,
        v / 0x1_0000_0000_0000_0000_0000_0000 % 65536,
        v / 0x1_0000_0000_0000_0000_0000 % 65536,
        v / 0x1_0000_0000_0000_0000 % 65536,
        v / 0x1_0000_0000_0000 % 65536,
        v / 0x1_0000_0000 % 65536,
        v / 0x1_0000 % 65536,
        v % 65536,
    ]
}

/// The groups in hexadecimal, with a colon between each two.
pub open spec fn joined(groups: Seq<int>) -> Seq<char>
    decreases groups.len(),
{
    if groups.len() == 0 {
        Seq::empty()
    } else if groups.len() == 1 {
        hex_text(groups[0])
    } else {
        joined(groups.drop_last()) + seq![':'] + hex_text(groups.last())
    }
}

/// From `start` on, `len` groups in a row are zero.
pub open spec fn zero_run(groups: Seq<int>, start: int, len: int) -> bool {
    &&& 0 <= start
    &&& 0 <= len
    &&& start + len <= groups.len()
    &&& forall|i: int| start <= i < start + len ==> groups[i] == 0
}

/// The run of zero groups at `start` is as long as any, and the first of
/// that length.
pub open spec fn longest_zero_run(groups: Seq<int>, start: int, len: int) -> bool {
    &&& zero_run(groups, start, len)
    &&& forall|s: int, l: int| #[trigger]
        zero_run(groups, s, l) ==> l < len || (l == len && s >= start)
}

/// The address is an IPv4 address mapped into IPv6: five groups of zero,
/// then one of `ffff`.
pub open spec fn is_mapped_v4(groups: Seq<int>) -> bool {
    groups[0] == 0 && groups[1] == 0 && groups[2] == 0 && groups[3] == 0 && groups[4] == 0
        && groups[5] == 0xffff
}

/// The text form of the IPv6 address with number `v`: a mapped IPv4 address
/// as `::ffff:` and its dotted form; else the groups in hexadecimal, with the
/// first longest run of two or more zero groups written as a double colon.
pub open spec fn ipv6_text(v: int) -> Seq<char> {
    groups_text(number_groups(v))
}

/// The text form of the IPv6 address with the eight groups `groups`.
pub open spec fn groups_text(groups: Seq<int>) -> Seq<char> {
    if is_mapped_v4(groups) {
        seq![':', ':', 'f', 'f', 'f', 'f', ':'] + ipv4_text(groups[6] * 65536 + groups[7])
    } else {
        let (start, len) = choose|start: int, len: int| longest_zero_run(groups, start, len);
        if len > 1 {
            joined(groups.take(start)) + seq![':', ':'] + joined(groups.skip(start + len))
        } else {
            joined(groups)
        }
    }
}

/// Where fields are read as groups, so are the first of them.
proof fn lemma_groups_prefix(fields: Seq<Seq<char>>, k: int)
    requires
        0 <= k <= fields.len(),
        groups(fields) is Some,
    ensures
        groups(fields.take(k)) is Some,
    decreases fields.len(),
{
    if k == fields.len() {
        assert(fields.take(k) =~= fields);
    } else {
        lemma_groups_prefix(fields.drop_last(), k);
        assert(fields.drop_last().take(k) =~= fields.take(k));
    }
}

/// Reads the first `count` of `fields` as groups.
fn parse_groups(fields: &Vec<Vec<char>>, count: usize) -> (value: Option<Vec<u16>>)
    requires
        count <= fields.len(),
    ensures
        value is Some <==> groups(field_views(fields@).take(count as int)) is Some,
        value matches Some(v) ==> groups(field_views(fields@).take(count as int)) == Some(
            group_values(v@),
        ),
{
    let mut out: Vec<u16> = Vec::new();
    let mut at: usize = 0;
    proof {
        assert(field_views(fields@).take(0) =~= Seq::<Seq<char>>::empty());
        assert(group_values(out@) =~= Seq::<int>::empty());
    }
    while at < count
        invariant
            at <= count <= fields.len(),
            groups(field_views(fields@).take(at as int)) == Some(group_values(out@)),
        decreases count - at,
    {
        let ghost upto = field_views(fields@).take(at + 1);
        proof {
            assert(upto.drop_last() =~= field_views(fields@).take(at as int));
            assert(upto.last() == fields@[at as int]@);
        }
        match parse_number(&fields[at], 16, 4) {
            None => {
                proof {
                    assert(groups(upto) is None);
                    if groups(field_views(fields@).take(count as int)) is Some {
                        lemma_groups_prefix(field_views(fields@).take(count as int), at + 1);
                        assert(field_views(fields@).take(count as int).take(at + 1) =~= upto);
                    }
                }
                return None;
            },
            Some(g) => {
                proof {
                    lemma_number_bound(fields@[at as int]@, 16);
                }
                let ghost before = group_values(out@);
                out.push(g as u16);
                proof {
                    assert(group_values(out@) =~= before.push(g as int));
                }
            },
        }
        at += 1;
    }
    Some(out)
}

/// Reads `fields` as groups, the last of which may be a dotted IPv4 address.
fn parse_groups_with_tail(fields: &Vec<Vec<char>>) -> (value: Option<Vec<u16>>)
    ensures
        value is Some <==> groups_with_tail(field_views(fields@)) is Some,
        value matches Some(v) ==> groups_with_tail(field_views(fields@)) == Some(
            group_values(v@),
        ),
{
    let n = fields.len();
    proof {
        assert(field_views(fields@).take(n as int) =~= field_views(fields@));
    }
    if n == 0 {
        return parse_groups(fields, 0);
    }
    let last = &fields[n - 1];
    proof {
        assert(last@.subrange(0, last.len() as int) =~= last@);
        assert(field_views(fields@).last() == last@);
        assert(field_views(fields@).drop_last() =~= field_views(fields@).take(n - 1));
    }
    match parse_v4_range(last, 0, last.len()) {
        None => parse_groups(fields, n),
        Some(v) => match parse_groups(fields, n - 1) {
            None => None,
            Some(mut out) => {
                let ghost before = group_values(out@);
                out.push((v / 65536) as u16);
                out.push((v % 65536) as u16);
                proof {
                    assert(group_values(out@) =~= before.push(v as int / 65536).push(
                        v as int % 65536,
                    ));
                }
                Some(out)
            },
        },
    }
}

/// The first position of `text` where two colons stand.
fn find_double_colon(text: &Vec<char>) -> (found: Option<usize>)
    ensures
        found matches Some(at) ==> is_first_double_colon(text@, at as int),
        found is None ==> forall|q: int| !double_colon_at(text@, q),
{
    if text.len() < 2 {
        return None;
    }
    let mut at: usize = 0;
    while at + 1 < text.len()
        invariant
            at + 1 <= text.len(),
            forall|q: int| 0 <= q < at ==> !double_colon_at(text@, q),
        decreases text.len() - at,
    {
        if text[at] == ':' && text[at + 1] == ':' {
            return Some(at);
        }
        at += 1;
    }
    None
}

/// Reads the characters of `text` as an IPv6 address.
pub(crate) fn parse_v6_chars(text: &Vec<char>) -> (value: Option<u128>)
    ensures
        value is Some <==> ipv6_number(text@) is Some,
        value matches Some(v) ==> ipv6_number(text@) == Some(v as int),
{
    let all: Vec<u16> = match find_double_colon(text) {
        None => {
            proof {
                assert(first_double_colon(text@) is None);
                assert(text@.subrange(0, text.len() as int) =~= text@);
            }
            let fields = split_fields(text, 0, text.len(), ':');
            match parse_groups_with_tail(&fields) {
                None => {
                    return None;
                },
                Some(all) => {
                    if all.len() != 8 {
                        return None;
                    }
                    all
                },
            }
        },
        Some(at) => {
            proof {
                assert(is_first_double_colon(text@, at as int));
                let chosen = choose|p: int| is_first_double_colon(text@, p);
                assert(is_first_double_colon(text@, chosen));
                assert(chosen == at);
                assert(first_double_colon(text@) == Some(at as int));
                assert(text@.subrange(0, at as int) =~= text@.take(at as int));
                assert(text@.subrange(at + 2, text.len() as int) =~= text@.skip(at + 2));
            }
            let left: Vec<u16> = if at == 0 {
                proof {
                    assert(group_values(Seq::<u16>::empty()) =~= Seq::<int>::empty());
                }
                Vec::new()
            } else {
                let fields = split_fields(text, 0, at, ':');
                proof {
                    assert(field_views(fields@).take(fields.len() as int) =~= field_views(
                        fields@,
                    ));
                }
                match parse_groups(&fields, fields.len()) {
                    None => {
                        return None;
                    },
                    Some(left) => left,
                }
            };
            let right: Vec<u16> = if at + 2 == text.len() {
                proof {
                    assert(group_values(Seq::<u16>::empty()) =~= Seq::<int>::empty());
                }
                Vec::new()
            } else {
                let fields = split_fields(text, at + 2, text.len(), ':');
                match parse_groups_with_tail(&fields) {
                    None => {
                        return None;
                    },
                    Some(right) => right,
                }
            };
            if left.len() > 7 || right.len() > 7 - left.len() {
                return None;
            }
            let mut all: Vec<u16> = Vec::new();
            let mut i: usize = 0;
            while i < left.len()
                invariant
                    i <= left.len(),
                    all@ == left@.take(i as int),
                decreases left.len() - i,
            {
                all.push(left[i]);
                proof {
                    assert(left@.take(i + 1) =~= left@.take(i as int).push(left@[i as int]));
                }
                i += 1;
            }
            let gap: usize = 8 - left.len() - right.len();
            let mut z: usize = 0;
            while z < gap
                invariant
                    z <= gap,
                    all@ == left@ + Seq::new(z as nat, |k: int| 0u16),
                decreases gap - z,
            {
                all.push(0);
                proof {
                    assert(left@ + Seq::new((z + 1) as nat, |k: int| 0u16) =~= (left@ + Seq::new(
                        z as nat,
                        |k: int| 0u16,
                    )).push(0u16));
                }
                z += 1;
            }
            let mut j: usize = 0;
            while j < right.len()
                invariant
                    j <= right.len(),
                    all@ == left@ + Seq::new(gap as nat, |k: int| 0u16) + right@.take(j as int),
                decreases right.len() - j,
            {
                all.push(right[j]);
                proof {
                    assert(right@.take(j + 1) =~= right@.take(j as int).push(right@[j as int]));
                    assert(left@ + Seq::new(gap as nat, |k: int| 0u16) + right@.take(j + 1) =~= (
                    left@ + Seq::new(gap as nat, |k: int| 0u16) + right@.take(j as int)).push(
                        right@[j as int],
                    ));
                }
                j += 1;
            }
            proof {
                assert(left@.take(left.len() as int) =~= left@);
                assert(right@.take(right.len() as int) =~= right@);
                assert(group_values(all@) =~= group_values(left@) + zero_groups(gap as int)
                    + group_values(right@));
            }
            all
        },
    };
    proof {
        assert(ipv6_groups(text@) == Some(group_values(all@)));
        assert(group_values(all@)[0] == all@[0]);
        assert(group_values(all@)[1] == all@[1]);
        assert(group_values(all@)[2] == all@[2]);
        assert(group_values(all@)[3] == all@[3]);
        assert(group_values(all@)[4] == all@[4]);
        assert(group_values(all@)[5] == all@[5]);
        assert(group_values(all@)[6] == all@[6]);
        assert(group_values(all@)[7] == all@[7]);
    }
    let g0: u128 = all[0] as u128;
    let g1: u128 = all[1] as u128;
    let g2: u128 = all[2] as u128;
    let g3: u128 = all[3] as u128;
    let g4: u128 = all[4] as u128;
    let g5: u128 = all[5] as u128;
    let g6: u128 = all[6] as u128;
    let g7: u128 = all[7] as u128;
    let a: u128 = (g0 * 65536 + g1) * 65536 + g2;
    let b: u128 = ((a * 65536 + g3) * 65536 + g4) * 65536 + g5;
    Some((b * 65536 + g6) * 65536 + g7)
}

/// Appends `g` in hexadecimal digits.
fn push_hex(out: &mut String, g: u16)
    ensures
        final(out)@ == old(out)@ + hex_text(g as int),
{
    if g >= 4096 {
        out.append(digit_str((g / 4096) as u8));
    }
    if g >= 256 {
        out.append(digit_str((g / 256 % 16) as u8));
    }
    if g >= 16 {
        out.append(digit_str((g / 16 % 16) as u8));
    }
    out.append(digit_str((g % 16) as u8));
    proof {
        assert(out@ =~= old(out)@ + hex_text(g as int));
    }
}

/// Appends the groups from `lo` up to `hi`, with a colon between each two.
fn push_joined(out: &mut String, groups: &Vec<u16>, lo: usize, hi: usize)
    requires
        lo <= hi <= groups.len(),
    ensures
        final(out)@ == old(out)@ + joined(group_values(groups@).subrange(lo as int, hi as int)),
{
    proof {
        assert(group_values(groups@).subrange(lo as int, lo as int) =~= Seq::<int>::empty());
        assert(out@ =~= old(out)@ + Seq::<char>::empty());
    }
    let mut at: usize = lo;
    while at < hi
        invariant
            lo <= at <= hi <= groups.len(),
            out@ == old(out)@ + joined(group_values(groups@).subrange(lo as int, at as int)),
        decreases hi - at,
    {
        let ghost before = out@;
        let ghost upto = group_values(groups@).subrange(lo as int, at + 1);
        proof {
            reveal_strlit(":");
            assert(upto.drop_last() =~= group_values(groups@).subrange(lo as int, at as int));
            assert(upto.last() == groups@[at as int] as int);
            assert(":"@ =~= seq![':']);
        }
        if at > lo {
            out.append(":");
        }
        push_hex(out, groups[at]);
        proof {
            if at == lo {
                assert(upto.len() == 1);
                assert(upto[0] == groups@[at as int] as int);
                assert(joined(upto.drop_last()) =~= Seq::<char>::empty());
                assert(out@ =~= old(out)@ + joined(upto));
            } else {
                assert(out@ =~= old(out)@ + joined(upto));
            }
        }
        at += 1;
    }
}

/// The first longest run of zero groups: where it starts and how long it
/// is.
fn find_zero_run(groups: &Vec<u16>) -> (run: (usize, usize))
    ensures
        longest_zero_run(group_values(groups@), run.0 as int, run.1 as int),
{
    let ghost g = group_values(groups@);
    let mut best_start: usize = 0;
    let mut best_len: usize = 0;
    let mut cur_start: usize = 0;
    let mut cur_len: usize = 0;
    let mut at: usize = 0;
    while at < groups.len()
        invariant
            g == group_values(groups@),
            at <= groups.len(),
            zero_run(g, best_start as int, best_len as int),
            best_start + best_len <= at,
            best_len == 0 ==> best_start == 0,
            cur_len <= best_len,
            cur_len > 0 ==> cur_start + cur_len == at && zero_run(g, cur_start as int, cur_len as int)
                && (cur_start == 0 || g[cur_start - 1] != 0),
            cur_len == 0 ==> at == 0 || g[at - 1] != 0,
            forall|s: int, l: int| #[trigger]
                zero_run(g, s, l) && s + l <= at ==> l < best_len || (l == best_len && s
                    >= best_start),
        decreases groups.len() - at,
    {
        if groups[at] == 0 {
            if cur_len == 0 {
                cur_start = at;
            }
            cur_len += 1;
            let ghost old_best_len = best_len;
            let ghost old_best_start = best_start;
            if cur_len > best_len {
                best_start = cur_start;
                best_len = cur_len;
            }
            proof {
                assert(g[at as int] == 0);
                assert(zero_run(g, cur_start as int, cur_len as int));
                assert forall|s: int, l: int| #[trigger]
                    zero_run(g, s, l) && s + l <= at + 1 implies l < best_len || (l == best_len
                    && s >= best_start) by {
                    if s + l == at + 1 && l > 0 {
                        if s < cur_start {
                            assert(g[cur_start - 1] == 0);
                        }
                    } else if l > 0 {
                        assert(zero_run(g, s, l) && s + l <= at);
                    } else {
                        assert(zero_run(g, 0, 0));
                    }
                }
            }
        } else {
            cur_len = 0;
            proof {
                assert(g[at as int] != 0);
                assert forall|s: int, l: int| #[trigger]
                    zero_run(g, s, l) && s + l <= at + 1 implies l < best_len || (l == best_len
                    && s >= best_start) by {
                    if s + l == at + 1 && l > 0 {
                        assert(g[at as int] == 0);
                    } else if l > 0 {
                        assert(zero_run(g, s, l) && s + l <= at);
                    } else {
                        assert(zero_run(g, 0, 0));
                    }
                }
            }
        }
        at += 1;
    }
    (best_start, best_len)
}

/// The eight groups of the IPv6 address with number `v`.
pub(crate) fn groups_of(v: u128) -> (groups: Vec<u16>)
    ensures
        groups.len() == 8,
        group_values(groups@) == number_groups(v as int),
{
    let mut groups: Vec<u16> = Vec::new();
    groups.push((v / 0x1_0000_0000_0000_0000_0000_0000_0000 % 65536) as u16);
    groups.push((v / 0x1_0000_0000_0000_0000_0000_0000 % 65536) as u16);
    groups.push((v / 0x1_0000_0000_0000_0000_0000 % 65536) as u16);
    groups.push((v / 0x1_0000_0000_0000_0000 % 65536) as u16);
    groups.push((v / 0x1_0000_0000_0000 % 65536) as u16);
    groups.push((v / 0x1_0000_0000 % 65536) as u16);
    groups.push((v / 0x1_0000 % 65536) as u16);
    groups.push((v % 65536) as u16);
    proof {
        assert(group_values(groups@) =~= number_groups(v as int));
    }
    groups
}

/// Appends the text form of the IPv6 address with the eight groups `groups`.
pub(crate) fn push_groups(out: &mut String, groups: &Vec<u16>)
    requires
        groups.len() == 8,
    ensures
        final(out)@ == old(out)@ + groups_text(group_values(groups@)),
{
    let ghost g = group_values(groups@);
    proof {
        assert(g[0] == groups@[0] && g[1] == groups@[1] && g[2] == groups@[2] && g[3]
            == groups@[3]);
        assert(g[4] == groups@[4] && g[5] == groups@[5] && g[6] == groups@[6] && g[7]
            == groups@[7]);
    }
    if groups[0] == 0 && groups[1] == 0 && groups[2] == 0 && groups[3] == 0 && groups[4] == 0
        && groups[5] == 0xffff {
        proof {
            reveal_strlit("::ffff:");
        }
        out.append("::ffff:");
        let hi: u32 = groups[6] as u32;
        let lo: u32 = groups[7] as u32;
        push_v4(out, hi * 65536 + lo);
        proof {
            assert("::ffff:"@ =~= seq![':', ':', 'f', 'f', 'f', 'f', ':']);
            assert(out@ =~= old(out)@ + groups_text(g));
        }
    } else {
        let (start, len) = find_zero_run(groups);
        proof {
            let (s, l) = choose|s: int, l: int| longest_zero_run(g, s, l);
            assert(longest_zero_run(g, start as int, len as int));
            assert(longest_zero_run(g, s, l));
            assert(zero_run(g, s, l));
            assert(zero_run(g, start as int, len as int));
            assert(s == start && l == len);
            reveal_strlit("::");
            assert("::"@ =~= seq![':', ':']);
        }
        if len > 1 {
            push_joined(out, groups, 0, start);
            out.append("::");
            push_joined(out, groups, start + len, groups.len());
            proof {
                assert(g.subrange(0, start as int) =~= g.take(start as int));
                assert(g.subrange(start + len, 8) =~= g.skip(start + len));
                assert(out@ =~= old(out)@ + groups_text(g));
            }
        } else {
            push_joined(out, groups, 0, groups.len());
            proof {
                assert(g.subrange(0, 8) =~= g);
                assert(out@ =~= old(out)@ + groups_text(g));
            }
        }
    }
}

} // verus!
