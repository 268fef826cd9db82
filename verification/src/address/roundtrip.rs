//! An address that is written out reads back as itself.

use crate::address::digits::{
    all_digits, decimal_digit, digit, digit_char, hex_digit, number, split,
};
use crate::address::ipv4::{decimal_text, ipv4_number, ipv4_text, octet};
use crate::address::ipv6::{
    double_colon_at, first_double_colon, group, groups, groups_number, groups_text,
    groups_with_tail, hex_text, ipv6_groups, ipv6_number, ipv6_text, is_first_double_colon,
    is_mapped_v4, joined, longest_zero_run, number_groups, side_groups, zero_groups, zero_run,
};
use crate::address::IpAddress;
use vstd::arithmetic::div_mod::lemma_div_denominator;
use vstd::prelude::*;

verus! {

/// No character of `s` is `sep`.
pub open spec fn free_of(s: Seq<char>, sep: char) -> bool {
    forall|i: int| 0 <= i < s.len() ==> s[i] != sep
}

/// A text without separator is one field.
pub proof fn lemma_split_plain(x: Seq<char>, sep: char)
    requires
        free_of(x, sep),
    ensures
        split(x, sep) == seq![x],
    decreases x.len(),
{
    if x.len() == 0 {
        assert(x =~= Seq::<char>::empty());
    } else {
        lemma_split_plain(x.drop_last(), sep);
        assert(x.drop_last().push(x.last()) =~= x);
        assert(seq![x.drop_last()].update(0, x) =~= seq![x]);
    }
}

/// A separator and a text without separator after it add one field.
pub proof fn lemma_split_append(s: Seq<char>, x: Seq<char>, sep: char)
    requires
        free_of(x, sep),
    ensures
        split(s + seq![sep] + x, sep) == split(s, sep).push(x),
    decreases x.len(),
{
    let whole = s + seq![sep] + x;
    if x.len() == 0 {
        assert(whole.drop_last() =~= s);
        assert(x =~= Seq::<char>::empty());
    } else {
        lemma_split_append(s, x.drop_last(), sep);
        assert(whole.drop_last() =~= s + seq![sep] + x.drop_last());
        assert(whole.last() == x.last());
        assert(x.drop_last().push(x.last()) =~= x);
        let before = split(s, sep).push(x.drop_last());
        assert(before.update(before.len() - 1, before.last().push(x.last())) =~= split(
            s,
            sep,
        ).push(x));
    }
}

/// The character of a digit is read as that digit, and is neither a dot nor
/// a colon.
pub proof fn lemma_digit_char(d: int)
    requires
        0 <= d < 16,
    ensures
        hex_digit(digit_char(d)) == Some(d),
        d < 10 ==> decimal_digit(digit_char(d)) == Some(d),
        digit_char(d) != '.',
        digit_char(d) != ':',
        d != 0 ==> digit_char(d) != '0',
{
}

/// The decimal text of an octet is read as that octet, and holds no dot.
pub proof fn lemma_decimal_text(n: int)
    requires
        0 <= n <= 255,
    ensures
        octet(decimal_text(n)) == Some(n),
        free_of(decimal_text(n), '.'),
{
    let t = decimal_text(n);
    reveal_with_fuel(number, 4);
    lemma_digit_char(n % 10);
    lemma_digit_char(n / 10 % 10);
    lemma_digit_char(n / 100);
    if n < 10 {
        assert(t.drop_last() =~= Seq::<char>::empty());
    } else if n < 100 {
        assert(t.drop_last() =~= seq![digit_char(n / 10)]);
        assert(t.drop_last().drop_last() =~= Seq::<char>::empty());
    } else {
        assert(t.drop_last() =~= seq![digit_char(n / 100), digit_char(n / 10 % 10)]);
        assert(t.drop_last().drop_last() =~= seq![digit_char(n / 100)]);
        assert(t.drop_last().drop_last().drop_last() =~= Seq::<char>::empty());
    }
    assert(all_digits(t, 10)) by {
        assert forall|i: int| 0 <= i < t.len() implies (#[trigger] digit(t[i], 10)) is Some by {}
    }
    assert(number(t, 10) == n);
}

/// The dotted form of an IPv4 address reads back as the address.
pub proof fn lemma_ipv4_reads_back(v: int)
    requires
        0 <= v <= u32::MAX,
    ensures
        ipv4_number(ipv4_text(v)) == Some(v),
{
    let a = v / 16777216;
    let b = v / 65536 % 256;
    let c = v / 256 % 256;
    let d = v % 256;
    lemma_decimal_text(a);
    lemma_decimal_text(b);
    lemma_decimal_text(c);
    lemma_decimal_text(d);
    let ta = decimal_text(a);
    let tb = decimal_text(b);
    let tc = decimal_text(c);
    let td = decimal_text(d);
    lemma_split_plain(ta, '.');
    lemma_split_append(ta, tb, '.');
    lemma_split_append(ta + seq!['.'] + tb, tc, '.');
    lemma_split_append(ta + seq!['.'] + tb + seq!['.'] + tc, td, '.');
    let fields = split(ipv4_text(v), '.');
    assert(fields =~= seq![ta, tb, tc, td]);
    assert(((a * 256 + b) * 256 + c) * 256 + d == v);
}

/// The decimal text of an octet holds no colon.
pub proof fn lemma_decimal_text_plain(n: int)
    requires
        0 <= n <= 255,
    ensures
        free_of(decimal_text(n), ':'),
        decimal_text(n).len() > 0,
{
    lemma_digit_char(n % 10);
    lemma_digit_char(n / 10 % 10);
    lemma_digit_char(n / 100);
}

/// The dotted form of an IPv4 address holds no colon.
pub proof fn lemma_ipv4_text_plain(v: int)
    requires
        0 <= v <= u32::MAX,
    ensures
        free_of(ipv4_text(v), ':'),
{
    lemma_decimal_text_plain(v / 16777216);
    lemma_decimal_text_plain(v / 65536 % 256);
    lemma_decimal_text_plain(v / 256 % 256);
    lemma_decimal_text_plain(v % 256);
}

/// Every group is a number of sixteen bits.
pub open spec fn in_range(gs: Seq<int>) -> bool {
    forall|i: int| 0 <= i < gs.len() ==> 0 <= #[trigger] gs[i] < 65536
}

/// The hexadecimal text of a group is read as that group, is not empty, and
/// holds neither colon nor dot.
pub proof fn lemma_hex_text(g: int)
    requires
        0 <= g < 65536,
    ensures
        group(hex_text(g)) == Some(g),
        free_of(hex_text(g), ':'),
        free_of(hex_text(g), '.'),
        hex_text(g).len() > 0,
{
    let t = hex_text(g);
    reveal_with_fuel(number, 5);
    lemma_digit_char(g % 16);
    lemma_digit_char(g / 16 % 16);
    lemma_digit_char(g / 256 % 16);
    lemma_digit_char(g / 4096);
    if g < 16 {
        assert(t.drop_last() =~= Seq::<char>::empty());
    } else if g < 256 {
        assert(t.drop_last() =~= seq![digit_char(g / 16)]);
        assert(t.drop_last().drop_last() =~= Seq::<char>::empty());
    } else if g < 4096 {
        assert(t.drop_last() =~= seq![digit_char(g / 256), digit_char(g / 16 % 16)]);
        assert(t.drop_last().drop_last() =~= seq![digit_char(g / 256)]);
        assert(t.drop_last().drop_last().drop_last() =~= Seq::<char>::empty());
    } else {
        assert(t.drop_last() =~= seq![
            digit_char(g / 4096),
            digit_char(g / 256 % 16),
            digit_char(g / 16 % 16),
        ]);
        assert(t.drop_last().drop_last() =~= seq![digit_char(g / 4096), digit_char(g / 256 % 16)]);
        assert(t.drop_last().drop_last().drop_last() =~= seq![digit_char(g / 4096)]);
        assert(t.drop_last().drop_last().drop_last().drop_last() =~= Seq::<char>::empty());
    }
    assert(all_digits(t, 16)) by {
        assert forall|i: int| 0 <= i < t.len() implies (#[trigger] digit(t[i], 16)) is Some by {}
    }
    assert(number(t, 16) == g);
}

/// The hexadecimal texts of the groups.
pub open spec fn hex_fields(gs: Seq<int>) -> Seq<Seq<char>> {
    Seq::new(gs.len(), |i: int| hex_text(gs[i]))
}

/// A text neither begins nor ends with a colon, and holds no two colons in a
/// row.
pub open spec fn single_colons(s: Seq<char>) -> bool {
    &&& s.len() > 0 ==> s[0] != ':' && s.last() != ':'
    &&& forall|at: int| !double_colon_at(s, at)
}

/// The joined groups hold single colons only and no dot, and their fields
/// are the hexadecimal texts of the groups.
pub proof fn lemma_joined(gs: Seq<int>)
    requires
        in_range(gs),
    ensures
        single_colons(joined(gs)),
        free_of(joined(gs), '.'),
        gs.len() > 0 ==> joined(gs).len() > 0 && split(joined(gs), ':') == hex_fields(gs),
    decreases gs.len(),
{
    if gs.len() == 0 {
    } else if gs.len() == 1 {
        lemma_hex_text(gs[0]);
        lemma_split_plain(hex_text(gs[0]), ':');
        assert(hex_fields(gs) =~= seq![hex_text(gs[0])]);
    } else {
        let init = gs.drop_last();
        let tail = hex_text(gs.last());
        lemma_joined(init);
        lemma_hex_text(gs.last());
        lemma_split_append(joined(init), tail, ':');
        assert(hex_fields(gs) =~= hex_fields(init).push(tail));
        let whole = joined(gs);
        let n = joined(init).len() as int;
        assert(whole == joined(init) + seq![':'] + tail);
        assert forall|at: int| !double_colon_at(whole, at) by {
            if 0 <= at && at + 1 < whole.len() {
                if at + 1 < n {
                    assert(!double_colon_at(joined(init), at));
                    assert(whole[at] == joined(init)[at]);
                    assert(whole[at + 1] == joined(init)[at + 1]);
                } else if at + 1 == n {
                    assert(whole[at] == joined(init).last());
                } else {
                    assert(whole[at + 1] == tail[at - n]);
                }
            }
        }
        assert(whole[0] == joined(init)[0]);
        assert(whole.last() == tail.last());
        assert forall|i: int| 0 <= i < whole.len() implies whole[i] != '.' by {
            if i < n {
                assert(whole[i] == joined(init)[i]);
            } else if i > n {
                assert(whole[i] == tail[i - n - 1]);
            }
        }
    }
}

/// The hexadecimal texts of groups are read as those groups.
pub proof fn lemma_hex_fields(gs: Seq<int>)
    requires
        in_range(gs),
    ensures
        groups(hex_fields(gs)) == Some(gs),
    decreases gs.len(),
{
    if gs.len() == 0 {
        assert(hex_fields(gs) =~= Seq::<Seq<char>>::empty());
        assert(gs =~= Seq::<int>::empty());
    } else {
        lemma_hex_fields(gs.drop_last());
        lemma_hex_text(gs.last());
        assert(hex_fields(gs).drop_last() =~= hex_fields(gs.drop_last()));
        assert(hex_fields(gs).last() == hex_text(gs.last()));
        assert(gs.drop_last().push(gs.last()) =~= gs);
    }
}

/// A text without dot is no dotted IPv4 address.
pub proof fn lemma_no_dot_no_ipv4(text: Seq<char>)
    requires
        free_of(text, '.'),
    ensures
        ipv4_number(text) is None,
{
    lemma_split_plain(text, '.');
}

/// The joined groups, as one side of a double colon, are read as the groups.
pub proof fn lemma_side(gs: Seq<int>, with_tail: bool)
    requires
        in_range(gs),
    ensures
        side_groups(joined(gs), with_tail) == Some(gs),
{
    lemma_joined(gs);
    lemma_hex_fields(gs);
    if gs.len() == 0 {
        assert(gs =~= Seq::<int>::empty());
    } else {
        lemma_hex_text(gs.last());
        assert(hex_fields(gs).last() == hex_text(gs.last()));
        lemma_no_dot_no_ipv4(hex_text(gs.last()));
    }
}

/// Where two texts with single colons only stand on either side of a double
/// colon, that is the first double colon of the whole.
pub proof fn lemma_first_double_colon(left: Seq<char>, right: Seq<char>)
    requires
        single_colons(left),
    ensures
        first_double_colon(left + seq![':', ':'] + right) == Some(left.len() as int),
        (left + seq![':', ':'] + right).take(left.len() as int) == left,
        (left + seq![':', ':'] + right).skip(left.len() as int + 2) == right,
{
    let whole = left + seq![':', ':'] + right;
    let n = left.len() as int;
    assert(whole[n] == ':' && whole[n + 1] == ':');
    assert forall|q: int| 0 <= q < n implies !double_colon_at(whole, q) by {
        if q + 1 < n {
            assert(!double_colon_at(left, q));
            assert(whole[q] == left[q] && whole[q + 1] == left[q + 1]);
        } else {
            assert(whole[q] == left.last());
        }
    }
    assert(is_first_double_colon(whole, n));
    let chosen = choose|at: int| is_first_double_colon(whole, at);
    assert(is_first_double_colon(whole, chosen));
    assert(chosen == n);
    assert(whole.take(n) =~= left);
    assert(whole.skip(n + 2) =~= right);
}

/// The runs of zero groups among the first `n` groups: the first longest
/// run, where it starts and how long it is, and the run that ends with group
/// `n - 1`.
proof fn lemma_scan_runs(g: Seq<int>, n: int) -> (r: (int, int, int, int))
    requires
        0 <= n <= g.len(),
    ensures
        zero_run(g, r.0, r.1),
        r.0 + r.1 <= n,
        r.1 == 0 ==> r.0 == 0,
        0 <= r.3 <= r.1,
        r.3 > 0 ==> r.2 + r.3 == n && zero_run(g, r.2, r.3) && (r.2 == 0 || g[r.2 - 1] != 0),
        r.3 == 0 ==> n == 0 || g[n - 1] != 0,
        forall|s: int, l: int| #[trigger]
            zero_run(g, s, l) && s + l <= n ==> l < r.1 || (l == r.1 && s >= r.0),
    decreases n,
{
    if n == 0 {
        assert forall|s: int, l: int| #[trigger] zero_run(g, s, l) && s + l <= 0 implies l < 0
            || (l == 0 && s >= 0) by {}
        (0, 0, 0, 0)
    } else {
        let (bs, bl, cs, cl) = lemma_scan_runs(g, n - 1);
        if g[n - 1] == 0 {
            let cs2 = if cl == 0 {
                n - 1
            } else {
                cs
            };
            let cl2 = cl + 1;
            let (bs2, bl2) = if cl2 > bl {
                (cs2, cl2)
            } else {
                (bs, bl)
            };
            assert(zero_run(g, cs2, cl2));
            assert forall|s: int, l: int| #[trigger] zero_run(g, s, l) && s + l <= n implies l
                < bl2 || (l == bl2 && s >= bs2) by {
                if s + l == n && l > 0 {
                    if s < cs2 {
                        assert(g[cs2 - 1] == 0);
                    }
                } else if l > 0 {
                    assert(zero_run(g, s, l) && s + l <= n - 1);
                } else {
                    assert(zero_run(g, 0, 0));
                }
            }
            (bs2, bl2, cs2, cl2)
        } else {
            assert forall|s: int, l: int| #[trigger] zero_run(g, s, l) && s + l <= n implies l
                < bl || (l == bl && s >= bs) by {
                if s + l == n && l > 0 {
                    assert(g[n - 1] == 0);
                } else if l > 0 {
                    assert(zero_run(g, s, l) && s + l <= n - 1);
                } else {
                    assert(zero_run(g, 0, 0));
                }
            }
            (bs, bl, 0, 0)
        }
    }
}

/// Among any groups there is a first longest run of zero groups.
pub proof fn lemma_longest_zero_run(g: Seq<int>) -> (run: (int, int))
    ensures
        longest_zero_run(g, run.0, run.1),
        run == choose|start: int, len: int| longest_zero_run(g, start, len),
{
    let r = lemma_scan_runs(g, g.len() as int);
    assert(longest_zero_run(g, r.0, r.1));
    let chosen = choose|start: int, len: int| longest_zero_run(g, start, len);
    assert(longest_zero_run(g, chosen.0, chosen.1));
    assert(zero_run(g, chosen.0, chosen.1));
    assert(zero_run(g, r.0, r.1));
    (r.0, r.1)
}

/// The groups of the number of an IPv6 address are eight numbers of sixteen
/// bits, and make that number.
pub proof fn lemma_number_groups(v: int)
    requires
        0 <= v <= u128::MAX,
    ensures
        number_groups(v).len() == 8,
        in_range(number_groups(v)),
        groups_number(number_groups(v)) == v,
{
    let g = number_groups(v);
    let v1 = v / 0x1_0000;
    let v2 = v1 / 0x1_0000;
    let v3 = v2 / 0x1_0000;
    let v4 = v3 / 0x1_0000;
    let v5 = v4 / 0x1_0000;
    let v6 = v5 / 0x1_0000;
    let v7 = v6 / 0x1_0000;
    lemma_div_denominator(v, 0x1_0000, 0x1_0000);
    lemma_div_denominator(v, 0x1_0000_0000, 0x1_0000);
    lemma_div_denominator(v, 0x1_0000_0000_0000, 0x1_0000);
    lemma_div_denominator(v, 0x1_0000_0000_0000_0000, 0x1_0000);
    lemma_div_denominator(v, 0x1_0000_0000_0000_0000_0000, 0x1_0000);
    lemma_div_denominator(v, 0x1_0000_0000_0000_0000_0000_0000, 0x1_0000);
    assert(v2 == v / 0x1_0000_0000);
    assert(v3 == v / 0x1_0000_0000_0000);
    assert(v4 == v / 0x1_0000_0000_0000_0000);
    assert(v5 == v / 0x1_0000_0000_0000_0000_0000);
    assert(v6 == v / 0x1_0000_0000_0000_0000_0000_0000);
    assert(v7 == v / 0x1_0000_0000_0000_0000_0000_0000_0000);
    assert(g[7] == v % 65536 && g[6] == v1 % 65536 && g[5] == v2 % 65536 && g[4] == v3 % 65536);
    assert(g[3] == v4 % 65536 && g[2] == v5 % 65536 && g[1] == v6 % 65536 && g[0] == v7 % 65536);
    assert(v7 < 65536);
    assert forall|i: int| 0 <= i < g.len() implies 0 <= #[trigger] g[i] < 65536 by {}
}

/// The text of a mapped IPv4 address reads back as its groups, and not as a
/// dotted IPv4 address.
proof fn lemma_mapped_text(g: Seq<int>)
    requires
        g.len() == 8,
        in_range(g),
        is_mapped_v4(g),
    ensures
        ipv6_groups(groups_text(g)) == Some(g),
        ipv4_number(groups_text(g)) is None,
{
    let w = g[6] * 65536 + g[7];
    let dotted = ipv4_text(w);
    let ffff = seq!['f', 'f', 'f', 'f'];
    let text = groups_text(g);
    let none = Seq::<char>::empty();
    let right = ffff + seq![':'] + dotted;
    assert(text =~= none + seq![':', ':'] + right);
    lemma_first_double_colon(none, right);
    assert(text.take(0) =~= none);
    lemma_hex_text(65535);
    assert(hex_text(65535) =~= ffff);
    lemma_ipv4_text_plain(w);
    lemma_ipv4_reads_back(w);
    lemma_split_plain(ffff, ':');
    lemma_split_append(ffff, dotted, ':');
    let fields = split(right, ':');
    assert(fields =~= seq![ffff, dotted]);
    assert(fields.last() == dotted);
    assert(fields.drop_last() =~= seq![ffff]);
    lemma_hex_fields(seq![65535int]);
    assert(hex_fields(seq![65535int]) =~= seq![ffff]);
    let tail = seq![65535int].push(w / 65536).push(w % 65536);
    assert(groups_with_tail(fields) == Some(tail));
    assert(side_groups(right, true) == Some(tail));
    assert(side_groups(none, false) == Some(Seq::<int>::empty()));
    assert(Seq::<int>::empty() + zero_groups(5) + tail =~= g);
    lemma_mapped_no_ipv4(w);
}

/// The text of a mapped IPv4 address is no dotted IPv4 address.
proof fn lemma_mapped_no_ipv4(w: int)
    requires
        0 <= w <= u32::MAX,
    ensures
        ipv4_number(seq![':', ':', 'f', 'f', 'f', 'f', ':'] + ipv4_text(w)) is None,
{
    let a = decimal_text(w / 16777216);
    let b = decimal_text(w / 65536 % 256);
    let c = decimal_text(w / 256 % 256);
    let d = decimal_text(w % 256);
    lemma_decimal_text(w / 16777216);
    lemma_decimal_text(w / 65536 % 256);
    lemma_decimal_text(w / 256 % 256);
    lemma_decimal_text(w % 256);
    let first = seq![':', ':', 'f', 'f', 'f', 'f', ':'] + a;
    let text = seq![':', ':', 'f', 'f', 'f', 'f', ':'] + ipv4_text(w);
    assert(text =~= first + seq!['.'] + b + seq!['.'] + c + seq!['.'] + d);
    assert forall|i: int| 0 <= i < first.len() implies first[i] != '.' by {
        if i >= 7 {
            assert(first[i] == a[i - 7]);
        }
    }
    lemma_split_plain(first, '.');
    lemma_split_append(first, b, '.');
    lemma_split_append(first + seq!['.'] + b, c, '.');
    lemma_split_append(first + seq!['.'] + b + seq!['.'] + c, d, '.');
    let fields = split(text, '.');
    assert(fields =~= seq![first, b, c, d]);
    assert(first[0] == ':');
    assert(digit(first[0], 10) is None);
    assert(!all_digits(first, 10));
    assert(octet(fields[0]) is None);
}

/// The text of eight groups reads back as the groups, and not as a dotted
/// IPv4 address.
pub proof fn lemma_groups_text(g: Seq<int>)
    requires
        g.len() == 8,
        in_range(g),
    ensures
        ipv6_groups(groups_text(g)) == Some(g),
        ipv4_number(groups_text(g)) is None,
{
    if is_mapped_v4(g) {
        lemma_mapped_text(g);
    } else {
        let (start, len) = lemma_longest_zero_run(g);
        if len > 1 {
            lemma_compressed_text(g, start, len);
        } else {
            let text = joined(g);
            lemma_joined(g);
            lemma_hex_fields(g);
            lemma_hex_text(g[7]);
            assert(hex_fields(g).last() == hex_text(g[7]));
            lemma_no_dot_no_ipv4(hex_text(g[7]));
            lemma_no_dot_no_ipv4(text);
            assert(first_double_colon(text) is None) by {
                if exists|at: int| is_first_double_colon(text, at) {
                    let at = choose|at: int| is_first_double_colon(text, at);
                    assert(double_colon_at(text, at));
                }
            }
        }
    }
}

/// The text of eight groups with a run of zero groups written as a double
/// colon reads back as the groups, and not as a dotted IPv4 address.
proof fn lemma_compressed_text(g: Seq<int>, start: int, len: int)
    requires
        g.len() == 8,
        in_range(g),
        zero_run(g, start, len),
        len > 1,
    ensures
        ipv6_groups(joined(g.take(start)) + seq![':', ':'] + joined(g.skip(start + len))) == Some(
            g,
        ),
        ipv4_number(joined(g.take(start)) + seq![':', ':'] + joined(g.skip(start + len))) is None,
{
    let left = g.take(start);
    let right = g.skip(start + len);
    let text = joined(left) + seq![':', ':'] + joined(right);
    assert forall|i: int| 0 <= i < left.len() implies 0 <= #[trigger] left[i] < 65536 by {
        assert(left[i] == g[i]);
    }
    assert forall|i: int| 0 <= i < right.len() implies 0 <= #[trigger] right[i] < 65536 by {
        assert(right[i] == g[i + start + len]);
    }
    lemma_joined(left);
    lemma_joined(right);
    lemma_first_double_colon(joined(left), joined(right));
    lemma_side(left, false);
    lemma_side(right, true);
    assert(left + zero_groups(8 - left.len() - right.len()) + right =~= g) by {
        assert forall|i: int| start <= i < start + len implies g[i] == 0 by {}
    }
    assert forall|i: int| 0 <= i < text.len() implies text[i] != '.' by {
        let n = joined(left).len() as int;
        if i < n {
            assert(text[i] == joined(left)[i]);
        } else if i >= n + 2 {
            assert(text[i] == joined(right)[i - n - 2]);
        }
    }
    lemma_no_dot_no_ipv4(text);
}

/// The text form of an IPv6 address reads back as the address, and not as a
/// dotted IPv4 address.
pub proof fn lemma_ipv6_reads_back(v: int)
    requires
        0 <= v <= u128::MAX,
    ensures
        ipv6_number(ipv6_text(v)) == Some(v),
        ipv4_number(ipv6_text(v)) is None,
{
    lemma_number_groups(v);
    lemma_groups_text(number_groups(v));
}

/// An address that is written out reads back as itself: reading is the
/// inverse of writing.
pub proof fn lemma_text_reads_back(address: IpAddress)
    ensures
        IpAddress::parsed(address.text()) == Some(address),
{
    match address {
        IpAddress::V4(v) => {
            lemma_ipv4_reads_back(v as int);
        },
        IpAddress::V6(v) => {
            lemma_ipv6_reads_back(v as int);
        },
    }
}

} // verus!
