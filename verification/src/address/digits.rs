//! Digits, numbers and separated fields in the text of an address.

use vstd::prelude::*;

verus! {

/// The value of `c` as a decimal digit.
pub open spec fn decimal_digit(c: char) -> Option<int> {
    if 0x30 <= c as u32 && c as u32 <= 0x39 {
        Some(c as u32 - 0x30)
    } else {
        None
    }
}

/// The value of `c` as a hexadecimal digit, in either case.
pub open spec fn hex_digit(c: char) -> Option<int> {
    if 0x30 <= c as u32 && c as u32 <= 0x39 {
        Some(c as u32 - 0x30)
    } else if 0x61 <= c as u32 && c as u32 <= 0x66 {
        Some(c as u32 - 0x61 + 10)
    } else if 0x41 <= c as u32 && c as u32 <= 0x46 {
        Some(c as u32 - 0x41 + 10)
    } else {
        None
    }
}

/// The value of `c` as a digit of `radix`, which is 16 or taken as 10.
pub open spec fn digit(c: char, radix: int) -> Option<int> {
    if radix == 16 {
        hex_digit(c)
    } else {
        decimal_digit(c)
    }
}

/// Every character of `s` is a digit of `radix`.
pub open spec fn all_digits(s: Seq<char>, radix: int) -> bool {
    forall|i: int| 0 <= i < s.len() ==> (#[trigger] digit(s[i], radix)) is Some
}

/// The number that the digits of `s` write in `radix`, most significant first.
pub open spec fn number(s: Seq<char>, radix: int) -> int
    decreases s.len(),
{
    if s.len() == 0 {
        0
    } else {
        number(s.drop_last(), radix) * radix + digit(s.last(), radix).unwrap_or(0)
    }
}

/// The fields of `s` between the occurrences of `sep`: one more than there
/// are separators, some of them possibly empty.
pub open spec fn split(s: Seq<char>, sep: char) -> Seq<Seq<char>>
    decreases s.len(),
{
    if s.len() == 0 {
        seq![Seq::empty()]
    } else {
        let before = split(s.drop_last(), sep);
        if s.last() == sep {
            before.push(Seq::empty())
        } else {
            before.update(before.len() - 1, before.last().push(s.last()))
        }
    }
}

/// The views of the fields in `fields`.
pub open spec fn field_views(fields: Seq<Vec<char>>) -> Seq<Seq<char>> {
    Seq::new(fields.len(), |i: int| fields[i]@)
}

/// The character that writes the digit `d`, in lower case from ten on.
pub open spec fn digit_char(d: int) -> char {
    if d == 0 {
        '0'
    } else if d == 1 {
        '1'
    } else if d == 2 {
        '2'
    } else if d == 3 {
        '3'
    } else if d == 4 {
        '4'
    } else if d == 5 {
        '5'
    } else if d == 6 {
        '6'
    } else if d == 7 {
        '7'
    } else if d == 8 {
        '8'
    } else if d == 9 {
        '9'
    } else if d == 10 {
        'a'
    } else if d == 11 {
        'b'
    } else if d == 12 {
        'c'
    } else if d == 13 {
        'd'
    } else if d == 14 {
        'e'
    } else {
        'f'
    }
}

/// A number of up to four digits stays below the fourth power of its radix.
pub(crate) proof fn lemma_number_bound(s: Seq<char>, radix: int)
    requires
        radix == 10 || radix == 16,
        s.len() <= 4,
        all_digits(s, radix),
    ensures
        0 <= number(s, radix),
        s.len() == 0 ==> number(s, radix) < 1,
        s.len() == 1 ==> number(s, radix) < radix,
        s.len() == 2 ==> number(s, radix) < radix * radix,
        s.len() == 3 ==> number(s, radix) < radix * radix * radix,
        s.len() == 4 ==> number(s, radix) < radix * radix * radix * radix,
    decreases s.len(),
{
    if s.len() > 0 {
        assert(digit(s[s.len() - 1], radix) is Some);
        assert forall|i: int| 0 <= i < s.drop_last().len() implies (#[trigger] digit(
            s.drop_last()[i],
            radix,
        )) is Some by {
            assert(s.drop_last()[i] == s[i]);
            assert(digit(s[i], radix) is Some);
        }
        lemma_number_bound(s.drop_last(), radix);
    }
}

/// Splits the characters of `text` from `lo` up to `hi` at each `sep`.
pub(crate) fn split_fields(text: &Vec<char>, lo: usize, hi: usize, sep: char) -> (fields: Vec<Vec<char>>)
    requires
        lo <= hi <= text.len(),
    ensures
        field_views(fields@) == split(text@.subrange(lo as int, hi as int), sep),
{
    let mut done: Vec<Vec<char>> = Vec::new();
    let mut current: Vec<char> = Vec::new();
    let mut at: usize = lo;
    proof {
        assert(text@.subrange(lo as int, lo as int) =~= Seq::<char>::empty());
        assert(field_views(done@).push(current@) =~= seq![Seq::<char>::empty()]);
    }
    while at < hi
        invariant
            lo <= at <= hi <= text.len(),
            field_views(done@).push(current@) == split(text@.subrange(lo as int, at as int), sep),
        decreases hi - at,
    {
        let c = text[at];
        proof {
            let s = text@.subrange(lo as int, at + 1);
            assert(s.drop_last() =~= text@.subrange(lo as int, at as int));
            assert(s.last() == c);
        }
        let ghost before = field_views(done@).push(current@);
        if c == sep {
            done.push(current);
            current = Vec::new();
            proof {
                assert(field_views(done@).push(current@) =~= before.push(Seq::empty()));
            }
        } else {
            current.push(c);
            proof {
                assert(field_views(done@).push(current@) =~= before.update(
                    before.len() - 1,
                    before.last().push(c),
                ));
            }
        }
        at += 1;
    }
    let ghost before = field_views(done@).push(current@);
    done.push(current);
    proof {
        assert(field_views(done@) =~= before);
    }
    done
}

/// Reads `field` as a number in `radix`, 10 or 16, of at most `width` digits.
pub(crate) fn parse_number(field: &Vec<char>, radix: u32, width: usize) -> (value: Option<u32>)
    requires
        radix == 10 || radix == 16,
        width <= 4,
    ensures
        value is Some <==> 1 <= field.len() <= width && all_digits(field@, radix as int),
        value matches Some(v) ==> v == number(field@, radix as int),
{
    if field.len() < 1 || field.len() > width {
        return None;
    }
    let mut total: u32 = 0;
    let mut at: usize = 0;
    while at < field.len()
        invariant
            radix == 10 || radix == 16,
            at <= field.len() <= 4,
            total == number(field@.take(at as int), radix as int),
            all_digits(field@.take(at as int), radix as int),
        decreases field.len() - at,
    {
        let c = field[at];
        let code: u32 = c as u32;
        let d: u32 = if 0x30 <= code && code <= 0x39 {
            code - 0x30
        } else if radix == 16 && 0x61 <= code && code <= 0x66 {
            code - 0x61 + 10
        } else if radix == 16 && 0x41 <= code && code <= 0x46 {
            code - 0x41 + 10
        } else {
            proof {
                assert(digit(field@[at as int], radix as int) is None);
            }
            return None;
        };
        proof {
            lemma_number_bound(field@.take(at as int), radix as int);
            let next = field@.take(at + 1);
            assert(next.drop_last() =~= field@.take(at as int));
            assert(next.last() == c);
            assert(digit(c, radix as int) == Some(d as int));
            assert forall|i: int| 0 <= i < next.len() implies (#[trigger] digit(
                next[i],
                radix as int,
            )) is Some by {
                if i < at {
                    assert(next[i] == field@.take(at as int)[i]);
                }
            }
        }
        total = total * radix + d;
        at += 1;
    }
    proof {
        assert(field@.take(field.len() as int) =~= field@);
    }
    Some(total)
}

/// The one-character text of the digit `d`.
pub(crate) fn digit_str(d: u8) -> (text: &'static str)
    requires
        d < 16,
    ensures
        text@ == seq![digit_char(d as int)],
{
    proof {
        reveal_strlit("0");
        reveal_strlit("1");
        reveal_strlit("2");
        reveal_strlit("3");
        reveal_strlit("4");
        reveal_strlit("5");
        reveal_strlit("6");
        reveal_strlit("7");
        reveal_strlit("8");
        reveal_strlit("9");
        reveal_strlit("a");
        reveal_strlit("b");
        reveal_strlit("c");
        reveal_strlit("d");
        reveal_strlit("e");
        reveal_strlit("f");
    }
    let text = match d {
        0 => "0",
        1 => "1",
        2 => "2",
        3 => "3",
        4 => "4",
        5 => "5",
        6 => "6",
        7 => "7",
        8 => "8",
        9 => "9",
        10 => "a",
        11 => "b",
        12 => "c",
        13 => "d",
        14 => "e",
        _ => "f",
    };
    proof {
        assert(text@ =~= seq![digit_char(d as int)]);
    }
    text
}

} // verus!
