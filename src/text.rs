//! Splitting a line into fields and reading integer fields.

use vstd::prelude::*;

verus! {

/// Value of an ASCII decimal digit.
pub open spec fn digit_value(c: char) -> int {
    c as int - '0' as int
}

pub open spec fn is_digit(c: char) -> bool {
    '0' <= c && c <= '9'
}

pub open spec fn all_digits(s: Seq<char>) -> bool {
    forall|i: int| 0 <= i < s.len() ==> is_digit(#[trigger] s[i])
}

/// Value of a sequence of decimal digits, most significant first.
pub open spec fn digits_value(s: Seq<char>) -> int
    decreases s.len(),
{
    if s.len() == 0 {
        0
    } else {
        digits_value(s.drop_last()) * 10 + digit_value(s.last())
    }
}

/// The fields of a line cut at every space, as `str::split(' ')` yields them:
/// adjacent spaces leave an empty field between them, and there is always
/// at least one field.
pub open spec fn split_spaces(s: Seq<char>) -> Seq<Seq<char>>
    decreases s.len(),
{
    if s.len() == 0 {
        seq![Seq::empty()]
    } else {
        let prev = split_spaces(s.drop_last());
        if s.last() == ' ' {
            prev.push(Seq::empty())
        } else {
            prev.update(prev.len() - 1, prev.last().push(s.last()))
        }
    }
}

pub proof fn lemma_split_spaces_nonempty(s: Seq<char>)
    ensures
        split_spaces(s).len() >= 1,
    decreases s.len(),
{
    if s.len() > 0 {
        lemma_split_spaces_nonempty(s.drop_last());
    }
}

/// What a sequence of owned fields holds, field by field.
pub open spec fn fields_view(v: Seq<Vec<char>>) -> Seq<Seq<char>> {
    v.map_values(|f: Vec<char>| f@)
}

/// Integer written as an optional `+` or `-` followed by one or more decimal digits.
pub open spec fn int_value(s: Seq<char>) -> Option<int> {
    if s.len() > 0 && (s[0] == '-' || s[0] == '+') {
        let d = s.drop_first();
        if d.len() > 0 && all_digits(d) {
            Some(if s[0] == '-' { -digits_value(d) } else { digits_value(d) })
        } else {
            None
        }
    } else if s.len() > 0 && all_digits(s) {
        Some(digits_value(s))
    } else {
        None
    }
}

/// The `i32` a field denotes, if it denotes an integer in range.
pub open spec fn i32_value(s: Seq<char>) -> Option<i32> {
    match int_value(s) {
        Some(v) => if i32::MIN <= v <= i32::MAX {
            Some(v as i32)
        } else {
            None
        },
        None => None,
    }
}

/// Magnitudes are tracked up to this bound, which lies beyond every `i32`.
const MAGNITUDE_CAP: u64 = 4294967296;

/// Reads a field as an `i32`: an optional sign and decimal digits, in range.
pub fn parse_i32(s: &[char]) -> (r: Option<i32>)
    ensures
        r == i32_value(s@),
{
    let n = s.len();
    if n == 0 {
        return None;
    }
    let negative = s[0] == '-';
    let start: usize = if s[0] == '-' || s[0] == '+' {
        1
    } else {
        0
    };
    if start == n {
        return None;
    }
    proof {
        if start == 1 {
            assert(s@.drop_first() =~= s@.subrange(1, n as int));
        } else {
            assert(s@ =~= s@.subrange(0, n as int));
        }
    }
    let mut acc: u64 = 0;
    let mut i: usize = start;
    while i < n
        invariant
            start <= i <= n,
            n == s@.len(),
            start == 1 <==> (s@[0] == '-' || s@[0] == '+'),
            start == 0 || start == 1,
            negative == (s@[0] == '-'),
            all_digits(s@.subrange(start as int, i as int)),
            acc as int == if digits_value(s@.subrange(start as int, i as int))
                < MAGNITUDE_CAP as int {
                digits_value(s@.subrange(start as int, i as int))
            } else {
                MAGNITUDE_CAP as int
            },
        decreases n - i,
    {
        let c = s[i];
        if !('0' <= c && c <= '9') {
            proof {
                let d = s@.subrange(start as int, n as int);
                assert(d[i - start] == c);
                assert(!is_digit(d[i - start]));
                assert(!all_digits(d));
                if start == 1 {
                    assert(s@.drop_first() =~= d);
                } else {
                    assert(s@ =~= d);
                }
            }
            return None;
        }
        let ghost prev = s@.subrange(start as int, i as int);
        proof {
            let next = s@.subrange(start as int, i + 1);
            assert(next.drop_last() =~= prev);
            assert(next.last() == c);
        }
        acc = acc * 10 + (c as u64 - '0' as u64);
        if acc > MAGNITUDE_CAP {
            acc = MAGNITUDE_CAP;
        }
        i = i + 1;
    }
    if negative {
        if acc > 2147483648 {
            None
        } else {
            Some((0 - acc as i64) as i32)
        }
    } else {
        if acc > 2147483647 {
            None
        } else {
            Some(acc as i32)
        }
    }
}

/// The characters of a string, in order.
pub fn chars_of(line: &str) -> (r: Vec<char>)
    ensures
        r@ == line@,
{
    let mut r: Vec<char> = Vec::new();
    for c in it: line.chars()
        invariant
            r@ == it.seq().take(it.index() as int),
    {
        r.push(c);
    }
    assert(r@ =~= line@);
    r
}

/// Cuts a line into its space-separated fields.
pub fn split_fields(s: &[char]) -> (r: Vec<Vec<char>>)
    ensures
        fields_view(r@) == split_spaces(s@),
{
    let mut fields: Vec<Vec<char>> = Vec::new();
    let mut current: Vec<char> = Vec::new();
    let n = s.len();
    let mut i: usize = 0;
    proof {
        assert(s@.take(0) =~= Seq::<char>::empty());
        assert(fields_view(fields@).push(current@) =~= split_spaces(Seq::empty()));
    }
    while i < n
        invariant
            i <= n,
            n == s@.len(),
            fields_view(fields@).push(current@) == split_spaces(s@.take(i as int)),
        decreases n - i,
    {
        let c = s[i];
        proof {
            assert(s@.take(i + 1).drop_last() =~= s@.take(i as int));
            assert(s@.take(i + 1).last() == c);
        }
        if c == ' ' {
            let ghost before = fields@;
            let ghost done = current;
            fields.push(current);
            current = Vec::new();
            proof {
                assert(fields_view(fields@) =~= fields_view(before).push(done@));
                assert(fields_view(fields@).push(current@) =~= fields_view(before).push(
                    done@,
                ).push(Seq::empty()));
            }
        } else {
            let ghost before = current@;
            current.push(c);
            proof {
                let prev = fields_view(fields@).push(before);
                assert(fields_view(fields@).push(current@) =~= prev.update(
                    prev.len() - 1,
                    prev.last().push(c),
                ));
            }
        }
        i = i + 1;
    }
    let ghost before = fields@;
    fields.push(current);
    proof {
        assert(s@.take(n as int) =~= s@);
        assert(fields_view(fields@) =~= fields_view(before).push(fields@.last()@));
    }
    fields
}

} // verus!
