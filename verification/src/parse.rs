//! The mathematical grammar of the serialization format.
//!
//! These spec functions define exactly which byte sequences encode a value,
//! what that value is, and how many bytes its encoding occupies. The
//! executable decoder is proved to return precisely what this grammar says.
//!
//! The grammar takes a nesting budget: a list or dictionary may only be
//! entered while budget remains, so a buffer whose containers nest deeper
//! than the budget has no parse at that budget.

use vstd::prelude::*;

use crate::value::SpecValue;

verus! {

/// True for the ASCII digits `'0'..='9'`.
pub open spec fn is_ascii_digit(b: u8) -> bool {
    48 <= b <= 57
}

/// The number of consecutive ASCII digits of `s` starting at `pos`.
pub open spec fn digit_run(s: Seq<u8>, pos: int) -> int
    decreases s.len() - pos,
{
    if 0 <= pos && pos < s.len() && is_ascii_digit(s[pos]) {
        1 + digit_run(s, pos + 1)
    } else {
        0
    }
}

/// The decimal value of the `n` digits of `s` starting at `pos`.
pub open spec fn digits_value(s: Seq<u8>, pos: int, n: int) -> int
    decreases n,
{
    if n <= 0 {
        0
    } else {
        digits_value(s, pos, n - 1) * 10 + (s[pos + n - 1] - 48)
    }
}

/// A byte string `<decimal-length>:<raw-bytes>` at `pos`: the bytes and the
/// total count of bytes consumed. The length must be a run of digits with
/// no leading zero (except the literal `0`), followed by `:`, and must not
/// declare more bytes than remain.
pub open spec fn parse_byte_string(s: Seq<u8>, pos: int) -> Option<(Seq<u8>, int)> {
    let n = digit_run(s, pos);
    if n < 1 {
        None
    } else if n >= 2 && s[pos] == 48 {
        None
    } else {
        let len = digits_value(s, pos, n);
        if pos + n >= s.len() || s[pos + n] != 58 {
            None
        } else if pos + n + 1 + len > s.len() {
            None
        } else {
            Some((s.subrange(pos + n + 1, pos + n + 1 + len), n + 1 + len))
        }
    }
}

/// An integer `i<digits>e` at `pos`: its value and the count of bytes
/// consumed. One leading `-` is allowed; leading zeros are invalid except
/// the literal `0`, and `-0` is invalid. The value must fit in a signed
/// 64-bit integer.
pub open spec fn parse_integer(s: Seq<u8>, pos: int) -> Option<(int, int)> {
    if pos < 0 || pos >= s.len() || s[pos] != 105 {
        None
    } else {
        let neg = pos + 1 < s.len() && s[pos + 1] == 45;
        let dstart = if neg {
            pos + 2
        } else {
            pos + 1
        };
        let n = digit_run(s, dstart);
        if n < 1 {
            None
        } else if n >= 2 && s[dstart] == 48 {
            None
        } else if neg && s[dstart] == 48 {
            None
        } else {
            let v = if neg {
                -digits_value(s, dstart, n)
            } else {
                digits_value(s, dstart, n)
            };
            if dstart + n >= s.len() || s[dstart + n] != 101 {
                None
            } else if v < i64::MIN as int || v > i64::MAX as int {
                None
            } else {
                Some((v, dstart + n + 1 - pos))
            }
        }
    }
}

/// The single value encoded at `pos`, with the count of bytes consumed,
/// entering containers only while `depth` budget remains.
pub open spec fn parse_value(s: Seq<u8>, pos: int, depth: nat) -> Option<(SpecValue, int)>
    decreases depth, s.len() - pos, 0int,
{
    if pos < 0 || pos >= s.len() {
        None
    } else if is_ascii_digit(s[pos]) {
        match parse_byte_string(s, pos) {
            Some((b, c)) => Some((SpecValue::Bytes(b), c)),
            None => None,
        }
    } else if s[pos] == 105 {
        match parse_integer(s, pos) {
            Some((v, c)) => Some((SpecValue::Int(v), c)),
            None => None,
        }
    } else if s[pos] == 108 {
        if depth == 0 {
            None
        } else {
            match parse_list_items(s, pos + 1, (depth - 1) as nat) {
                Some((items, c)) => Some((SpecValue::List(items), 1 + c)),
                None => None,
            }
        }
    } else if s[pos] == 100 {
        if depth == 0 {
            None
        } else {
            match parse_dict_items(s, pos + 1, (depth - 1) as nat) {
                Some((pairs, c)) => Some((SpecValue::Dict(pairs), 1 + c)),
                None => None,
            }
        }
    } else {
        None
    }
}

/// The elements of a list from `pos` up to and including the `e`
/// terminator, each element parsed at `depth` budget.
pub open spec fn parse_list_items(s: Seq<u8>, pos: int, depth: nat) -> Option<
    (Seq<SpecValue>, int),
>
    decreases depth, s.len() - pos, 1int,
{
    if pos < 0 || pos >= s.len() {
        None
    } else if s[pos] == 101 {
        Some((Seq::empty(), 1))
    } else {
        match parse_value(s, pos, depth) {
            None => None,
            Some((v, c)) => if c < 1 || pos + c > s.len() {
                None
            } else {
                match parse_list_items(s, pos + c, depth) {
                    None => None,
                    Some((items, c2)) => Some((seq![v] + items, c + c2)),
                }
            },
        }
    }
}

/// The key/value pairs of a dictionary from `pos` up to and including the
/// `e` terminator. Keys must be byte strings; values are parsed at `depth`
/// budget. Pairs are kept in buffer order, duplicates included.
pub open spec fn parse_dict_items(s: Seq<u8>, pos: int, depth: nat) -> Option<
    (Seq<(Seq<u8>, SpecValue)>, int),
>
    decreases depth, s.len() - pos, 1int,
{
    if pos < 0 || pos >= s.len() {
        None
    } else if s[pos] == 101 {
        Some((Seq::empty(), 1))
    } else {
        match parse_byte_string(s, pos) {
            None => None,
            Some((k, ck)) => if ck < 1 || pos + ck > s.len() {
                None
            } else {
                match parse_value(s, pos + ck, depth) {
                    None => None,
                    Some((v, cv)) => if cv < 1 || pos + ck + cv > s.len() {
                        None
                    } else {
                        match parse_dict_items(s, pos + ck + cv, depth) {
                            None => None,
                            Some((pairs, c2)) => Some((seq![(k, v)] + pairs, ck + cv + c2)),
                        }
                    },
                }
            },
        }
    }
}

/// A digit run is never negative, stays within the buffer, and covers
/// digits only.
pub proof fn lemma_digit_run(s: Seq<u8>, pos: int)
    ensures
        0 <= digit_run(s, pos),
        0 <= pos <= s.len() ==> pos + digit_run(s, pos) <= s.len(),
        forall|i: int| pos <= i < pos + digit_run(s, pos) ==> is_ascii_digit(s[i]),
    decreases s.len() - pos,
{
    if 0 <= pos && pos < s.len() && is_ascii_digit(s[pos]) {
        lemma_digit_run(s, pos + 1);
    }
}

/// The value of a run of digits is never negative.
pub proof fn lemma_digits_value_nonneg(s: Seq<u8>, pos: int, n: int)
    requires
        forall|i: int| pos <= i < pos + n ==> is_ascii_digit(s[i]),
    ensures
        0 <= digits_value(s, pos, n),
    decreases n,
{
    if n > 0 {
        lemma_digits_value_nonneg(s, pos, n - 1);
    }
}

/// Reading more digits never shrinks the value.
pub proof fn lemma_digits_value_monotone(s: Seq<u8>, pos: int, k: int, m: int)
    requires
        0 <= k <= m,
        forall|i: int| pos <= i < pos + m ==> is_ascii_digit(s[i]),
    ensures
        digits_value(s, pos, k) <= digits_value(s, pos, m),
    decreases m,
{
    if m > k {
        lemma_digits_value_monotone(s, pos, k, m - 1);
        lemma_digits_value_nonneg(s, pos, m - 1);
    }
}

/// A byte-string encoding is consumed in one exact stride: the digits of
/// the declared length `L`, the `:` delimiter, and then exactly `L` bytes
/// of payload, leaving the following position at the next encoded item.
pub proof fn lemma_byte_string_consumption(s: Seq<u8>, pos: int)
    requires
        parse_byte_string(s, pos) is Some,
    ensures
        ({
            let (b, c) = parse_byte_string(s, pos)->Some_0;
            let n = digit_run(s, pos);
            &&& c == n + 1 + digits_value(s, pos, n)
            &&& b.len() == digits_value(s, pos, n)
            &&& b =~= s.subrange(pos + n + 1, pos + c)
            &&& pos + c <= s.len()
        }),
{
    lemma_digit_run(s, pos);
    lemma_digits_value_nonneg(s, pos, digit_run(s, pos));
}

} // verus!
