//! The primitive decoder: executable decoding of single values.
//!
//! Every function here is proved to return exactly what the grammar in
//! [`crate::parse`] assigns to its position in the buffer: the same value
//! and the same number of bytes consumed, or an error precisely when the
//! grammar assigns nothing.

use vstd::prelude::*;

use crate::errors::{is_primitive_error, TorrentError};
use crate::parse::{
    digit_run, digits_value, is_ascii_digit, lemma_digit_run, lemma_digits_value_nonneg,
    parse_byte_string, parse_dict_items, parse_integer, parse_list_items, parse_value,
};
use crate::value::{
    deep_elems, deep_pairs, lemma_deep_elems_push, lemma_deep_pairs_push, SpecValue, Value,
};

verus! {

/// Positions `pos..end` hold digits only.
spec fn all_digits(s: Seq<u8>, pos: int, end: int) -> bool {
    forall|i: int| pos <= i < end ==> is_ascii_digit(s[i])
}

/// Find the end of the run of ASCII digits starting at `pos`.
fn scan_digits(buf: &[u8], pos: usize) -> (end: usize)
    requires
        pos <= buf@.len(),
    ensures
        pos <= end <= buf@.len(),
        end - pos == digit_run(buf@, pos as int),
        all_digits(buf@, pos as int, end as int),
{
    let mut end: usize = pos;
    loop
        invariant_except_break
            pos <= end <= buf@.len(),
            digit_run(buf@, pos as int) == (end - pos) + digit_run(buf@, end as int),
            all_digits(buf@, pos as int, end as int),
        ensures
            pos <= end <= buf@.len(),
            digit_run(buf@, end as int) == 0,
            digit_run(buf@, pos as int) == (end - pos) + digit_run(buf@, end as int),
            all_digits(buf@, pos as int, end as int),
        decreases buf@.len() - end,
    {
        proof {
            lemma_digit_run(buf@, end as int);
        }
        if end >= buf.len() {
            break;
        }
        let b = buf[end];
        if !(48 <= b && b <= 57) {
            break;
        }
        end = end + 1;
    }
    end
}

/// The decimal value of the digits `pos..end`, where it fits in `usize`.
fn digits_to_usize(buf: &[u8], pos: usize, end: usize) -> (r: Option<usize>)
    requires
        pos <= end <= buf@.len(),
        all_digits(buf@, pos as int, end as int),
    ensures
        match r {
            Some(v) => v as int == digits_value(buf@, pos as int, (end - pos) as int),
            None => digits_value(buf@, pos as int, (end - pos) as int) > usize::MAX as int,
        },
{
    let mut v: usize = 0;
    let mut i: usize = pos;
    while i < end
        invariant
            pos <= i <= end <= buf@.len(),
            all_digits(buf@, pos as int, end as int),
            v as int == digits_value(buf@, pos as int, (i - pos) as int),
        decreases end - i,
    {
        let d = buf[i] - 48;
        let next = match v.checked_mul(10) {
            Some(v10) => v10.checked_add(d as usize),
            None => None,
        };
        match next {
            Some(nv) => {
                v = nv;
                i = i + 1;
            },
            None => {
                proof {
                    lemma_digits_value_nonneg(buf@, pos as int, (i - pos) as int);
                    crate::parse::lemma_digits_value_monotone(
                        buf@,
                        pos as int,
                        (i + 1 - pos) as int,
                        (end - pos) as int,
                    );
                }
                return None;
            },
        }
    }
    Some(v)
}

/// The decimal value of the digits `pos..end`, where it fits in `u64`.
fn digits_to_u64(buf: &[u8], pos: usize, end: usize) -> (r: Option<u64>)
    requires
        pos <= end <= buf@.len(),
        all_digits(buf@, pos as int, end as int),
    ensures
        match r {
            Some(v) => v as int == digits_value(buf@, pos as int, (end - pos) as int),
            None => digits_value(buf@, pos as int, (end - pos) as int) > u64::MAX as int,
        },
{
    let mut v: u64 = 0;
    let mut i: usize = pos;
    while i < end
        invariant
            pos <= i <= end <= buf@.len(),
            all_digits(buf@, pos as int, end as int),
            v as int == digits_value(buf@, pos as int, (i - pos) as int),
        decreases end - i,
    {
        let d = buf[i] - 48;
        let next = match v.checked_mul(10) {
            Some(v10) => v10.checked_add(d as u64),
            None => None,
        };
        match next {
            Some(nv) => {
                v = nv;
                i = i + 1;
            },
            None => {
                proof {
                    lemma_digits_value_nonneg(buf@, pos as int, (i - pos) as int);
                    crate::parse::lemma_digits_value_monotone(
                        buf@,
                        pos as int,
                        (i + 1 - pos) as int,
                        (end - pos) as int,
                    );
                }
                return None;
            },
        }
    }
    Some(v)
}

/// Decode the byte string `<decimal-length>:<raw-bytes>` at `pos`,
/// returning its bytes and the position just past them.
pub fn decode_byte_string(buf: &[u8], pos: usize) -> (r: Result<(Vec<u8>, usize), TorrentError>)
    requires
        pos < buf@.len(),
        is_ascii_digit(buf@[pos as int]),
    ensures
        match r {
            Ok((b, np)) => {
                &&& parse_byte_string(buf@, pos as int) == Some((b@, np - pos))
                &&& pos < np <= buf@.len()
            },
            Err(e) => parse_byte_string(buf@, pos as int) is None && is_primitive_error(e),
        },
{
    let bl = buf.len();
    let end = scan_digits(buf, pos);
    proof {
        lemma_digit_run(buf@, pos as int);
        lemma_digit_run(buf@, pos as int + 1);
    }
    let n = end - pos;
    if n >= 2 && buf[pos] == 48 {
        return Err(TorrentError::InvalidLength);
    }
    let len = match digits_to_usize(buf, pos, end) {
        Some(l) => l,
        None => {
            proof {
                assert(digits_value(buf@, pos as int, n as int) > bl as int);
            }
            return Err(TorrentError::UnexpectedEnd);
        },
    };
    if end >= bl {
        return Err(TorrentError::UnexpectedEnd);
    }
    if buf[end] != 58 {
        return Err(TorrentError::InvalidLength);
    }
    if len > bl - (end + 1) {
        return Err(TorrentError::UnexpectedEnd);
    }
    let mut b: Vec<u8> = Vec::new();
    let start = end + 1;
    let stop = start + len;
    let mut j: usize = start;
    while j < stop
        invariant
            stop == start + len,
            start + len <= buf@.len(),
            start <= j <= start + len,
            b@ =~= buf@.subrange(start as int, j as int),
        decreases start + len - j,
    {
        b.push(buf[j]);
        j = j + 1;
    }
    proof {
        assert(b@ =~= buf@.subrange(pos + n + 1, pos + (n + 1 + len)));
    }
    Ok((b, stop))
}

/// Decode the integer `i<digits>e` at `pos`, returning its value and the
/// position just past the terminator.
pub fn decode_integer(buf: &[u8], pos: usize) -> (r: Result<(i64, usize), TorrentError>)
    requires
        pos < buf@.len(),
        buf@[pos as int] == 105,
    ensures
        match r {
            Ok((v, np)) => {
                &&& parse_integer(buf@, pos as int) == Some((v as int, np - pos))
                &&& pos < np <= buf@.len()
            },
            Err(e) => parse_integer(buf@, pos as int) is None && is_primitive_error(e),
        },
{
    let bl = buf.len();
    let neg = pos + 1 < bl && buf[pos + 1] == 45;
    let dstart = if neg {
        pos + 2
    } else {
        pos + 1
    };
    let end = scan_digits(buf, dstart);
    proof {
        lemma_digit_run(buf@, dstart as int);
    }
    let n = end - dstart;
    if n == 0 {
        if end >= buf.len() {
            return Err(TorrentError::UnexpectedEnd);
        }
        return Err(TorrentError::InvalidInt);
    }
    if buf[dstart] == 48 && (n >= 2 || neg) {
        return Err(TorrentError::InvalidInt);
    }
    if end >= buf.len() {
        return Err(TorrentError::UnexpectedEnd);
    }
    if buf[end] != 101 {
        return Err(TorrentError::InvalidInt);
    }
    proof {
        lemma_digits_value_nonneg(buf@, dstart as int, n as int);
    }
    let mag = match digits_to_u64(buf, dstart, end) {
        Some(m) => m,
        None => {
            return Err(TorrentError::IntOutOfRange);
        },
    };
    if !neg {
        if mag > 9223372036854775807u64 {
            return Err(TorrentError::IntOutOfRange);
        }
        Ok((mag as i64, end + 1))
    } else {
        if mag > 9223372036854775808u64 {
            return Err(TorrentError::IntOutOfRange);
        }
        if mag == 9223372036854775808u64 {
            Ok((i64::MIN, end + 1))
        } else {
            Ok((-(mag as i64), end + 1))
        }
    }
}

/// Prefix some already-decoded elements, and the bytes they consumed, onto
/// the outcome of decoding the rest of a list.
pub open spec fn glue_elems(
    items: Seq<SpecValue>,
    consumed: int,
    rest: Option<(Seq<SpecValue>, int)>,
) -> Option<(Seq<SpecValue>, int)> {
    match rest {
        None => None,
        Some((more, c)) => Some((items + more, consumed + c)),
    }
}

/// Prefix some already-decoded pairs, and the bytes they consumed, onto
/// the outcome of decoding the rest of a dictionary.
pub open spec fn glue_pairs(
    pairs: Seq<(Seq<u8>, SpecValue)>,
    consumed: int,
    rest: Option<(Seq<(Seq<u8>, SpecValue)>, int)>,
) -> Option<(Seq<(Seq<u8>, SpecValue)>, int)> {
    match rest {
        None => None,
        Some((more, c)) => Some((pairs + more, consumed + c)),
    }
}

/// A stateful iterator over the elements of an encoded list: it shares the
/// buffer with its creator and advances a cursor offset one element per
/// call, without materializing the rest of the list.
pub struct ListCursor {
    /// The buffer offset of the next element or of the terminator.
    pub pos: usize,
}

/// A stateful iterator over the key/value pairs of an encoded dictionary,
/// advancing a shared cursor offset one pair per call.
pub struct DictCursor {
    /// The buffer offset of the next pair or of the terminator.
    pub pos: usize,
}

impl ListCursor {
    /// Decode the next element at `depth - 1` budget, or consume the
    /// terminator and report that no elements remain.
    pub fn next(&mut self, buf: &[u8], depth: u32) -> (r: Result<Option<Value>, TorrentError>)
        requires
            depth >= 1,
            old(self).pos <= buf@.len(),
        ensures
            match r {
                Ok(Some(v)) => {
                    &&& parse_list_items(buf@, old(self).pos as int, (depth - 1) as nat)
                        == glue_elems(
                        seq![v.deep()],
                        final(self).pos - old(self).pos,
                        parse_list_items(buf@, final(self).pos as int, (depth - 1) as nat),
                    )
                    &&& old(self).pos < final(self).pos <= buf@.len()
                },
                Ok(None) => {
                    &&& parse_list_items(buf@, old(self).pos as int, (depth - 1) as nat)
                        == Some((Seq::<SpecValue>::empty(), 1int))
                    &&& final(self).pos == old(self).pos + 1
                },
                Err(e) => parse_list_items(buf@, old(self).pos as int, (depth - 1) as nat)
                    is None && is_primitive_error(e),
            },
        decreases depth, 0int,
    {
        if self.pos >= buf.len() {
            return Err(TorrentError::UnexpectedEnd);
        }
        if buf[self.pos] == 101 {
            self.pos = self.pos + 1;
            return Ok(None);
        }
        match decode_value(buf, self.pos, depth - 1) {
            Ok((v, np)) => {
                self.pos = np;
                Ok(Some(v))
            },
            Err(e) => Err(e),
        }
    }
}

impl DictCursor {
    /// Decode the next key/value pair, the value at `depth - 1` budget, or
    /// consume the terminator and report that no pairs remain. A pair
    /// whose key is not a byte string is an error, never skipped.
    pub fn next_pair(&mut self, buf: &[u8], depth: u32) -> (r: Result<
        Option<(Vec<u8>, Value)>,
        TorrentError,
    >)
        requires
            depth >= 1,
            old(self).pos <= buf@.len(),
        ensures
            match r {
                Ok(Some(p)) => {
                    &&& parse_dict_items(buf@, old(self).pos as int, (depth - 1) as nat)
                        == glue_pairs(
                        seq![(p.0@, p.1.deep())],
                        final(self).pos - old(self).pos,
                        parse_dict_items(buf@, final(self).pos as int, (depth - 1) as nat),
                    )
                    &&& old(self).pos < final(self).pos <= buf@.len()
                },
                Ok(None) => {
                    &&& parse_dict_items(buf@, old(self).pos as int, (depth - 1) as nat)
                        == Some((Seq::<(Seq<u8>, SpecValue)>::empty(), 1int))
                    &&& final(self).pos == old(self).pos + 1
                },
                Err(e) => parse_dict_items(buf@, old(self).pos as int, (depth - 1) as nat)
                    is None && is_primitive_error(e),
            },
        decreases depth, 0int,
    {
        if self.pos >= buf.len() {
            return Err(TorrentError::UnexpectedEnd);
        }
        let b = buf[self.pos];
        if b == 101 {
            self.pos = self.pos + 1;
            return Ok(None);
        }
        if !(48 <= b && b <= 57) {
            if b == 105 || b == 108 || b == 100 {
                return Err(TorrentError::NonStringKey);
            }
            return Err(TorrentError::InvalidPrefix);
        }
        let (k, kend) = match decode_byte_string(buf, self.pos) {
            Ok(kr) => kr,
            Err(e) => {
                return Err(e);
            },
        };
        match decode_value(buf, kend, depth - 1) {
            Ok((v, np)) => {
                self.pos = np;
                Ok(Some((k, v)))
            },
            Err(e) => Err(e),
        }
    }
}

/// Decode the single value encoded at `pos`, entering containers only
/// while `depth` budget remains, and return it with the position just past
/// its encoding. Returns exactly the value the grammar assigns there, and
/// an error exactly when the grammar assigns none.
pub fn decode_value(buf: &[u8], pos: usize, depth: u32) -> (r: Result<
    (Value, usize),
    TorrentError,
>)
    requires
        pos <= buf@.len(),
    ensures
        match r {
            Ok((v, np)) => {
                &&& parse_value(buf@, pos as int, depth as nat) == Some((v.deep(), np - pos))
                &&& pos < np <= buf@.len()
            },
            Err(e) => parse_value(buf@, pos as int, depth as nat) is None && is_primitive_error(e),
        },
    decreases depth, 1int,
{
    let bl = buf.len();
    if pos >= bl {
        return Err(TorrentError::UnexpectedEnd);
    }
    let b = buf[pos];
    if 48 <= b && b <= 57 {
        match decode_byte_string(buf, pos) {
            Ok((bytes, np)) => Ok((Value::Bytes(bytes), np)),
            Err(e) => Err(e),
        }
    } else if b == 105 {
        match decode_integer(buf, pos) {
            Ok((v, np)) => Ok((Value::Int(v), np)),
            Err(e) => Err(e),
        }
    } else if b == 108 {
        if depth == 0 {
            return Err(TorrentError::DepthExceeded);
        }
        let ghost d1 = (depth - 1) as nat;
        let mut cursor = ListCursor { pos: pos + 1 };
        let mut items: Vec<Value> = Vec::new();
        loop
            invariant
                depth >= 1,
                d1 == (depth - 1) as nat,
                pos < buf@.len(),
                buf@[pos as int] == 108,
                pos + 1 <= cursor.pos <= buf@.len(),
                parse_list_items(buf@, pos + 1 as int, d1) == glue_elems(
                    deep_elems(items@),
                    cursor.pos - (pos + 1),
                    parse_list_items(buf@, cursor.pos as int, d1),
                ),
            decreases buf@.len() - cursor.pos,
        {
            let ghost prev = cursor.pos as int;
            let ghost olditems = items@;
            match cursor.next(buf, depth) {
                Ok(Some(v)) => {
                    items.push(v);
                    proof {
                        lemma_deep_elems_push(olditems, v);
                        if parse_list_items(buf@, cursor.pos as int, d1) is Some {
                            let (more, c) = parse_list_items(
                                buf@,
                                cursor.pos as int,
                                d1,
                            )->Some_0;
                            assert(deep_elems(olditems) + (seq![v.deep()] + more) =~= deep_elems(
                                items@,
                            ) + more);
                        }
                    }
                },
                Ok(None) => {
                    proof {
                        assert(deep_elems(items@) + Seq::<SpecValue>::empty() =~= deep_elems(
                            items@,
                        ));
                    }
                    return Ok((Value::List(items), cursor.pos));
                },
                Err(e) => {
                    return Err(e);
                },
            }
        }
    } else if b == 100 {
        if depth == 0 {
            return Err(TorrentError::DepthExceeded);
        }
        let ghost d1 = (depth - 1) as nat;
        let mut cursor = DictCursor { pos: pos + 1 };
        let mut pairs: Vec<(Vec<u8>, Value)> = Vec::new();
        loop
            invariant
                depth >= 1,
                d1 == (depth - 1) as nat,
                pos < buf@.len(),
                buf@[pos as int] == 100,
                pos + 1 <= cursor.pos <= buf@.len(),
                parse_dict_items(buf@, pos + 1 as int, d1) == glue_pairs(
                    deep_pairs(pairs@),
                    cursor.pos - (pos + 1),
                    parse_dict_items(buf@, cursor.pos as int, d1),
                ),
            decreases buf@.len() - cursor.pos,
        {
            let ghost prev = cursor.pos as int;
            let ghost oldpairs = pairs@;
            match cursor.next_pair(buf, depth) {
                Ok(Some(p)) => {
                    let ghost pdeep = (p.0@, p.1.deep());
                    pairs.push(p);
                    proof {
                        lemma_deep_pairs_push(oldpairs, pairs@.last());
                        if parse_dict_items(buf@, cursor.pos as int, d1) is Some {
                            let (more, c) = parse_dict_items(
                                buf@,
                                cursor.pos as int,
                                d1,
                            )->Some_0;
                            assert(deep_pairs(oldpairs) + (seq![pdeep] + more) =~= deep_pairs(
                                pairs@,
                            ) + more);
                        }
                    }
                },
                Ok(None) => {
                    proof {
                        assert(deep_pairs(pairs@) + Seq::<(Seq<u8>, SpecValue)>::empty()
                            =~= deep_pairs(pairs@));
                    }
                    return Ok((Value::Dict(pairs), cursor.pos));
                },
                Err(e) => {
                    return Err(e);
                },
            }
        }
    } else {
        Err(TorrentError::InvalidPrefix)
    }
}

/// Decode the single top-level value of `buf`. An empty buffer, and bytes
/// remaining after the value, are errors.
pub fn decode_document(buf: &[u8], depth: u32) -> (r: Result<Value, TorrentError>)
    ensures
        match r {
            Ok(v) => parse_value(buf@, 0, depth as nat) == Some((v.deep(), buf@.len() as int)),
            Err(e) => {
                &&& ({
                    let p = parse_value(buf@, 0, depth as nat);
                    p is None || p->Some_0.1 != buf@.len()
                })
                &&& (is_primitive_error(e) || e == TorrentError::EmptyInput || e
                    == TorrentError::TrailingData)
                &&& (buf@.len() == 0 ==> e == TorrentError::EmptyInput)
                &&& (e == TorrentError::EmptyInput ==> buf@.len() == 0)
                &&& (is_primitive_error(e) ==> parse_value(buf@, 0, depth as nat) is None)
                &&& (e == TorrentError::TrailingData ==> {
                    let p = parse_value(buf@, 0, depth as nat);
                    p is Some && p->Some_0.1 < buf@.len()
                })
            },
        },
{
    if buf.len() == 0 {
        return Err(TorrentError::EmptyInput);
    }
    match decode_value(buf, 0, depth) {
        Err(e) => Err(e),
        Ok((v, np)) => if np < buf.len() {
            Err(TorrentError::TrailingData)
        } else {
            Ok(v)
        },
    }
}

} // verus!
