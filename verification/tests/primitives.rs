//! Decoder-level tests: single values, cursors and the whole-buffer rule.

use torrent_meta::decode::{
    decode_byte_string, decode_document, decode_integer, decode_value, DictCursor, ListCursor,
};
use torrent_meta::errors::TorrentError;
use torrent_meta::value::Value;

#[test]
fn byte_string_consumes_declared_length() {
    // A declared length of three consumes the prefix "3:", then exactly
    // three bytes, leaving the cursor on the sentinel byte.
    let buf = b"3:abcX";
    let (bytes, next) = decode_byte_string(buf, 0).unwrap();
    assert_eq!(bytes, b"abc".to_vec());
    assert_eq!(next, 5);
    assert_eq!(buf[next], b'X');
}

#[test]
fn byte_string_empty_is_valid() {
    let (bytes, next) = decode_byte_string(b"0:", 0).unwrap();
    assert!(bytes.is_empty());
    assert_eq!(next, 2);
}

#[test]
fn byte_string_leading_zero_rejected() {
    assert_eq!(decode_byte_string(b"01:a", 0), Err(TorrentError::InvalidLength));
}

#[test]
fn byte_string_truncated_rejected() {
    assert_eq!(decode_byte_string(b"5:abc", 0), Err(TorrentError::UnexpectedEnd));
}

#[test]
fn byte_string_missing_colon_rejected() {
    assert_eq!(decode_byte_string(b"3abc", 0), Err(TorrentError::InvalidLength));
}

#[test]
fn byte_string_huge_length_rejected() {
    assert_eq!(
        decode_byte_string(b"99999999999999999999999:a", 0),
        Err(TorrentError::UnexpectedEnd)
    );
}

#[test]
fn integer_simple() {
    assert_eq!(decode_integer(b"i42e", 0), Ok((42, 4)));
    assert_eq!(decode_integer(b"i0e", 0), Ok((0, 3)));
    assert_eq!(decode_integer(b"i-7e", 0), Ok((-7, 4)));
}

#[test]
fn integer_bounds() {
    assert_eq!(decode_integer(b"i9223372036854775807e", 0), Ok((i64::MAX, 21)));
    assert_eq!(decode_integer(b"i-9223372036854775808e", 0), Ok((i64::MIN, 22)));
    assert_eq!(
        decode_integer(b"i9223372036854775808e", 0),
        Err(TorrentError::IntOutOfRange)
    );
    assert_eq!(
        decode_integer(b"i-9223372036854775809e", 0),
        Err(TorrentError::IntOutOfRange)
    );
}

#[test]
fn integer_malformed_rejected() {
    assert_eq!(decode_integer(b"ie", 0), Err(TorrentError::InvalidInt));
    assert_eq!(decode_integer(b"i-0e", 0), Err(TorrentError::InvalidInt));
    assert_eq!(decode_integer(b"i03e", 0), Err(TorrentError::InvalidInt));
    assert_eq!(decode_integer(b"i1x", 0), Err(TorrentError::InvalidInt));
    assert_eq!(decode_integer(b"i12", 0), Err(TorrentError::UnexpectedEnd));
}

#[test]
fn list_of_values_decodes_in_order() {
    let (v, next) = decode_value(b"l1:ai2ee", 0, 8).unwrap();
    assert_eq!(next, 8);
    match v {
        Value::List(items) => {
            assert_eq!(items.len(), 2);
            assert!(matches!(&items[0], Value::Bytes(b) if b == b"a"));
            assert!(matches!(&items[1], Value::Int(2)));
        },
        _ => panic!("expected a list"),
    }
}

#[test]
fn dict_keeps_pairs_in_buffer_order() {
    let (v, next) = decode_value(b"d1:bi1e1:ai2ee", 0, 8).unwrap();
    assert_eq!(next, 14);
    match v {
        Value::Dict(pairs) => {
            assert_eq!(pairs.len(), 2);
            assert_eq!(pairs[0].0, b"b".to_vec());
            assert_eq!(pairs[1].0, b"a".to_vec());
        },
        _ => panic!("expected a dictionary"),
    }
}

#[test]
fn dict_non_string_key_rejected() {
    assert_eq!(decode_value(b"di1ei2ee", 0, 8), Err(TorrentError::NonStringKey));
}

#[test]
fn unknown_prefix_rejected() {
    assert_eq!(decode_value(b"x", 0, 8), Err(TorrentError::InvalidPrefix));
}

#[test]
fn unterminated_list_rejected() {
    assert_eq!(decode_value(b"li1e", 0, 8), Err(TorrentError::UnexpectedEnd));
}

#[test]
fn nesting_budget_enforced() {
    let buf = b"llleee";
    assert!(decode_value(buf, 0, 3).is_ok());
    assert_eq!(decode_value(buf, 0, 2), Err(TorrentError::DepthExceeded));
}

#[test]
fn list_cursor_yields_elements_then_exhaustion() {
    // The cursor shares the buffer and advances exactly one element per
    // call; at the terminator it reports exhaustion, not an error.
    let buf = b"li1ei2ee";
    let mut cur = ListCursor { pos: 1 };
    assert!(matches!(cur.next(buf, 8), Ok(Some(Value::Int(1)))));
    assert!(matches!(cur.next(buf, 8), Ok(Some(Value::Int(2)))));
    assert!(matches!(cur.next(buf, 8), Ok(None)));
    assert_eq!(cur.pos, buf.len());
}

#[test]
fn dict_cursor_yields_pairs_then_exhaustion() {
    let buf = b"d1:ai1ee";
    let mut cur = DictCursor { pos: 1 };
    match cur.next_pair(buf, 8) {
        Ok(Some((k, v))) => {
            assert_eq!(k, b"a".to_vec());
            assert!(matches!(v, Value::Int(1)));
        },
        _ => panic!("expected one pair"),
    }
    assert!(matches!(cur.next_pair(buf, 8), Ok(None)));
    assert_eq!(cur.pos, buf.len());
}

#[test]
fn document_empty_input_rejected() {
    assert_eq!(decode_document(b"", 8), Err(TorrentError::EmptyInput));
}

#[test]
fn document_trailing_byte_rejected() {
    assert_eq!(decode_document(b"dex", 8), Err(TorrentError::TrailingData));
}

#[test]
fn document_exact_fit_accepted() {
    assert!(decode_document(b"de", 8).is_ok());
}
