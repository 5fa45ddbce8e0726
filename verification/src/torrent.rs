//! The whole pipeline: from one raw buffer to a validated descriptor.
//!
//! A buffer is decoded into its single top-level value, which must be a
//! dictionary and must fill the buffer exactly; the schema mapper builds
//! the model from it; the validator then checks the structural
//! invariants. A caller either gets a fully validated [`TorrentFile`] or
//! one error describing the first problem found — never a partial model.

use vstd::prelude::*;

use crate::decode::decode_document;
use crate::errors::{
    is_invariant_error, is_mapper_error, is_primitive_error, TorrentError,
};
use crate::mapper::map_torrent;
use crate::model::TorrentFile;
use crate::parse::parse_value;
use crate::schema::{spec_torrent, spec_torrent_error, torrent_ok};
use crate::validate::{spec_validate, valid_torrent, validate_torrent};
use crate::value::{SpecValue, Value};

verus! {

/// The nesting budget used by [`parse_torrent`]: generous for any real
/// descriptor, while bounding recursion on adversarial input.
pub const DEFAULT_MAX_DEPTH: u32 = 64;

/// What a whole buffer decodes to at a given nesting budget: the pair
/// sequence of its single top-level dictionary, where the buffer holds
/// exactly one dictionary and nothing else.
pub open spec fn spec_document_pairs(s: Seq<u8>, depth: nat) -> Option<
    Seq<(Seq<u8>, SpecValue)>,
> {
    match parse_value(s, 0, depth) {
        Some((v, c)) => if c == s.len() && v is Dict {
            Some(v->Dict_0)
        } else {
            None
        },
        None => None,
    }
}

/// Decode and validate one descriptor from `buf` with an explicit
/// nesting budget.
pub fn parse_torrent_with_depth(buf: &[u8], max_depth: u32) -> (r: Result<
    TorrentFile,
    TorrentError,
>)
    ensures
        ({
            let doc = spec_document_pairs(buf@, max_depth as nat);
            &&& (r is Ok <==> (doc matches Some(ps) && torrent_ok(ps) && valid_torrent(
                spec_torrent(ps),
            )))
            &&& (r matches Ok(t) ==> t@ == spec_torrent(doc->Some_0) && valid_torrent(t@))
            &&& (r matches Err(e) ==> {
                &&& (is_primitive_error(e) || e == TorrentError::EmptyInput || e
                    == TorrentError::TrailingData || e == TorrentError::TopLevelNotDict
                    || is_mapper_error(e) || is_invariant_error(e))
                &&& (e == TorrentError::EmptyInput <==> buf@.len() == 0)
                &&& (is_primitive_error(e) ==> parse_value(buf@, 0, max_depth as nat) is None)
                &&& (e == TorrentError::TrailingData ==> (parse_value(buf@, 0, max_depth as nat)
                    matches Some(pc) && pc.1 < buf@.len()))
                &&& (e == TorrentError::TopLevelNotDict <==> (parse_value(
                    buf@,
                    0,
                    max_depth as nat,
                ) matches Some(pc) && pc.1 == buf@.len() && !(pc.0 is Dict)))
                &&& (is_mapper_error(e) ==> (doc matches Some(ps) && !torrent_ok(ps)
                    && spec_torrent_error(ps) == Some(e)))
                &&& (is_invariant_error(e) ==> (doc matches Some(ps) && torrent_ok(ps)
                    && spec_validate(spec_torrent(ps)) == Some(e)))
            })
        }),
{
    let v = match decode_document(buf, max_depth) {
        Ok(v) => v,
        Err(e) => {
            return Err(e);
        },
    };
    match v {
        Value::Dict(pairs) => {
            let t = match map_torrent(&pairs) {
                Ok(t) => t,
                Err(e) => {
                    return Err(e);
                },
            };
            match validate_torrent(&t) {
                Ok(()) => Ok(t),
                Err(e) => Err(e),
            }
        },
        _ => Err(TorrentError::TopLevelNotDict),
    }
}

/// Decode and validate one descriptor from `buf` at the default nesting
/// budget.
pub fn parse_torrent(buf: &[u8]) -> (r: Result<TorrentFile, TorrentError>)
    ensures
        ({
            let doc = spec_document_pairs(buf@, DEFAULT_MAX_DEPTH as nat);
            &&& (r is Ok <==> (doc matches Some(ps) && torrent_ok(ps) && valid_torrent(
                spec_torrent(ps),
            )))
            &&& (r matches Ok(t) ==> t@ == spec_torrent(doc->Some_0) && valid_torrent(t@))
            &&& (r matches Err(e) ==> {
                &&& (is_primitive_error(e) || e == TorrentError::EmptyInput || e
                    == TorrentError::TrailingData || e == TorrentError::TopLevelNotDict
                    || is_mapper_error(e) || is_invariant_error(e))
                &&& (e == TorrentError::EmptyInput <==> buf@.len() == 0)
                &&& (is_primitive_error(e) ==> parse_value(
                    buf@,
                    0,
                    DEFAULT_MAX_DEPTH as nat,
                ) is None)
                &&& (e == TorrentError::TrailingData ==> (parse_value(
                    buf@,
                    0,
                    DEFAULT_MAX_DEPTH as nat,
                ) matches Some(pc) && pc.1 < buf@.len()))
                &&& (e == TorrentError::TopLevelNotDict <==> (parse_value(
                    buf@,
                    0,
                    DEFAULT_MAX_DEPTH as nat,
                ) matches Some(pc) && pc.1 == buf@.len() && !(pc.0 is Dict)))
                &&& (is_mapper_error(e) ==> (doc matches Some(ps) && !torrent_ok(ps)
                    && spec_torrent_error(ps) == Some(e)))
                &&& (is_invariant_error(e) ==> (doc matches Some(ps) && torrent_ok(ps)
                    && spec_validate(spec_torrent(ps)) == Some(e)))
            })
        }),
{
    parse_torrent_with_depth(buf, DEFAULT_MAX_DEPTH)
}

} // verus!
