//! The decoded mapping document.
//!
//! Decoding a source map and looking a generated position up in it is the
//! work of the `sourcemap` crate. This module holds what the library
//! believes of that crate without proof: the names of its results and the
//! contracts of the calls into it.

use crate::ranges::{offset_overflows, Mark};
use crate::token_generator::{text_view, PositionView, SourceMapToken};
use vstd::prelude::*;

verus! {

/// A decoded mapping document, as the `sourcemap` crate holds it.
#[verifier::external_type_specification]
#[verifier::external_body]
pub struct ExSourceMap(sourcemap::SourceMap);

/// The error with which the `sourcemap` crate refuses a document.
#[verifier::external_type_specification]
#[verifier::external_body]
pub struct ExSourceMapError(sourcemap::Error);

/// What a mapping document holds for this library: its mappings in their
/// order, each with its generated line and column and whether it is a
/// range mapping; for each generated position, given as a line and a
/// column counted from 0, the original position that a lookup finds, if it
/// finds one; and the sources in their order, each with its path and,
/// where the document carries it, its text.
pub struct MappingView {
    pub marks: Seq<Mark>,
    pub positions: Map<(u32, u32), PositionView>,
    pub sources: Seq<(Seq<char>, Option<Seq<char>>)>,
}

/// What the decoded document `map` holds.
pub uninterp spec fn mapping_of(map: sourcemap::SourceMap) -> MappingView;

/// What `SourceMap::from_slice` decodes from the bytes `document`; `None`
/// where it refuses them.
pub uninterp spec fn decoded_slice(document: Seq<u8>) -> Option<MappingView>;

/// What `SourceMap::from_reader` decodes from the bytes of the text
/// `document`; `None` where it refuses them.
pub uninterp spec fn decoded_text(document: Seq<char>) -> Option<MappingView>;

/// `SourceMap::from_slice`: decodes a mapping document. That the outcome
/// depends on the bytes alone is believed, and named `decoded_slice`.
#[verifier::external_body]
pub(crate) fn decode_slice(document: &[u8]) -> (r: Result<sourcemap::SourceMap, sourcemap::Error>)
    ensures
        match r {
            Ok(map) => decoded_slice(document@) == Some(mapping_of(map)),
            Err(_) => decoded_slice(document@) is None,
        },
{
    sourcemap::SourceMap::from_slice(document)
}

/// `SourceMap::from_reader`, on the bytes of a text: decodes a mapping
/// document. That the outcome depends on the text alone is believed, and
/// named `decoded_text`.
#[verifier::external_body]
pub(crate) fn decode_text(document: &str) -> (r: Result<sourcemap::SourceMap, sourcemap::Error>)
    ensures
        match r {
            Ok(map) => decoded_text(document@) == Some(mapping_of(map)),
            Err(_) => decoded_text(document@) is None,
        },
{
    sourcemap::SourceMap::from_reader(document.as_bytes())
}

/// The `Display` text of a `sourcemap::Error`. Nothing is claimed of it.
#[verifier::external_body]
pub(crate) fn describe_error(error: &sourcemap::Error) -> String {
    error.to_string()
}

/// `SourceMap::tokens`, each token with `Token::get_dst_line`,
/// `Token::get_dst_col` and `Token::is_range`: the mappings of a document in
/// the order in which it holds them.
#[verifier::external_body]
pub(crate) fn marks_of(map: &sourcemap::SourceMap) -> (r: Vec<Mark>)
    ensures
        r@ == mapping_of(*map).marks,
{
    map.tokens().map(|token| (token.get_dst_line(), token.get_dst_col(), token.is_range())).collect()
}

/// `SourceMap::lookup_token`, with the line, column, source path and
/// source text of the token it finds: the closest token at or before a
/// generated line and column, both counted from 0. The result is what
/// `mapping_of` holds for that position.
///
/// The crate holds its tokens sorted by generated line and column, and
/// finds the last of them at or before the position. Where that is a range
/// mapping, it offsets the column by the column asked for less the
/// token's generated column, which it subtracts unchecked. The `requires`
/// leaves out the positions at which that token lies right of the column
/// asked for, and no others.
#[verifier::external_body]
pub(crate) fn lookup_position(map: &sourcemap::SourceMap, line: u32, column: u32) -> (r: Option<
    SourceMapToken,
>)
    requires
        !offset_overflows(mapping_of(*map).marks, line, column),
    ensures
        match r {
            Some(token) => mapping_of(*map).positions.contains_key((line, column)) && mapping_of(
                *map,
            ).positions[(line, column)] == token@,
            None => !mapping_of(*map).positions.contains_key((line, column)),
        },
{
    map.lookup_token(line, column).map(
        |token|
            SourceMapToken {
                line: token.get_src_line(),
                column: token.get_src_col(),
                source_code: token.get_source_view().map(|view| view.source().to_string()),
                src: token.get_source().map(|path| path.to_string()),
            },
    )
}

/// `SourceMap::sources`, each path with the text that
/// `SourceMap::get_source_view` holds for its index: the sources of a
/// document in their order.
#[verifier::external_body]
pub(crate) fn source_entries(map: &sourcemap::SourceMap) -> (r: Vec<(String, Option<String>)>)
    ensures
        r@.len() == mapping_of(*map).sources.len(),
        forall|k: int|
            0 <= k < r@.len() ==> (#[trigger] r@[k]).0@ == mapping_of(*map).sources[k].0
                && text_view(r@[k].1) == mapping_of(*map).sources[k].1,
{
    map.sources().enumerate().map(
        |(index, path)|
            (
                path.to_string(),
                map.get_source_view(index as u32).map(|view| view.source().to_string()),
            ),
    ).collect()
}

} // verus!
