//! Byte ranges: what a `Range` header asks for.

use vstd::prelude::*;
use crate::http::error::{ApiError, ApiErrorView};
use crate::text::{
    after_last, chars_between, chars_of, has_prefix, last_position, parse_u64, parsed_u64,
};

verus! {

/// What a `Range` header asks for, of a file of a given size.
pub enum RangeRequest {
    /// The header is not of the form `bytes=<start>-<end>`: the whole file
    /// is served.
    Whole,
    /// The bytes from `start` up to and including `end`.
    Part { start: u64, end: u64 },
    /// The header is well formed, and the file has no such bytes.
    Unsatisfiable,
}

/// What stands in front of the last `c` of `s`, where `tail` is what
/// follows it.
pub open spec fn before_tail(s: Seq<char>, tail: Seq<char>) -> Seq<char> {
    s.take(s.len() - tail.len() - 1)
}

/// The meaning of a `Range` header for a file of `file_size` bytes.
///
/// The header must read `bytes=<start>-<end>`, where `<start>` is a number
/// and `<end>` is a number or nothing, which means the last byte of the
/// file. Any other header asks for the whole file. A header of that form is
/// satisfiable if `start <= end` and `end < file_size`.
pub open spec fn range_of(header: Seq<char>, file_size: u64) -> RangeRequest {
    if !"bytes="@.is_prefix_of(header) {
        RangeRequest::Whole
    } else {
        let range = header.skip("bytes="@.len() as int);
        match after_last(range, '-') {
            None => RangeRequest::Whole,
            Some(end_text) => {
                let start = parsed_u64(before_tail(range, end_text));
                let end = if end_text.len() == 0 {
                    Some((file_size - 1) as u64)
                } else {
                    parsed_u64(end_text)
                };
                if start is None || end is None {
                    RangeRequest::Whole
                } else if file_size == 0 || start.unwrap() > end.unwrap() || end.unwrap()
                    >= file_size {
                    RangeRequest::Unsatisfiable
                } else {
                    RangeRequest::Part { start: start.unwrap(), end: end.unwrap() }
                }
            },
        }
    }
}

/// Reads a `Range` header for a file of `file_size` bytes: the first and
/// the last byte asked for, `None` where the whole file is to be served,
/// and an error where the range cannot be served.
pub fn parse_http_range(range: &str, file_size: u64) -> (r: Result<Option<(u64, u64)>, ApiError>)
    ensures
        match range_of(range@, file_size) {
            RangeRequest::Whole => r == Ok::<Option<(u64, u64)>, ApiError>(None),
            RangeRequest::Part { start, end } => r == Ok::<Option<(u64, u64)>, ApiError>(
                Some((start, end)),
            ),
            RangeRequest::Unsatisfiable => r matches Err(e) && e@ == ApiErrorView::InvalidRange,
        },
{
    let header = chars_of(range);
    let prefix = chars_of("bytes=");
    if !has_prefix(&header, &prefix) {
        return Ok(None);
    }
    let spec = chars_between(&header, prefix.len(), header.len());
    assert(spec@ == range@.skip("bytes="@.len() as int));
    let dash = match last_position(&spec, '-') {
        Some(at) => at,
        None => {
            return Ok(None);
        },
    };
    let start_text = chars_between(&spec, 0, dash);
    let end_text = chars_between(&spec, dash + 1, spec.len());
    assert(start_text@ == before_tail(spec@, end_text@));
    let start = match parse_u64(&start_text) {
        Some(n) => n,
        None => {
            return Ok(None);
        },
    };
    let end = if end_text.len() == 0 {
        if file_size == 0 {
            return Err(ApiError::InvalidRange);
        }
        file_size - 1
    } else {
        match parse_u64(&end_text) {
            Some(n) => n,
            None => {
                return Ok(None);
            },
        }
    };
    if start > end || end >= file_size {
        return Err(ApiError::InvalidRange);
    }
    Ok(Some((start, end)))
}

/// A part that a header asks for lies within the file, and has at least
/// one byte.
pub proof fn lemma_part_lies_within_file(header: Seq<char>, file_size: u64)
    ensures
        range_of(header, file_size) matches RangeRequest::Part { start, end } ==> start <= end
            < file_size,
{
}

} // verus!
