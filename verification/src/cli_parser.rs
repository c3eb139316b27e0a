//! Parsing of the block-interval argument.
//!
//! The argument has the shape `start:end`. An empty `start` means block 1;
//! an empty or `latest` `end` means the endpoint's current head block. Any
//! other bound must be an unsigned integer. Text after a second colon is
//! ignored.

use crate::error::SerpicoError;
use crate::numbers::{is_u64_string, u64_string_val};
use crate::numbers::parse_u64;
use crate::text::str_eq;
use vstd::prelude::*;

verus! {

/// Index of the first colon at or after `i`, or `s.len()` if there is none.
pub open spec fn first_colon_at(s: Seq<char>, i: int) -> int
    decreases s.len() - i,
{
    if 0 <= i && i < s.len() && s[i] != ':' {
        first_colon_at(s, i + 1)
    } else {
        i
    }
}

/// The text before the first colon.
pub open spec fn blocks_start_token(s: Seq<char>) -> Seq<char> {
    s.take(first_colon_at(s, 0))
}

/// The text between the first colon and the second one (or the end).
pub open spec fn blocks_end_token(s: Seq<char>) -> Seq<char> {
    let i = first_colon_at(s, 0);
    s.subrange(i + 1, first_colon_at(s, i + 1))
}

/// The interval's first block, if the token is acceptable: empty means 1.
pub open spec fn spec_start_bound(t: Seq<char>) -> Option<u64> {
    if t.len() == 0 {
        Some(1u64)
    } else if is_u64_string(t) {
        Some(u64_string_val(t) as u64)
    } else {
        None
    }
}

/// The interval's last block, if the token is acceptable: empty or
/// `latest` means the current head block.
pub open spec fn spec_end_bound(t: Seq<char>, last_block: u64) -> Option<u64> {
    if t.len() == 0 || t == "latest"@ {
        Some(last_block)
    } else if is_u64_string(t) {
        Some(u64_string_val(t) as u64)
    } else {
        None
    }
}

/// Reads the requested block interval out of `start:end`, substituting
/// `1` for an empty start and `last_block` for an empty or `latest` end.
/// A malformed bound is rejected as `IntParsingErr` carrying that bound's
/// text, the start bound being checked first.
pub fn parse_blocks(block_str: String, last_block: u64) -> (r: Result<(u64, u64), SerpicoError>)
    requires
        block_str@.contains(':'),
    ensures
        ({
            let t0 = blocks_start_token(block_str@);
            let t1 = blocks_end_token(block_str@);
            match r {
                Ok(bounds) => spec_start_bound(t0) is Some && spec_end_bound(t1, last_block)
                    is Some && bounds.0 == spec_start_bound(t0)->0 && bounds.1 == spec_end_bound(
                    t1,
                    last_block,
                )->0,
                Err(e) => match e {
                    SerpicoError::IntParsingErr(msg) => if spec_start_bound(t0) is None {
                        msg@ == t0
                    } else {
                        spec_end_bound(t1, last_block) is None && msg@ == t1
                    },
                    _ => false,
                },
            }
        }),
{
    let s = block_str.as_str();
    let len = s.unicode_len();
    let mut i: usize = 0;
    while i < len && s.get_char(i) != ':'
        invariant
            0 <= i <= len,
            len == s@.len(),
            first_colon_at(s@, 0) == first_colon_at(s@, i as int),
            forall|j: int| 0 <= j < i ==> s@[j] != ':',
        decreases len - i,
    {
        i = i + 1;
    }
    proof {
        if i == len {
            let w = choose|w: int| 0 <= w < s@.len() && s@[w] == ':';
            assert(false);
        }
        assert(first_colon_at(s@, 0) == i as int);
    }
    let start_str = s.substring_char(0, i);
    proof {
        assert(start_str@ =~= blocks_start_token(block_str@));
    }
    let mut k: usize = i + 1;
    while k < len && s.get_char(k) != ':'
        invariant
            i < len,
            i + 1 <= k <= len,
            len == s@.len(),
            first_colon_at(s@, i + 1) == first_colon_at(s@, k as int),
        decreases len - k,
    {
        k = k + 1;
    }
    proof {
        assert(first_colon_at(s@, i + 1) == k as int);
    }
    let end_str = s.substring_char(i + 1, k);
    proof {
        assert(end_str@ =~= blocks_end_token(block_str@));
    }
    let block_start: u64 = if start_str.unicode_len() == 0 {
        1
    } else {
        match parse_u64(start_str) {
            Some(v) => v,
            None => {
                return Err(SerpicoError::IntParsingErr(String::from_str(start_str)));
            },
        }
    };
    let block_end: u64 = if end_str.unicode_len() == 0 || str_eq(end_str, "latest") {
        last_block
    } else {
        match parse_u64(end_str) {
            Some(v) => v,
            None => {
                return Err(SerpicoError::IntParsingErr(String::from_str(end_str)));
            },
        }
    };
    Ok((block_start, block_end))
}

} // verus!
