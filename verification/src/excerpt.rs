//! Text excerpts: a bounded head-and-tail view of a text file, with its
//! size, digest and truncation mark.
//!
//! The caller reads the file (after sandbox validation) and hands the
//! bytes here; everything from the byte budget to the digest is computed
//! in this module. Cuts never fall inside a multi-byte character: the head
//! is cut back and the tail forward to the nearest character boundary.

use vstd::prelude::*;

use crate::digest::{hex_of, sha256_of};
use vstd::utf8::{is_char_boundary, valid_utf8};

verus! {

broadcast use vstd::std_specs::vec::group_vec_axioms, vstd::seq::group_seq_axioms;

/// The byte budget applied when the caller names none.
pub const DEFAULT_MAX_BYTES: u64 = 40000;

/// An excerpt of a text file.
#[derive(Debug, Clone, PartialEq, Eq)]
pub struct TxtExcerpt {
    /// The canonical path the text was read from.
    pub path: String,
    /// The file's size in bytes.
    pub size_bytes: u64,
    /// How many bytes of it the excerpt covers.
    pub used_bytes: u64,
    /// The SHA-256 digest of the whole content, in lowercase hexadecimal.
    pub sha256: String,
    /// The excerpt itself.
    pub excerpt: String,
    /// Whether the content was cut to the byte budget.
    pub truncated: bool,
}

/// The nearest character boundary at or below `k`.
pub open spec fn boundary_floor(b: Seq<u8>, k: int) -> int
    recommends
        valid_utf8(b),
    decreases k,
{
    if k <= 0 {
        0
    } else if is_char_boundary(b, k) {
        k
    } else {
        boundary_floor(b, k - 1)
    }
}

/// The nearest character boundary at or above `k`.
pub open spec fn boundary_ceil(b: Seq<u8>, k: int) -> int
    recommends
        valid_utf8(b),
    decreases b.len() - k,
{
    if k >= b.len() {
        b.len() as int
    } else if k < 0 {
        boundary_ceil(b, 0)
    } else if is_char_boundary(b, k) {
        k
    } else {
        boundary_ceil(b, k + 1)
    }
}

/// The longest prefix of at most `max_bytes` bytes that ends on a
/// character boundary.
pub open spec fn spec_head(content: Seq<u8>, max_bytes: int) -> Seq<u8> {
    content.take(
        boundary_floor(
            content,
            if max_bytes < content.len() {
                max_bytes
            } else {
                content.len() as int
            },
        ),
    )
}

/// The longest suffix of at most `max_bytes` bytes that starts on a
/// character boundary.
pub open spec fn spec_tail(content: Seq<u8>, max_bytes: int) -> Seq<u8> {
    if max_bytes <= 0 {
        Seq::empty()
    } else if max_bytes >= content.len() {
        content
    } else {
        content.skip(boundary_ceil(content, content.len() - max_bytes))
    }
}

/// Cut `s` to its longest prefix of at most `max_bytes` bytes ending on a
/// character boundary.
#[verifier::loop_isolation(false)]
pub fn slice_prefix<'a>(s: &'a [u8], max_bytes: usize) -> (r: &'a [u8])
    requires
        valid_utf8(s@),
    ensures
        r@ == spec_head(s@, max_bytes as int),
        valid_utf8(r@),
{
    broadcast use vstd::utf8::is_char_boundary_iff_not_is_continuation_byte,
        vstd::utf8::is_char_boundary_start_end_of_seq, vstd::utf8::valid_utf8_split;

    let n = s.len();
    let mut end: usize = if max_bytes < n {
        max_bytes
    } else {
        n
    };
    let ghost k0 = end as int;
    while end > 0 && end < n && 128 <= s[end] && s[end] < 192
        invariant
            0 <= end <= k0 <= n,
            boundary_floor(s@, k0) == boundary_floor(s@, end as int),
        decreases end,
    {
        proof {
            vstd::utf8::is_char_boundary_iff_not_is_continuation_byte(s@, end as int);
            assert(!is_char_boundary(s@, end as int));
        }
        end = end - 1;
    }
    proof {
        if end == 0 || end == n {
            vstd::utf8::is_char_boundary_start_end_of_seq(s@);
        } else {
            vstd::utf8::is_char_boundary_iff_not_is_continuation_byte(s@, end as int);
        }
        assert(is_char_boundary(s@, end as int));
        assert(boundary_floor(s@, end as int) == end as int);
    }
    let r = &s[0..end];
    proof {
        assert(r@ =~= s@.take(end as int));
        vstd::utf8::valid_utf8_split(s@, end as int);
        assert(s@.take(end as int) =~= s@.subrange(0, end as int));
    }
    r
}

/// Cut `s` to its longest suffix of at most `max_bytes` bytes starting on
/// a character boundary.
#[verifier::loop_isolation(false)]
pub fn slice_suffix<'a>(s: &'a [u8], max_bytes: usize) -> (r: &'a [u8])
    requires
        valid_utf8(s@),
    ensures
        r@ == spec_tail(s@, max_bytes as int),
        valid_utf8(r@),
{
    broadcast use vstd::utf8::is_char_boundary_iff_not_is_continuation_byte,
        vstd::utf8::is_char_boundary_start_end_of_seq, vstd::utf8::valid_utf8_split;

    let n = s.len();
    if max_bytes == 0 {
        let r = &s[0..0];
        proof {
            assert(r@ =~= Seq::<u8>::empty());
            assert(valid_utf8(r@)) by {
                vstd::utf8::is_char_boundary_start_end_of_seq(r@);
            }
        }
        return r;
    }
    if max_bytes >= n {
        return s;
    }
    let mut start: usize = n - max_bytes;
    let ghost k0 = start as int;
    while start < n && 128 <= s[start] && s[start] < 192
        invariant
            k0 <= start <= n,
            boundary_ceil(s@, k0) == boundary_ceil(s@, start as int),
        decreases n - start,
    {
        proof {
            vstd::utf8::is_char_boundary_iff_not_is_continuation_byte(s@, start as int);
            assert(!is_char_boundary(s@, start as int));
        }
        start = start + 1;
    }
    proof {
        if start == n {
            vstd::utf8::is_char_boundary_start_end_of_seq(s@);
        } else {
            vstd::utf8::is_char_boundary_iff_not_is_continuation_byte(s@, start as int);
        }
        assert(is_char_boundary(s@, start as int));
        assert(boundary_ceil(s@, start as int) == start as int);
    }
    let r = &s[start..n];
    proof {
        assert(r@ =~= s@.skip(start as int));
        vstd::utf8::valid_utf8_split(s@, start as int);
        assert(s@.skip(start as int) =~= s@.subrange(start as int, s@.len() as int));
    }
    r
}

/// The separator written around the truncation marker.
pub open spec fn sep_bytes() -> Seq<u8> {
    vstd::utf8::encode_utf8("\n\n"@)
}

/// The truncation marker.
pub open spec fn marker_bytes() -> Seq<u8> {
    vstd::utf8::encode_utf8("...[TRUNCATED]..."@)
}

/// The bytes of an excerpt: the whole content when nothing was cut, or the
/// head and tail around the truncation marker, empty parts left out.
pub open spec fn spec_excerpt_bytes(content: Seq<u8>, limit: int, truncated: bool) -> Seq<u8> {
    if !truncated {
        content
    } else if limit == 0 {
        Seq::empty()
    } else {
        let head = spec_head(content, limit * 3 / 4);
        let tail = spec_tail(content, limit - limit * 3 / 4);
        (if head.len() > 0 {
            head + sep_bytes()
        } else {
            Seq::empty()
        }) + marker_bytes() + (if tail.len() > 0 {
            sep_bytes() + tail
        } else {
            Seq::empty()
        })
    }
}

/// The byte budget in force: the caller's, or the default, capped at what
/// a byte count can address.
pub open spec fn spec_limit(max_bytes: Option<u64>) -> u64 {
    let m = match max_bytes {
        Some(v) => v,
        None => DEFAULT_MAX_BYTES,
    };
    if m > usize::MAX as u64 {
        usize::MAX as u64
    } else {
        m
    }
}

/// Relies on std's String::from_utf8: valid UTF-8 bytes become the string
/// holding exactly those bytes.
#[verifier::external_body]
fn string_from_utf8(v: Vec<u8>) -> (r: String)
    requires
        valid_utf8(v@),
    ensures
        vstd::utf8::encode_utf8(r@) == v@,
{
    match String::from_utf8(v) {
        Ok(s) => s,
        Err(_) => String::new(),
    }
}

/// Build the excerpt of a text file from its bytes. `path` is the
/// canonical path the caller read, `size_bytes` the file size it saw;
/// `max_bytes` caps the excerpt, the default budget applying when it is
/// absent. The content is cut at character boundaries around the
/// truncation marker, and the digest always covers the whole content.
pub fn excerpt_from_text(
    path: String,
    size_bytes: u64,
    content: &[u8],
    max_bytes: Option<u64>,
) -> (r: TxtExcerpt)
    requires
        valid_utf8(content@),
    ensures
        r.path == path,
        r.size_bytes == size_bytes,
        r.truncated == (size_bytes > spec_limit(max_bytes)),
        r.used_bytes == (if size_bytes > spec_limit(max_bytes) {
            spec_limit(max_bytes)
        } else {
            size_bytes
        }),
        r.sha256@ == hex_of(sha256_of(content@)),
        vstd::utf8::encode_utf8(r.excerpt@) == spec_excerpt_bytes(
            content@,
            spec_limit(max_bytes) as int,
            size_bytes > spec_limit(max_bytes),
        ),
{
    broadcast use vstd::utf8::valid_utf8_concat, vstd::utf8::encode_utf8_valid_utf8;

    let limit_wide = match max_bytes {
        Some(v) => v,
        None => DEFAULT_MAX_BYTES,
    };
    let limit: usize = if limit_wide > usize::MAX as u64 {
        usize::MAX
    } else {
        limit_wide as usize
    };
    let truncated = size_bytes > limit as u64;
    let used_bytes = if size_bytes > limit as u64 {
        limit as u64
    } else {
        size_bytes
    };
    let sha256 = crate::digest::sha256_hex(content);
    let excerpt: String = if !truncated {
        let whole = vstd::slice::slice_to_vec(content);
        string_from_utf8(whole)
    } else if limit == 0 {
        let empty: Vec<u8> = Vec::new();
        proof {
            assert(valid_utf8(empty@)) by {
                vstd::utf8::is_char_boundary_start_end_of_seq(empty@);
            }
        }
        string_from_utf8(empty)
    } else {
        let head_len: usize = (((limit as u128) * 3) / 4) as usize;
        let tail_len: usize = limit - head_len;
        let head = slice_prefix(content, head_len);
        let tail = slice_suffix(content, tail_len);
        let mut out: Vec<u8> = Vec::new();
        if head.len() > 0 {
            crate::text::append_bytes(&mut out, head);
            crate::text::append_bytes(&mut out, "\n\n".as_bytes());
        }
        crate::text::append_bytes(&mut out, "...[TRUNCATED]...".as_bytes());
        if tail.len() > 0 {
            crate::text::append_bytes(&mut out, "\n\n".as_bytes());
            crate::text::append_bytes(&mut out, tail);
        }
        proof {
            assert(out@ =~= spec_excerpt_bytes(content@, limit as int, true));
            assert(valid_utf8(sep_bytes())) by {
                vstd::utf8::encode_utf8_valid_utf8("\n\n"@);
            }
            assert(valid_utf8(marker_bytes())) by {
                vstd::utf8::encode_utf8_valid_utf8("...[TRUNCATED]..."@);
            }
            let piece1: Seq<u8> = if head@.len() > 0 {
                head@ + sep_bytes()
            } else {
                Seq::empty()
            };
            let piece3: Seq<u8> = if tail@.len() > 0 {
                sep_bytes() + tail@
            } else {
                Seq::empty()
            };
            assert(valid_utf8(piece1)) by {
                if head@.len() > 0 {
                    vstd::utf8::valid_utf8_concat(head@, sep_bytes());
                } else {
                    vstd::utf8::is_char_boundary_start_end_of_seq(piece1);
                }
            }
            assert(valid_utf8(piece3)) by {
                if tail@.len() > 0 {
                    vstd::utf8::valid_utf8_concat(sep_bytes(), tail@);
                } else {
                    vstd::utf8::is_char_boundary_start_end_of_seq(piece3);
                }
            }
            assert(valid_utf8(piece1 + marker_bytes())) by {
                vstd::utf8::valid_utf8_concat(piece1, marker_bytes());
            }
            assert(valid_utf8(piece1 + marker_bytes() + piece3)) by {
                vstd::utf8::valid_utf8_concat(piece1 + marker_bytes(), piece3);
            }
            assert(out@ =~= piece1 + marker_bytes() + piece3);
        }
        string_from_utf8(out)
    };
    TxtExcerpt { path, size_bytes, used_bytes, sha256, excerpt, truncated }
}

} // verus!
