//! Resolution of a single HTTP byte-range request against a known total
//! size, producing the exact span to serve and the partial-content framing.

use vstd::prelude::*;
use crate::text::{
    all_digits, count_char, digits_val, first_ix, lemma_count_char_zero, lemma_digits_val_nonneg,
    lemma_first_ix_props, parse_u64_digits, scan_char, spec_u64_string, u64_to_string, has_prefix,
};

verus! {

/// What a content request is answered with: the whole file, one inclusive
/// byte span as partial content, or a refusal because the requested range
/// cannot be satisfied.
#[derive(Clone, Copy, PartialEq, Eq, Structural, Debug)]
pub enum RangeResolution {
    Full,
    Partial { start: u64, end: u64 },
    Unsatisfiable,
}

/// Mathematical form of a resolution, over unbounded integers.
pub enum SpecRange {
    Full,
    Partial(int, int),
    Unsat,
}

/// Resolution of the text after the `bytes=` prefix: it must consist of
/// exactly one `-` separating two digit fields, at most one of them empty,
/// and the denoted span must lie inside `[0, total)`. A `start-end` pair
/// serves `[start, end]`; a lone start serves `[start, total-1]`; a lone
/// end counts back from the end of the file and serves
/// `[total-end, total-1]`, rejected when `end` is `0`. Everything else is
/// unsatisfiable.
pub open spec fn spec_resolve_spec(r: Seq<char>, total: int) -> SpecRange {
    if count_char(r, '-') != 1 {
        SpecRange::Unsat
    } else {
        let i = first_ix(r, '-');
        let left = r.take(i);
        let right = r.skip(i + 1);
        if left.len() == 0 && right.len() == 0 {
            SpecRange::Unsat
        } else if left.len() == 0 {
            if all_digits(right) && digits_val(right) != 0 && digits_val(right) < total {
                SpecRange::Partial(total - digits_val(right), total - 1)
            } else {
                SpecRange::Unsat
            }
        } else if right.len() == 0 {
            if all_digits(left) && digits_val(left) < total {
                SpecRange::Partial(digits_val(left), total - 1)
            } else {
                SpecRange::Unsat
            }
        } else {
            if all_digits(left) && all_digits(right) && digits_val(left) <= digits_val(right)
                && digits_val(right) < total {
                SpecRange::Partial(digits_val(left), digits_val(right))
            } else {
                SpecRange::Unsat
            }
        }
    }
}

/// Resolution of an optional `Range` header: absent means the whole file,
/// a unit other than `bytes` is treated as absent, and a `bytes=` spec is
/// resolved by `spec_resolve_spec`.
pub open spec fn spec_resolve_range(header: Option<Seq<char>>, total: int) -> SpecRange {
    match header {
        None => SpecRange::Full,
        Some(s) => if !"bytes="@.is_prefix_of(s) {
            SpecRange::Full
        } else {
            spec_resolve_spec(s.skip("bytes="@.len() as int), total)
        },
    }
}

/// The executable resolution agrees with the mathematical one.
pub open spec fn resolution_matches(r: RangeResolution, s: SpecRange) -> bool {
    match r {
        RangeResolution::Full => s is Full,
        RangeResolution::Partial { start, end } => s == SpecRange::Partial(
            start as int,
            end as int,
        ),
        RangeResolution::Unsatisfiable => s is Unsat,
    }
}

/// View of the optional header string.
pub open spec fn spec_header_view(header: Option<&str>) -> Option<Seq<char>> {
    match header {
        None => None,
        Some(h) => Some(h@),
    }
}

/// Every span a range request resolves to lies inside the file: partial
/// content never starts before byte 0, never ends at or past `total`, and
/// never runs backwards.
pub proof fn lemma_partial_in_bounds(header: Option<Seq<char>>, total: int)
    ensures
        spec_resolve_range(header, total) matches SpecRange::Partial(a, b) ==> 0 <= a <= b
            < total,
{
    if header is Some {
        let s = header->0;
        if "bytes="@.is_prefix_of(s) {
            let r = s.skip("bytes="@.len() as int);
            if count_char(r, '-') == 1 {
                let i = first_ix(r, '-');
                let left = r.take(i);
                let right = r.skip(i + 1);
                if all_digits(left) {
                    lemma_digits_val_nonneg(left);
                }
                if all_digits(right) {
                    lemma_digits_val_nonneg(right);
                }
            }
        }
    }
}

/// Resolves an optional `Range` header against the total size of the
/// content, per the rules of `spec_resolve_range`.
pub fn resolve_range(header: Option<&str>, total_size: u64) -> (r: RangeResolution)
    ensures
        resolution_matches(r, spec_resolve_range(spec_header_view(header), total_size as int)),
{
    let h = match header {
        None => {
            return RangeResolution::Full;
        },
        Some(h) => h,
    };
    if !has_prefix(h, "bytes=") {
        return RangeResolution::Full;
    }
    let plen = "bytes=".unicode_len();
    let n = h.unicode_len();
    let ghost rest = h@.skip(plen as int);
    let (cnt, fd) = scan_char(h, plen, '-');
    if cnt != 1 {
        return RangeResolution::Unsatisfiable;
    }
    let ix = match fd {
        Some(ix) => ix,
        None => {
            proof {
                lemma_first_ix_props(rest, '-');
                lemma_count_char_zero(rest, '-');
            }
            return RangeResolution::Unsatisfiable;
        },
    };
    let ghost i = ix - plen as int;
    let ghost left = rest.take(i);
    let ghost right = rest.skip(i + 1);
    proof {
        assert(left =~= h@.subrange(plen as int, ix as int));
        assert(right =~= h@.subrange(ix as int + 1, n as int));
    }
    let left_empty = ix == plen;
    let right_empty = ix + 1 == n;
    if left_empty && right_empty {
        return RangeResolution::Unsatisfiable;
    }
    if left_empty {
        // suffix form: the last `v` bytes of the file
        match parse_u64_digits(h, ix + 1, n) {
            Some(v) => {
                if v != 0 && v < total_size {
                    RangeResolution::Partial { start: total_size - v, end: total_size - 1 }
                } else {
                    RangeResolution::Unsatisfiable
                }
            },
            None => RangeResolution::Unsatisfiable,
        }
    } else if right_empty {
        // open-ended form: from `v` to the last byte
        match parse_u64_digits(h, plen, ix) {
            Some(v) => {
                if v < total_size {
                    RangeResolution::Partial { start: v, end: total_size - 1 }
                } else {
                    RangeResolution::Unsatisfiable
                }
            },
            None => RangeResolution::Unsatisfiable,
        }
    } else {
        let start_opt = parse_u64_digits(h, plen, ix);
        let end_opt = parse_u64_digits(h, ix + 1, n);
        match (start_opt, end_opt) {
            (Some(a), Some(b)) => {
                if a <= b && b < total_size {
                    RangeResolution::Partial { start: a, end: b }
                } else {
                    RangeResolution::Unsatisfiable
                }
            },
            _ => RangeResolution::Unsatisfiable,
        }
    }
}

/// Number of bytes in the inclusive span `[start, end]`.
pub fn span_length(start: u64, end: u64) -> (r: u64)
    requires
        start <= end,
        end < u64::MAX,
    ensures
        r == end - start + 1,
{
    end - start + 1
}

/// Builds the `Content-Range` header value `bytes <start>-<end>/<total>`
/// for a partial response.
pub fn content_range_value(start: u64, end: u64, total: u64) -> (r: String)
    ensures
        r@ == "bytes "@ + spec_u64_string(start as nat) + "-"@ + spec_u64_string(end as nat)
            + "/"@ + spec_u64_string(total as nat),
{
    let mut r = String::from_str("bytes ");
    let s1 = u64_to_string(start);
    r.append(s1.as_str());
    r.append("-");
    let s2 = u64_to_string(end);
    r.append(s2.as_str());
    r.append("/");
    let s3 = u64_to_string(total);
    r.append(s3.as_str());
    r
}

} // verus!
