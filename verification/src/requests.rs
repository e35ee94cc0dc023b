//! The request parameters the handlers take, and the request-local
//! validation and parsing they share: relative-path checks, the tag
//! filter parameter, default dimensions, and the id-or-path lookup key.

use vstd::prelude::*;
use crate::text::{
    all_digits, digits_val, first_ix, spec_trim, trim_bounds, parse_u64_digits, scan_char,
    lemma_first_ix_props, lemma_digits_val_nonneg, spec_has_double_dot, has_double_dot,
};

verus! {

/// Parameters of a thumbnail request: the entry by id or path, and the
/// wanted dimensions.
pub struct ThumbQuery {
    pub id: Option<i64>,
    pub path: Option<String>,
    pub w: Option<u32>,
    pub h: Option<u32>,
}

/// Parameters of an explicit generation request.
pub struct GenThumbQuery {
    pub id: Option<i64>,
    pub path: Option<String>,
    pub w: Option<u32>,
    pub h: Option<u32>,
}

/// Parameters of a content streaming request.
pub struct StreamQuery {
    pub id: Option<i64>,
    pub path: Option<String>,
}

/// Parameters of a directory listing request.
pub struct ListQuery {
    pub parent_id: Option<i64>,
    pub path: Option<String>,
    pub tags: Option<String>,
    pub type_filter: Option<String>,
    pub kind: Option<String>,
    pub limit: Option<i64>,
    pub offset: Option<i64>,
    pub sort: Option<String>,
    pub order: Option<String>,
}

/// Parameter of a details request: an id or a relative path.
pub struct DetailsQuery {
    pub path: Option<String>,
}

/// A path given by a client is taken only relative to the media root: it
/// must not be absolute and must not step upward.
pub open spec fn spec_valid_relative_path(p: Seq<char>) -> bool {
    !(p.len() > 0 && p[0] == '/') && !spec_has_double_dot(p)
}

/// Checks a client-supplied path: not absolute, no upward steps.
pub fn is_valid_relative_path(p: &str) -> (r: bool)
    ensures
        r == spec_valid_relative_path(p@),
{
    if p.unicode_len() > 0 && p.get_char(0) == '/' {
        return false;
    }
    !has_double_dot(p)
}

/// The wanted derivative dimensions, with 500 for whatever was not given.
pub fn effective_dimensions(w: Option<u32>, h: Option<u32>) -> (r: (u32, u32))
    ensures
        r.0 == match w {
            Some(v) => v,
            None => 500u32,
        },
        r.1 == match h {
            Some(v) => v,
            None => 500u32,
        },
{
    let rw = match w {
        Some(v) => v,
        None => 500,
    };
    let rh = match h {
        Some(v) => v,
        None => 500,
    };
    (rw, rh)
}

/// What a decimal text denotes as a signed 64-bit number: an optional
/// sign, then digits, the value within the machine range.
pub open spec fn spec_parse_i64(s: Seq<char>) -> Option<i64> {
    let neg = s.len() > 0 && s[0] == '-';
    let u = if s.len() > 0 && (s[0] == '-' || s[0] == '+') {
        s.drop_first()
    } else {
        s
    };
    if u.len() == 0 || !all_digits(u) {
        None
    } else {
        let v = digits_val(u);
        if neg {
            if v <= 0x8000_0000_0000_0000 {
                Some((-v) as i64)
            } else {
                None
            }
        } else {
            if v <= i64::MAX {
                Some(v as i64)
            } else {
                None
            }
        }
    }
}

/// Parses a decimal text as a signed 64-bit number, exactly when it has
/// an optional sign, at least one digit, nothing else, and a value in
/// range.
pub fn parse_i64(s: &str) -> (r: Option<i64>)
    ensures
        r == spec_parse_i64(s@),
{
    let n = s.unicode_len();
    let mut p: usize = 0;
    let mut neg = false;
    if n > 0 {
        let c = s.get_char(0);
        if c == '-' {
            neg = true;
            p = 1;
        } else if c == '+' {
            p = 1;
        }
    }
    let ghost u = if p > 0 {
        s@.drop_first()
    } else {
        s@
    };
    proof {
        assert(s@.subrange(p as int, n as int) =~= u);
    }
    if p == n {
        return None;
    }
    if !crate::text::all_digits_range(s, p, n) {
        return None;
    }
    match parse_u64_digits(s, p, n) {
        None => {
            proof {
                lemma_digits_val_nonneg(u);
            }
            None
        },
        Some(v) => {
            if neg {
                if v > 0x8000_0000_0000_0000u64 {
                    None
                } else if v == 0x8000_0000_0000_0000u64 {
                    Some(i64::MIN)
                } else {
                    Some(-(v as i64))
                }
            } else {
                if v > i64::MAX as u64 {
                    None
                } else {
                    Some(v as i64)
                }
            }
        },
    }
}

/// How a details request's key is looked up: as an id when it reads as a
/// number, as a relative path when it is a valid one, else not at all.
#[derive(Clone, Copy, PartialEq, Eq, Structural, Debug)]
pub enum DetailsKey {
    ById(i64),
    ByPath,
    BadPath,
}

/// Decides how a details request's key is looked up: a numeric key by
/// id; anything else as a path, refused when it is absolute or steps
/// upward.
pub fn details_lookup(key: &str) -> (r: DetailsKey)
    ensures
        match spec_parse_i64(key@) {
            Some(v) => r == DetailsKey::ById(v),
            None => if spec_valid_relative_path(key@) {
                r == DetailsKey::ByPath
            } else {
                r == DetailsKey::BadPath
            },
        },
{
    match parse_i64(key) {
        Some(v) => DetailsKey::ById(v),
        None => {
            if is_valid_relative_path(key) {
                DetailsKey::ByPath
            } else {
                DetailsKey::BadPath
            }
        },
    }
}

/// The tag list a comma-separated parameter denotes: each piece trimmed
/// of whitespace, empty pieces dropped, order kept.
pub open spec fn spec_split_tags(s: Seq<char>) -> Seq<Seq<char>>
    decreases s.len(),
{
    let i = first_ix(s, ',');
    if i < 0 || i >= s.len() {
        let t = spec_trim(s);
        if t.len() == 0 {
            Seq::empty()
        } else {
            seq![t]
        }
    } else {
        let head = spec_trim(s.take(i));
        let rest = spec_split_tags(s.skip(i + 1));
        if head.len() == 0 {
            rest
        } else {
            seq![head] + rest
        }
    }
}

/// Splits a comma-separated tags parameter into the tag list: pieces are
/// trimmed, and empty pieces disappear.
pub fn parse_tags_param(s: &str) -> (r: Vec<String>)
    ensures
        r.deep_view() == spec_split_tags(s@),
    decreases s@.len(),
{
    let n = s.unicode_len();
    let (_cnt, fd) = scan_char(s, 0, ',');
    proof {
        assert(s@.skip(0) =~= s@);
    }
    match fd {
        None => {
            proof {
                lemma_first_ix_props(s@, ',');
            }
            let (lo, hi) = trim_bounds(s, 0, n);
            proof {
                assert(s@.subrange(0, n as int) =~= s@);
            }
            let mut r: Vec<String> = Vec::new();
            if lo < hi {
                let piece = s.substring_char(lo, hi);
                r.push(piece.to_owned());
                proof {
                    assert(r.deep_view() =~= seq![spec_trim(s@)]);
                }
            } else {
                proof {
                    assert(r.deep_view() =~= Seq::<Seq<char>>::empty());
                }
            }
            r
        },
        Some(i) => {
            let (lo, hi) = trim_bounds(s, 0, i);
            let rest = s.substring_char(i + 1, n);
            proof {
                assert(rest@ =~= s@.skip(i + 1));
                assert(s@.take(i as int) =~= s@.subrange(0, i as int));
            }
            let mut rv = parse_tags_param(rest);
            if lo < hi {
                let piece = s.substring_char(lo, hi);
                let ghost rv_view = rv.deep_view();
                let mut r: Vec<String> = Vec::new();
                r.push(piece.to_owned());
                r.append(&mut rv);
                proof {
                    assert(r.deep_view() =~= seq![spec_trim(s@.take(i as int))] + rv_view);
                }
                r
            } else {
                rv
            }
        },
    }
}

} // verus!
