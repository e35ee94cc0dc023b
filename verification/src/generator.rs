//! Decision logic of the derivative (thumbnail) generator: derivative and
//! temporary file names, the idempotent fast path, the video seek
//! heuristic, probe output parsing, transcoder argument lists, and the
//! failure taxonomy. The file and process work itself is done by the
//! caller; every decision about it is made here.

use vstd::prelude::*;
use crate::text::{
    all_digits, count_char, digit_val, digits_val, first_ix, lemma_count_char_add,
    lemma_count_char_zero, lemma_u64_string_digits, spec_i64_string, spec_u64_string,
    i64_to_string, u64_to_string, has_suffix, scan_char, all_digits_range, parse_u64_digits,
    lemma_first_ix_props, scan_char_range,
};
use crate::catalog::{MediaEntry, NewMediaEntry, clone_opt_string, clone_opt_tags};
use crate::text::{spec_is_ws, spec_trim, is_ws_char};

verus! {

/// Why a generation attempt failed. Every waiter of the attempt's key
/// receives the same failure.
#[derive(Clone, Copy, PartialEq, Eq, Structural, Debug)]
pub enum GenError {
    /// The catalog entry vanished before generation ran.
    NotFound,
    /// The entry is neither an image nor a video.
    UnsupportedType,
    /// The source file could not be read or decoded.
    SourceReadError,
    /// Video thumbnails are disabled by configuration.
    TranscodeDisabled,
    /// The external transcoder ran and exited with a failure.
    TranscodeProcessFailed,
    /// The external transcoder could not be started.
    TranscodeSpawnFailed,
    /// Writing the temporary file or moving it into place failed.
    IoError,
}

impl GenError {
    /// A short fixed description of the failure.
    pub fn describe(&self) -> (r: &'static str)
        ensures
            *self is NotFound ==> r@ == "not found"@,
            *self is UnsupportedType ==> r@ == "unsupported media type or generation failed"@,
            *self is SourceReadError ==> r@ == "source read failed"@,
            *self is TranscodeDisabled ==> r@ == "ffmpeg disabled"@,
            *self is TranscodeProcessFailed ==> r@ == "ffmpeg failed"@,
            *self is TranscodeSpawnFailed ==> r@ == "failed to spawn ffmpeg"@,
            *self is IoError ==> r@ == "io failure"@,
    {
        match self {
            GenError::NotFound => "not found",
            GenError::UnsupportedType => "unsupported media type or generation failed",
            GenError::SourceReadError => "source read failed",
            GenError::TranscodeDisabled => "ffmpeg disabled",
            GenError::TranscodeProcessFailed => "ffmpeg failed",
            GenError::TranscodeSpawnFailed => "failed to spawn ffmpeg",
            GenError::IoError => "io failure",
        }
    }
}

/// The on-disk name of the derivative for entry `id` at `w`x`h`.
pub open spec fn spec_derivative_name(id: i64, w: u32, h: u32) -> Seq<char> {
    spec_i64_string(id as int) + "_"@ + spec_u64_string(w as nat) + "x"@ + spec_u64_string(
        h as nat,
    ) + ".jpg"@
}

/// Builds the derivative file name `<id>_<w>x<h>.jpg`.
pub fn derivative_file_name(id: i64, w: u32, h: u32) -> (r: String)
    ensures
        r@ == spec_derivative_name(id, w, h),
{
    let mut r = i64_to_string(id);
    r.append("_");
    let ws = u64_to_string(w as u64);
    r.append(ws.as_str());
    r.append("x");
    let hs = u64_to_string(h as u64);
    r.append(hs.as_str());
    r.append(".jpg");
    r
}

/// The name of the temporary file a derivative is written to before the
/// atomic rename: the final name, a disambiguating nanosecond suffix, and
/// the `.jpg` extension again.
pub open spec fn spec_temp_name(out_name: Seq<char>, nanos: u64) -> Seq<char> {
    out_name + "."@ + spec_u64_string(nanos as nat) + ".jpg"@
}

/// Builds the temporary file name for one generation attempt.
pub fn temp_file_name(out_name: &str, nanos: u64) -> (r: String)
    ensures
        r@ == spec_temp_name(out_name@, nanos),
{
    let mut r = String::from_str(out_name);
    r.append(".");
    let ns = u64_to_string(nanos);
    r.append(ns.as_str());
    r.append(".jpg");
    r
}

/// The URL path a stored derivative is served under.
pub open spec fn spec_thumb_url(out_name: Seq<char>) -> Seq<char> {
    "/thumbnails/"@ + out_name
}

/// Builds the URL path `/thumbnails/<name>` of a stored derivative.
pub fn thumb_url(out_name: &str) -> (r: String)
    ensures
        r@ == spec_thumb_url(out_name@),
{
    let mut r = String::from_str("/thumbnails/");
    r.append(out_name);
    r
}

/// A stale temporary file is recognized by its shape and age: it has the
/// `.jpg` extension, at least two dots in its name, and was last touched
/// over an hour ago.
pub open spec fn spec_should_collect(name: Seq<char>, age_secs: u64) -> bool {
    ".jpg"@.is_suffix_of(name) && count_char(name, '.') >= 2 && age_secs > 3600
}

/// Whether a file in the derivative directory is a stale temporary file
/// that a cleanup sweep may delete.
pub fn should_collect_temp(name: &str, age_secs: u64) -> (r: bool)
    ensures
        r == spec_should_collect(name@, age_secs),
{
    if !has_suffix(name, ".jpg") {
        return false;
    }
    let (dots, _first) = scan_char(name, 0, '.');
    proof {
        assert(name@.skip(0) =~= name@);
    }
    dots >= 2 && age_secs > 3600
}

proof fn lemma_dot_counts_of_literals()
    ensures
        count_char("_"@, '.') == 0,
        count_char("x"@, '.') == 0,
        count_char("."@, '.') == 1,
        count_char(".jpg"@, '.') == 1,
{
    reveal_with_fuel(count_char, 6);
    reveal_strlit("_");
    reveal_strlit("x");
    reveal_strlit(".");
    reveal_strlit(".jpg");
    assert("_"@ =~= seq!['_']);
    assert("x"@ =~= seq!['x']);
    assert("."@ =~= seq!['.']);
    assert(".jpg"@ =~= seq!['.', 'j', 'p', 'g']);
    assert(count_char(seq!['_'], '.') == 0) by {
        assert(seq!['_'].drop_last() =~= Seq::<char>::empty());
    }
    assert(count_char(seq!['x'], '.') == 0) by {
        assert(seq!['x'].drop_last() =~= Seq::<char>::empty());
    }
    assert(count_char(seq!['.'], '.') == 1) by {
        assert(seq!['.'].drop_last() =~= Seq::<char>::empty());
    }
    assert(count_char(seq!['.', 'j', 'p', 'g'], '.') == 1) by {
        let s = seq!['.', 'j', 'p', 'g'];
        assert(s.drop_last() =~= seq!['.', 'j', 'p']);
        assert(seq!['.', 'j', 'p'].drop_last() =~= seq!['.', 'j']);
        assert(seq!['.', 'j'].drop_last() =~= seq!['.']);
        assert(seq!['.'].drop_last() =~= Seq::<char>::empty());
    }
}

proof fn lemma_number_strings_have_no_dot(n: nat)
    ensures
        count_char(spec_u64_string(n), '.') == 0,
{
    lemma_u64_string_digits(n);
    lemma_count_char_zero(spec_u64_string(n), '.');
}

proof fn lemma_i64_string_has_no_dot(v: int)
    ensures
        count_char(spec_i64_string(v), '.') == 0,
{
    if v >= 0 {
        lemma_number_strings_have_no_dot(v as nat);
    } else {
        lemma_number_strings_have_no_dot((-v) as nat);
        assert(count_char(seq!['-'], '.') == 0) by {
            reveal_with_fuel(count_char, 3);
            assert(seq!['-'].drop_last() =~= Seq::<char>::empty());
        }
        lemma_count_char_add(seq!['-'], spec_u64_string((-v) as nat), '.');
    }
}

/// A derivative's final name has exactly one dot: the one of its `.jpg`
/// extension.
pub proof fn lemma_derivative_name_one_dot(id: i64, w: u32, h: u32)
    ensures
        count_char(spec_derivative_name(id, w, h), '.') == 1,
{
    lemma_dot_counts_of_literals();
    lemma_i64_string_has_no_dot(id as int);
    lemma_number_strings_have_no_dot(w as nat);
    lemma_number_strings_have_no_dot(h as nat);
    let a = spec_i64_string(id as int);
    let b = a + "_"@;
    let c = b + spec_u64_string(w as nat);
    let d = c + "x"@;
    let e = d + spec_u64_string(h as nat);
    lemma_count_char_add(a, "_"@, '.');
    lemma_count_char_add(b, spec_u64_string(w as nat), '.');
    lemma_count_char_add(c, "x"@, '.');
    lemma_count_char_add(d, spec_u64_string(h as nat), '.');
    lemma_count_char_add(e, ".jpg"@, '.');
}

/// Atomic publish, seen from the names: a temporary file never has the
/// derivative's final name — it is strictly longer — and it carries at
/// least three dots where a final name has one, so a cleanup sweep can
/// tell the two apart and never collects a finished derivative.
pub proof fn lemma_temp_name_distinct(id: i64, w: u32, h: u32, nanos: u64, age_secs: u64)
    ensures
        spec_temp_name(spec_derivative_name(id, w, h), nanos) != spec_derivative_name(id, w, h),
        count_char(spec_temp_name(spec_derivative_name(id, w, h), nanos), '.') == 3,
        !spec_should_collect(spec_derivative_name(id, w, h), age_secs),
{
    let out = spec_derivative_name(id, w, h);
    let tmp = spec_temp_name(out, nanos);
    lemma_u64_string_digits(nanos as nat);
    assert(tmp.len() > out.len());
    lemma_derivative_name_one_dot(id, w, h);
    lemma_dot_counts_of_literals();
    lemma_number_strings_have_no_dot(nanos as nat);
    let a = out + "."@;
    let b = a + spec_u64_string(nanos as nat);
    lemma_count_char_add(out, "."@, '.');
    lemma_count_char_add(a, spec_u64_string(nanos as nat), '.');
    lemma_count_char_add(b, ".jpg"@, '.');
}

/// A stale temporary file is collected once it is old enough: its name
/// ends in `.jpg` and holds three dots, so only its age decides.
pub proof fn lemma_stale_temp_collected(id: i64, w: u32, h: u32, nanos: u64, age_secs: u64)
    ensures
        spec_should_collect(spec_temp_name(spec_derivative_name(id, w, h), nanos), age_secs) == (
        age_secs > 3600),
{
    let out = spec_derivative_name(id, w, h);
    let tmp = spec_temp_name(out, nanos);
    lemma_temp_name_distinct(id, w, h, nanos, age_secs);
    assert(".jpg"@.is_suffix_of(tmp)) by {
        let pre = out + "."@ + spec_u64_string(nanos as nat);
        assert(tmp == pre + ".jpg"@);
        assert(".jpg"@ =~= tmp.subrange(tmp.len() - ".jpg"@.len(), tmp.len() as int));
    }
}

/// What the generator is told to do for a request, before any expensive
/// work: serve the file that already exists, decode and resize an image,
/// probe and frame-extract a video, or fail with the reason.
#[derive(Clone, Copy, PartialEq, Eq, Structural, Debug)]
pub enum GenDecision {
    ServeExisting,
    GenerateImage,
    GenerateVideo,
    Reject(GenError),
}

/// The media kind a catalog entry's MIME type classifies it as. An entry
/// without a MIME type is a directory.
#[derive(Clone, Copy, PartialEq, Eq, Structural, Debug)]
pub enum MediaKind {
    Directory,
    Image,
    Video,
    Audio,
    Other,
}

/// Classification of an optional MIME string by its type prefix.
pub open spec fn spec_media_kind(mime: Option<Seq<char>>) -> MediaKind {
    match mime {
        None => MediaKind::Directory,
        Some(m) => if m.len() == 0 {
            MediaKind::Directory
        } else if "image/"@.is_prefix_of(m) {
            MediaKind::Image
        } else if "video/"@.is_prefix_of(m) {
            MediaKind::Video
        } else if "audio/"@.is_prefix_of(m) {
            MediaKind::Audio
        } else {
            MediaKind::Other
        },
    }
}

/// View of an optional MIME string.
pub open spec fn spec_mime_view(mime: Option<&str>) -> Option<Seq<char>> {
    match mime {
        None => None,
        Some(m) => Some(m@),
    }
}

/// Classifies a catalog entry by its MIME type.
pub fn media_kind(mime: Option<&str>) -> (r: MediaKind)
    ensures
        r == spec_media_kind(spec_mime_view(mime)),
{
    match mime {
        None => MediaKind::Directory,
        Some(m) => {
            if m.unicode_len() == 0 {
                MediaKind::Directory
            } else if crate::text::has_prefix(m, "image/") {
                MediaKind::Image
            } else if crate::text::has_prefix(m, "video/") {
                MediaKind::Video
            } else if crate::text::has_prefix(m, "audio/") {
                MediaKind::Audio
            } else {
                MediaKind::Other
            }
        },
    }
}

/// The decision that opens every generation attempt, taken under the
/// key's single-flight protection: an existing target file is served as
/// is (the idempotent fast path — no decode or transcode runs), an image
/// is resized, a video is frame-extracted only while transcoding is
/// enabled, and anything else is rejected as unsupported.
pub open spec fn spec_initial_decision(
    target_exists: bool,
    mime: Option<Seq<char>>,
    transcode_enabled: bool,
) -> GenDecision {
    if target_exists {
        GenDecision::ServeExisting
    } else {
        match spec_media_kind(mime) {
            MediaKind::Image => GenDecision::GenerateImage,
            MediaKind::Video => if transcode_enabled {
                GenDecision::GenerateVideo
            } else {
                GenDecision::Reject(GenError::TranscodeDisabled)
            },
            _ => GenDecision::Reject(GenError::UnsupportedType),
        }
    }
}

/// Decides what one generation request must do, before any permit is
/// taken or any file is touched.
pub fn initial_decision(target_exists: bool, mime: Option<&str>, transcode_enabled: bool) -> (r:
    GenDecision)
    ensures
        r == spec_initial_decision(target_exists, spec_mime_view(mime), transcode_enabled),
{
    if target_exists {
        return GenDecision::ServeExisting;
    }
    match media_kind(mime) {
        MediaKind::Image => GenDecision::GenerateImage,
        MediaKind::Video => {
            if transcode_enabled {
                GenDecision::GenerateVideo
            } else {
                GenDecision::Reject(GenError::TranscodeDisabled)
            }
        },
        _ => GenDecision::Reject(GenError::UnsupportedType),
    }
}

/// Seek offset, in seconds, used when extracting a single video frame:
/// 1 second into clips longer than 3 seconds, otherwise a tenth of the
/// duration rounded to the nearest second and clamped at 0 (which is 0 for
/// every duration of at most 3 seconds). An unknown duration seeks to 1.
pub open spec fn spec_seek_offset(duration_secs: Option<i64>) -> int {
    match duration_secs {
        None => 1,
        Some(d) => if d > 3 {
            1
        } else {
            0
        },
    }
}

/// Chooses where to seek before grabbing a video frame, avoiding a black
/// first frame on long clips while never seeking past very short content.
pub fn video_seek_offset(duration_secs: Option<i64>) -> (r: i64)
    ensures
        r == spec_seek_offset(duration_secs),
{
    match duration_secs {
        None => 1,
        Some(d) => {
            if d > 3 {
                1
            } else if d >= 0 {
                // a tenth of the duration, rounded to the nearest second;
                // for durations of at most 3 seconds this is 0
                (d + 5) / 10
            } else {
                0
            }
        },
    }
}

/// The whole seconds an unsigned decimal numeral denotes, rounded to the
/// nearest (half away from zero): an integer part, optionally a dot and a
/// fraction, at least one digit in all. The first fraction digit decides
/// the rounding.
pub open spec fn spec_decimal_value(t: Seq<char>) -> Option<int> {
    if count_char(t, '.') == 0 {
        if t.len() > 0 && all_digits(t) {
            Some(digits_val(t))
        } else {
            None
        }
    } else if count_char(t, '.') == 1 {
        let di = first_ix(t, '.');
        let ip = t.take(di);
        let fp = t.skip(di + 1);
        if (ip.len() > 0 || fp.len() > 0) && all_digits(ip) && all_digits(fp) {
            Some(
                digits_val(ip) + if fp.len() > 0 && digit_val(fp.first()) >= 5 {
                    1int
                } else {
                    0int
                },
            )
        } else {
            None
        }
    } else {
        None
    }
}

/// What the duration probe's output line denotes in whole seconds: the
/// trimmed text read as an optionally signed decimal numeral, rounded to
/// the nearest second, half away from zero. Text of any other shape, or a
/// magnitude beyond the machine range, denotes nothing.
pub open spec fn spec_probe_duration(s: Seq<char>) -> Option<i64> {
    let t = spec_trim(s);
    let neg = t.len() > 0 && t.first() == '-';
    let u = if t.len() > 0 && (t.first() == '-' || t.first() == '+') {
        t.drop_first()
    } else {
        t
    };
    match spec_decimal_value(u) {
        None => None,
        Some(v) => if v > i64::MAX {
            None
        } else if neg {
            Some((-v) as i64)
        } else {
            Some(v as i64)
        },
    }
}

/// Reads the duration probe's output: the whole seconds its decimal
/// numeral denotes, rounded to the nearest, or nothing when the output
/// has any other shape.
#[verifier::rlimit(60)]
pub fn parse_probe_duration(s: &str) -> (r: Option<i64>)
    ensures
        r == spec_probe_duration(s@),
{
    let n = s.unicode_len();
    let mut lo: usize = 0;
    let mut hi: usize = n;
    proof {
        assert(s@.subrange(0, n as int) =~= s@);
    }
    while lo < hi && is_ws_char(s.get_char(lo))
        invariant
            lo <= hi <= n,
            n == s@.len(),
            spec_trim(s@) == spec_trim(s@.subrange(lo as int, hi as int)),
        decreases hi - lo,
    {
        proof {
            let t = s@.subrange(lo as int, hi as int);
            assert(t.first() == s@[lo as int]);
            assert(t.drop_first() =~= s@.subrange(lo as int + 1, hi as int));
        }
        lo = lo + 1;
    }
    while lo < hi && is_ws_char(s.get_char(hi - 1))
        invariant
            lo <= hi <= n,
            n == s@.len(),
            spec_trim(s@) == spec_trim(s@.subrange(lo as int, hi as int)),
            lo == hi || !spec_is_ws(s@[lo as int]),
        decreases hi - lo,
    {
        proof {
            let t = s@.subrange(lo as int, hi as int);
            assert(t.first() == s@[lo as int]);
            assert(t.last() == s@[hi - 1]);
            assert(t.drop_last() =~= s@.subrange(lo as int, hi as int - 1));
        }
        hi = hi - 1;
    }
    let ghost t = s@.subrange(lo as int, hi as int);
    proof {
        if lo < hi {
            assert(t.first() == s@[lo as int]);
            assert(t.last() == s@[hi - 1]);
        }
        assert(spec_trim(t) == t);
        assert(spec_trim(s@) == t);
    }
    // sign
    let mut p: usize = lo;
    let mut neg = false;
    if lo < hi {
        let c = s.get_char(lo);
        if c == '-' {
            neg = true;
            p = lo + 1;
        } else if c == '+' {
            p = lo + 1;
        }
    }
    let ghost u = s@.subrange(p as int, hi as int);
    proof {
        if p > lo {
            assert(u =~= t.drop_first());
        } else {
            assert(u =~= t);
        }
    }
    // the decimal numeral between p and hi
    let (dots, dot_at) = scan_char_range(s, p, hi, '.');
    if dots == 0 {
        if p == hi {
            return None;
        }
        if !all_digits_range(s, p, hi) {
            return None;
        }
        match parse_u64_digits(s, p, hi) {
            None => {
                proof {
                    crate::text::lemma_digits_val_nonneg(u);
                }
                return None;
            },
            Some(v) => {
                if v > i64::MAX as u64 {
                    return None;
                }
                let val = v as i64;
                if neg {
                    return Some(-val);
                }
                return Some(val);
            },
        }
    } else if dots == 1 {
        let d = match dot_at {
            Some(d) => d,
            None => {
                proof {
                    lemma_first_ix_props(u, '.');
                    lemma_count_char_zero(u, '.');
                }
                return None;
            },
        };
        let ghost ip = u.take(d - p);
        let ghost fp = u.skip(d - p + 1);
        proof {
            assert(ip =~= s@.subrange(p as int, d as int));
            assert(fp =~= s@.subrange(d as int + 1, hi as int));
        }
        if p == d && d + 1 == hi {
            return None;
        }
        if !all_digits_range(s, p, d) {
            return None;
        }
        if !all_digits_range(s, d + 1, hi) {
            return None;
        }
        // rounding: the first fraction digit decides
        let round_up: u64 = if d + 1 < hi {
            let f = s.get_char(d + 1);
            proof {
                assert(fp.first() == s@[d + 1]);
            }
            if f >= '5' {
                1
            } else {
                0
            }
        } else {
            0
        };
        let ip_val: u64 = if p == d {
            0
        } else {
            match parse_u64_digits(s, p, d) {
                None => {
                    proof {
                        crate::text::lemma_digits_val_nonneg(ip);
                    }
                    return None;
                },
                Some(v) => v,
            }
        };
        if ip_val > i64::MAX as u64 {
            return None;
        }
        let v: u64 = ip_val + round_up;
        if v > i64::MAX as u64 {
            return None;
        }
        let val = v as i64;
        if neg {
            Some(-val)
        } else {
            Some(val)
        }
    } else {
        None
    }
}

/// The argument list of the duration probe: quiet output of the one
/// `format=duration` value for the given source file.
pub open spec fn spec_probe_args(src: Seq<char>) -> Seq<Seq<char>> {
    seq![
        "-v"@,
        "error"@,
        "-show_entries"@,
        "format=duration"@,
        "-of"@,
        "default=noprint_wrappers=1:nokey=1"@,
        src,
    ]
}

/// Builds the duration probe's argument list for a source file.
pub fn probe_args(src: &str) -> (r: Vec<String>)
    ensures
        r.deep_view() == spec_probe_args(src@),
{
    let mut r: Vec<String> = Vec::new();
    r.push(String::from_str("-v"));
    r.push(String::from_str("error"));
    r.push(String::from_str("-show_entries"));
    r.push(String::from_str("format=duration"));
    r.push(String::from_str("-of"));
    r.push(String::from_str("default=noprint_wrappers=1:nokey=1"));
    r.push(String::from_str(src));
    proof {
        assert(r.deep_view() =~= spec_probe_args(src@));
    }
    r
}

/// The argument list of the frame extraction: seek to the chosen offset,
/// take one frame of the source, scale it to the target width with the
/// height kept proportional, and overwrite the temporary output file.
pub open spec fn spec_extract_args(
    seek_secs: i64,
    src: Seq<char>,
    width: u32,
    tmp_out: Seq<char>,
) -> Seq<Seq<char>> {
    seq![
        "-ss"@,
        spec_i64_string(seek_secs as int),
        "-i"@,
        src,
        "-frames:v"@,
        "1"@,
        "-q:v"@,
        "2"@,
        "-vf"@,
        "scale="@ + spec_u64_string(width as nat) + ":-1"@,
        "-y"@,
        tmp_out,
    ]
}

/// Builds the frame extraction's argument list.
pub fn extract_args(seek_secs: i64, src: &str, width: u32, tmp_out: &str) -> (r: Vec<String>)
    ensures
        r.deep_view() == spec_extract_args(seek_secs, src@, width, tmp_out@),
{
    let mut r: Vec<String> = Vec::new();
    r.push(String::from_str("-ss"));
    r.push(i64_to_string(seek_secs));
    r.push(String::from_str("-i"));
    r.push(String::from_str(src));
    r.push(String::from_str("-frames:v"));
    r.push(String::from_str("1"));
    r.push(String::from_str("-q:v"));
    r.push(String::from_str("2"));
    r.push(String::from_str("-vf"));
    let mut scale = String::from_str("scale=");
    let ws = u64_to_string(width as u64);
    scale.append(ws.as_str());
    scale.append(":-1");
    r.push(scale);
    r.push(String::from_str("-y"));
    r.push(String::from_str(tmp_out));
    proof {
        assert(r.deep_view() =~= spec_extract_args(seek_secs, src@, width, tmp_out@));
    }
    r
}

/// The catalog write-back after a successful generation: the entry keeps
/// its identity and content fields, gains the derivative's URL path and
/// pixel dimensions, and keeps a freshly probed duration over a stored
/// one.
pub fn derivative_patch(
    entry: &MediaEntry,
    out_name: &str,
    width: u32,
    height: u32,
    probed_duration: Option<i64>,
) -> (r: NewMediaEntry)
    ensures
        r.name@ == entry.name@,
        r.path@ == entry.path@,
        r.parent_id == entry.parent_id,
        r.mime_type.deep_view() == entry.mime_type.deep_view(),
        r.size == entry.size,
        r.tags.deep_view() == entry.tags.deep_view(),
        r.thumb_path.deep_view() == Some(spec_thumb_url(out_name@)),
        r.width == Some(width as i64),
        r.height == Some(height as i64),
        r.duration_secs == if probed_duration is Some {
            probed_duration
        } else {
            entry.duration_secs
        },
{
    NewMediaEntry {
        name: entry.name.clone(),
        path: entry.path.clone(),
        parent_id: entry.parent_id,
        mime_type: clone_opt_string(&entry.mime_type),
        size: entry.size,
        tags: clone_opt_tags(&entry.tags),
        thumb_path: Some(thumb_url(out_name)),
        width: Some(width as i64),
        height: Some(height as i64),
        duration_secs: match probed_duration {
            Some(d) => Some(d),
            None => entry.duration_secs,
        },
    }
}

/// Sorts the result of the frame-extraction step into the failure
/// taxonomy: a process that could not start, a process that failed, a
/// frame that could not be decoded back, or the frame's dimensions.
pub fn video_extract_result(spawn_ok: bool, exit_ok: bool, decoded: Option<(u32, u32)>) -> (r:
    Result<(u32, u32), GenError>)
    ensures
        !spawn_ok ==> r == Result::<(u32, u32), GenError>::Err(GenError::TranscodeSpawnFailed),
        spawn_ok && !exit_ok ==> r == Result::<(u32, u32), GenError>::Err(
            GenError::TranscodeProcessFailed,
        ),
        spawn_ok && exit_ok && decoded is None ==> r == Result::<(u32, u32), GenError>::Err(
            GenError::IoError,
        ),
        spawn_ok && exit_ok && decoded is Some ==> r == Result::<(u32, u32), GenError>::Ok(
            decoded->0,
        ),
{
    if !spawn_ok {
        Err(GenError::TranscodeSpawnFailed)
    } else if !exit_ok {
        Err(GenError::TranscodeProcessFailed)
    } else {
        match decoded {
            None => Err(GenError::IoError),
            Some(dims) => Ok(dims),
        }
    }
}


/// The position of the last path separator in a name, or -1.
pub open spec fn spec_last_slash(s: Seq<char>) -> int
    decreases s.len(),
{
    if s.len() == 0 {
        -1
    } else if s.last() == '/' {
        s.len() - 1
    } else {
        spec_last_slash(s.drop_last())
    }
}

/// The final segment of a stored derivative path: what follows the last
/// separator, as a file name. An empty segment or an upward step is no
/// file name.
pub open spec fn spec_file_segment(s: Seq<char>) -> Option<Seq<char>> {
    let seg = s.skip(spec_last_slash(s) + 1);
    if seg.len() == 0 || seg == ".."@ {
        None
    } else {
        Some(seg)
    }
}

proof fn lemma_last_slash_skip_tail(s: Seq<char>, k: int)
    requires
        0 <= k <= s.len(),
        forall|j: int| k <= j < s.len() ==> #[trigger] s[j] != '/',
    ensures
        spec_last_slash(s) == spec_last_slash(s.take(k)),
    decreases s.len() - k,
{
    if k < s.len() {
        assert(s.take(s.len() as int) =~= s);
        assert(s.take(s.len() - 1) =~= s.drop_last());
        lemma_last_slash_skip_tail(s.drop_last(), k);
        assert(s.drop_last().take(k) =~= s.take(k));
    } else {
        assert(s.take(k) =~= s);
    }
}

/// Resolves the file name that a stored derivative path points at: the
/// segment after the last separator, refusing an empty one or an upward
/// step.
pub fn thumb_file_segment(stored: &str) -> (r: Option<String>)
    ensures
        r.deep_view() == spec_file_segment(stored@),
{
    let n = stored.unicode_len();
    let mut i: usize = n;
    let mut cut: usize = 0;
    let mut found = false;
    while i > 0 && !found
        invariant
            i <= n,
            n == stored@.len(),
            !found ==> forall|j: int| i <= j < n ==> #[trigger] stored@[j] != '/',
            found ==> 0 < cut <= n && stored@[cut - 1] == '/' && forall|j: int|
                cut <= j < n ==> #[trigger] stored@[j] != '/',
        decreases i + if found {
            0int
        } else {
            1int
        },
    {
        let c = stored.get_char(i - 1);
        if c == '/' {
            cut = i;
            found = true;
        } else {
            i = i - 1;
        }
    }
    proof {
        if found {
            lemma_last_slash_skip_tail(stored@, cut as int);
            assert(stored@.take(cut as int).last() == stored@[cut - 1]);
            assert(spec_last_slash(stored@.take(cut as int)) == cut - 1);
        } else {
            lemma_last_slash_skip_tail(stored@, 0);
            assert(stored@.take(0) =~= Seq::<char>::empty());
            assert(spec_last_slash(stored@) == -1);
        }
    }
    let start: usize = if found {
        cut
    } else {
        0
    };
    let ghost seg = stored@.skip(spec_last_slash(stored@) + 1);
    proof {
        assert(seg =~= stored@.subrange(start as int, n as int));
    }
    if start == n {
        return None;
    }
    let piece = stored.substring_char(start, n);
    if crate::text::str_eq(piece, "..") {
        return None;
    }
    Some(piece.to_owned())
}

/// The idempotent fast path as a law: whatever the entry's type and the
/// transcoder's availability, a target file that already exists is
/// served as it stands — no decode, no transcode, no rejection.
pub proof fn lemma_existing_target_short_circuits(
    mime: Option<Seq<char>>,
    transcode_enabled: bool,
)
    ensures
        spec_initial_decision(true, mime, transcode_enabled) == GenDecision::ServeExisting,
{
}

} // verus!
