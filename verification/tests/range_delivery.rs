//! Byte-range resolution against a total size, and the partial-content
//! framing values.

use media_core::range::{content_range_value, resolve_range, span_length, RangeResolution};

#[test]
fn explicit_span_is_served() {
    let r = resolve_range(Some("bytes=0-99"), 1000);
    assert_eq!(r, RangeResolution::Partial { start: 0, end: 99 });
    assert_eq!(span_length(0, 99), 100);
    assert_eq!(content_range_value(0, 99, 1000), "bytes 0-99/1000");
}

#[test]
fn open_ended_span_runs_to_the_last_byte() {
    let r = resolve_range(Some("bytes=900-"), 1000);
    assert_eq!(r, RangeResolution::Partial { start: 900, end: 999 });
}

#[test]
fn suffix_span_counts_back_from_the_end() {
    let r = resolve_range(Some("bytes=-100"), 1000);
    assert_eq!(r, RangeResolution::Partial { start: 900, end: 999 });
}

#[test]
fn span_past_the_end_is_unsatisfiable() {
    let r = resolve_range(Some("bytes=1000-1001"), 1000);
    assert_eq!(r, RangeResolution::Unsatisfiable);
}

#[test]
fn absent_header_serves_the_whole_file() {
    let r = resolve_range(None, 1000);
    assert_eq!(r, RangeResolution::Full);
}

#[test]
fn other_units_are_treated_as_absent() {
    let r = resolve_range(Some("items=0-10"), 1000);
    assert_eq!(r, RangeResolution::Full);
}

#[test]
fn non_numeric_fields_are_unsatisfiable() {
    assert_eq!(
        resolve_range(Some("bytes=abc-5"), 1000),
        RangeResolution::Unsatisfiable
    );
    assert_eq!(
        resolve_range(Some("bytes=1x-2"), 1000),
        RangeResolution::Unsatisfiable
    );
}

#[test]
fn empty_and_doubled_fields_are_unsatisfiable() {
    assert_eq!(
        resolve_range(Some("bytes=-"), 1000),
        RangeResolution::Unsatisfiable
    );
    assert_eq!(
        resolve_range(Some("bytes="), 1000),
        RangeResolution::Unsatisfiable
    );
    assert_eq!(
        resolve_range(Some("bytes=1-2-3"), 1000),
        RangeResolution::Unsatisfiable
    );
}

#[test]
fn suffix_boundaries() {
    // a zero-length suffix is refused, as is one the size of the file
    assert_eq!(
        resolve_range(Some("bytes=-0"), 1000),
        RangeResolution::Unsatisfiable
    );
    assert_eq!(
        resolve_range(Some("bytes=-1000"), 1000),
        RangeResolution::Unsatisfiable
    );
    assert_eq!(
        resolve_range(Some("bytes=-999"), 1000),
        RangeResolution::Partial { start: 1, end: 999 }
    );
}

#[test]
fn single_byte_and_reversed_spans() {
    assert_eq!(
        resolve_range(Some("bytes=0-0"), 1000),
        RangeResolution::Partial { start: 0, end: 0 }
    );
    assert_eq!(
        resolve_range(Some("bytes=5-4"), 1000),
        RangeResolution::Unsatisfiable
    );
}

#[test]
fn values_beyond_the_machine_range_are_unsatisfiable() {
    assert_eq!(
        resolve_range(Some("bytes=99999999999999999999999-"), 1000),
        RangeResolution::Unsatisfiable
    );
}

#[test]
fn empty_file_serves_full_without_a_range() {
    assert_eq!(resolve_range(None, 0), RangeResolution::Full);
    assert_eq!(
        resolve_range(Some("bytes=0-0"), 0),
        RangeResolution::Unsatisfiable
    );
}
