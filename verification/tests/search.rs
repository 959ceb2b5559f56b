use core_lib::search::{fts_query, merge_hits, partition_feedback, HitQuality, HitRef};

#[test]
fn fts_query_keeps_alphanumeric_words() {
    assert_eq!(fts_query("Hello, world!  foo-bar ?? "), "Hello world foobar");
    assert_eq!(fts_query(""), "");
    assert_eq!(fts_query("  !!  ..  "), "");
    assert_eq!(fts_query("Привет мир2"), "Привет мир2");
    assert_eq!(fts_query("a\tb\nc"), "a b c");
}

#[test]
fn merge_keeps_first_occurrence() {
    let hits = merge_hits(&[1, 2, 3], &[3, 4, 1, 4]);
    assert_eq!(
        hits,
        vec![
            HitRef { from_fts: false, index: 0 },
            HitRef { from_fts: false, index: 1 },
            HitRef { from_fts: false, index: 2 },
            HitRef { from_fts: true, index: 1 },
        ]
    );
}

#[test]
fn merge_drops_repeats_within_a_list() {
    let hits = merge_hits(&[5, 5], &[]);
    assert_eq!(hits, vec![HitRef { from_fts: false, index: 0 }]);
    assert_eq!(merge_hits(&[], &[]), vec![]);
}

#[test]
fn feedback_splits_by_quality() {
    let (chosen, rejected) = partition_feedback(
        &[10, 11, 12, 13],
        &[HitQuality::High, HitQuality::Low, HitQuality::Unordered, HitQuality::High],
    );
    assert_eq!(chosen, vec![10, 13]);
    assert_eq!(rejected, vec![11]);
}

#[test]
fn fts_query_splits_on_unicode_white_space() {
    assert_eq!(fts_query("one\u{00A0}two\u{3000}three\u{2029}four"), "one two three four");
    assert_eq!(fts_query("x\u{200B}y"), "xy");
}
