use voice_core::transcript::{
    assemble, finish, scrub, EmbeddedError, EmbeddedRun, DECODE_THREADS, GREEDY_BEST_OF,
};

fn some(s: &str) -> Option<String> {
    Some(s.to_string())
}

#[test]
fn a_lone_blank_audio_marker_leaves_nothing() {
    assert_eq!(scrub("[BLANK_AUDIO]"), "");
    assert_eq!(assemble(&vec![some("[BLANK_AUDIO]")]), "");
}

#[test]
fn a_marker_goes_and_its_surroundings_stay() {
    assert_eq!(scrub("Hello [MUSIC] world"), "Hello  world");
    assert_eq!(assemble(&vec![some("Hello [MUSIC] world")]), "Hello  world");
}

#[test]
fn every_marker_is_removed_everywhere() {
    assert_eq!(
        scrub("[silence]a(music)b[MUSIC]c(silence)d[BLANK_AUDIO]e[silence]"),
        "abcde"
    );
    assert_eq!(scrub("[MUSIC][MUSIC] x [MUSIC]"), "x");
}

#[test]
fn markers_are_matched_exactly_as_written() {
    assert_eq!(scrub("[blank_audio] [Silence] (MUSIC) [music]"), "[blank_audio] [Silence] (MUSIC) [music]");
    assert_eq!(scrub("[MUSIC"), "[MUSIC");
}

#[test]
fn removal_runs_marker_by_marker_in_order() {
    // Taking out "(music)" first joins the halves of "[MUSIC]".
    assert_eq!(scrub("a[MUS(music)IC]b"), "ab");
    // "[BLANK_AUDIO]" has been dealt with before "[silence]" goes.
    assert_eq!(scrub("a[BLANK_[silence]AUDIO]b"), "a[BLANK_AUDIO]b");
}

#[test]
fn white_space_is_trimmed_before_and_after() {
    assert_eq!(scrub("  \t hello there \n"), "hello there");
    assert_eq!(scrub(" [MUSIC] hi [silence] "), "hi");
    assert_eq!(scrub("\u{3000}hi\u{a0}"), "hi");
    assert_eq!(scrub(""), "");
    assert_eq!(scrub("   "), "");
}

#[test]
fn segments_are_joined_in_order_and_failed_ones_are_empty() {
    let segments = vec![some(" Hello"), None, some(","), some(" world. "), None];
    assert_eq!(assemble(&segments), "Hello, world.");
    assert_eq!(assemble(&vec![]), "");
    assert_eq!(assemble(&vec![None, None]), "");
}

#[test]
fn a_marker_split_over_segments_is_still_removed() {
    assert_eq!(assemble(&vec![some("one [MU"), some("SIC] two")]), "one  two");
}

#[test]
fn a_finished_run_gives_the_cleaned_text() {
    let run = EmbeddedRun::Segments { segments: vec![some(" a"), some(" [silence] b ")] };
    assert_eq!(finish(run).unwrap(), "a  b");
}

#[test]
fn a_failed_stage_gives_its_error_and_no_text() {
    match finish(EmbeddedRun::SessionRefused { detail: "no memory".to_string() }) {
        Err(e) => {
            assert!(matches!(e, EmbeddedError::Session { .. }));
            assert_eq!(e.message(), "Failed to create Whisper state: no memory");
        }
        Ok(_) => panic!("text from a refused session"),
    }
    match finish(EmbeddedRun::DecodeFailed { detail: "bad input".to_string() }) {
        Err(e) => {
            assert!(matches!(e, EmbeddedError::Decode { .. }));
            assert_eq!(e.message(), "Whisper error: bad input");
        }
        Ok(_) => panic!("text from a failed decoding"),
    }
    match finish(EmbeddedRun::SegmentsUnknown { detail: "gone".to_string() }) {
        Err(e) => {
            assert!(matches!(e, EmbeddedError::Segments { .. }));
            assert_eq!(e.message(), "Error getting segments: gone");
        }
        Ok(_) => panic!("text without segments"),
    }
}

#[test]
fn decoding_parameters() {
    assert_eq!(DECODE_THREADS, 4);
    assert_eq!(GREEDY_BEST_OF, 1);
}
