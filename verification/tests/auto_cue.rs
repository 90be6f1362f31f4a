use radiodiodj::library::auto_cue::{next_start, trio, AutoCue, Span};

fn span(from: i64, to: i64, at_start: bool, at_end: bool) -> Option<Span> {
    Some(Span { from_ms: from, to_ms: to, starts_at_file_start: at_start, ends_at_file_end: at_end })
}

#[test]
fn a_silent_file_gets_no_markers() {
    assert_eq!(trio(None, true, 10_000, None), AutoCue::default());
}

#[test]
fn markers_at_the_file_edges_are_stored_as_none() {
    let c = trio(span(0, 10_000, true, true), false, 10_000, None);
    assert_eq!(c, AutoCue { cue_in_ms: None, cue_out_ms: None, next_start_ms: None });
}

#[test]
fn a_cold_ending_hands_over_half_a_second_before_cue_out() {
    let c = trio(span(1_000, 60_000, false, false), true, 61_000, None);
    assert_eq!(c.cue_in_ms, Some(1_000));
    assert_eq!(c.cue_out_ms, Some(60_000));
    assert_eq!(c.next_start_ms, Some(59_500));
}

#[test]
fn a_fade_hands_over_where_the_level_drops() {
    assert_eq!(next_start(None, Some(60_000), 61_000, Some(57_000)), Some(57_000));
}

#[test]
fn a_long_fade_is_held_to_the_six_second_lead() {
    assert_eq!(next_start(None, Some(60_000), 61_000, Some(30_000)), Some(54_000));
}

#[test]
fn next_start_never_comes_within_half_a_second_of_cue_in() {
    assert_eq!(next_start(Some(1_000), Some(2_000), 3_000, Some(1_100)), Some(1_500));
}

#[test]
fn material_too_short_gets_no_next_start() {
    assert_eq!(next_start(Some(1_000), Some(1_500), 3_000, None), None);
}

#[test]
fn station_material_gets_no_next_start() {
    let c = trio(span(1_000, 60_000, false, false), false, 61_000, None);
    assert_eq!(c.next_start_ms, None);
}
