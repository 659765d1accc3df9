use audio_profile_toggle::resolve::resolve_id;

fn pairs(v: &[(i32, &str)]) -> Vec<(i32, String)> {
    v.iter().map(|(id, s)| (*id, s.to_string())).collect()
}

#[test]
fn identifier_takes_precedence_over_labels() {
    let live = pairs(&[(50, "Speakers"), (51, "Headset")]);
    assert_eq!(resolve_id(51, "Nonexistent", &live), Some(51));
}

#[test]
fn exact_label_match_when_identifier_absent() {
    let live = pairs(&[(50, "Speakers"), (51, "Headset")]);
    assert_eq!(resolve_id(99, "Headset", &live), Some(51));
}

#[test]
fn case_insensitive_substring_fallback() {
    let live = pairs(&[(50, "Built-in Audio Analog Stereo Mono")]);
    assert_eq!(resolve_id(99, "Analog Stereo", &live), Some(50));
}

#[test]
fn substring_fallback_crosses_case_both_ways() {
    let live = pairs(&[(50, "Built-in ANALOG STEREO")]);
    assert_eq!(resolve_id(99, "analog stereo", &live), Some(50));
}

#[test]
fn no_match_reports_not_found() {
    let live = pairs(&[(50, "Speakers")]);
    assert_eq!(resolve_id(99, "USB Mic", &live), None);
}

#[test]
fn first_exact_match_wins_in_list_order() {
    let live = pairs(&[(50, "Headset"), (51, "Headset")]);
    assert_eq!(resolve_id(99, "Headset", &live), Some(50));
}

#[test]
fn first_substring_match_wins_in_list_order() {
    let live = pairs(&[(50, "USB Headset Stereo"), (51, "Headset")]);
    assert_eq!(resolve_id(99, "headset", &live), Some(50));
}

#[test]
fn empty_live_list_never_resolves() {
    let live: Vec<(i32, String)> = Vec::new();
    assert_eq!(resolve_id(0, "", &live), None);
}
