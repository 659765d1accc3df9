use audio_profile_toggle::AppConfig;
use audio_profile_toggle::ProfileConfig;
use audio_profile_toggle::ProfileTag;

#[test]
fn fresh_profile_has_empty_descriptors_and_full_volume() {
    let p = ProfileConfig::default();
    assert_eq!(p.sink_id, 0);
    assert_eq!(p.sink_label, "");
    assert_eq!(p.sink_node_name, None);
    assert_eq!(p.source_id, 0);
    assert_eq!(p.source_label, "");
    assert_eq!(p.source_node_name, None);
    assert_eq!(p.sink_volume, "1");
    assert_eq!(p.source_volume, "1");
}

#[test]
fn first_run_state_starts_on_profile_a_with_fresh_profiles() {
    let c = AppConfig::default();
    assert_eq!(c.current_profile, ProfileTag::A);
    for p in [&c.profile_a, &c.profile_b] {
        assert_eq!(p.sink_id, 0);
        assert_eq!(p.sink_label, "");
        assert_eq!(p.sink_node_name, None);
        assert_eq!(p.source_id, 0);
        assert_eq!(p.source_label, "");
        assert_eq!(p.source_node_name, None);
        assert_eq!(p.sink_volume, "1");
        assert_eq!(p.source_volume, "1");
    }
}

#[test]
fn toggle_switches_between_the_two_profiles() {
    let mut c = AppConfig::default();
    assert_eq!(c.toggle_target(), ProfileTag::B);
    c.toggle();
    assert_eq!(c.current_profile, ProfileTag::B);
    assert_eq!(c.toggle_target(), ProfileTag::A);
    c.toggle();
    assert_eq!(c.current_profile, ProfileTag::A);
}

#[test]
fn profile_for_returns_the_named_profile() {
    let mut c = AppConfig::default();
    c.profile_a.sink_id = 11;
    c.profile_b.sink_id = 22;
    assert_eq!(c.profile_for(ProfileTag::A).sink_id, 11);
    assert_eq!(c.profile_for(ProfileTag::B).sink_id, 22);
}
