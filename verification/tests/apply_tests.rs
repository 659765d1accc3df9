use audio_profile_toggle::apply::plan_profile_resolving_ids;
use audio_profile_toggle::apply::plan_profile_using_node_names;
use audio_profile_toggle::apply::VolumeTarget;
use audio_profile_toggle::apply::WpctlCommand;
use audio_profile_toggle::ProfileConfig;

fn pairs(v: &[(i32, &str)]) -> Vec<(i32, String)> {
    v.iter().map(|(id, s)| (*id, s.to_string())).collect()
}

fn profile() -> ProfileConfig {
    ProfileConfig {
        sink_id: 50,
        sink_label: "Speakers".to_string(),
        sink_node_name: None,
        source_id: 60,
        source_label: "USB Mic".to_string(),
        source_node_name: None,
        sink_volume: "0.5".to_string(),
        source_volume: "0.8".to_string(),
    }
}

#[test]
fn resolving_plan_orders_defaults_delay_then_volumes() {
    let p = profile();
    let sinks = pairs(&[(50, "Speakers")]);
    let sources = pairs(&[(60, "USB Mic")]);
    let plan = plan_profile_resolving_ids(&p, &sinks, &sources).unwrap();
    assert_eq!(
        plan,
        vec![
            WpctlCommand::SetDefault(50),
            WpctlCommand::SetDefault(60),
            WpctlCommand::Wait(1000),
            WpctlCommand::SetVolume(VolumeTarget::Device(50), "0.5".to_string()),
            WpctlCommand::SetVolume(VolumeTarget::Device(60), "0.8".to_string()),
        ]
    );
}

#[test]
fn resolving_plan_uses_resolved_identifiers_not_saved_ones() {
    let p = profile();
    // Identifiers changed since the profile was saved; labels still match.
    let sinks = pairs(&[(70, "Speakers")]);
    let sources = pairs(&[(71, "USB Mic")]);
    let plan = plan_profile_resolving_ids(&p, &sinks, &sources).unwrap();
    assert_eq!(plan[0], WpctlCommand::SetDefault(70));
    assert_eq!(plan[1], WpctlCommand::SetDefault(71));
    assert_eq!(
        plan[3],
        WpctlCommand::SetVolume(VolumeTarget::Device(70), "0.5".to_string())
    );
}

#[test]
fn unresolved_source_plans_no_command_and_names_source_label() {
    let p = profile();
    let sinks = pairs(&[(50, "Speakers")]);
    let sources = pairs(&[(61, "Webcam")]);
    let r = plan_profile_resolving_ids(&p, &sinks, &sources);
    assert_eq!(r, Err("Could not resolve source 'USB Mic'".to_string()));
}

#[test]
fn unresolved_sink_is_reported_first() {
    let p = profile();
    let sinks = pairs(&[(51, "Other")]);
    let sources = pairs(&[(61, "Webcam")]);
    let r = plan_profile_resolving_ids(&p, &sinks, &sources);
    assert_eq!(r, Err("Could not resolve sink 'Speakers'".to_string()));
}

#[test]
fn node_name_plan_falls_back_to_saved_identifiers() {
    let p = profile();
    let plan = plan_profile_using_node_names(
        &p,
        &Ok(String::new()),
        &Ok(String::new()),
    )
    .unwrap();
    assert_eq!(
        plan,
        vec![
            WpctlCommand::SetDefault(50),
            WpctlCommand::SetDefault(60),
            WpctlCommand::SetVolume(VolumeTarget::DefaultSink, "0.5".to_string()),
            WpctlCommand::SetVolume(VolumeTarget::DefaultSource, "0.8".to_string()),
        ]
    );
}

#[test]
fn node_name_plan_resolves_stored_names() {
    let mut p = profile();
    p.sink_node_name = Some("alsa_output.pci-1".to_string());
    p.source_node_name = Some("alsa_input.usb-2".to_string());
    let sink_status = Ok(" ├─ Sinks:\n 104. alsa_output.pci-1 [vol: 1.00]\n".to_string());
    let source_status = Ok(" ├─ Sources:\n 105. alsa_input.usb-2 [vol: 1.00]\n".to_string());
    let plan = plan_profile_using_node_names(&p, &sink_status, &source_status).unwrap();
    assert_eq!(plan[0], WpctlCommand::SetDefault(104));
    assert_eq!(plan[1], WpctlCommand::SetDefault(105));
}

#[test]
fn node_name_plan_fails_when_sink_name_missing() {
    let mut p = profile();
    p.sink_node_name = Some("gone.node".to_string());
    let r = plan_profile_using_node_names(
        &p,
        &Ok(" ├─ Sinks:\n 104. other.node [vol: 1.00]\n".to_string()),
        &Ok(String::new()),
    );
    assert_eq!(r, Err("Sink node not found: gone.node".to_string()));
}

#[test]
fn node_name_plan_fails_when_source_name_missing() {
    let mut p = profile();
    p.source_node_name = Some("gone.node".to_string());
    let r = plan_profile_using_node_names(
        &p,
        &Ok(String::new()),
        &Ok(" ├─ Sources:\n 104. other.node [vol: 1.00]\n".to_string()),
    );
    assert_eq!(r, Err("Source node not found: gone.node".to_string()));
}

#[test]
fn node_name_plan_passes_transport_error_through() {
    let mut p = profile();
    p.sink_node_name = Some("any.node".to_string());
    let r = plan_profile_using_node_names(
        &p,
        &Err("status query failed".to_string()),
        &Ok(String::new()),
    );
    assert_eq!(r, Err("status query failed".to_string()));
}
