use audio_profile_toggle::text::format_i32;
use audio_profile_toggle::wpctl::parse_node_name_from_inspect;
use audio_profile_toggle::wpctl::parse_wpctl_status_for_devices;
use audio_profile_toggle::wpctl::resolve_id_by_node_name_in_status;

fn pairs(v: &[(i32, &str)]) -> Vec<(i32, String)> {
    v.iter().map(|(id, s)| (*id, s.to_string())).collect()
}

#[test]
fn status_sections_counts_and_order() {
    let text = "\
Audio
 ├─ Devices:
 │      40. Built-in Audio [alsa]
 │
 ├─ Sinks:
 │  *   50. Built-in Audio Analog Stereo [vol: 0.40]
 │      51. USB Headset [vol: 1.00]
 │
 ├─ Sources:
 │  *   60. Built-in Audio Analog Stereo [vol: 1.00]
 │      61. USB Microphone [vol: 0.80]
 │
 └─ Streams:
 │      99. Music Player
";
    let (sinks, sources) = parse_wpctl_status_for_devices(text);
    assert_eq!(
        sinks,
        pairs(&[(50, "Built-in Audio Analog Stereo"), (51, "USB Headset")])
    );
    assert_eq!(
        sources,
        pairs(&[(60, "Built-in Audio Analog Stereo"), (61, "USB Microphone")])
    );
}

#[test]
fn row_after_unrelated_branch_is_excluded() {
    let text = "\
 ├─ Sinks:
 │      50. Speakers [vol: 1.00]
 ├─ Streams:
 │      99. Music Player
";
    let (sinks, sources) = parse_wpctl_status_for_devices(text);
    assert_eq!(sinks, pairs(&[(50, "Speakers")]));
    assert_eq!(sources, Vec::<(i32, String)>::new());
}

#[test]
fn volume_annotation_is_stripped_from_label() {
    let text = " ├─ Sinks:\n50. Built-in Audio [vol: 0.80]\n";
    let (sinks, _) = parse_wpctl_status_for_devices(text);
    assert_eq!(sinks, pairs(&[(50, "Built-in Audio")]));
}

#[test]
fn selection_marker_and_bars_are_removed() {
    let text = " └─ Sources:\n │  *   61. USB Microphone [vol: 0.80]\n";
    let (_, sources) = parse_wpctl_status_for_devices(text);
    assert_eq!(sources, pairs(&[(61, "USB Microphone")]));
}

#[test]
fn rows_outside_any_section_are_ignored() {
    let text = "50. Orphan Device [vol: 1.00]\n ├─ Sinks:\n51. Real Sink\n";
    let (sinks, sources) = parse_wpctl_status_for_devices(text);
    assert_eq!(sinks, pairs(&[(51, "Real Sink")]));
    assert!(sources.is_empty());
}

#[test]
fn malformed_rows_are_skipped_not_fatal() {
    let text = "\
 ├─ Sinks:
no dot here
x50. not a number
99999999999. identifier overflows
-5. negative is fine
+7. plus sign accepted
";
    let (sinks, _) = parse_wpctl_status_for_devices(text);
    assert_eq!(sinks, pairs(&[(-5, "negative is fine"), (7, "plus sign accepted")]));
}

#[test]
fn duplicate_rows_are_preserved() {
    let text = " ├─ Sinks:\n50. Same\n50. Same\n";
    let (sinks, _) = parse_wpctl_status_for_devices(text);
    assert_eq!(sinks, pairs(&[(50, "Same"), (50, "Same")]));
}

#[test]
fn header_glyph_variants_both_open_sections() {
    let text = " └─ Sinks:\n50. Corner Glyph\n";
    let (sinks, _) = parse_wpctl_status_for_devices(text);
    assert_eq!(sinks, pairs(&[(50, "Corner Glyph")]));
}

#[test]
fn empty_text_yields_empty_lists() {
    let (sinks, sources) = parse_wpctl_status_for_devices("");
    assert!(sinks.is_empty());
    assert!(sources.is_empty());
}

#[test]
fn inspect_yields_quoted_node_name() {
    let text = "\
 id 104, type PipeWire:Interface:Node
    node.description = \"C-Media USB Audio\"
    node.name = \"alsa_input.usb-Foo\"
";
    assert_eq!(
        parse_node_name_from_inspect(text),
        Some("alsa_input.usb-Foo".to_string())
    );
}

#[test]
fn inspect_accepts_unquoted_value() {
    let text = "    node.name = alsa_output.pci-0000\n";
    assert_eq!(
        parse_node_name_from_inspect(text),
        Some("alsa_output.pci-0000".to_string())
    );
}

#[test]
fn inspect_skips_lines_without_value_and_continues() {
    let text = "\
node.name
node.name = \"\"
node.name = \"real.name\"
";
    assert_eq!(parse_node_name_from_inspect(text), Some("real.name".to_string()));
}

#[test]
fn inspect_without_key_yields_nothing() {
    let text = "id 104\n    node.description = \"Something\"\n";
    assert_eq!(parse_node_name_from_inspect(text), None);
}

#[test]
fn node_name_row_resolves_to_identifier() {
    let text = "\
 ├─ Sinks:
 │  *   104. alsa_input.usb-0d8c_C-Media_USB_Audio_Device-00.mono-fallback [vol: 1.00]
 │      105. alsa_output.pci-0000_00_1f.3.analog-stereo [vol: 0.40]
";
    assert_eq!(
        resolve_id_by_node_name_in_status(
            text,
            "alsa_output.pci-0000_00_1f.3.analog-stereo"
        ),
        Some(105)
    );
    assert_eq!(resolve_id_by_node_name_in_status(text, "missing.node"), None);
}

#[test]
fn node_name_row_outside_any_section_is_not_a_candidate() {
    let text = "\
 8. wanted.node before any header [vol: 0.5]
 ├─ Sinks:
 │      9. wanted.node [vol: 0.5]
";
    assert_eq!(resolve_id_by_node_name_in_status(text, "wanted.node"), Some(9));
}

#[test]
fn node_name_lookup_without_headers_finds_nothing() {
    let text = "whatever line\n 9. first.node extra-text [vol: 0.5]\n";
    assert_eq!(resolve_id_by_node_name_in_status(text, "first.node"), None);
}

#[test]
fn node_name_lookup_section_resets_at_unrelated_branch() {
    let text = "\
 ├─ Sinks:
 │      9. other.node [vol: 0.5]
 ├─ Streams:
 │      10. wanted.node [vol: 0.5]
";
    assert_eq!(resolve_id_by_node_name_in_status(text, "wanted.node"), None);
}

#[test]
fn identifier_text_formats_exact_decimals() {
    assert_eq!(format_i32(0), "0");
    assert_eq!(format_i32(104), "104");
    assert_eq!(format_i32(-5), "-5");
    assert_eq!(format_i32(i32::MAX), "2147483647");
    assert_eq!(format_i32(i32::MIN), "-2147483648");
}
