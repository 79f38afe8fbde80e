use audio_streamer::audio::{
    derive_default_monitor, discover_from_outputs, get_best_source_index,
    parse_pactl_sources_output, select_source_index, source_score, AudioSource,
};

fn src(name: &str, desc: &str, monitor: bool, running: bool, default: bool) -> AudioSource {
    AudioSource {
        name: name.to_string(),
        description: desc.to_string(),
        is_monitor: monitor,
        is_running: running,
        is_default: default,
    }
}

#[test]
fn parse_three_blocks() {
    let listing = "Source #0\n\tState: RUNNING\n\tName: alsa_input.mic\n\tDescription: Internal Microphone\nSource #1\n\tState: IDLE\n\tName: alsa_output.speakers.monitor\n\tDescription: Monitor of Speakers\nSource #2\n\tState: RUNNING\n\tName: alsa_output.hdmi.monitor\n\tDescription: Monitor of HDMI\n";
    let records = parse_pactl_sources_output(listing);
    assert_eq!(records.len(), 3);
    assert_eq!(records[0].0, "alsa_input.mic");
    assert_eq!(records[0].1, "Internal Microphone");
    assert_eq!(records[0].2, "RUNNING");
    assert_eq!(records[1].0, "alsa_output.speakers.monitor");
    assert_eq!(records[1].2, "IDLE");
    assert_eq!(records[2].0, "alsa_output.hdmi.monitor");
    assert_eq!(records[2].2, "RUNNING");
}

#[test]
fn parse_realistic_listing_with_property_sections() {
    let lines = [
        "Source #0",
        "\tState: SUSPENDED",
        "\tName: alsa_output.pci-0000_00_1f.3.analog-stereo.monitor",
        "\tDescription: Monitor of Built-in Audio Analog Stereo",
        "\tDriver: module-alsa-card.c",
        "\tSample Specification: s16le 2ch 44100Hz",
        "\tMonitor of Sink: alsa_output.pci-0000_00_1f.3.analog-stereo",
        "\tProperties:",
        "\t\tdevice.class = \"monitor\"",
        "\t\talsa.card_name = \"Built-in Audio\"",
        "Source #1",
        "\tState: RUNNING",
        "\tName: alsa_input.usb-mic.mono-fallback",
        "\tDescription: USB Microphone",
        "\tProperties:",
        "\t\tdevice.bus = \"usb\"",
        "",
    ];
    let listing = lines.join("\n");
    let records = parse_pactl_sources_output(&listing);
    assert_eq!(records.len(), 2);
    assert_eq!(records[0].0, "alsa_output.pci-0000_00_1f.3.analog-stereo.monitor");
    assert_eq!(records[0].1, "Monitor of Built-in Audio Analog Stereo");
    assert_eq!(records[0].2, "SUSPENDED");
    assert_eq!(records[1].0, "alsa_input.usb-mic.mono-fallback");
    assert_eq!(records[1].2, "RUNNING");
}

#[test]
fn parse_drops_block_missing_a_field() {
    let listing = "Source #0\n\tName: a\n\tDescription: left out state\nSource #1\n\tState: IDLE\n\tName: b\n\tDescription: whole\n";
    let records = parse_pactl_sources_output(listing);
    assert_eq!(records.len(), 1);
    assert_eq!(records[0].0, "b");
}

#[test]
fn parse_keeps_fields_inside_their_block() {
    // The description of the second block must not be attributed to the
    // first block, which has none of its own.
    let listing = "Source #0\n\tName: a\n\tState: IDLE\nSource #1\n\tName: b\n\tDescription: only here\n\tState: IDLE\n";
    let records = parse_pactl_sources_output(listing);
    assert_eq!(records.len(), 1);
    assert_eq!(records[0].0, "b");
    assert_eq!(records[0].1, "only here");
}

#[test]
fn parse_empty_output_gives_no_records() {
    assert_eq!(parse_pactl_sources_output("").len(), 0);
    assert_eq!(parse_pactl_sources_output("   \n  ").len(), 0);
}

#[test]
fn parse_last_occurrence_of_a_field_wins() {
    let listing = "Source #0\n\tName: first\n\tName: second\n\tDescription: d\n\tState: IDLE\n";
    let records = parse_pactl_sources_output(listing);
    assert_eq!(records.len(), 1);
    assert_eq!(records[0].0, "second");
}

#[test]
fn derive_monitor_appends_suffix_to_trimmed_sink() {
    assert_eq!(derive_default_monitor("alsa_output.speakers\n"), "alsa_output.speakers.monitor");
    assert_eq!(derive_default_monitor("sink"), "sink.monitor");
}

#[test]
fn state_other_than_active_token_is_not_running() {
    for state in ["IDLE", "SUSPENDED", "running", "RUNNING2"] {
        let listing = format!("Source #0\n\tName: n\n\tDescription: d\n\tState: {}\n", state);
        let sources = discover_from_outputs(&listing, None);
        assert_eq!(sources.len(), 1);
        assert!(!sources[0].is_running);
    }
    let listing = "Source #0\n\tName: n\n\tDescription: d\n\tState: RUNNING\n";
    let sources = discover_from_outputs(listing, None);
    assert!(sources[0].is_running);
}

#[test]
fn end_to_end_ranking_places_running_monitor_first() {
    let listing = "Source #0\n\tState: RUNNING\n\tName: alsa_input.mic\n\tDescription: Internal Microphone\nSource #1\n\tState: IDLE\n\tName: alsa_output.speakers.monitor\n\tDescription: Monitor of Speakers\nSource #2\n\tState: RUNNING\n\tName: alsa_output.hdmi.monitor\n\tDescription: Monitor of HDMI\n";
    let default_sink = "alsa_output.speakers".to_string();
    let sources = discover_from_outputs(listing, Some(&default_sink));
    assert_eq!(sources.len(), 3);
    // The running non-default monitor outranks everything.
    assert_eq!(sources[0].name, "alsa_output.hdmi.monitor");
    assert!(sources[0].is_running && sources[0].is_monitor && !sources[0].is_default);
    assert_eq!(source_score(&sources[0]), 5);
    // The running plain microphone comes second.
    assert_eq!(sources[1].name, "alsa_input.mic");
    assert_eq!(source_score(&sources[1]), 4);
    // The idle default monitor comes last.
    assert_eq!(sources[2].name, "alsa_output.speakers.monitor");
    assert!(sources[2].is_default && sources[2].is_monitor && !sources[2].is_running);
    // At most one element is marked as the system default.
    let defaults = sources.iter().filter(|s| s.is_default).count();
    assert_eq!(defaults, 1);
}

#[test]
fn equal_scores_are_ordered_by_label() {
    let listing = "Source #0\n\tName: x\n\tDescription: Zeta Device\n\tState: IDLE\nSource #1\n\tName: y\n\tDescription: Alpha Device\n\tState: IDLE\n";
    let sources = discover_from_outputs(listing, None);
    assert_eq!(sources.len(), 2);
    assert_eq!(sources[0].description, "Alpha Device");
    assert_eq!(sources[1].description, "Zeta Device");
}

#[test]
fn fully_tied_endpoints_keep_listing_order() {
    let listing = "Source #0\n\tName: first.dev\n\tDescription: Twin\n\tState: IDLE\nSource #1\n\tName: second.dev\n\tDescription: Twin\n\tState: IDLE\n";
    let sources = discover_from_outputs(listing, None);
    assert_eq!(sources.len(), 2);
    assert_eq!(sources[0].name, "first.dev");
    assert_eq!(sources[1].name, "second.dev");
}

#[test]
fn best_source_index_is_zero() {
    let sources = vec![src("a", "a", true, true, true), src("b", "b", false, false, false)];
    assert_eq!(get_best_source_index(&sources), 0);
}

#[test]
fn preferred_source_is_selected_when_present() {
    let sources = vec![
        src("alsa.a", "A", true, true, false),
        src("alsa.b", "B", false, false, false),
        src("alsa.c", "C", false, false, false),
    ];
    let preferred = "alsa.b".to_string();
    assert_eq!(select_source_index(&sources, Some(&preferred)), 1);
    let absent = "alsa.z".to_string();
    assert_eq!(select_source_index(&sources, Some(&absent)), 0);
    assert_eq!(select_source_index(&sources, None), 0);
}
