use audio_streamer::config::Config;
use audio_streamer::text::{parse_u16, u64_to_string};

fn configured() -> Config {
    let mut c = Config::default();
    c.target_ip = "192.168.1.5".to_string();
    c
}

#[test]
fn default_config_values() {
    let c = Config::default();
    assert_eq!(c.target_ip, "");
    assert_eq!(c.target_port, 1234);
    assert_eq!(c.audio_codec, "aac");
    assert_eq!(c.bitrate, "192k");
    assert_eq!(c.sample_rate, 48000);
    assert_eq!(c.channels, 2);
    assert_eq!(c.buffer_size, 1316);
    assert!(c.low_latency);
    assert!(c.preferred_source.is_none());
}

#[test]
fn ip_configured_rejects_empty_and_unspecified() {
    let mut c = Config::default();
    assert!(!c.is_ip_configured());
    c.target_ip = "0.0.0.0".to_string();
    assert!(!c.is_ip_configured());
    c.target_ip = "10.0.0.2".to_string();
    assert!(c.is_ip_configured());
}

#[test]
fn command_with_low_latency_holds_all_three_flag_pairs() {
    let c = configured();
    let cmd = c.build_ffmpeg_command("alsa_output.hdmi.monitor");
    let expected = vec![
        "-f",
        "pulse",
        "-i",
        "alsa_output.hdmi.monitor",
        "-ac",
        "2",
        "-ar",
        "48000",
        "-c:a",
        "aac",
        "-b:a",
        "192k",
        "-flags",
        "+low_delay",
        "-fflags",
        "+nobuffer",
        "-flush_packets",
        "1",
        "-f",
        "mpegts",
        "-muxdelay",
        "0",
        "-muxpreload",
        "0",
        "udp://192.168.1.5:1234?pkt_size=1316",
    ];
    assert_eq!(cmd, expected);
}

#[test]
fn command_without_low_latency_holds_no_flag_pair() {
    let mut c = configured();
    c.low_latency = false;
    let cmd = c.build_ffmpeg_command("src");
    for flag in ["-flags", "+low_delay", "-fflags", "+nobuffer", "-flush_packets"] {
        assert!(!cmd.iter().any(|a| a == flag));
    }
    assert_eq!(cmd.len(), 19);
}

#[test]
fn destination_embeds_packet_size_exactly_once() {
    let mut c = configured();
    c.target_port = 9000;
    c.buffer_size = 512;
    let cmd = c.build_ffmpeg_command("src");
    let dest = cmd.last().unwrap();
    assert_eq!(dest, "udp://192.168.1.5:9000?pkt_size=512");
    assert_eq!(dest.matches("?pkt_size=").count(), 1);
    assert_eq!(dest.matches('?').count(), 1);
}

#[test]
fn test_tone_command_is_fixed_and_targets_destination() {
    let c = configured();
    let cmd = c.build_test_tone_command();
    let expected = vec![
        "-f",
        "lavfi",
        "-i",
        "sine=frequency=440:duration=5",
        "-c:a",
        "aac",
        "-f",
        "mpegts",
        "udp://192.168.1.5:1234",
    ];
    assert_eq!(cmd, expected);
}

#[test]
fn update_from_input_applies_valid_fields_only() {
    let mut c = configured();
    c.update_from_input(&"10.1.1.1".to_string(), &"8080".to_string());
    assert_eq!(c.target_ip, "10.1.1.1");
    assert_eq!(c.target_port, 8080);
    c.update_from_input(&"".to_string(), &"not a port".to_string());
    assert_eq!(c.target_ip, "10.1.1.1");
    assert_eq!(c.target_port, 8080);
    c.update_from_input(&"10.2.2.2".to_string(), &"70000".to_string());
    assert_eq!(c.target_ip, "10.2.2.2");
    assert_eq!(c.target_port, 8080);
}

#[test]
fn parse_u16_accepts_what_the_standard_parser_accepts() {
    assert_eq!(parse_u16("0"), Some(0));
    assert_eq!(parse_u16("1234"), Some(1234));
    assert_eq!(parse_u16("+65535"), Some(65535));
    assert_eq!(parse_u16("65536"), None);
    assert_eq!(parse_u16(""), None);
    assert_eq!(parse_u16("+"), None);
    assert_eq!(parse_u16("12a"), None);
    assert_eq!(parse_u16("-1"), None);
    assert_eq!(parse_u16(" 5"), None);
}

#[test]
fn decimal_rendering_matches_std() {
    for n in [0u64, 7, 10, 48000, 1316, 65535, u64::MAX] {
        assert_eq!(u64_to_string(n), n.to_string());
    }
}
