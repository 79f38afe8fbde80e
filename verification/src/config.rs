//! The streaming configuration record and the deterministic argument
//! vectors built from it for the external encode/transport process.

use vstd::prelude::*;
use vstd::string::{StrSliceExecFns, StringExecFns};
use crate::text::{
    dec_rep, digits_val, is_digit, is_u16_string, lemma_dec_rep_digits, number_digits, parse_u16,
    str_eq, str_views, u64_to_string,
};

verus! {

/// Destination and encoding parameters for the streaming process.
#[derive(Debug)]
pub struct Config {
    /// Destination host; empty until the operator sets one.
    pub target_ip: String,
    /// Destination port.
    pub target_port: u16,
    /// Audio codec name handed to the encoder.
    pub audio_codec: String,
    /// Encoder bitrate, in the encoder's own notation.
    pub bitrate: String,
    /// Capture sample rate in hertz.
    pub sample_rate: u32,
    /// Capture channel count.
    pub channels: u8,
    /// Per-packet payload size for the transport.
    pub buffer_size: u32,
    /// Whether the low-latency flag set is appended.
    pub low_latency: bool,
    /// Remembered preferred endpoint identifier, if any.
    pub preferred_source: Option<String>,
}

/// The mathematical model of a configuration record.
pub struct ConfigModel {
    pub target_ip: Seq<char>,
    pub target_port: u16,
    pub audio_codec: Seq<char>,
    pub bitrate: Seq<char>,
    pub sample_rate: u32,
    pub channels: u8,
    pub buffer_size: u32,
    pub low_latency: bool,
    pub preferred_source: Option<Seq<char>>,
}

impl View for Config {
    type V = ConfigModel;

    open spec fn view(&self) -> ConfigModel {
        ConfigModel {
            target_ip: self.target_ip@,
            target_port: self.target_port,
            audio_codec: self.audio_codec@,
            bitrate: self.bitrate@,
            sample_rate: self.sample_rate,
            channels: self.channels,
            buffer_size: self.buffer_size,
            low_latency: self.low_latency,
            preferred_source: match self.preferred_source {
                Some(ref s) => Some(s@),
                None => None,
            },
        }
    }
}

impl Clone for Config {
    /// Copies every field; the model is preserved.
    fn clone(&self) -> (r: Self)
        ensures
            r@ == self@,
    {
        Config {
            target_ip: self.target_ip.clone(),
            target_port: self.target_port,
            audio_codec: self.audio_codec.clone(),
            bitrate: self.bitrate.clone(),
            sample_rate: self.sample_rate,
            channels: self.channels,
            buffer_size: self.buffer_size,
            low_latency: self.low_latency,
            preferred_source: match &self.preferred_source {
                Some(s) => Some(s.clone()),
                None => None,
            },
        }
    }
}

/// The model of a freshly created configuration: no destination yet, and
/// sound defaults for everything else.
pub open spec fn default_config_model() -> ConfigModel {
    ConfigModel {
        target_ip: Seq::empty(),
        target_port: 1234,
        audio_codec: "aac"@,
        bitrate: "192k"@,
        sample_rate: 48000,
        channels: 2,
        buffer_size: 1316,
        low_latency: true,
        preferred_source: None,
    }
}

impl Default for Config {
    /// A configuration with an unset destination and default encoding.
    fn default() -> (r: Self)
        ensures
            r@ == default_config_model(),
    {
        Config {
            target_ip: String::new(),
            target_port: 1234,
            audio_codec: "aac".to_owned(),
            bitrate: "192k".to_owned(),
            sample_rate: 48000,
            channels: 2,
            buffer_size: 1316,
            low_latency: true,
            preferred_source: None,
        }
    }
}

/// True when a destination host has been set: the stored address is
/// neither empty nor the unspecified address.
pub open spec fn spec_ip_configured(c: ConfigModel) -> bool {
    c.target_ip.len() > 0 && c.target_ip != "0.0.0.0"@
}

/// The capture and encode arguments, taken verbatim from the configuration.
pub open spec fn base_args(c: ConfigModel, source: Seq<char>) -> Seq<Seq<char>> {
    seq![
        "-f"@,
        "pulse"@,
        "-i"@,
        source,
        "-ac"@,
        dec_rep(c.channels as int),
        "-ar"@,
        dec_rep(c.sample_rate as int),
        "-c:a"@,
        c.audio_codec,
        "-b:a"@,
        c.bitrate,
    ]
}

/// The three low-latency flag pairs: decode-delay suppression, input
/// buffering suppression and forced packet flush.
pub open spec fn low_latency_args() -> Seq<Seq<char>> {
    seq!["-flags"@, "+low_delay"@, "-fflags"@, "+nobuffer"@, "-flush_packets"@, "1"@]
}

/// The destination URI: UDP to the configured host and port, the packet
/// size carried as its single query parameter.
pub open spec fn dest_uri(c: ConfigModel) -> Seq<char> {
    "udp://"@ + c.target_ip + ":"@ + dec_rep(c.target_port as int) + "?pkt_size="@ + dec_rep(
        c.buffer_size as int,
    )
}

/// The output arguments: streaming container, zero multiplexer delay and
/// preload, and the destination URI.
pub open spec fn output_args(c: ConfigModel) -> Seq<Seq<char>> {
    seq!["-f"@, "mpegts"@, "-muxdelay"@, "0"@, "-muxpreload"@, "0"@, dest_uri(c)]
}

/// The full argument vector for the streaming process: capture and encode
/// stages, the low-latency flags exactly when configured, then the output
/// stage.
pub open spec fn spec_command(c: ConfigModel, source: Seq<char>) -> Seq<Seq<char>> {
    base_args(c, source) + (if c.low_latency {
        low_latency_args()
    } else {
        Seq::empty()
    }) + output_args(c)
}

/// The argument vector for the short fixed-tone test invocation: a sine
/// tone, encoded and sent to the configured destination.
pub open spec fn spec_test_tone_command(c: ConfigModel) -> Seq<Seq<char>> {
    seq![
        "-f"@,
        "lavfi"@,
        "-i"@,
        "sine=frequency=440:duration=5"@,
        "-c:a"@,
        "aac"@,
        "-f"@,
        "mpegts"@,
        "udp://"@ + c.target_ip + ":"@ + dec_rep(c.target_port as int),
    ]
}

/// With the low-latency flag set, the three low-latency flag pairs stand
/// together in the argument vector, all six tokens in one run; with the
/// flag clear, no argument is any of the three flag words. The fields that
/// pass into the vector verbatim must not themselves be flag words.
pub proof fn lemma_low_latency_flags(c: ConfigModel, source: Seq<char>)
    requires
        source != "-flags"@ && source != "-fflags"@ && source != "-flush_packets"@,
        c.audio_codec != "-flags"@ && c.audio_codec != "-fflags"@ && c.audio_codec
            != "-flush_packets"@,
        c.bitrate != "-flags"@ && c.bitrate != "-fflags"@ && c.bitrate != "-flush_packets"@,
    ensures
        c.low_latency ==> spec_command(c, source).subrange(12, 18) == low_latency_args(),
        !c.low_latency ==> forall|i: int|
            0 <= i < spec_command(c, source).len() ==> (#[trigger] spec_command(c, source)[i])
                != "-flags"@ && spec_command(c, source)[i] != "-fflags"@ && spec_command(c, source)[i]
                != "-flush_packets"@,
{
    let cmd = spec_command(c, source);
    if c.low_latency {
        assert(cmd.subrange(12, 18) =~= low_latency_args());
    } else {
        reveal_strlit("-f");
        reveal_strlit("pulse");
        reveal_strlit("-i");
        reveal_strlit("-ac");
        reveal_strlit("-ar");
        reveal_strlit("-c:a");
        reveal_strlit("-b:a");
        reveal_strlit("mpegts");
        reveal_strlit("-muxdelay");
        reveal_strlit("-muxpreload");
        reveal_strlit("0");
        reveal_strlit("udp://");
        reveal_strlit("-flags");
        reveal_strlit("-fflags");
        reveal_strlit("-flush_packets");
        lemma_dec_rep_digits(c.channels as int);
        lemma_dec_rep_digits(c.sample_rate as int);
        assert(cmd =~= base_args(c, source) + output_args(c));
        assert(dest_uri(c)[0] == 'u');
        assert(cmd.len() == 19);
        assert forall|i: int|
            0 <= i < cmd.len() implies (#[trigger] cmd[i]) != "-flags"@ && cmd[i] != "-fflags"@
            && cmd[i] != "-flush_packets"@ by {
            reveal_strlit("-f");
            reveal_strlit("pulse");
            reveal_strlit("-i");
            reveal_strlit("-ac");
            reveal_strlit("-ar");
            reveal_strlit("-c:a");
            reveal_strlit("-b:a");
            reveal_strlit("mpegts");
            reveal_strlit("-muxdelay");
            reveal_strlit("-muxpreload");
            reveal_strlit("0");
            reveal_strlit("udp://");
            reveal_strlit("-flags");
            reveal_strlit("-fflags");
            reveal_strlit("-flush_packets");
            assert("-flags"@.len() == 6 && "-flags"@[0] == '-');
            assert("-fflags"@.len() == 7 && "-fflags"@[0] == '-');
            assert("-flush_packets"@.len() == 14 && "-flush_packets"@[0] == '-');
            let a = cmd[i];
            if i == 0 || i == 12 {
                assert(a == "-f"@);
            } else if i == 1 {
                assert(a == "pulse"@);
            } else if i == 2 {
                assert(a == "-i"@);
            } else if i == 3 {
                assert(a == source);
            } else if i == 4 {
                assert(a == "-ac"@);
            } else if i == 5 {
                assert(a == dec_rep(c.channels as int));
                assert(dec_rep(c.channels as int).len() >= 1);
                assert(is_digit(dec_rep(c.channels as int)[0]));
                assert(a[0] != '-');
            } else if i == 6 {
                assert(a == "-ar"@);
            } else if i == 7 {
                assert(a == dec_rep(c.sample_rate as int));
                assert(dec_rep(c.sample_rate as int).len() >= 1);
                assert(is_digit(dec_rep(c.sample_rate as int)[0]));
                assert(a[0] != '-');
            } else if i == 8 {
                assert(a == "-c:a"@);
            } else if i == 9 {
                assert(a == c.audio_codec);
            } else if i == 10 {
                assert(a == "-b:a"@);
            } else if i == 11 {
                assert(a == c.bitrate);
            } else if i == 13 {
                assert(a == "mpegts"@);
                assert(a[0] == 'm');
                assert("-flags"@[0] == '-');
            } else if i == 14 {
                assert(a == "-muxdelay"@);
            } else if i == 15 || i == 17 {
                assert(a == "0"@);
            } else if i == 16 {
                assert(a == "-muxpreload"@);
            } else {
                assert(a == dest_uri(c));
                assert(a[0] == 'u');
            }
            assert(a != "-flags"@);
            assert(a != "-fflags"@);
            assert(a != "-flush_packets"@);
        }
    }
}

/// The destination URI carries the packet-size query parameter exactly
/// once: one position holds the query separator, followed by exactly the
/// parameter and the configured size. The configured host must not carry a
/// query separator of its own.
pub proof fn lemma_single_query_parameter(c: ConfigModel)
    requires
        forall|i: int| 0 <= i < c.target_ip.len() ==> c.target_ip[i] != '?',
    ensures
        exists|k: int|
            {
                &&& 0 <= k < dest_uri(c).len()
                &&& #[trigger] dest_uri(c)[k] == '?'
                &&& dest_uri(c).subrange(k, dest_uri(c).len() as int) == "?pkt_size="@ + dec_rep(
                    c.buffer_size as int,
                )
                &&& forall|j: int| 0 <= j < dest_uri(c).len() && j != k ==> dest_uri(c)[j] != '?'
            },
{
    reveal_strlit("udp://");
    reveal_strlit(":");
    reveal_strlit("?pkt_size=");
    lemma_dec_rep_digits(c.target_port as int);
    lemma_dec_rep_digits(c.buffer_size as int);
    let d = dest_uri(c);
    let pre = "udp://"@ + c.target_ip + ":"@ + dec_rep(c.target_port as int);
    let tail = "?pkt_size="@ + dec_rep(c.buffer_size as int);
    let k = pre.len() as int;
    assert(d =~= pre + tail);
    assert(d.subrange(k, d.len() as int) =~= tail);
    assert(d[k] == tail[0]);
    assert(tail[0] == '?');
    assert forall|j: int| 0 <= j < d.len() && j != k implies d[j] != '?' by {
        if j < 6 {
            assert(d[j] == "udp://"@[j]);
        } else if j < 6 + c.target_ip.len() {
            assert(d[j] == c.target_ip[j - 6]);
        } else if j == 6 + c.target_ip.len() {
            assert(d[j] == ':');
        } else if j < k {
            let port = dec_rep(c.target_port as int);
            assert(d[j] == port[j - (6 + c.target_ip.len() + 1)]);
            assert(is_digit(d[j]));
        } else if j < k + 10 {
            assert(d[j] == "?pkt_size="@[j - k]);
        } else {
            let size = dec_rep(c.buffer_size as int);
            assert(d[j] == size[j - k - 10]);
            assert(is_digit(d[j]));
        }
    }
    assert(0 <= k < d.len() && d[k] == '?' && d.subrange(k, d.len() as int) == tail);
}

impl Config {
    /// Decides whether a destination host has been configured.
    pub fn is_ip_configured(&self) -> (r: bool)
        ensures
            r == spec_ip_configured(self@),
    {
        !self.target_ip.as_str().is_empty() && !str_eq(self.target_ip.as_str(), "0.0.0.0")
    }

    /// Builds the argument vector for streaming from `source`.
    pub fn build_ffmpeg_command(&self, source: &str) -> (r: Vec<String>)
        ensures
            str_views(r@) == spec_command(self@, source@),
    {
        let mut cmd: Vec<String> = Vec::new();
        cmd.push("-f".to_owned());
        cmd.push("pulse".to_owned());
        cmd.push("-i".to_owned());
        cmd.push(source.to_owned());
        cmd.push("-ac".to_owned());
        cmd.push(u64_to_string(self.channels as u64));
        cmd.push("-ar".to_owned());
        cmd.push(u64_to_string(self.sample_rate as u64));
        cmd.push("-c:a".to_owned());
        cmd.push(self.audio_codec.clone());
        cmd.push("-b:a".to_owned());
        cmd.push(self.bitrate.clone());
        if self.low_latency {
            cmd.push("-flags".to_owned());
            cmd.push("+low_delay".to_owned());
            cmd.push("-fflags".to_owned());
            cmd.push("+nobuffer".to_owned());
            cmd.push("-flush_packets".to_owned());
            cmd.push("1".to_owned());
        }
        cmd.push("-f".to_owned());
        cmd.push("mpegts".to_owned());
        cmd.push("-muxdelay".to_owned());
        cmd.push("0".to_owned());
        cmd.push("-muxpreload".to_owned());
        cmd.push("0".to_owned());
        let mut dest = "udp://".to_owned();
        dest.append(self.target_ip.as_str());
        dest.append(":");
        let port = u64_to_string(self.target_port as u64);
        dest.append(port.as_str());
        dest.append("?pkt_size=");
        let size = u64_to_string(self.buffer_size as u64);
        dest.append(size.as_str());
        proof {
            assert(dest@ =~= dest_uri(self@));
        }
        cmd.push(dest);
        proof {
            assert(str_views(cmd@) =~= spec_command(self@, source@));
        }
        cmd
    }

    /// Builds the argument vector for the fire-and-forget test tone.
    pub fn build_test_tone_command(&self) -> (r: Vec<String>)
        ensures
            str_views(r@) == spec_test_tone_command(self@),
    {
        let mut cmd: Vec<String> = Vec::new();
        cmd.push("-f".to_owned());
        cmd.push("lavfi".to_owned());
        cmd.push("-i".to_owned());
        cmd.push("sine=frequency=440:duration=5".to_owned());
        cmd.push("-c:a".to_owned());
        cmd.push("aac".to_owned());
        cmd.push("-f".to_owned());
        cmd.push("mpegts".to_owned());
        let mut dest = "udp://".to_owned();
        dest.append(self.target_ip.as_str());
        dest.append(":");
        let port = u64_to_string(self.target_port as u64);
        dest.append(port.as_str());
        cmd.push(dest);
        proof {
            assert(str_views(cmd@) =~= spec_test_tone_command(self@));
        }
        cmd
    }

    /// Applies the edited destination fields: a non-empty host replaces the
    /// stored one, a port that parses as `u16` replaces the stored port,
    /// and every other field is unchanged.
    pub fn update_from_input(&mut self, ip_input: &String, port_input: &String)
        ensures
            final(self)@ == (ConfigModel {
                target_ip: if ip_input@.len() > 0 {
                    ip_input@
                } else {
                    old(self)@.target_ip
                },
                target_port: if is_u16_string(port_input@) {
                    digits_val(number_digits(port_input@)) as u16
                } else {
                    old(self)@.target_port
                },
                ..old(self)@
            }),
    {
        if !ip_input.as_str().is_empty() {
            self.target_ip = ip_input.clone();
        }
        match parse_u16(port_input.as_str()) {
            Some(p) => {
                self.target_port = p;
            },
            None => {},
        }
    }
}

} // verus!
