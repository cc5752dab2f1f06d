use std::path::PathBuf;
use swyh_rs::debug_agent::{
    agent_log, dither_progress, escape, log_path, partial_buffer_data, read_progress, record_line,
    record_time, DitherTag,
};
use swyh_rs::enums::streaming::{StreamSize, StreamingFormat};
use swyh_rs::utils::configuration::Configuration;
use swyh_rs::utils::local_ip_address::{get_interfaces, InterfaceAddr};
use swyh_rs::utils::text::{contains, parse_u32, push_decimal};
use swyh_rs::utils::wizard::{
    default_output, names_cable, RendererInfo, Request, Wizard, WizardError,
};

fn strings(items: &[&str]) -> Vec<String> {
    items.iter().map(|s| s.to_string()).collect()
}

fn decimal(n: u128) -> String {
    let mut s = String::new();
    push_decimal(&mut s, n);
    s
}

#[test]
fn numbers_are_printed_and_read_back() {
    for n in [0u32, 9, 10, 500, 4_294_967_295] {
        assert_eq!(decimal(n.into()), n.to_string());
        assert_eq!(parse_u32(&decimal(n.into())), Some(n));
    }
    assert_eq!(decimal(u128::MAX), u128::MAX.to_string());
}

#[test]
fn numbers_are_parsed_as_the_standard_library_does() {
    for text in [
        "", "+", "-", "-0", "-1", "+7", "007", "4294967295", "4294967296", "99999999999999999999",
        " 5", "5 ", "5x", "++5", "1_000", "\u{0663}",
    ] {
        assert_eq!(parse_u32(text), text.parse::<u32>().ok(), "{}", text);
    }
}

#[test]
fn words_are_found() {
    for (text, word) in [("abcab", "cab"), ("abc", ""), ("", "a"), ("aab", "ab"), ("ab", "abc")] {
        assert_eq!(contains(text, word), text.contains(word));
    }
}

#[test]
fn log_is_below_the_package() {
    assert_eq!(
        log_path(&PathBuf::from("pkg")),
        PathBuf::from("pkg").join(".cursor").join("debug-2feb3d.log")
    );
}

#[test]
fn message_is_escaped() {
    let message = "a\\b \"c\" \\\"";
    let expected = message.replace('\\', "\\\\").replace('"', "\\\"");
    assert_eq!(escape(message), expected);
}

#[test]
fn control_characters_are_escaped() {
    assert_eq!(escape("a\nb"), "a\\u000ab");
    assert_eq!(escape("\0\t\r\u{1f} \u{7f}\u{e9}"), "\\u0000\\u0009\\u000d\\u001f \u{7f}\u{e9}");
}

#[test]
fn every_text_of_a_record_is_escaped() {
    assert_eq!(
        record_line("H\"2", "a\\b\nc", "x\u{1}", "{\"k\":1}", 0),
        "{\"sessionId\":\"2feb3d\",\"hypothesisId\":\"H\\\"2\",\"location\":\"a\\\\b\\u000ac\",\
         \"message\":\"x\\u0001\",\"data\":{\"k\":1},\"timestamp\":0}\n"
    );
    let line = agent_log("H\n", "\r\n", "\n\n", "{}");
    assert_eq!(line.matches('\n').count(), 1);
    assert!(!line.contains('\r'));
}

#[test]
fn record_has_the_time_of_the_clock() {
    let millis = || std::time::SystemTime::UNIX_EPOCH.elapsed().unwrap().as_millis();
    let before = millis();
    let line = agent_log("H", "l", "m", "{}");
    let after = millis();
    let digits = line.rsplit(':').next().unwrap().trim_end_matches("}\n");
    let time: u128 = digits.parse().unwrap();
    assert!(before <= time && time <= after);
}

#[test]
fn record_is_one_json_line() {
    assert_eq!(
        record_line("H2", "rwstream.rs:fill", "say \"hi\"", "{}", 12),
        "{\"sessionId\":\"2feb3d\",\"hypothesisId\":\"H2\",\"location\":\"rwstream.rs:fill\",\
         \"message\":\"say \\\"hi\\\"\",\"data\":{},\"timestamp\":12}\n"
    );
    let line = agent_log("H", "l", "m", "{}");
    assert!(line.ends_with("}\n"));
    assert_eq!(line.matches('\n').count(), 1);
    assert_eq!(record_time(None), 0);
    assert_eq!(record_time(Some((3, 5_999_999))), 3005);
}

#[test]
fn reads_are_counted_and_recorded() {
    assert_eq!(
        read_progress(0, 0, 8),
        (1, 8, Some("{\"calls\":1,\"returned_bytes\":8,\"cumulative_bytes\":8}".to_string()))
    );
    assert!(read_progress(2, 16, 8).2.is_some());
    assert_eq!(read_progress(3, 24, 8), (4, 32, None));
    assert_eq!(read_progress(498, 0, 1).2, None);
    assert!(read_progress(499, 0, 1).2.is_some());
    assert_eq!(
        read_progress(u64::MAX, u64::MAX, 3),
        (0, 2, Some("{\"calls\":0,\"returned_bytes\":3,\"cumulative_bytes\":2}".to_string()))
    );
    assert_eq!(partial_buffer_data(7, 8), "{\"buf_len\":7,\"buf_chunksize\":8}");
}

#[test]
fn one_dither_in_sixty_is_recorded() {
    let mut applies = 0;
    let mut records = Vec::new();
    for i in 0..180u64 {
        let tag = if i < 100 { DitherTag::CaptureOk } else { DitherTag::RecvTimeoutSilence };
        let (n, data) = dither_progress(applies, tag);
        assert_eq!(n, i + 1);
        applies = n;
        records.extend(data);
    }
    assert_eq!(
        records,
        strings(&[
            "{\"tag\":\"capture_ok\",\"applies\":60}",
            "{\"tag\":\"recv_timeout_silence\",\"applies\":120}",
            "{\"tag\":\"recv_timeout_silence\",\"applies\":180}",
        ])
    );
    assert_eq!(dither_progress(u64::MAX, DitherTag::CaptureOk).0, 0);
}

#[test]
fn v4_interfaces_are_listed() {
    let interfaces = vec![
        InterfaceAddr::V6,
        InterfaceAddr::V4(127, 0, 0, 1),
        InterfaceAddr::V6,
        InterfaceAddr::V4(192, 168, 10, 255),
    ];
    assert_eq!(get_interfaces(&interfaces), strings(&["127.0.0.1", "192.168.10.255"]));
    assert!(get_interfaces(&vec![InterfaceAddr::V6]).is_empty());
}

#[test]
fn cable_is_offered_first() {
    assert!(names_cable("VB-AUDIO POINT"));
    assert!(!names_cable("vb-audio point"));
    assert_eq!(default_output(&strings(&["Speakers", "Vb-Cable Output", "CABLE In"])), 1);
    assert_eq!(default_output(&strings(&["Line (vb-audio Point)"])), 0);
    assert_eq!(default_output(&strings(&["Speakers", "HDMI"])), 0);
    assert_eq!(default_output(&strings(&["a", "b", "c\u{e4}ble", "cable"])), 3);
}

fn config() -> Configuration {
    Configuration {
        last_network: None,
        last_renderer: None,
        active_renderers: strings(&["old"]),
        sound_source: None,
        sound_source_index: None,
        input_device: Some("old mic".to_string()),
        streaming_format: None,
        wav_stream_size: None,
        auto_calibrate: None,
        latency_threshold_ms: None,
        capture_timeout: Some(2000),
    }
}

fn renderer(name: &str, addr: &str) -> RendererInfo {
    RendererInfo { dev_name: name.to_string(), remote_addr: addr.to_string() }
}

fn select(w: &Wizard) -> (String, Vec<String>, usize) {
    match w.request() {
        Request::Select { prompt, items, default } => (prompt, items, default),
        _ => panic!("a choice is asked for"),
    }
}

fn up_to_format(inputs: &[&str]) -> Wizard {
    let mut w = match Wizard::start(config(), strings(&["10.0.0.1", "10.0.0.2"])) {
        Ok(w) => w,
        Err(_) => panic!("there are networks"),
    };
    assert_eq!(
        select(&w),
        ("Network interface for SSDP + stream URL".to_string(), strings(&["10.0.0.1", "10.0.0.2"]), 0)
    );
    w.pick(1);
    assert!(matches!(w.request(), Request::Discover));
    let found = vec![renderer("Era", "10.0.0.8"), renderer("Roam", "10.0.0.9")];
    assert_eq!(w.discovered(Some(found)), Ok(()));
    assert_eq!(
        select(&w),
        ("Speaker / renderer".to_string(), strings(&["Era — 10.0.0.8", "Roam — 10.0.0.9"]), 0)
    );
    assert_eq!(w.choices(), 2);
    w.pick(1);
    assert!(matches!(w.request(), Request::ListOutputs));
    assert_eq!(w.outputs_listed(strings(&["Speakers", "Cable Output"])), Ok(()));
    assert_eq!(
        select(&w),
        (
            "Loopback capture device (e.g. VB-Cable Output)".to_string(),
            strings(&["Speakers", "Cable Output"]),
            1
        )
    );
    w.pick(1);
    assert!(matches!(w.request(), Request::ListInputs));
    w.inputs_listed(strings(inputs));
    if !inputs.is_empty() {
        assert_eq!(
            select(&w),
            ("Input device for latency detection (mic / line-in)".to_string(), strings(inputs), 0)
        );
        w.pick(0);
    }
    assert_eq!(
        select(&w),
        (
            "Streaming format".to_string(),
            strings(&["WAV (recommended for Sonos)", "LPCM", "RF64"]),
            0
        )
    );
    w
}

#[test]
fn wizard_sets_what_was_answered() {
    let mut w = up_to_format(&["Mic"]);
    w.choose_format(2, Some(false));
    match w.request() {
        Request::Confirm { prompt, offered } => {
            assert_eq!(prompt, "Run startup latency calibration?");
            assert!(!offered);
        }
        _ => panic!("calibration is to be confirmed"),
    }
    w.confirm(true);
    match w.request() {
        Request::Text { prompt, initial } => {
            assert_eq!(prompt, "Latency threshold (ms)");
            assert_eq!(initial, "500");
        }
        _ => panic!("a threshold is asked for"),
    }
    assert_eq!(w.enter_threshold("x"), Err(WizardError::InvalidThreshold));
    assert_eq!(w.enter_threshold("250"), Ok(()));
    assert!(matches!(w.request(), Request::Save));
    w.saved();
    assert!(matches!(w.request(), Request::Finished));
    let c = w.config;
    assert_eq!(c.last_network.as_deref(), Some("10.0.0.2"));
    assert_eq!(c.last_renderer.as_deref(), Some("10.0.0.9"));
    assert_eq!(c.active_renderers, strings(&["10.0.0.9"]));
    assert_eq!(c.sound_source.as_deref(), Some("Cable Output"));
    assert_eq!(c.sound_source_index, Some(1));
    assert_eq!(c.input_device.as_deref(), Some("Mic"));
    assert_eq!(c.streaming_format, Some(StreamingFormat::Rf64));
    assert_eq!(c.auto_calibrate, Some(true));
    assert_eq!(c.latency_threshold_ms, Some(250));
    assert_eq!(c.capture_timeout, Some(2000));
}

#[test]
fn wizard_without_inputs_and_calibration() {
    for (i, format) in [StreamingFormat::Wav, StreamingFormat::Lpcm].into_iter().enumerate() {
        let mut w = up_to_format(&[]);
        w.choose_format(i, None);
        assert!(matches!(w.request(), Request::Confirm { offered: true, .. }));
        w.confirm(false);
        assert!(matches!(w.request(), Request::Save));
        assert_eq!(w.config.input_device, None);
        assert_eq!(w.config.streaming_format, Some(format));
        assert_eq!(w.config.auto_calibrate, Some(false));
        assert_eq!(w.config.latency_threshold_ms, None);
    }
}

#[test]
fn wav_is_sent_in_chunks() {
    let sizes = [None, Some(StreamSize::U32maxNotChunked), Some(StreamSize::U32maxChunked)];
    for before in sizes {
        for i in 0..3 {
            let mut w = up_to_format(&[]);
            w.config.wav_stream_size = before;
            w.choose_format(i, None);
            let expected = if i == 0 { Some(StreamSize::U32maxChunked) } else { before };
            assert_eq!(w.config.wav_stream_size, expected);
        }
    }
}

#[test]
fn wizard_errors() {
    match Wizard::start(config(), Vec::new()) {
        Err(e) => assert_eq!(e.message(), "No IPv4 network interfaces found."),
        Ok(_) => panic!("there are no networks"),
    }
    let begin = || match Wizard::start(config(), strings(&["10.0.0.1"])) {
        Ok(mut w) => {
            w.pick(0);
            w
        }
        Err(_) => panic!("there is a network"),
    };
    assert_eq!(begin().discovered(None), Err(WizardError::DiscoveryFailed));
    assert_eq!(begin().discovered(Some(Vec::new())), Err(WizardError::NoRenderers));
    let mut w = begin();
    assert_eq!(w.discovered(Some(vec![renderer("a", "b")])), Ok(()));
    w.pick(0);
    assert_eq!(w.outputs_listed(Vec::new()), Err(WizardError::NoOutputs));
    assert_eq!(WizardError::DiscoveryFailed.message(), "SSDP discovery failed");
    assert_eq!(
        WizardError::NoRenderers.message(),
        "No renderers found. Check network / firewall."
    );
    assert_eq!(WizardError::NoOutputs.message(), "No audio output devices to capture.");
    assert_eq!(WizardError::InvalidThreshold.message(), "Invalid latency threshold");
}

#[test]
fn offered_threshold_is_accepted() {
    let mut c = config();
    c.latency_threshold_ms = Some(70);
    let mut w = match Wizard::start(c, strings(&["n"])) {
        Ok(w) => w,
        Err(_) => panic!("there is a network"),
    };
    w.pick(0);
    assert_eq!(w.discovered(Some(vec![renderer("a", "b")])), Ok(()));
    w.pick(0);
    assert_eq!(w.outputs_listed(strings(&["o"])), Ok(()));
    w.pick(0);
    w.inputs_listed(Vec::new());
    w.choose_format(0, None);
    w.confirm(true);
    let initial = match w.request() {
        Request::Text { initial, .. } => initial,
        _ => panic!("a threshold is asked for"),
    };
    assert_eq!(initial, "70");
    assert_eq!(w.enter_threshold(&initial), Ok(()));
    assert_eq!(w.config.latency_threshold_ms, Some(70));
}
