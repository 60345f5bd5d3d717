use fretboard::devices::{
    assemble_input_options,
    find_requested_device,
    classify_input_kind,
    format_input_label,
    input_option_sort_key,
    is_cpal_audio_server_proxy,
    low_latency_monitor_ring_len,
    parse_pulse_source_input_options,
    preferred_low_latency_buffer,
    push_pulse_source_option,
    push_unique_input,
    sort_input_options,
    AudioInputKind,
    AudioInputOption,
    BufferRequest,
    CpalInput,
    SupportedBufferRange,
};

fn option(id: &str, label: &str, kind: AudioInputKind) -> AudioInputOption {
    AudioInputOption { id: id.to_owned(), label: label.to_owned(), kind }
}

#[test]
fn pulse_source_parser_keeps_mics_and_monitors_classified() {
    let sources = parse_pulse_source_input_options(
        r#"
Source #42
    State: RUNNING
    Name: alsa_input.usb-Focusrite_Scarlett_Solo-00.mono-fallback
    Description: Scarlett Solo Analog Mono
Source #43
    State: IDLE
    Name: alsa_output.pci-0000_00_1f.3.analog-stereo.monitor
    Description: Built-in Audio Analog Stereo Monitor
"#,
    );

    assert_eq!(sources.len(), 2);
    assert_eq!(
        sources[0].id,
        "pulse::alsa_input.usb-Focusrite_Scarlett_Solo-00.mono-fallback"
    );
    assert_eq!(sources[0].kind, AudioInputKind::Microphone);
    assert!(sources[0].label.contains("Scarlett Solo"));
    assert_eq!(sources[1].kind, AudioInputKind::System);
}

#[test]
fn pulse_source_parser_ignores_virtual_default_aliases() {
    let sources = parse_pulse_source_input_options(
        r#"
Source #1
    Name: @DEFAULT_SOURCE@
    Description: Default Source
Source #2
    Name: @DEFAULT_MONITOR@
    Description: Default Monitor
"#,
    );

    assert!(sources.is_empty());
}

#[test]
fn pulse_source_parser_uses_the_name_when_the_description_is_blank() {
    let sources = parse_pulse_source_input_options(
        "Source #3\r\n\tName: usb_mic\r\n\tDescription:   \r\nSource #4\n",
    );
    assert_eq!(sources.len(), 1);
    assert_eq!(sources[0].id, "pulse::usb_mic");
    assert_eq!(sources[0].label, "Input • usb_mic");
    assert_eq!(sources[0].kind, AudioInputKind::Other);
}

#[test]
fn pulse_source_parser_reads_nothing_from_empty_output() {
    assert!(parse_pulse_source_input_options("").is_empty());
    assert!(parse_pulse_source_input_options("Source #1\nSource #2\n").is_empty());
}

#[test]
fn a_block_without_a_header_is_still_listed() {
    let sources = parse_pulse_source_input_options("Name: lone\nDescription: Lone Capture\n");
    assert_eq!(sources.len(), 1);
    assert_eq!(sources[0].id, "pulse::lone");
    assert_eq!(sources[0].kind, AudioInputKind::Microphone);
    assert_eq!(sources[0].label, "Mic • Lone Capture");
}

#[test]
fn system_markers_win_over_microphone_markers() {
    assert_eq!(
        classify_input_kind("Mic Capture Monitor", None),
        AudioInputKind::System
    );
    assert_eq!(classify_input_kind("USB Microphone", None), AudioInputKind::Microphone);
    assert_eq!(classify_input_kind("Line In", None), AudioInputKind::Other);
    assert_eq!(classify_input_kind("Line In", Some("Line In")), AudioInputKind::Microphone);
    assert_eq!(classify_input_kind("Line In", Some("Other")), AudioInputKind::Other);
    assert_eq!(classify_input_kind("BlackHole 2ch", None), AudioInputKind::System);
}

#[test]
fn labels_carry_the_kind_tag_and_the_default_mark() {
    assert_eq!(
        format_input_label("Scarlett", AudioInputKind::Microphone, true),
        "Mic • Scarlett (Default)"
    );
    assert_eq!(format_input_label("Loop", AudioInputKind::System, false), "System • Loop");
    assert_eq!(format_input_label("X", AudioInputKind::Other, false), "Input • X");
}

#[test]
fn push_pulse_source_option_skips_missing_names() {
    let mut options = Vec::new();
    push_pulse_source_option(&mut options, None, Some("Orphan".to_owned()));
    assert!(options.is_empty());
    push_pulse_source_option(&mut options, Some("@DEFAULT_MONITOR@".to_owned()), None);
    assert!(options.is_empty());
    push_pulse_source_option(&mut options, Some("src".to_owned()), Some("A Mic".to_owned()));
    assert_eq!(options.len(), 1);
    assert_eq!(options[0].id, "pulse::src");
    assert_eq!(options[0].kind, AudioInputKind::Microphone);
}

#[test]
fn sort_key_ranks_kind_then_route_then_label() {
    let key = input_option_sort_key(&option(
        "pulse::@DEFAULT_SOURCE@",
        "Mic • Default",
        AudioInputKind::Microphone,
    ));
    assert_eq!(key, (0, 0, "mic • default".to_owned()));
    let key = input_option_sort_key(&option("pulse::x", "Input • X", AudioInputKind::Other));
    assert_eq!(key, (2, 1, "input • x".to_owned()));
    let key = input_option_sort_key(&option("cpal::hw", "System • HW", AudioInputKind::System));
    assert_eq!(key, (1, 2, "system • hw".to_owned()));
}

#[test]
fn sorting_matches_the_standard_stable_sort() {
    let mut options = vec![
        option("cpal::b", "Input • b", AudioInputKind::Other),
        option("pulse::m", "System • M", AudioInputKind::System),
        option("cpal::a", "Mic • Zed", AudioInputKind::Microphone),
        option("pulse::@DEFAULT_SOURCE@", "Mic • Default", AudioInputKind::Microphone),
        option("cpal::c", "Mic • zed", AudioInputKind::Microphone),
        option("cpal::d", "Mic • alpha", AudioInputKind::Microphone),
    ];
    let mut expected = options.clone();
    expected.sort_by_key(input_option_sort_key);
    sort_input_options(&mut options);
    assert_eq!(options, expected);
    let ids: Vec<&str> = options.iter().map(|o| o.id.as_str()).collect();
    assert_eq!(
        ids,
        vec!["pulse::@DEFAULT_SOURCE@", "cpal::d", "cpal::a", "cpal::c", "pulse::m", "cpal::b"]
    );
}

#[test]
fn push_unique_input_keeps_the_first_of_each_id() {
    let mut options = Vec::new();
    let mut seen = Vec::new();
    push_unique_input(&mut options, &mut seen, option("a", "first", AudioInputKind::Other));
    push_unique_input(&mut options, &mut seen, option("a", "second", AudioInputKind::System));
    push_unique_input(&mut options, &mut seen, option("b", "third", AudioInputKind::Other));
    assert_eq!(options.len(), 2);
    assert_eq!(options[0].label, "first");
    assert_eq!(seen, vec!["a".to_owned(), "b".to_owned()]);
}

#[test]
fn audio_server_proxies_are_recognized() {
    assert!(is_cpal_audio_server_proxy("cpal::default", "default"));
    assert!(is_cpal_audio_server_proxy("cpal::Pulse", "PULSE"));
    assert!(is_cpal_audio_server_proxy("cpal::compat::pipewire", "Whatever"));
    assert!(!is_cpal_audio_server_proxy("cpal::hw:1,0", "USB Audio"));
}

#[test]
fn monitor_ring_is_thirty_ms_but_never_tiny() {
    assert_eq!(low_latency_monitor_ring_len(48_000), 1_440);
    assert_eq!(low_latency_monitor_ring_len(8_000), 256);
    assert_eq!(low_latency_monitor_ring_len(0), 256);
}

#[test]
fn low_latency_buffer_is_clamped_into_the_device_range() {
    let r = |min, max| SupportedBufferRange::Range { min, max };
    assert_eq!(preferred_low_latency_buffer(&r(64, 1024)), BufferRequest::Fixed(256));
    assert_eq!(preferred_low_latency_buffer(&r(512, 1024)), BufferRequest::Fixed(512));
    assert_eq!(preferred_low_latency_buffer(&r(16, 128)), BufferRequest::Fixed(128));
    assert_eq!(
        preferred_low_latency_buffer(&SupportedBufferRange::Unknown),
        BufferRequest::Default
    );
}

fn device(id: &str, name: &str) -> CpalInput {
    CpalInput { id: id.to_owned(), name: name.to_owned() }
}

#[test]
fn the_picker_lists_pulse_routes_then_devices_once_each() {
    let sources = parse_pulse_source_input_options(
        "Source #1\nName: alsa_input.usb\nDescription: USB Mic\n",
    );
    let devices = vec![
        device("cpal::default", "default"),
        device("cpal::hw:0", "HDA Intel"),
        device("cpal::hw:0", "HDA Intel again"),
    ];
    let options = assemble_input_options(
        true,
        sources,
        None,
        Some(devices),
        Some("HDA Intel".to_owned()),
        Some("cpal::hw:0".to_owned()),
    );
    let ids: Vec<&str> = options.iter().map(|o| o.id.as_str()).collect();
    assert_eq!(
        ids,
        vec![
            "pulse::@DEFAULT_SOURCE@",
            "pulse::alsa_input.usb",
            "cpal::hw:0",
            "pulse::@DEFAULT_MONITOR@"
        ]
    );
    assert_eq!(options[2].label, "Mic • HDA Intel (Default)");
    assert_eq!(options[3].label, "System • Default monitor (Pulse/PipeWire)");
}

#[test]
fn without_a_microphone_the_default_device_stands_in() {
    let devices = vec![
        device("cpal::a", "Line A"),
        device("cpal::b", "Line B"),
        device("cpal::loop", "Loopback"),
    ];
    let options = assemble_input_options(
        false,
        Vec::new(),
        None,
        Some(devices),
        None,
        Some("cpal::b".to_owned()),
    );
    let summary: Vec<(&str, AudioInputKind)> =
        options.iter().map(|o| (o.id.as_str(), o.kind)).collect();
    assert_eq!(
        summary,
        vec![
            ("cpal::b", AudioInputKind::Microphone),
            ("cpal::loop", AudioInputKind::System),
            ("cpal::a", AudioInputKind::Other),
        ]
    );
    // With no default among them, the first device that is not system capture is used.
    let options = assemble_input_options(
        false,
        Vec::new(),
        None,
        Some(vec![device("cpal::loop", "Loopback"), device("cpal::x", "Line X")]),
        None,
        None,
    );
    assert_eq!(options[0].id, "cpal::x");
    assert_eq!(options[0].kind, AudioInputKind::Microphone);
}

#[test]
fn without_pulse_proxies_are_kept_and_failed_enumeration_lists_nothing() {
    let options = assemble_input_options(
        false,
        Vec::new(),
        None,
        Some(vec![device("cpal::default", "default")]),
        None,
        None,
    );
    assert_eq!(options.len(), 1);
    assert_eq!(options[0].label, "Mic • default");
    let options = assemble_input_options(false, Vec::new(), None, None, None, None);
    assert!(options.is_empty());
}

#[test]
fn the_output_loopback_is_offered_as_system_capture() {
    let options = assemble_input_options(
        false,
        Vec::new(),
        Some("Speakers".to_owned()),
        Some(vec![device("cpal::mic", "USB Mic")]),
        None,
        None,
    );
    let summary: Vec<(&str, &str, AudioInputKind)> =
        options.iter().map(|o| (o.id.as_str(), o.label.as_str(), o.kind)).collect();
    assert_eq!(
        summary,
        vec![
            ("cpal::mic", "Mic • USB Mic", AudioInputKind::Microphone),
            (
                "cpal-loopback::@DEFAULT_OUTPUT@",
                "System • Speakers (WASAPI loopback)",
                AudioInputKind::System
            ),
        ]
    );
    // Without a device list the loopback is still offered.
    let options = assemble_input_options(false, Vec::new(), Some("Out".to_owned()), None, None, None);
    assert_eq!(options.len(), 1);
    assert_eq!(options[0].label, "System • Out (WASAPI loopback)");
}

#[test]
fn a_requested_device_is_found_by_route_id_or_name() {
    let devices = vec![
        device("cpal::hw:0", "HDA Intel"),
        device("cpal::hw:1", "USB Mic"),
        device("cpal::hw:2", "USB Mic"),
    ];
    assert_eq!(find_requested_device(&devices, "cpal::hw:1"), Some(1));
    assert_eq!(find_requested_device(&devices, "USB Mic"), Some(1));
    assert_eq!(find_requested_device(&devices, "cpal::hw:2"), Some(2));
    assert_eq!(find_requested_device(&devices, "Line In"), None);
    assert_eq!(find_requested_device(&Vec::new(), "USB Mic"), None);
}
