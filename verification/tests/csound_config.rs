use da_core::csound_config::{
    apply_yml_config, connect_port_refs, extract_config_block, parse_param_row, parse_port,
    port_ref_name, yml_routings, AudioConnect, ConfigError, ForeignPorts, MidiConnect, ParamKind,
    PortRef, Side, YmlConfig,
};
use da_core::interface::make_config;
use da_core::midi_routing::{MidiRouting, Mode};

fn foreign() -> ForeignPorts {
    ForeignPorts {
        keyboard_out: "kbd:out".to_string(),
        reaper_midi_out: "REAPER:MIDI Output ".to_string(),
        reaper_midi_in: "REAPER:MIDI Input ".to_string(),
        reaper_out: "REAPER:out".to_string(),
        reaper_in: "REAPER:in".to_string(),
    }
}

fn empty_yml() -> YmlConfig {
    YmlConfig {
        name: None,
        upsample: None,
        audio_in: None,
        audio_out: None,
        midi_in: None,
        midi_out: None,
        midi_connect: None,
        audio_connect: None,
        param: None,
        midi_routing: None,
    }
}

#[test]
fn config_block_extraction() {
    let csd = "<CsoundSynthesizer>\n<Config>\nname: Foo\n</Config>\n<CsInstruments>\n";
    let b = extract_config_block(csd).unwrap();
    assert_eq!(b.yml, "name: Foo\n");
    assert_eq!(b.rest, "\n<CsInstruments>\n");
    assert_eq!(extract_config_block("no block").unwrap_err(), ConfigError::MissingConfigStart);
    assert_eq!(extract_config_block("<Config>\nx").unwrap_err(), ConfigError::MissingConfigEnd);
    assert_eq!(extract_config_block("</Config><Config>\n").unwrap_err(), ConfigError::MisplacedConfig);
    assert_eq!(extract_config_block("<Config></Config>").unwrap_err(), ConfigError::MisplacedConfig);
    assert_eq!(extract_config_block("<Config>é</Config>").unwrap_err(), ConfigError::MisplacedConfig);
    let b = extract_config_block("<Config>\n</Config>").unwrap();
    assert_eq!((b.yml.as_str(), b.rest.as_str()), ("", ""));
}

#[test]
fn connection_texts() {
    assert_eq!(parse_port(Side::MidiOut, "keyboard"), Ok(PortRef::KeyboardOut));
    assert_eq!(parse_port(Side::MidiOut, " self : 2 "), Ok(PortRef::Own(Side::MidiOut, 2)));
    assert_eq!(parse_port(Side::MidiIn, "reaper:1"), Ok(PortRef::Reaper(Side::MidiIn, 1)));
    assert_eq!(parse_port(Side::AudioOut, "system:3"), Ok(PortRef::System(Side::AudioOut, 3)));
    assert_eq!(parse_port(Side::AudioIn, "self:1:2"), Err(ConfigError::BadPort(Side::AudioIn, "1:2".to_string())));
    assert_eq!(parse_port(Side::MidiIn, "keyboard"), Err(ConfigError::NoColon(true)));
    assert_eq!(parse_port(Side::AudioIn, "self"), Err(ConfigError::NoColon(false)));
    assert_eq!(parse_port(Side::MidiOut, "system:1"), Err(ConfigError::UnknownId(Side::MidiOut, "system".to_string())));
    assert_eq!(parse_port(Side::AudioOut, " x :1"), Err(ConfigError::UnknownId(Side::AudioOut, "x".to_string())));
    assert_eq!(parse_port(Side::AudioOut, "self: -1"), Err(ConfigError::BadPort(Side::AudioOut, " -1".to_string())));
}

#[test]
fn defaults_of_the_settings() {
    let mut c = make_config("DefaultCsound", 1, 0, 1, 1, 0);
    let refs = apply_yml_config(&mut c, &empty_yml()).unwrap();
    assert!(refs.is_empty());
    assert_eq!(c.name, "DA-Csound");
    assert_eq!(
        (c.upsampling_factor, c.num_in_channels, c.num_out_channels, c.num_midi_in_ports, c.num_midi_out_ports),
        (1, 0, 1, 1, 0)
    );
}

#[test]
fn settings_and_connections() {
    let mut yml = empty_yml();
    yml.name = Some("Synth".to_string());
    yml.upsample = Some(4);
    yml.audio_in = Some(2);
    yml.audio_out = Some(2);
    yml.midi_in = Some(0);
    yml.midi_out = Some(1);
    yml.midi_connect = Some(vec![MidiConnect("keyboard".to_string(), "self:1".to_string())]);
    yml.audio_connect = Some(vec![
        AudioConnect("self:1".to_string(), "system:9".to_string()),
        AudioConnect("reaper:1".to_string(), "self:2".to_string()),
    ]);
    let mut c = make_config("DefaultCsound", 1, 0, 1, 1, 0);
    let refs = apply_yml_config(&mut c, &yml).unwrap();
    assert_eq!(c.name, "Synth");
    assert_eq!(
        (c.upsampling_factor, c.num_in_channels, c.num_out_channels, c.num_midi_in_ports, c.num_midi_out_ports),
        (4, 2, 2, 0, 1)
    );
    assert_eq!(
        refs,
        vec![
            (PortRef::KeyboardOut, PortRef::Own(Side::MidiIn, 1)),
            (PortRef::Own(Side::AudioOut, 1), PortRef::System(Side::AudioIn, 9)),
            (PortRef::Reaper(Side::AudioOut, 1), PortRef::Own(Side::AudioIn, 2)),
        ]
    );
    connect_port_refs(&mut c, &refs, &foreign());
    assert_eq!(
        c.connections,
        vec![
            ("kbd:out".to_string(), "Synth:midi_in1".to_string()),
            ("Synth:out1".to_string(), "system:playback_9".to_string()),
            ("REAPER:out1".to_string(), "Synth:in2".to_string()),
        ]
    );
}

#[test]
fn first_refusal_wins() {
    let mut yml = empty_yml();
    yml.midi_connect = Some(vec![
        MidiConnect("self:1".to_string(), "self:x".to_string()),
        MidiConnect("nothing".to_string(), "self:1".to_string()),
    ]);
    yml.audio_connect = Some(vec![AudioConnect("bad".to_string(), "bad".to_string())]);
    let mut c = make_config("A", 1, 0, 1, 1, 0);
    assert_eq!(
        apply_yml_config(&mut c, &yml),
        Err(ConfigError::BadPort(Side::MidiIn, "x".to_string()))
    );
    let mut yml = empty_yml();
    yml.audio_connect = Some(vec![AudioConnect("self:1".to_string(), "reaper".to_string())]);
    assert_eq!(apply_yml_config(&mut c, &yml), Err(ConfigError::NoColon(false)));
}

#[test]
fn port_names_of_references() {
    let c = make_config("P", 1, 0, 1, 1, 0);
    let f = foreign();
    assert_eq!(port_ref_name(&c, &f, PortRef::Own(Side::MidiOut, 1)), Some("P:midi_out1".to_string()));
    assert_eq!(port_ref_name(&c, &f, PortRef::Own(Side::MidiIn, 2)), Some("P:midi_in2".to_string()));
    assert_eq!(port_ref_name(&c, &f, PortRef::Own(Side::AudioIn, 3)), Some("P:in3".to_string()));
    assert_eq!(port_ref_name(&c, &f, PortRef::System(Side::AudioOut, 1)), Some("system:capture_1".to_string()));
    assert_eq!(port_ref_name(&c, &f, PortRef::Reaper(Side::AudioOut, 1)), Some("REAPER:out1".to_string()));
    assert_eq!(port_ref_name(&c, &f, PortRef::Reaper(Side::AudioIn, 2)), Some("REAPER:in2".to_string()));
    assert_eq!(port_ref_name(&c, &f, PortRef::Reaper(Side::MidiOut, 3)), Some("REAPER:MIDI Output 3".to_string()));
    assert_eq!(port_ref_name(&c, &f, PortRef::Reaper(Side::MidiIn, 4)), Some("REAPER:MIDI Input 4".to_string()));
    assert_eq!(port_ref_name(&c, &f, PortRef::KeyboardOut), Some("kbd:out".to_string()));
    assert_eq!(port_ref_name(&c, &f, PortRef::System(Side::MidiIn, 1)), None);
}

fn row(items: &[&str]) -> Vec<String> {
    items.iter().map(|s| s.to_string()).collect()
}

#[test]
fn parameter_rows() {
    let p = parse_param_row(&row(&["lin", "Freq", "50", "30", "120", "1"])).unwrap();
    assert_eq!(p.kind, ParamKind::Linear);
    assert_eq!((p.name.as_str(), p.default_text.as_str(), p.min_text.as_str(), p.max_text.as_str(), p.digits), ("Freq", "50", "30", "120", 1));
    let p = parse_param_row(&row(&["exp", "Gain", "2", "1", "100", "-3"])).unwrap();
    assert_eq!((p.kind, p.digits), (ParamKind::Exponential, -3));
    assert_eq!(parse_param_row(&row(&["lin", "x"])).unwrap_err(), ConfigError::ShortParamRow);
    assert_eq!(parse_param_row(&row(&["lin", "x", "1", "2"])).unwrap_err(), ConfigError::ShortParamRow);
    assert_eq!(parse_param_row(&row(&["log", "x", "1"])).unwrap_err(), ConfigError::UnknownParamType("log".to_string()));
    assert_eq!(parse_param_row(&row(&["exp", "x", "1", "2", "3", "1.5"])).unwrap_err(), ConfigError::BadParamDigits("1.5".to_string()));
}

#[test]
fn routings_of_the_settings() {
    let mut yml = empty_yml();
    assert!(yml_routings(&yml).is_empty());
    yml.midi_routing = Some(vec![MidiRouting { mode: Mode::Poly, channel: 1, instr: 2 }]);
    assert_eq!(yml_routings(&yml), vec![MidiRouting { mode: Mode::Poly, channel: 1, instr: 2 }]);
}

#[test]
fn own_port_texts_name_own_ports() {
    let c = make_config("Pad", 1, 0, 1, 1, 0);
    for (side, kind) in [(Side::MidiOut, "midi_out"), (Side::MidiIn, "midi_in"), (Side::AudioOut, "out"), (Side::AudioIn, "in")] {
        for n in [0u32, 7, 12, 4294967295] {
            let r = parse_port(side, &format!("self:{n}")).unwrap();
            assert_eq!(r, PortRef::Own(side, n));
            assert_eq!(port_ref_name(&c, &foreign(), r), Some(format!("Pad:{kind}{n}")));
        }
    }
}

#[test]
fn keyboard_and_reaper_connections_are_kept() {
    let mut yml = empty_yml();
    yml.name = Some("K".to_string());
    yml.midi_connect = Some(vec![
        MidiConnect("keyboard".to_string(), "self:1".to_string()),
        MidiConnect("reaper:2".to_string(), "reaper:3".to_string()),
    ]);
    yml.audio_connect = Some(vec![AudioConnect("self:1".to_string(), "reaper:4".to_string())]);
    let mut c = make_config("X", 1, 0, 1, 1, 0);
    c.connections.push(("a".to_string(), "b".to_string()));
    let refs = apply_yml_config(&mut c, &yml).unwrap();
    connect_port_refs(&mut c, &refs, &foreign());
    assert_eq!(
        c.connections,
        vec![
            ("a".to_string(), "b".to_string()),
            ("kbd:out".to_string(), "K:midi_in1".to_string()),
            ("REAPER:MIDI Output 2".to_string(), "REAPER:MIDI Input 3".to_string()),
            ("K:out1".to_string(), "REAPER:in4".to_string()),
        ]
    );
}
