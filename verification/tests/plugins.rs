use da_core::csound_config::{ForeignPorts, MidiConnect, YmlConfig};
use da_core::interface::{Midi, NoteOff, NoteOn};
use da_core::plugin::{instrument_config, triggered_notes};
use da_core::webui::create_js;
use da_core::{kick, patch};

fn instrument_pairs(name: &str) -> Vec<(String, String)> {
    vec![
        (
            "a2j:A-Series Keyboard [28] (capture): A-Series Keyboard Keyboard".to_string(),
            format!("{name}:midi_in1"),
        ),
        (format!("{name}:out1"), "system:playback_9".to_string()),
    ]
}

#[test]
fn instrument_plugins() {
    for (c, name) in [
        (kick::init(), "Kick"),
        (patch::bass::init(), "Bass"),
        (patch::scratchpad::a01::init(), "a01"),
        (instrument_config("Z"), "Z"),
    ] {
        assert_eq!(c.name, name);
        assert_eq!(
            (c.upsampling_factor, c.num_in_channels, c.num_out_channels, c.num_midi_in_ports, c.num_midi_out_ports),
            (16, 0, 1, 1, 0)
        );
        assert_eq!(c.connections, instrument_pairs(name));
    }
}

#[test]
fn plugin_pages() {
    assert_eq!(create_js("CORE", "custom();"), "CORE\ncustom();\n");
    assert_eq!(kick::js("C"), "C\ncreateDefaultUI();\n");
    assert_eq!(patch::js("C"), "C\ncreateDefaultUI();\n");
    assert_eq!(patch::bass::js(""), "\ncreateDefaultUI();\n");
    assert_eq!(kick::html(), "");
    assert_eq!(kick::css(), "");
    assert_eq!(patch::html(), "");
    assert_eq!(patch::css(), "");
    assert_eq!(patch::csound::css(), "");
    assert_eq!(patch::scratchpad::a01::html(), "");
}

#[test]
fn csound_patch_configuration() {
    let yml = YmlConfig {
        name: Some("Pad".to_string()),
        upsample: Some(2),
        audio_in: None,
        audio_out: Some(2),
        midi_in: None,
        midi_out: None,
        midi_connect: Some(vec![MidiConnect("keyboard".to_string(), "self:1".to_string())]),
        audio_connect: None,
        param: None,
        midi_routing: None,
    };
    let foreign = ForeignPorts {
        keyboard_out: "kbd:out".to_string(),
        reaper_midi_out: "R:mo".to_string(),
        reaper_midi_in: "R:mi".to_string(),
        reaper_out: "R:o".to_string(),
        reaper_in: "R:i".to_string(),
    };
    let c = patch::init(&yml, &foreign).unwrap();
    assert_eq!(c.name, "Pad");
    assert_eq!((c.upsampling_factor, c.num_out_channels, c.num_midi_in_ports), (2, 2, 1));
    assert_eq!(c.connections, vec![("kbd:out".to_string(), "Pad:midi_in1".to_string())]);
    let d = patch::csound::init(&yml, &foreign).unwrap();
    assert_eq!(d.name, c.name);
    assert_eq!(d.connections, c.connections);
}

#[test]
fn notes_to_trigger() {
    let events = vec![
        Midi::On(NoteOn { port: 0, channel: 0, note: 36, velocity: 100 }),
        Midi::Off(NoteOff { port: 0, channel: 0, note: 36, velocity: 0 }),
        Midi::On(NoteOn { port: 0, channel: 1, note: 38, velocity: 1 }),
    ];
    assert_eq!(triggered_notes(&events), vec![36, 38]);
    assert_eq!(triggered_notes(&vec![]), Vec::<u8>::new());
}
