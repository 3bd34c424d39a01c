use da_core::interface::{
    connect, keyboard_in, make_config, self_in, self_midi_in, self_midi_out, self_out,
    system_capture, system_playback, Config,
};

#[test]
fn config_new_sets_fields() {
    let c = Config::new("Kick", 16, 2, 1, 1, 0);
    assert_eq!(c.name, "Kick");
    assert_eq!(c.upsampling_factor, 16);
    assert_eq!(c.num_in_channels, 2);
    assert_eq!(c.num_out_channels, 1);
    assert_eq!(c.num_midi_in_ports, 1);
    assert_eq!(c.num_midi_out_ports, 0);
    assert!(c.connections.is_empty());
}

#[test]
fn port_names() {
    let c = make_config("Bass", 16, 0, 1, 1, 0);
    assert_eq!(self_in(&c, 1), "Bass:in1");
    assert_eq!(self_out(&c, 12), "Bass:out12");
    assert_eq!(self_midi_in(&c, 0), "Bass:midi_in0");
    assert_eq!(self_midi_out(&c, 4294967295), "Bass:midi_out4294967295");
    assert_eq!(system_capture(3), "system:capture_3");
    assert_eq!(system_playback(9), "system:playback_9");
    assert_eq!(
        keyboard_in(),
        "a2j:A-Series Keyboard [28] (capture): A-Series Keyboard Keyboard"
    );
}

#[test]
fn connect_appends() {
    let mut c = make_config("X", 1, 0, 1, 1, 0);
    connect(&mut c, "a".to_string(), "b".to_string());
    connect(&mut c, "c".to_string(), "d".to_string());
    assert_eq!(
        c.connections,
        vec![("a".to_string(), "b".to_string()), ("c".to_string(), "d".to_string())]
    );
    assert_eq!(c.name, "X");
}
