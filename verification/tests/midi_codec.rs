use da_core::interface::{Midi, NoteOff, NoteOn, CC, PB};
use da_core::midi_codec::{
    decode_midi, encode_midi, group_block_events, is_decodable, route_out_events, RawMidiEvent,
};

#[test]
fn decodes_channel_messages() {
    assert_eq!(
        decode_midi(2, &[0x93, 60, 100]),
        Some(Midi::On(NoteOn { port: 2, channel: 3, note: 60, velocity: 100 }))
    );
    assert_eq!(
        decode_midi(0, &[0x80, 61, 0]),
        Some(Midi::Off(NoteOff { port: 0, channel: 0, note: 61, velocity: 0 }))
    );
    assert_eq!(
        decode_midi(1, &[0xBF, 7, 127]),
        Some(Midi::CC(CC { port: 1, channel: 15, cc: 7, value: 127 }))
    );
    assert_eq!(
        decode_midi(0, &[0xE1, 0x7F, 0x7F]),
        Some(Midi::PB(PB { port: 0, channel: 1, value: 16383 }))
    );
    assert_eq!(decode_midi(0, &[0xE0, 0x00, 0x40]), Some(Midi::PB(PB { port: 0, channel: 0, value: 8192 })));
    assert_eq!(decode_midi(0, &[0xF8]), None);
    assert_eq!(decode_midi(0, &[0xA0, 1, 2]), None);
    assert_eq!(decode_midi(0, &[0xC0, 5]), None);
}

#[test]
fn decodable_needs_data_bytes() {
    assert!(is_decodable(&[0xF8]));
    assert!(is_decodable(&[0xC0, 5]));
    assert!(!is_decodable(&[0x90, 60]));
    assert!(!is_decodable(&[]));
    assert!(is_decodable(&[0x90, 60, 1]));
}

#[test]
fn encodes_events() {
    assert_eq!(encode_midi(&Midi::On(NoteOn { port: 0, channel: 3, note: 60, velocity: 100 })), vec![0x93, 60, 100]);
    assert_eq!(encode_midi(&Midi::Off(NoteOff { port: 0, channel: 0, note: 61, velocity: 5 })), vec![0x80, 61, 5]);
    assert_eq!(encode_midi(&Midi::CC(CC { port: 0, channel: 9, cc: 1, value: 64 })), vec![0xB9, 1, 64]);
    // the pitch bend goes out high seven bits first
    assert_eq!(encode_midi(&Midi::PB(PB { port: 0, channel: 0, value: 8192 })), vec![0xE0, 64, 0]);
    assert_eq!(encode_midi(&Midi::PB(PB { port: 0, channel: 0, value: 300 })), vec![0xE0, 2, 44]);
    assert_eq!(encode_midi(&Midi::PB(PB { port: 0, channel: 0, value: 32895 })), vec![0xE0, 255, 127]);
}

#[test]
fn note_events_round_trip() {
    for m in [
        Midi::On(NoteOn { port: 4, channel: 15, note: 127, velocity: 1 }),
        Midi::Off(NoteOff { port: 0, channel: 0, note: 0, velocity: 0 }),
        Midi::CC(CC { port: 1, channel: 7, cc: 74, value: 99 }),
    ] {
        let port = match m {
            Midi::On(e) => e.port,
            Midi::Off(e) => e.port,
            Midi::CC(e) => e.port,
            Midi::PB(e) => e.port,
        };
        assert_eq!(decode_midi(port, &encode_midi(&m)), Some(m));
    }
}

#[test]
fn pitch_bend_round_trip_swaps_halves() {
    let bytes = encode_midi(&Midi::PB(PB { port: 0, channel: 2, value: 300 }));
    // 300 = 2 * 128 + 44 comes back as 44 * 128 + 2
    assert_eq!(decode_midi(0, &bytes), Some(Midi::PB(PB { port: 0, channel: 2, value: 44 * 128 + 2 })));
    let bytes = encode_midi(&Midi::PB(PB { port: 0, channel: 2, value: 129 }));
    assert_eq!(decode_midi(0, &bytes), Some(Midi::PB(PB { port: 0, channel: 2, value: 129 })));
}

fn raw(time: u32, bytes: &[u8]) -> RawMidiEvent {
    RawMidiEvent { time, bytes: bytes.to_vec() }
}

#[test]
fn groups_block_events_by_scaled_frame() {
    let ports = vec![
        vec![raw(0, &[0x90, 60, 100]), raw(3, &[0xF8]), raw(3, &[0x80, 60, 0])],
        vec![raw(0, &[0xB0, 1, 2]), raw(1, &[0x91, 62, 90])],
    ];
    let g = group_block_events(&ports, 4);
    assert_eq!(g.len(), 3);
    assert_eq!(
        g[&0],
        vec![
            Midi::On(NoteOn { port: 0, channel: 0, note: 60, velocity: 100 }),
            Midi::CC(CC { port: 1, channel: 0, cc: 1, value: 2 }),
        ]
    );
    assert_eq!(g[&12], vec![Midi::Off(NoteOff { port: 0, channel: 0, note: 60, velocity: 0 })]);
    assert_eq!(g[&4], vec![Midi::On(NoteOn { port: 1, channel: 1, note: 62, velocity: 90 })]);
    assert!(group_block_events(&vec![], 1).is_empty());
}

#[test]
fn routes_out_events_to_their_ports() {
    let mut outs: Vec<Vec<RawMidiEvent>> = vec![vec![], vec![raw(1, &[0xF8])]];
    let events = vec![
        Midi::On(NoteOn { port: 1, channel: 2, note: 64, velocity: 10 }),
        Midi::CC(CC { port: 0, channel: 0, cc: 7, value: 100 }),
        Midi::Off(NoteOff { port: 1, channel: 2, note: 64, velocity: 0 }),
    ];
    route_out_events(&mut outs, &events, 13, 4);
    assert_eq!(outs[0].len(), 1);
    assert_eq!(outs[0][0].time, 3);
    assert_eq!(outs[0][0].bytes, vec![0xB0, 7, 100]);
    assert_eq!(outs[1].len(), 3);
    assert_eq!(outs[1][0].bytes, vec![0xF8]);
    assert_eq!((outs[1][1].time, outs[1][1].bytes.clone()), (3, vec![0x92, 64, 10]));
    assert_eq!((outs[1][2].time, outs[1][2].bytes.clone()), (3, vec![0x82, 64, 0]));
}
