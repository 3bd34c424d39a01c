use da_core::interface::{Midi, NoteOff, NoteOn, CC, PB};
use da_core::midi_routing::{
    control_channel_name, initial_mode_data, process_midi, routing_table, step, Action,
    InstrEvent, MidiRouting, MidiRoutingAndModeData, Mode, ModeData,
};

fn on(channel: u8, note: u8, velocity: u8) -> Midi {
    Midi::On(NoteOn { port: 0, channel, note, velocity })
}

fn off(channel: u8, note: u8, velocity: u8) -> Midi {
    Midi::Off(NoteOff { port: 0, channel, note, velocity })
}

fn routed(mode: Mode, instr: u16) -> MidiRoutingAndModeData {
    MidiRoutingAndModeData { mr: MidiRouting { mode, channel: 0, instr }, md: initial_mode_data(mode) }
}

fn ev(instr: u16, frac_num: i32, frac_den: u32, negated: bool, p3: i8, status: Option<u8>, note: u8, velocity: u8) -> Action {
    Action::Event(InstrEvent { instr, frac_num, frac_den, negated, p3, status, note, velocity })
}

#[test]
fn initial_states() {
    assert_eq!(initial_mode_data(Mode::Midi), ModeData::Midi);
    assert_eq!(initial_mode_data(Mode::Mono), ModeData::Mono(None));
    assert_eq!(initial_mode_data(Mode::Poly), ModeData::Poly);
    assert_eq!(initial_mode_data(Mode::PolyTrig), ModeData::PolyTrig(0));
}

#[test]
fn midi_mode_passes_status() {
    let r = routed(Mode::Midi, 3);
    assert_eq!(step(r, &on(0, 60, 100)), (r, ev(3, 0, 1, false, 0, Some(144), 60, 100)));
    assert_eq!(step(r, &off(0, 60, 20)), (r, ev(3, 0, 1, false, 0, Some(128), 60, 20)));
}

#[test]
fn mono_mode_holds_one_note() {
    let r = routed(Mode::Mono, 2);
    let (r1, a1) = step(r, &on(0, 60, 100));
    assert_eq!(a1, ev(2, 0, 1, false, -1, None, 60, 100));
    assert_eq!(r1.md, ModeData::Mono(Some(60)));
    assert_eq!(step(r1, &off(0, 61, 0)), (r1, Action::Nothing));
    let (r2, a2) = step(r1, &off(0, 60, 7));
    assert_eq!(a2, ev(2, 0, 1, true, 0, None, 60, 7));
    assert_eq!(r2.md, ModeData::Mono(None));
    assert_eq!(step(r2, &off(0, 60, 7)), (r2, Action::Nothing));
}

#[test]
fn poly_mode_numbers_instances_by_note() {
    let r = routed(Mode::Poly, 5);
    assert_eq!(step(r, &on(0, 64, 90)), (r, ev(5, 64, 1000, false, -1, None, 64, 90)));
    assert_eq!(step(r, &off(0, 64, 0)), (r, ev(5, 64, 1000, true, -1, None, 64, 0)));
}

#[test]
fn poly_trig_counts_instances() {
    let r = routed(Mode::PolyTrig, 1);
    let (r1, a1) = step(r, &on(0, 60, 1));
    assert_eq!(a1, ev(1, 1, 10000, false, -1, None, 60, 1));
    assert_eq!(r1.md, ModeData::PolyTrig(1));
    assert_eq!(step(r1, &off(0, 60, 1)), (r1, Action::Nothing));
    let full = MidiRoutingAndModeData { mr: r.mr, md: ModeData::PolyTrig(10000) };
    let (r2, a2) = step(full, &on(0, 61, 2));
    assert_eq!(a2, ev(1, 1, 10000, false, -1, None, 61, 2));
    assert_eq!(r2.md, ModeData::PolyTrig(1));
    let below = MidiRoutingAndModeData { mr: r.mr, md: ModeData::PolyTrig(-5) };
    let (r3, a3) = step(below, &on(0, 62, 3));
    assert_eq!(a3, ev(1, -4, 10000, false, -1, None, 62, 3));
    assert_eq!(r3.md, ModeData::PolyTrig(-4));
}

#[test]
fn control_changes_and_bends() {
    for mode in [Mode::Midi, Mode::Mono, Mode::Poly, Mode::PolyTrig] {
        let r = routed(mode, 1);
        let cc = Midi::CC(CC { port: 0, channel: 4, cc: 74, value: 33 });
        assert_eq!(step(r, &cc), (r, Action::Control { channel: 4, cc: 74, value: 33 }));
        let pb = Midi::PB(PB { port: 0, channel: 4, value: 1 });
        assert_eq!(step(r, &pb), (r, Action::Nothing));
    }
    assert_eq!(control_channel_name(4, 74), "4:74");
    assert_eq!(control_channel_name(15, 0), "15:0");
}

#[test]
fn table_by_channel() {
    let table = routing_table(&vec![
        MidiRouting { mode: Mode::Mono, channel: 2, instr: 10 },
        MidiRouting { mode: Mode::Poly, channel: 5, instr: 11 },
        MidiRouting { mode: Mode::PolyTrig, channel: 2, instr: 12 },
    ]);
    assert_eq!(table[0], None);
    assert_eq!(
        table[2],
        Some(MidiRoutingAndModeData { mr: MidiRouting { mode: Mode::PolyTrig, channel: 2, instr: 12 }, md: ModeData::PolyTrig(0) })
    );
    assert_eq!(
        table[5],
        Some(MidiRoutingAndModeData { mr: MidiRouting { mode: Mode::Poly, channel: 5, instr: 11 }, md: ModeData::Poly })
    );
    assert_eq!(process_midi(&table, &on(5, 60, 1)), ev(11, 60, 1000, false, -1, None, 60, 1));
    assert_eq!(process_midi(&table, &on(3, 60, 1)), Action::Nothing);
    // the table is not written: a counter starts from its initial value each time
    assert_eq!(process_midi(&table, &on(2, 60, 1)), ev(12, 1, 10000, false, -1, None, 60, 1));
    assert_eq!(process_midi(&table, &on(2, 61, 1)), ev(12, 1, 10000, false, -1, None, 61, 1));
}
