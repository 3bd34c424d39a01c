//! What the plugins share: the configuration that a simple plugin starts
//! with, and the notes that the incoming note-on events ask it to play.
use vstd::prelude::*;
use crate::interface::{connect, connection_views, keyboard_in, make_config, own_port_name, self_midi_in,
    self_out, system_playback, Config, Midi};
use crate::text::decimal;

verus! {

/// Whether `c` is a configuration with the given name and sizes.
pub open spec fn has_settings(c: Config, name: Seq<char>, factor: u32, ins: u32, outs: u32, midi_ins: u32, midi_outs: u32) -> bool {
    &&& c.name@ == name
    &&& c.upsampling_factor == factor
    &&& c.num_in_channels == ins
    &&& c.num_out_channels == outs
    &&& c.num_midi_in_ports == midi_ins
    &&& c.num_midi_out_ports == midi_outs
}

/// The connections of a simple instrument plugin named `name`: the keyboard
/// into its first MIDI input, its first output into the ninth playback channel.
pub open spec fn instrument_connections(name: Seq<char>) -> Seq<(Seq<char>, Seq<char>)> {
    seq![
        ("a2j:A-Series Keyboard [28] (capture): A-Series Keyboard Keyboard"@, own_port_name(name, "midi_in"@, 1)),
        (own_port_name(name, "out"@, 1), "system:playback_"@ + decimal(9)),
    ]
}

/// The configuration of a simple instrument plugin: upsampled 16 times, no
/// audio input, one audio output, one MIDI input and no MIDI output, played
/// from the keyboard into the ninth playback channel.
pub fn instrument_config(name: &str) -> (c: Config)
    ensures
        has_settings(c, name@, 16, 0, 1, 1, 0),
        connection_views(c.connections@) == instrument_connections(name@),
{
    let mut c = make_config(name, 16, 0, 1, 1, 0);
    let from = keyboard_in();
    let to = self_midi_in(&c, 1);
    connect(&mut c, from, to);
    let from = self_out(&c, 1);
    let to = system_playback(9);
    connect(&mut c, from, to);
    assert(connection_views(c.connections@) =~= instrument_connections(name@));
    c
}

/// The notes of the note-on events, in order.
pub open spec fn spec_triggered_notes(events: Seq<Midi>) -> Seq<u8>
    decreases events.len(),
{
    if events.len() == 0 {
        Seq::empty()
    } else {
        let done = spec_triggered_notes(events.drop_last());
        match events.last() {
            Midi::On(e) => done.push(e.note),
            _ => done,
        }
    }
}

/// The notes of the note-on events, in order: each one starts an instrument instance.
pub fn triggered_notes(events: &Vec<Midi>) -> (notes: Vec<u8>)
    ensures
        notes@ == spec_triggered_notes(events@),
{
    let mut notes: Vec<u8> = Vec::new();
    let mut k: usize = 0;
    while k < events.len()
        invariant
            k <= events.len(),
            notes@ == spec_triggered_notes(events@.take(k as int)),
        decreases events.len() - k,
    {
        assert(events@.take(k + 1).drop_last() =~= events@.take(k as int));
        match events[k] {
            Midi::On(e) => notes.push(e.note),
            _ => {},
        }
        k = k + 1;
    }
    assert(events@.take(k as int) =~= events@);
    notes
}

} // verus!
