//! How the Csound plugin turns the MIDI events of a channel into score events
//! and control-channel changes, by the mode that the channel is routed in.
use vstd::prelude::*;
use crate::interface::Midi;
use crate::text::{decimal, push_chars, render_decimal, string_of};

verus! {

/// How the notes of a channel are played.
#[derive(Copy, Clone, PartialEq, Eq, Debug, Structural)]
pub enum Mode {
    /// Every note event starts an instance that gets the MIDI status as a p-field.
    Midi,
    /// One held instance per channel; a note-off ends it only for the last note.
    Mono,
    /// One held instance per note, numbered by the note.
    Poly,
    /// One instance per note-on, numbered by a running counter.
    PolyTrig,
}

/// The state that a mode keeps between events.
#[derive(Copy, Clone, PartialEq, Eq, Debug, Structural)]
pub enum ModeData {
    Midi,
    /// The note that is sounding, if any.
    Mono(Option<u8>),
    Poly,
    /// The number of the last instance started.
    PolyTrig(i32),
}

/// The routing of a MIDI channel to a Csound instrument.
#[derive(Copy, Clone, PartialEq, Eq, Debug, Structural)]
pub struct MidiRouting {
    pub mode: Mode,
    pub channel: u8,
    pub instr: u16,
}

/// A routing together with the state of its mode.
#[derive(Copy, Clone, PartialEq, Eq, Debug, Structural)]
pub struct MidiRoutingAndModeData {
    pub mr: MidiRouting,
    pub md: ModeData,
}

/// A score event for an instrument instance. The first p-field is
/// `instr + frac_num / frac_den`, negated when `negated` (which ends a held
/// instance); then `0`, `p3`, the MIDI status when there is one, the note,
/// and the velocity (0 to 127 stands for 0.0 to 1.0).
#[derive(Copy, Clone, PartialEq, Eq, Debug, Structural)]
pub struct InstrEvent {
    pub instr: u16,
    pub frac_num: i32,
    pub frac_den: u32,
    pub negated: bool,
    pub p3: i8,
    pub status: Option<u8>,
    pub note: u8,
    pub velocity: u8,
}

/// What the plugin does for an event.
#[derive(Copy, Clone, PartialEq, Eq, Debug, Structural)]
pub enum Action {
    Nothing,
    /// Send this score event.
    Event(InstrEvent),
    /// Set the control channel `{channel}:{cc}` to `value` (0 to 127 stands for 0.0 to 1.0).
    Control { channel: u8, cc: u8, value: u8 },
}

/// The state that a routing starts in.
pub open spec fn spec_initial_mode_data(mode: Mode) -> ModeData {
    match mode {
        Mode::Midi => ModeData::Midi,
        Mode::Mono => ModeData::Mono(None),
        Mode::Poly => ModeData::Poly,
        Mode::PolyTrig => ModeData::PolyTrig(0),
    }
}

/// The state that a routing starts in.
pub fn initial_mode_data(mode: Mode) -> (md: ModeData)
    ensures
        md == spec_initial_mode_data(mode),
{
    match mode {
        Mode::Midi => ModeData::Midi,
        Mode::Mono => ModeData::Mono(None),
        Mode::Poly => ModeData::Poly,
        Mode::PolyTrig => ModeData::PolyTrig(0),
    }
}

/// A score event with a plain instrument number.
pub open spec fn plain_event(instr: u16, negated: bool, p3: i8, status: Option<u8>, note: u8, velocity: u8) -> InstrEvent {
    InstrEvent { instr, frac_num: 0, frac_den: 1, negated, p3, status, note, velocity }
}

/// The control-channel action for a control change.
pub open spec fn control_of(m: Midi) -> Action {
    match m {
        Midi::CC(e) => Action::Control { channel: e.channel, cc: e.cc, value: e.value },
        _ => Action::Nothing,
    }
}

/// The next counter of a `PolyTrig` routing: back to 0 from 10000 on, then one more.
pub open spec fn next_counter(counter: i32) -> i32 {
    if counter >= 10000 {
        1
    } else {
        (counter + 1) as i32
    }
}

/// The routing's new state and the action for event `m` on the routed channel.
pub open spec fn spec_step(r: MidiRoutingAndModeData, m: Midi) -> (MidiRoutingAndModeData, Action) {
    let instr = r.mr.instr;
    match r.mr.mode {
        Mode::Midi => match m {
            Midi::On(e) => (r, Action::Event(plain_event(instr, false, 0, Some(144), e.note, e.velocity))),
            Midi::Off(e) => (r, Action::Event(plain_event(instr, false, 0, Some(128), e.note, e.velocity))),
            Midi::CC(_) => (r, control_of(m)),
            Midi::PB(_) => (r, Action::Nothing),
        },
        Mode::Mono => match m {
            Midi::On(e) => (
                MidiRoutingAndModeData { mr: r.mr, md: ModeData::Mono(Some(e.note)) },
                Action::Event(plain_event(instr, false, -1i8, None, e.note, e.velocity)),
            ),
            Midi::Off(e) => if r.md == ModeData::Mono(Some(e.note)) {
                (
                    MidiRoutingAndModeData { mr: r.mr, md: ModeData::Mono(None) },
                    Action::Event(plain_event(instr, true, 0, None, e.note, e.velocity)),
                )
            } else {
                (r, Action::Nothing)
            },
            Midi::CC(_) => (r, control_of(m)),
            Midi::PB(_) => (r, Action::Nothing),
        },
        Mode::Poly => match m {
            Midi::On(e) => (
                r,
                Action::Event(
                    InstrEvent {
                        instr,
                        frac_num: e.note as i32,
                        frac_den: 1000,
                        negated: false,
                        p3: -1i8,
                        status: None,
                        note: e.note,
                        velocity: e.velocity,
                    },
                ),
            ),
            Midi::Off(e) => (
                r,
                Action::Event(
                    InstrEvent {
                        instr,
                        frac_num: e.note as i32,
                        frac_den: 1000,
                        negated: true,
                        p3: -1i8,
                        status: None,
                        note: e.note,
                        velocity: e.velocity,
                    },
                ),
            ),
            Midi::CC(_) => (r, control_of(m)),
            Midi::PB(_) => (r, Action::Nothing),
        },
        Mode::PolyTrig => match m {
            Midi::On(e) => match r.md {
                ModeData::PolyTrig(counter) => {
                    let c = next_counter(counter);
                    (
                        MidiRoutingAndModeData { mr: r.mr, md: ModeData::PolyTrig(c) },
                        Action::Event(
                            InstrEvent {
                                instr,
                                frac_num: c,
                                frac_den: 10000,
                                negated: false,
                                p3: -1i8,
                                status: None,
                                note: e.note,
                                velocity: e.velocity,
                            },
                        ),
                    )
                },
                _ => (r, Action::Nothing),
            },
            Midi::CC(_) => (r, control_of(m)),
            _ => (r, Action::Nothing),
        },
    }
}

fn control_action(m: &Midi) -> (a: Action)
    ensures
        a == control_of(*m),
{
    match m {
        Midi::CC(e) => Action::Control { channel: e.channel, cc: e.cc, value: e.value },
        _ => Action::Nothing,
    }
}

/// The routing's new state and the action for event `m` on the routed channel.
pub fn step(r: MidiRoutingAndModeData, m: &Midi) -> (res: (MidiRoutingAndModeData, Action))
    ensures
        res == spec_step(r, *m),
{
    let instr = r.mr.instr;
    match r.mr.mode {
        Mode::Midi => match m {
            Midi::On(e) => (r, Action::Event(InstrEvent { instr, frac_num: 0, frac_den: 1, negated: false, p3: 0, status: Some(144), note: e.note, velocity: e.velocity })),
            Midi::Off(e) => (r, Action::Event(InstrEvent { instr, frac_num: 0, frac_den: 1, negated: false, p3: 0, status: Some(128), note: e.note, velocity: e.velocity })),
            Midi::CC(_) => (r, control_action(m)),
            Midi::PB(_) => (r, Action::Nothing),
        },
        Mode::Mono => match m {
            Midi::On(e) => (
                MidiRoutingAndModeData { mr: r.mr, md: ModeData::Mono(Some(e.note)) },
                Action::Event(InstrEvent { instr, frac_num: 0, frac_den: 1, negated: false, p3: -1i8, status: None, note: e.note, velocity: e.velocity }),
            ),
            Midi::Off(e) => {
                let sounding = match r.md {
                    ModeData::Mono(Some(note)) => note == e.note,
                    _ => false,
                };
                if sounding {
                    (
                        MidiRoutingAndModeData { mr: r.mr, md: ModeData::Mono(None) },
                        Action::Event(InstrEvent { instr, frac_num: 0, frac_den: 1, negated: true, p3: 0, status: None, note: e.note, velocity: e.velocity }),
                    )
                } else {
                    (r, Action::Nothing)
                }
            },
            Midi::CC(_) => (r, control_action(m)),
            Midi::PB(_) => (r, Action::Nothing),
        },
        Mode::Poly => match m {
            Midi::On(e) => (r, Action::Event(InstrEvent { instr, frac_num: e.note as i32, frac_den: 1000, negated: false, p3: -1i8, status: None, note: e.note, velocity: e.velocity })),
            Midi::Off(e) => (r, Action::Event(InstrEvent { instr, frac_num: e.note as i32, frac_den: 1000, negated: true, p3: -1i8, status: None, note: e.note, velocity: e.velocity })),
            Midi::CC(_) => (r, control_action(m)),
            Midi::PB(_) => (r, Action::Nothing),
        },
        Mode::PolyTrig => match m {
            Midi::On(e) => match r.md {
                ModeData::PolyTrig(counter) => {
                    let mut c = counter;
                    if c >= 10000 {
                        c = 0;
                    }
                    c = c + 1;
                    (
                        MidiRoutingAndModeData { mr: r.mr, md: ModeData::PolyTrig(c) },
                        Action::Event(InstrEvent { instr, frac_num: c, frac_den: 10000, negated: false, p3: -1i8, status: None, note: e.note, velocity: e.velocity }),
                    )
                },
                _ => (r, Action::Nothing),
            },
            Midi::CC(_) => (r, control_action(m)),
            _ => (r, Action::Nothing),
        },
    }
}

/// The action for event `m` by the routing table, one slot per MIDI channel.
/// The table is read, not written: the state that a mode would keep after the
/// event is not kept.
pub fn process_midi(routings: &[Option<MidiRoutingAndModeData>; 16], m: &Midi) -> (a: Action)
    requires
        m.channel_of() < 16,
    ensures
        a == match routings@[m.channel_of() as int] {
            Some(r) => spec_step(r, *m).1,
            None => Action::Nothing,
        },
{
    let ch = m.channel() as usize;
    match routings[ch] {
        Some(r) => step(r, m).1,
        None => Action::Nothing,
    }
}

/// The routing table for `routings`: each routing, with its initial state, in
/// the slot of its channel; a later routing for a channel replaces an earlier one.
pub open spec fn spec_routing_table(routings: Seq<MidiRouting>) -> Seq<Option<MidiRoutingAndModeData>>
    decreases routings.len(),
{
    if routings.len() == 0 {
        Seq::new(16, |i: int| None)
    } else {
        let r = routings.last();
        spec_routing_table(routings.drop_last()).update(
            r.channel as int,
            Some(MidiRoutingAndModeData { mr: r, md: spec_initial_mode_data(r.mode) }),
        )
    }
}

/// The routing table for `routings`.
pub fn routing_table(routings: &Vec<MidiRouting>) -> (t: [Option<MidiRoutingAndModeData>; 16])
    requires
        forall|k: int| 0 <= k < routings@.len() ==> (#[trigger] routings@[k]).channel < 16,
    ensures
        t@ == spec_routing_table(routings@),
{
    let mut t: [Option<MidiRoutingAndModeData>; 16] = [None; 16];
    assert(t@ =~= spec_routing_table(routings@.take(0)));
    let mut k: usize = 0;
    while k < routings.len()
        invariant
            k <= routings.len(),
            forall|j: int| 0 <= j < routings@.len() ==> (#[trigger] routings@[j]).channel < 16,
            t@ == spec_routing_table(routings@.take(k as int)),
        decreases routings.len() - k,
    {
        let r = routings[k];
        assert(routings@[k as int].channel < 16);
        t[r.channel as usize] = Some(MidiRoutingAndModeData { mr: r, md: initial_mode_data(r.mode) });
        assert(routings@.take(k + 1).drop_last() =~= routings@.take(k as int));
        assert(t@ =~= spec_routing_table(routings@.take(k + 1)));
        k = k + 1;
    }
    assert(routings@.take(k as int) =~= routings@);
    t
}

/// The name of the control channel for controller `cc` on channel `channel`: `{channel}:{cc}`.
pub fn control_channel_name(channel: u8, cc: u8) -> (s: String)
    ensures
        s@ == decimal(channel as nat) + seq![':'] + decimal(cc as nat),
{
    let mut v = render_decimal(channel as u64);
    v.push(':');
    let d = render_decimal(cc as u64);
    push_chars(&mut v, &d);
    string_of(&v)
}

// ---------------------------------------------------------------------------
// Laws
// ---------------------------------------------------------------------------

/// In `Mono` mode a note-off for the note that was last played ends the held
/// instance (the negated instrument number, with the note and velocity of the
/// note-off) and leaves no note sounding.
pub proof fn law_mono_note_off_after_note_on(r: MidiRoutingAndModeData, on: crate::interface::NoteOn, off: crate::interface::NoteOff)
    requires
        r.mr.mode == Mode::Mono,
        off.note == on.note,
    ensures
        ({
            let (r1, a1) = spec_step(r, Midi::On(on));
            let (r2, a2) = spec_step(r1, Midi::Off(off));
            &&& a1 == Action::Event(plain_event(r.mr.instr, false, -1i8, None, on.note, on.velocity))
            &&& a2 == Action::Event(plain_event(r.mr.instr, true, 0, None, off.note, off.velocity))
            &&& r2.md == ModeData::Mono(None)
            &&& r2.mr == r.mr
        }),
{
}

/// In `Mono` mode a note-off for another note than the one last played does nothing.
pub proof fn law_mono_other_note_off(r: MidiRoutingAndModeData, on: crate::interface::NoteOn, off: crate::interface::NoteOff)
    requires
        r.mr.mode == Mode::Mono,
        off.note != on.note,
    ensures
        ({
            let (r1, _) = spec_step(r, Midi::On(on));
            spec_step(r1, Midi::Off(off)) == (r1, Action::Nothing)
        }),
{
}

/// In `Poly` mode the note-off for a note ends exactly the instance that its
/// note-on started: the same instrument number, negated.
pub proof fn law_poly_off_ends_on(r: MidiRoutingAndModeData, on: crate::interface::NoteOn, off: crate::interface::NoteOff)
    requires
        r.mr.mode == Mode::Poly,
        off.note == on.note,
    ensures
        ({
            let a1 = spec_step(r, Midi::On(on)).1;
            let a2 = spec_step(spec_step(r, Midi::On(on)).0, Midi::Off(off)).1;
            &&& a1 is Event && a2 is Event
            &&& a1->Event_0.instr == a2->Event_0.instr
            &&& a1->Event_0.frac_num == a2->Event_0.frac_num
            &&& a1->Event_0.frac_den == a2->Event_0.frac_den
            &&& !a1->Event_0.negated && a2->Event_0.negated
        }),
{
}

/// A `PolyTrig` counter that starts in `0 ..= 10000` stays in `1 ..= 10000`,
/// so the instance numbers stay below `instr + 1`.
pub proof fn law_poly_trig_counter_bounded(r: MidiRoutingAndModeData, m: Midi)
    requires
        r.mr.mode == Mode::PolyTrig,
        r.md matches ModeData::PolyTrig(c) && 0 <= c <= 10000,
        m is On,
    ensures
        spec_step(r, m).0.md matches ModeData::PolyTrig(c) && 1 <= c <= 10000,
{
}

/// Control changes set the control channel of the event's channel and
/// controller in every mode, and leave the routing's state unchanged.
pub proof fn law_control_change(r: MidiRoutingAndModeData, e: crate::interface::CC)
    ensures
        spec_step(r, Midi::CC(e)) == (r, Action::Control { channel: e.channel, cc: e.cc, value: e.value }),
{
}

/// Pitch bends do nothing in any mode.
pub proof fn law_pitch_bend_ignored(r: MidiRoutingAndModeData, e: crate::interface::PB)
    ensures
        spec_step(r, Midi::PB(e)) == (r, Action::Nothing),
{
}

} // verus!
verus! {

/// In `Midi` mode every note event starts an instance of the routed
/// instrument with `p3 = 0`, the note and the velocity, and with the MIDI
/// status of its kind as a p-field: 144 for a note-on and 128 for a note-off,
/// whatever the event's channel; the routing's state is unchanged.
pub proof fn law_midi_mode_status(r: MidiRoutingAndModeData, on: crate::interface::NoteOn, off: crate::interface::NoteOff)
    requires
        r.mr.mode == Mode::Midi,
    ensures
        spec_step(r, Midi::On(on)) == (r, Action::Event(InstrEvent {
            instr: r.mr.instr,
            frac_num: 0,
            frac_den: 1,
            negated: false,
            p3: 0,
            status: Some(144u8),
            note: on.note,
            velocity: on.velocity,
        })),
        spec_step(r, Midi::Off(off)) == (r, Action::Event(InstrEvent {
            instr: r.mr.instr,
            frac_num: 0,
            frac_den: 1,
            negated: false,
            p3: 0,
            status: Some(128u8),
            note: off.note,
            velocity: off.velocity,
        })),
{
}

/// In `Mono` mode a note-on starts a held instance of the routed instrument
/// (`p3 = -1`, no status) and remembers its note; in `Poly` mode a note-on
/// starts the held instance `instr + note / 1000` and its note-off ends it;
/// in `PolyTrig` mode a note-on starts instance `instr + c / 10000` with the
/// next counter `c`.
pub proof fn law_note_on_instances(r: MidiRoutingAndModeData, on: crate::interface::NoteOn, off: crate::interface::NoteOff)
    ensures
        r.mr.mode == Mode::Mono ==> spec_step(r, Midi::On(on)) == (
            MidiRoutingAndModeData { mr: r.mr, md: ModeData::Mono(Some(on.note)) },
            Action::Event(InstrEvent {
                instr: r.mr.instr,
                frac_num: 0,
                frac_den: 1,
                negated: false,
                p3: -1i8,
                status: None,
                note: on.note,
                velocity: on.velocity,
            }),
        ),
        r.mr.mode == Mode::Poly ==> spec_step(r, Midi::On(on)) == (r, Action::Event(InstrEvent {
            instr: r.mr.instr,
            frac_num: on.note as i32,
            frac_den: 1000,
            negated: false,
            p3: -1i8,
            status: None,
            note: on.note,
            velocity: on.velocity,
        })),
        r.mr.mode == Mode::Poly ==> spec_step(r, Midi::Off(off)) == (r, Action::Event(InstrEvent {
            instr: r.mr.instr,
            frac_num: off.note as i32,
            frac_den: 1000,
            negated: true,
            p3: -1i8,
            status: None,
            note: off.note,
            velocity: off.velocity,
        })),
        r.mr.mode == Mode::PolyTrig ==> (r.md matches ModeData::PolyTrig(c) ==> {
            let n: i32 = if c >= 10000 { 1i32 } else { (c + 1) as i32 };
            spec_step(r, Midi::On(on)) == (
                MidiRoutingAndModeData { mr: r.mr, md: ModeData::PolyTrig(n) },
                Action::Event(InstrEvent {
                    instr: r.mr.instr,
                    frac_num: n,
                    frac_den: 10000,
                    negated: false,
                    p3: -1i8,
                    status: None,
                    note: on.note,
                    velocity: on.velocity,
                }),
            )
        }),
{
}

/// The table has one slot per MIDI channel.
proof fn lemma_table_len(routings: Seq<MidiRouting>)
    requires
        forall|k: int| 0 <= k < routings.len() ==> (#[trigger] routings[k]).channel < 16,
    ensures
        spec_routing_table(routings).len() == 16,
    decreases routings.len(),
{
    if routings.len() > 0 {
        let init = routings.drop_last();
        assert forall|k: int| 0 <= k < init.len() implies (#[trigger] init[k]).channel < 16 by {
            assert(init[k] == routings[k]);
        }
        lemma_table_len(init);
        assert(routings[routings.len() - 1] == routings.last());
    }
}

/// A slot that no routing names is empty.
proof fn lemma_table_none_at(routings: Seq<MidiRouting>, c: int)
    requires
        0 <= c < 16,
        forall|k: int| 0 <= k < routings.len() ==> (#[trigger] routings[k]).channel < 16,
        forall|j: int| 0 <= j < routings.len() ==> (#[trigger] routings[j]).channel != c,
    ensures
        spec_routing_table(routings)[c] is None,
    decreases routings.len(),
{
    if routings.len() > 0 {
        let init = routings.drop_last();
        assert forall|k: int| 0 <= k < init.len() implies (#[trigger] init[k]).channel < 16 && init[k].channel != c by {
            assert(init[k] == routings[k]);
        }
        assert(routings[routings.len() - 1] == routings.last());
        lemma_table_len(init);
        lemma_table_none_at(init, c);
    }
}

/// The routing `routings[k]`, when no later routing names its channel, is in
/// its channel's slot with the state that its mode starts in.
proof fn lemma_table_kept_at(routings: Seq<MidiRouting>, k: int)
    requires
        0 <= k < routings.len(),
        forall|i: int| 0 <= i < routings.len() ==> (#[trigger] routings[i]).channel < 16,
        forall|j: int| k < j < routings.len() ==> (#[trigger] routings[j]).channel != routings[k].channel,
    ensures
        spec_routing_table(routings)[routings[k].channel as int] == Some(
            MidiRoutingAndModeData { mr: routings[k], md: spec_initial_mode_data(routings[k].mode) },
        ),
    decreases routings.len(),
{
    let init = routings.drop_last();
    let n = routings.len() - 1;
    assert(routings[n] == routings.last());
    assert forall|i: int| 0 <= i < init.len() implies (#[trigger] init[i]).channel < 16 by {
        assert(init[i] == routings[i]);
    }
    lemma_table_len(init);
    if k < n {
        assert(init[k] == routings[k]);
        assert forall|j: int| k < j < init.len() implies (#[trigger] init[j]).channel != init[k].channel by {
            assert(init[j] == routings[j]);
        }
        lemma_table_kept_at(init, k);
    }
}

/// Each routing that no later routing of its channel replaces is in its slot.
proof fn lemma_table_kept(routings: Seq<MidiRouting>)
    requires
        forall|k: int| 0 <= k < routings.len() ==> (#[trigger] routings[k]).channel < 16,
    ensures
        forall|k: int|
            0 <= k < routings.len() && (forall|j: int| k < j < routings.len() ==> (#[trigger] routings[j]).channel
                != routings[k].channel) ==> spec_routing_table(routings)[(#[trigger] routings[k]).channel as int]
                == Some(MidiRoutingAndModeData { mr: routings[k], md: spec_initial_mode_data(routings[k].mode) }),
{
    assert forall|k: int|
        0 <= k < routings.len() && (forall|j: int| k < j < routings.len() ==> (#[trigger] routings[j]).channel
            != routings[k].channel) implies spec_routing_table(routings)[(#[trigger] routings[k]).channel as int]
            == Some(MidiRoutingAndModeData { mr: routings[k], md: spec_initial_mode_data(routings[k].mode) }) by {
        lemma_table_kept_at(routings, k);
    }
}

/// A slot that no routing names is empty.
proof fn lemma_table_empty(routings: Seq<MidiRouting>)
    requires
        forall|k: int| 0 <= k < routings.len() ==> (#[trigger] routings[k]).channel < 16,
    ensures
        forall|c: int|
            0 <= c < 16 && (forall|j: int| 0 <= j < routings.len() ==> (#[trigger] routings[j]).channel != c)
                ==> #[trigger] spec_routing_table(routings)[c] is None,
{
    assert forall|c: int|
        0 <= c < 16 && (forall|j: int| 0 <= j < routings.len() ==> (#[trigger] routings[j]).channel != c)
            implies #[trigger] spec_routing_table(routings)[c] is None by {
        lemma_table_none_at(routings, c);
    }
}

/// A slot that a routing names is filled.
proof fn lemma_table_filled(routings: Seq<MidiRouting>)
    requires
        forall|k: int| 0 <= k < routings.len() ==> (#[trigger] routings[k]).channel < 16,
    ensures
        forall|j: int| 0 <= j < routings.len() ==> #[trigger] spec_routing_table(routings)[routings[j].channel as int] is Some,
{
    assert forall|j: int| 0 <= j < routings.len() implies #[trigger] spec_routing_table(routings)[routings[j].channel as int] is Some by {
        lemma_last_of_channel(routings, j);
        let k = choose|k: int|
            j <= k < routings.len() && #[trigger] routings[k].channel == routings[j].channel && (forall|i: int|
                k < i < routings.len() ==> (#[trigger] routings[i]).channel != routings[j].channel);
        lemma_table_kept_at(routings, k);
    }
}

/// Every routing of the list that no later routing of its channel replaces
/// sits in its channel's slot, in the state that its mode starts in (no note
/// for `Mono`, counter 0 for `PolyTrig`); a slot whose channel no routing
/// names is empty, and the slot of every routing's channel is filled; the
/// table has one slot per MIDI channel.
pub proof fn law_routing_table_slots(routings: Seq<MidiRouting>)
    requires
        forall|k: int| 0 <= k < routings.len() ==> (#[trigger] routings[k]).channel < 16,
    ensures
        spec_routing_table(routings).len() == 16,
        forall|k: int|
            0 <= k < routings.len() && (forall|j: int| k < j < routings.len() ==> (#[trigger] routings[j]).channel
                != routings[k].channel) ==> spec_routing_table(routings)[(#[trigger] routings[k]).channel as int]
                == Some(MidiRoutingAndModeData {
                mr: routings[k],
                md: match routings[k].mode {
                    Mode::Midi => ModeData::Midi,
                    Mode::Mono => ModeData::Mono(None),
                    Mode::Poly => ModeData::Poly,
                    Mode::PolyTrig => ModeData::PolyTrig(0),
                },
            }),
        forall|c: int|
            0 <= c < 16 && (forall|j: int| 0 <= j < routings.len() ==> (#[trigger] routings[j]).channel != c)
                ==> #[trigger] spec_routing_table(routings)[c] is None,
        forall|j: int| 0 <= j < routings.len() ==> #[trigger] spec_routing_table(routings)[routings[j].channel as int] is Some,
{
    lemma_table_len(routings);
    lemma_table_kept(routings);
    lemma_table_empty(routings);
    lemma_table_filled(routings);
}

/// Of the routings from `j` on that name the channel of `routings[j]`, there is a last one.
proof fn lemma_last_of_channel(routings: Seq<MidiRouting>, j: int)
    requires
        0 <= j < routings.len(),
    ensures
        exists|k: int|
            j <= k < routings.len() && #[trigger] routings[k].channel == routings[j].channel && (forall|i: int|
                k < i < routings.len() ==> (#[trigger] routings[i]).channel != routings[j].channel),
    decreases routings.len() - j,
{
    if exists|i: int| j < i < routings.len() && (#[trigger] routings[i]).channel == routings[j].channel {
        let i = choose|i: int| j < i < routings.len() && (#[trigger] routings[i]).channel == routings[j].channel;
        lemma_last_of_channel(routings, i);
    } else {
        assert(routings[j].channel == routings[j].channel);
    }
}

} // verus!
