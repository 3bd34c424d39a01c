//! The host's MIDI wire format: how the raw bytes that JACK delivers become
//! [`Midi`] events, how the events that a plugin emits become bytes again, and
//! how a block's events are grouped by frame and routed to output ports.
use std::collections::HashMap;
use vstd::prelude::*;
use crate::interface::{Midi, NoteOn, NoteOff, CC, PB};

verus! {

broadcast use vstd::std_specs::hash::group_hash_axioms;

/// A MIDI message as JACK hands it over or takes it: the frame within the
/// block and the raw bytes.
#[derive(Debug, Clone)]
pub struct RawMidiEvent {
    pub time: u32,
    pub bytes: Vec<u8>,
}

/// Status bytes of note-on messages (`0x90` to `0x9F`).
pub open spec fn is_note_on_status(b: u8) -> bool {
    0x90 <= b <= 0x9F
}

/// Status bytes of note-off messages (`0x80` to `0x8F`).
pub open spec fn is_note_off_status(b: u8) -> bool {
    0x80 <= b <= 0x8F
}

/// Status bytes of control changes (`0xB0` to `0xBF`).
pub open spec fn is_cc_status(b: u8) -> bool {
    0xB0 <= b <= 0xBF
}

/// Status bytes of pitch bends (`0xE0` to `0xEF`).
pub open spec fn is_pb_status(b: u8) -> bool {
    0xE0 <= b <= 0xEF
}

/// Status bytes of the messages that the host reads.
pub open spec fn is_read_status(b: u8) -> bool {
    is_note_on_status(b) || is_note_off_status(b) || is_cc_status(b) || is_pb_status(b)
}

/// Whether the host can read `bytes` without reaching past their end: a status
/// byte, and two data bytes after a status byte that the host reads.
pub open spec fn can_decode(bytes: Seq<u8>) -> bool {
    bytes.len() >= 1 && (is_read_status(bytes[0]) ==> bytes.len() >= 3)
}

/// The event that `bytes`, arriving at input port `port`, stand for, if the host reads it.
pub open spec fn spec_decode(port: u8, bytes: Seq<u8>) -> Option<Midi> {
    let s = bytes[0];
    if is_note_on_status(s) {
        Some(Midi::On(NoteOn { port, channel: s & 0x0F, note: bytes[1], velocity: bytes[2] }))
    } else if is_note_off_status(s) {
        Some(Midi::Off(NoteOff { port, channel: s & 0x0F, note: bytes[1], velocity: bytes[2] }))
    } else if is_cc_status(s) {
        Some(Midi::CC(CC { port, channel: s & 0x0F, cc: bytes[1], value: bytes[2] }))
    } else if is_pb_status(s) {
        Some(
            Midi::PB(
                PB {
                    port,
                    channel: s & 0x0F,
                    value: (bytes[2] as int * 128 + bytes[1] as int) as u16,
                },
            ),
        )
    } else {
        None
    }
}

/// The bytes that the host sends for `m`. A pitch bend is sent with its high
/// seven bits first (saturated to a byte) and its low seven bits second.
pub open spec fn spec_encode(m: Midi) -> Seq<u8> {
    match m {
        Midi::On(e) => seq![0x90u8 | e.channel, e.note, e.velocity],
        Midi::Off(e) => seq![0x80u8 | e.channel, e.note, e.velocity],
        Midi::CC(e) => seq![0xB0u8 | e.channel, e.cc, e.value],
        Midi::PB(e) => seq![
            0xE0u8 | e.channel,
            if e.value / 128 > 255 { 255u8 } else { (e.value / 128) as u8 },
            (e.value % 128) as u8,
        ],
    }
}

/// Whether the host can read `bytes` without reaching past their end.
pub fn is_decodable(bytes: &[u8]) -> (b: bool)
    ensures
        b == can_decode(bytes@),
{
    if bytes.len() == 0 {
        return false;
    }
    let s = bytes[0];
    let read = (0x90 <= s && s <= 0x9F) || (0x80 <= s && s <= 0x8F) || (0xB0 <= s && s <= 0xBF)
        || (0xE0 <= s && s <= 0xEF);
    !read || bytes.len() >= 3
}

/// Reads the raw message `bytes` that arrived at input port `port`.
pub fn decode_midi(port: u8, bytes: &[u8]) -> (r: Option<Midi>)
    requires
        can_decode(bytes@),
    ensures
        r == spec_decode(port, bytes@),
{
    let s = bytes[0];
    if s >= 0x90 && s <= 0x9F {
        Some(Midi::On(NoteOn { port, channel: s & 0x0F, note: bytes[1], velocity: bytes[2] }))
    } else if s >= 0x80 && s <= 0x8F {
        Some(Midi::Off(NoteOff { port, channel: s & 0x0F, note: bytes[1], velocity: bytes[2] }))
    } else if s >= 0xB0 && s <= 0xBF {
        Some(Midi::CC(CC { port, channel: s & 0x0F, cc: bytes[1], value: bytes[2] }))
    } else if s >= 0xE0 && s <= 0xEF {
        Some(
            Midi::PB(
                PB { port, channel: s & 0x0F, value: bytes[2] as u16 * 128 + bytes[1] as u16 },
            ),
        )
    } else {
        None
    }
}

/// The bytes that the host sends for `m`.
pub fn encode_midi(m: &Midi) -> (r: Vec<u8>)
    ensures
        r@ == spec_encode(*m),
{
    let mut r: Vec<u8> = Vec::new();
    match m {
        Midi::On(e) => {
            r.push(0x90u8 | e.channel);
            r.push(e.note);
            r.push(e.velocity);
        },
        Midi::Off(e) => {
            r.push(0x80u8 | e.channel);
            r.push(e.note);
            r.push(e.velocity);
        },
        Midi::CC(e) => {
            r.push(0xB0u8 | e.channel);
            r.push(e.cc);
            r.push(e.value);
        },
        Midi::PB(e) => {
            r.push(0xE0u8 | e.channel);
            let high = e.value / 128;
            r.push(if high > 255 { 255u8 } else { high as u8 });
            r.push((e.value % 128) as u8);
        },
    }
    assert(r@ =~= spec_encode(*m));
    r
}

/// Reading what the host sends gives back the event, for note-on, note-off
/// and control-change events on one of the sixteen MIDI channels.
pub proof fn law_decode_encode(m: Midi)
    requires
        m.channel_of() < 16,
        !(m is PB),
    ensures
        spec_decode(m.port_of(), spec_encode(m)) == Some(m),
{
    match m {
        Midi::On(e) => {
            let c = e.channel;
            assert(c < 16 ==> (0x90u8 | c) & 0x0F == c && 0x90 <= (0x90u8 | c) <= 0x9F)
                by (bit_vector);
        },
        Midi::Off(e) => {
            let c = e.channel;
            assert(c < 16 ==> (0x80u8 | c) & 0x0F == c && 0x80 <= (0x80u8 | c) <= 0x8F)
                by (bit_vector);
        },
        Midi::CC(e) => {
            let c = e.channel;
            assert(c < 16 ==> (0xB0u8 | c) & 0x0F == c && 0xB0 <= (0xB0u8 | c) <= 0xBF)
                by (bit_vector);
        },
        Midi::PB(e) => {},
    }
}

/// Reading what the host sends for a pitch bend gives the bend whose low and
/// high seven bits are swapped: the two data bytes go out high first and come
/// in low first.
pub proof fn law_decode_encode_pitch_bend(e: PB)
    requires
        e.channel < 16,
    ensures
        spec_decode(e.port, spec_encode(Midi::PB(e))) == Some(
            Midi::PB(
                PB {
                    port: e.port,
                    channel: e.channel,
                    value: ((e.value % 128) * 128 + (if e.value / 128 > 255 {
                        255
                    } else {
                        e.value / 128
                    })) as u16,
                },
            ),
        ),
{
    let c = e.channel;
    assert(c < 16 ==> (0xE0u8 | c) & 0x0F == c && 0xE0 <= (0xE0u8 | c) <= 0xEF) by (bit_vector);
}

/// A note-on, note-off or control-change message that the host reads is sent
/// again byte for byte.
pub proof fn law_encode_decode(port: u8, bytes: Seq<u8>)
    requires
        bytes.len() >= 3,
        is_note_on_status(bytes[0]) || is_note_off_status(bytes[0]) || is_cc_status(bytes[0]),
    ensures
        spec_decode(port, bytes) is Some,
        spec_encode(spec_decode(port, bytes)->0) == bytes.take(3),
{
    let s = bytes[0];
    assert(0x90 <= s <= 0x9F ==> 0x90u8 | (s & 0x0F) == s) by (bit_vector);
    assert(0x80 <= s <= 0x8F ==> 0x80u8 | (s & 0x0F) == s) by (bit_vector);
    assert(0xB0 <= s <= 0xBF ==> 0xB0u8 | (s & 0x0F) == s) by (bit_vector);
    assert(spec_encode(spec_decode(port, bytes)->0) =~= bytes.take(3));
}

// ---------------------------------------------------------------------------
// A block's input events, grouped by frame
// ---------------------------------------------------------------------------

/// The events that the host reads from the messages `evs` of input port
/// `port`, each with its frame scaled by `factor`, in order.
pub open spec fn port_events(port: u8, evs: Seq<RawMidiEvent>, factor: u32) -> Seq<(u32, Midi)>
    decreases evs.len(),
{
    if evs.len() == 0 {
        Seq::empty()
    } else {
        let e = evs.last();
        port_events(port, evs.drop_last(), factor) + match spec_decode(port, e.bytes@) {
            Some(m) => seq![((e.time * factor) as u32, m)],
            None => Seq::empty(),
        }
    }
}

/// The events that the host reads from all input ports, port by port.
pub open spec fn block_events(ports: Seq<Vec<RawMidiEvent>>, factor: u32) -> Seq<(u32, Midi)>
    decreases ports.len(),
{
    if ports.len() == 0 {
        Seq::empty()
    } else {
        block_events(ports.drop_last(), factor) + port_events(
            (ports.len() - 1) as u8,
            ports.last()@,
            factor,
        )
    }
}

/// The events `evs` grouped by frame, each group in the order of `evs`.
pub open spec fn group_by_frame(evs: Seq<(u32, Midi)>) -> Map<u32, Seq<Midi>>
    decreases evs.len(),
{
    if evs.len() == 0 {
        Map::empty()
    } else {
        let g = group_by_frame(evs.drop_last());
        let (t, m) = evs.last();
        g.insert(t, (if g.contains_key(t) { g[t] } else { Seq::empty() }).push(m))
    }
}

/// Whether the messages of every port can be read and every scaled frame fits in `u32`.
pub open spec fn block_readable(ports: Seq<Vec<RawMidiEvent>>, factor: u32) -> bool {
    forall|p: int, k: int|
        0 <= p < ports.len() && 0 <= k < ports[p]@.len() ==> {
            &&& can_decode(#[trigger] ports[p]@[k].bytes@)
            &&& ports[p]@[k].time * factor <= u32::MAX
        }
}

/// The views of a map from frames to event vectors.
pub open spec fn group_views(m: Map<u32, Vec<Midi>>) -> Map<u32, Seq<Midi>> {
    m.map_values(|v: Vec<Midi>| v@)
}

fn add_to_group(groups: &mut HashMap<u32, Vec<Midi>>, t: u32, m: Midi)
    ensures
        group_views(final(groups)@) == group_views(old(groups)@).insert(
            t,
            (if group_views(old(groups)@).contains_key(t) {
                group_views(old(groups)@)[t]
            } else {
                Seq::empty()
            }).push(m),
        ),
{
    let ghost before = group_views(groups@);
    match groups.remove(&t) {
        Some(mut v) => {
            v.push(m);
            groups.insert(t, v);
        },
        None => {
            let mut v: Vec<Midi> = Vec::new();
            v.push(m);
            groups.insert(t, v);
        },
    }
    assert(group_views(groups@) =~= before.insert(
        t,
        (if before.contains_key(t) { before[t] } else { Seq::empty() }).push(m),
    ));
}

/// Reads the messages that arrived at the input ports during a block and
/// groups the events by frame, scaling each frame by the upsampling factor;
/// within a frame the events keep the order of the ports and of their arrival.
pub fn group_block_events(ports: &Vec<Vec<RawMidiEvent>>, upsampling_factor: u32) -> (r: HashMap<
    u32,
    Vec<Midi>,
>)
    requires
        ports.len() < 256,
        block_readable(ports@, upsampling_factor),
    ensures
        group_views(r@) == group_by_frame(block_events(ports@, upsampling_factor)),
{
    let mut groups: HashMap<u32, Vec<Midi>> = HashMap::new();
    assert(group_views(groups@) =~= Map::<u32, Seq<Midi>>::empty());
    let mut port_no: usize = 0;
    while port_no < ports.len()
        invariant
            port_no <= ports.len() < 256,
            block_readable(ports@, upsampling_factor),
            group_views(groups@) == group_by_frame(
                block_events(ports@.take(port_no as int), upsampling_factor),
            ),
        decreases ports.len() - port_no,
    {
        let evs = &ports[port_no];
        let ghost done = block_events(ports@.take(port_no as int), upsampling_factor);
        let mut k: usize = 0;
        while k < evs.len()
            invariant
                port_no < ports.len() < 256,
                evs == ports@[port_no as int],
                k <= evs.len(),
                block_readable(ports@, upsampling_factor),
                group_views(groups@) == group_by_frame(
                    done + port_events(port_no as u8, evs@.take(k as int), upsampling_factor),
                ),
            decreases evs.len() - k,
        {
            let e = &evs[k];
            assert(can_decode(ports@[port_no as int]@[k as int].bytes@));
            let ghost prev = done + port_events(port_no as u8, evs@.take(k as int), upsampling_factor);
            assert(evs@.take(k + 1).drop_last() =~= evs@.take(k as int));
            match decode_midi(port_no as u8, e.bytes.as_slice()) {
                Some(m) => {
                    let t = e.time * upsampling_factor;
                    add_to_group(&mut groups, t, m);
                    assert(done + port_events(port_no as u8, evs@.take(k + 1), upsampling_factor)
                        =~= prev.push((t, m)));
                    assert(prev.push((t, m)).drop_last() =~= prev);
                },
                None => {
                    assert(done + port_events(port_no as u8, evs@.take(k + 1), upsampling_factor)
                        =~= prev);
                },
            }
            k = k + 1;
        }
        assert(evs@.take(k as int) =~= evs@);
        assert(ports@.take(port_no + 1).drop_last() =~= ports@.take(port_no as int));
        port_no = port_no + 1;
    }
    assert(ports@.take(port_no as int) =~= ports@);
    groups
}

// ---------------------------------------------------------------------------
// A frame's output events, routed to the output ports
// ---------------------------------------------------------------------------

/// The output ports' message lists after the events `evs`, emitted at frame
/// `frame` (in upsampled frames), were added: each event goes to the list of
/// its port, at frame `frame / factor`, in order.
pub open spec fn routed(outs: Seq<Seq<(u32, Seq<u8>)>>, evs: Seq<Midi>, frame: u32, factor: u32) -> Seq<
    Seq<(u32, Seq<u8>)>,
>
    decreases evs.len(),
{
    if evs.len() == 0 {
        outs
    } else {
        let prev = routed(outs, evs.drop_last(), frame, factor);
        let m = evs.last();
        let p = m.port_of() as int;
        prev.update(p, prev[p].push(((frame / factor) as u32, spec_encode(m))))
    }
}

/// The views of the output ports' message lists.
pub open spec fn out_views(outs: Seq<Vec<RawMidiEvent>>) -> Seq<Seq<(u32, Seq<u8>)>> {
    outs.map_values(|v: Vec<RawMidiEvent>| v@.map_values(|e: RawMidiEvent| (e.time, e.bytes@)))
}

/// Adds the events that a plugin emitted at frame `frame` to the message lists
/// of their output ports.
pub fn route_out_events(
    outs: &mut Vec<Vec<RawMidiEvent>>,
    events: &Vec<Midi>,
    frame: u32,
    upsampling_factor: u32,
)
    requires
        upsampling_factor > 0,
        forall|k: int| 0 <= k < events@.len() ==> (#[trigger] events@[k]).port_of() < old(outs)@.len(),
    ensures
        out_views(final(outs)@) == routed(out_views(old(outs)@), events@, frame, upsampling_factor),
{
    let ghost start = out_views(outs@);
    let mut k: usize = 0;
    while k < events.len()
        invariant
            upsampling_factor > 0,
            k <= events.len(),
            outs@.len() == start.len(),
            forall|j: int| 0 <= j < events@.len() ==> (#[trigger] events@[j]).port_of() < start.len(),
            out_views(outs@) == routed(start, events@.take(k as int), frame, upsampling_factor),
        decreases events.len() - k,
    {
        let m = events[k];
        assert(events@[k as int].port_of() < start.len());
        let p = m.port() as usize;
        let bytes = encode_midi(&m);
        let ev = RawMidiEvent { time: frame / upsampling_factor, bytes };
        let ghost before = outs@;
        let mut row: Vec<RawMidiEvent> = Vec::new();
        std::mem::swap(&mut row, &mut outs[p]);
        row.push(ev);
        outs.set(p, row);
        assert(events@.take(k + 1).drop_last() =~= events@.take(k as int));
        assert(out_views(outs@) =~= routed(start, events@.take(k + 1), frame, upsampling_factor)) by {
            let prev = routed(start, events@.take(k as int), frame, upsampling_factor);
            assert(events@.take(k + 1).last() == m);
            assert forall|i: int| 0 <= i < outs@.len() implies out_views(outs@)[i] =~= prev.update(
                p as int,
                prev[p as int].push(((frame / upsampling_factor) as u32, spec_encode(m))),
            )[i] by {
                if i == p as int {
                    assert(outs@[i]@ =~= before[i]@.push(ev));
                }
            }
        }
        k = k + 1;
    }
    assert(events@.take(k as int) =~= events@);
}

} // verus!

verus! {

/// A message read at frame `t` of a block is grouped at frame `t * factor` of
/// the upsampled block, and an event emitted at that frame goes out at frame `t`.
pub proof fn law_frame_scaling(t: u32, factor: u32)
    requires
        factor > 0,
        t * factor <= u32::MAX,
    ensures
        ((t * factor) as u32) / factor == t,
{
    assert((t * factor) / (factor as int) == t) by (nonlinear_arith)
        requires
            factor > 0,
    ;
}

/// Appending a message to what a port received appends its event (when the
/// host reads it) after the events of the earlier messages: a port's events
/// come in the order in which its messages arrived.
pub proof fn law_port_events_in_arrival_order(port: u8, evs: Seq<RawMidiEvent>, e: RawMidiEvent, factor: u32)
    ensures
        port_events(port, evs.push(e), factor) == port_events(port, evs, factor) + match spec_decode(port, e.bytes@) {
            Some(m) => seq![((e.time * factor) as u32, m)],
            None => Seq::<(u32, Midi)>::empty(),
        },
{
    assert(evs.push(e).drop_last() =~= evs);
}

/// Two messages that arrive at the same frame on one port, both read by the
/// host, are grouped at that frame in the order in which they arrived.
pub proof fn law_same_frame_arrival_order(v: Vec<RawMidiEvent>, e1: RawMidiEvent, e2: RawMidiEvent, factor: u32)
    requires
        v@ == seq![e1, e2],
        e1.time == e2.time,
        spec_decode(0, e1.bytes@) is Some,
        spec_decode(0, e2.bytes@) is Some,
    ensures
        group_by_frame(block_events(seq![v], factor)) == map![
            (e1.time * factor) as u32 => seq![spec_decode(0, e1.bytes@)->Some_0, spec_decode(0, e2.bytes@)->Some_0]
        ],
{
    let t = (e1.time * factor) as u32;
    let d1 = spec_decode(0, e1.bytes@)->Some_0;
    let d2 = spec_decode(0, e2.bytes@)->Some_0;
    let ports = seq![v];
    assert(ports.drop_last() =~= Seq::<Vec<RawMidiEvent>>::empty());
    assert(ports.last() == v);
    assert(seq![e1].drop_last() =~= Seq::<RawMidiEvent>::empty());
    assert(seq![e1, e2].drop_last() =~= seq![e1]);
    assert(seq![e1].last() == e1);
    assert(seq![e1, e2].last() == e2);
    assert(port_events(0, Seq::<RawMidiEvent>::empty(), factor) =~= Seq::<(u32, Midi)>::empty());
    assert(port_events(0, seq![e1], factor) =~= seq![(t, d1)]);
    assert(port_events(0, seq![e1, e2], factor) =~= seq![(t, d1), (t, d2)]);
    let evs = seq![(t, d1), (t, d2)];
    assert(block_events(Seq::<Vec<RawMidiEvent>>::empty(), factor) =~= Seq::<(u32, Midi)>::empty());
    assert((ports.len() - 1) as u8 == 0u8);
    assert(block_events(ports, factor) =~= evs);
    assert(evs.drop_last() =~= seq![(t, d1)]);
    assert(seq![(t, d1)].drop_last() =~= Seq::<(u32, Midi)>::empty());
    assert(seq![(t, d1)].last() == (t, d1));
    assert(evs.last() == (t, d2));
    assert(group_by_frame(Seq::<(u32, Midi)>::empty()) == Map::<u32, Seq<Midi>>::empty());
    let g1 = group_by_frame(seq![(t, d1)]);
    assert(Seq::<Midi>::empty().push(d1) =~= seq![d1]);
    assert(g1 =~= map![t => seq![d1]]);
    assert(g1.contains_key(t) && g1[t] == seq![d1]);
    assert(seq![d1].push(d2) =~= seq![d1, d2]);
    assert(group_by_frame(evs) =~= map![t => seq![d1, d2]]);
}

} // verus!
