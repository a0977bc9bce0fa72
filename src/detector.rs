//! Note events from chip snapshots compared at time ticks.
use vstd::prelude::*;
use crate::chip::{spec_update, spec_update_all, tone_attenuation, tone_frequency, Sn76489an, SILENT};
use crate::pitch::{get_note, note_value};

verus! {

/// What happens to a tone channel at a tick.
#[derive(Clone, Copy, Debug, PartialEq, Eq, Structural)]
pub enum NoteKind {
    /// The channel sounds this note; `None` for a zero divider.
    NoteOn(Option<isize>),
    NoteOff,
}

/// An event of one tone channel, numbered 1 to 3.
#[derive(Clone, Copy, Debug, PartialEq, Eq, Structural)]
pub struct NoteEvent {
    pub channel: u8,
    pub kind: NoteKind,
}

/// A command of the input stream, as far as this chip is concerned.
#[derive(Clone, Copy, Debug, PartialEq, Eq, Structural)]
pub enum Command {
    /// A byte written to the chip's port.
    RegisterWrite(u8),
    /// Time passes by this many samples.
    WaitSamples(u32),
    /// One frame at 60 Hz: 735 samples.
    Wait735Samples,
    /// One frame at 50 Hz: 882 samples.
    Wait882Samples,
    /// A command for another chip, or no audio at all.
    Other,
}

/// The event rule of one channel, from its registers in the last and the
/// current snapshot: sounding after silence or at a new divider gives a
/// note-on, falling silent gives a note-off.
pub open spec fn channel_event(last_freq: u16, freq: u16, last_att: u8, att: u8) -> Option<NoteKind> {
    if att != SILENT && (last_att == SILENT || last_freq != freq) {
        Some(NoteKind::NoteOn(note_value(freq)))
    } else if att == SILENT && last_att != SILENT {
        Some(NoteKind::NoteOff)
    } else {
        None
    }
}

/// The event of tone channel `c` between two snapshots.
pub open spec fn event_for(last: Sn76489an, current: Sn76489an, c: int) -> Option<NoteKind> {
    channel_event(
        tone_frequency(last, c),
        tone_frequency(current, c),
        tone_attenuation(last, c),
        tone_attenuation(current, c),
    )
}

pub open spec fn tagged(c: u8, e: Option<NoteKind>) -> Seq<NoteEvent> {
    match e {
        Some(k) => seq![NoteEvent { channel: c, kind: k }],
        None => Seq::empty(),
    }
}

/// The events of a tick: channel 1's, then channel 2's, then channel 3's.
pub open spec fn events_of(last: Sn76489an, current: Sn76489an) -> Seq<NoteEvent> {
    tagged(1, event_for(last, current, 1)) + tagged(2, event_for(last, current, 2)) + tagged(
        3,
        event_for(last, current, 3),
    )
}

/// The event of one channel between two ticks, if any.
pub fn check_channel_changed(last_freq: u16, freq: u16, last_attenuation: u8, attenuation: u8) -> (r:
    Option<NoteKind>)
    ensures
        r == channel_event(last_freq, freq, last_attenuation, attenuation),
{
    if attenuation != SILENT {
        if last_attenuation == SILENT || last_freq != freq {
            return Some(NoteKind::NoteOn(get_note(freq)));
        }
    } else if last_attenuation != SILENT {
        return Some(NoteKind::NoteOff);
    }
    None
}

fn push_event(events: &mut Vec<NoteEvent>, channel: u8, e: Option<NoteKind>)
    ensures
        final(events)@ == old(events)@ + tagged(channel, e),
{
    match e {
        Some(k) => {
            events.push(NoteEvent { channel, kind: k });
        },
        None => {
            assert(old(events)@ + tagged(channel, e) =~= old(events)@);
        },
    }
}

/// The events between the last and the current snapshot.
pub fn diff(last: &Sn76489an, current: &Sn76489an) -> (r: Vec<NoteEvent>)
    ensures
        r@ == events_of(*last, *current),
{
    let mut events: Vec<NoteEvent> = Vec::new();
    let e1 = check_channel_changed(
        last.tone_1_frequency,
        current.tone_1_frequency,
        last.tone_1_attenuation,
        current.tone_1_attenuation,
    );
    push_event(&mut events, 1, e1);
    let e2 = check_channel_changed(
        last.tone_2_frequency,
        current.tone_2_frequency,
        last.tone_2_attenuation,
        current.tone_2_attenuation,
    );
    push_event(&mut events, 2, e2);
    let e3 = check_channel_changed(
        last.tone_3_frequency,
        current.tone_3_frequency,
        last.tone_3_attenuation,
        current.tone_3_attenuation,
    );
    push_event(&mut events, 3, e3);
    assert(events@ =~= events_of(*last, *current));
    events
}

impl Command {
    /// A command that advances time, and so marks a tick.
    pub open spec fn is_tick(self) -> bool {
        match self {
            Command::WaitSamples(_) | Command::Wait735Samples | Command::Wait882Samples => true,
            _ => false,
        }
    }

    /// How many samples a tick command lasts; `None` for other commands.
    pub fn samples(&self) -> (r: Option<u32>)
        ensures
            r is Some <==> self.is_tick(),
            *self == Command::Wait735Samples ==> r == Some(735u32),
            *self == Command::Wait882Samples ==> r == Some(882u32),
            forall|n: u32| *self == Command::WaitSamples(n) ==> r == Some(n),
    {
        match self {
            Command::WaitSamples(n) => Some(*n),
            Command::Wait735Samples => Some(735),
            Command::Wait882Samples => Some(882),
            _ => None,
        }
    }
}

/// The two snapshots compared at each tick.
#[derive(Clone, Copy, Debug, PartialEq, Eq, Structural)]
pub struct NoteDetector {
    /// The state at the last tick.
    pub last: Sn76489an,
    /// The state after every write so far.
    pub current: Sn76489an,
}

impl NoteDetector {
    /// The detector and the events after one command.
    pub open spec fn spec_step(self, cmd: Command) -> (NoteDetector, Seq<NoteEvent>) {
        match cmd {
            Command::RegisterWrite(b) => (
                NoteDetector { current: spec_update(self.current, b), ..self },
                Seq::empty(),
            ),
            Command::Other => (self, Seq::empty()),
            _ => (
                NoteDetector { last: self.current, current: self.current },
                events_of(self.last, self.current),
            ),
        }
    }

    /// The detector after a sequence of commands, and the events of all its
    /// ticks in order.
    pub open spec fn spec_run(self, cmds: Seq<Command>) -> (NoteDetector, Seq<NoteEvent>)
        decreases cmds.len(),
    {
        if cmds.len() == 0 {
            (self, Seq::empty())
        } else {
            let (d, e) = self.spec_run(cmds.drop_last());
            let (d2, e2) = d.spec_step(cmds.last());
            (d2, e + e2)
        }
    }

    /// Both snapshots at power-on.
    pub fn new() -> (r: Self)
        ensures
            r.last == Sn76489an::spec_power_on(),
            r.current == Sn76489an::spec_power_on(),
    {
        NoteDetector { last: Sn76489an::default(), current: Sn76489an::default() }
    }

    /// Takes one command: a write updates the current snapshot; a tick
    /// returns the events since the last tick and makes the current
    /// snapshot the last one; any other command is ignored.
    pub fn step(&mut self, cmd: Command) -> (r: Vec<NoteEvent>)
        ensures
            (*final(self), r@) == old(self).spec_step(cmd),
    {
        match cmd {
            Command::RegisterWrite(b) => {
                self.current = self.current.update(b);
                Vec::new()
            },
            Command::Other => Vec::new(),
            _ => {
                let events = diff(&self.last, &self.current);
                self.last = self.current;
                events
            },
        }
    }

    /// Takes a sequence of commands in order; returns the events of all ticks.
    pub fn run(&mut self, cmds: &Vec<Command>) -> (r: Vec<NoteEvent>)
        ensures
            (*final(self), r@) == old(self).spec_run(cmds@),
    {
        let mut events: Vec<NoteEvent> = Vec::new();
        let mut i: usize = 0;
        while i < cmds.len()
            invariant
                i <= cmds@.len(),
                (*self, events@) == old(self).spec_run(cmds@.take(i as int)),
            decreases cmds.len() - i,
        {
            assert(cmds@.take(i as int + 1).drop_last() =~= cmds@.take(i as int));
            let mut more = self.step(cmds[i]);
            events.append(&mut more);
            i = i + 1;
        }
        assert(cmds@.take(i as int) =~= cmds@);
        events
    }
}

/// The commands that write these bytes, in order.
pub open spec fn writes(bytes: Seq<u8>) -> Seq<Command> {
    bytes.map_values(|b: u8| Command::RegisterWrite(b))
}

/// Writes alone give no event: they only move the current snapshot on.
pub proof fn lemma_writes_give_no_event(d: NoteDetector, bytes: Seq<u8>)
    ensures
        d.spec_run(writes(bytes)) == (
        NoteDetector { last: d.last, current: spec_update_all(d.current, bytes) },
        Seq::<NoteEvent>::empty()),
    decreases bytes.len(),
{
    if bytes.len() > 0 {
        assert(writes(bytes).drop_last() =~= writes(bytes.drop_last()));
        lemma_writes_give_no_event(d, bytes.drop_last());
        assert(Seq::<NoteEvent>::empty() + Seq::<NoteEvent>::empty() =~= Seq::<NoteEvent>::empty());
    }
}

/// Any number of writes between two ticks is seen only through the state
/// they leave: the tick gives exactly the events between the last snapshot
/// and that final state, and makes it the new baseline.
pub proof fn lemma_tick_sees_final_state(d: NoteDetector, bytes: Seq<u8>, tick: Command)
    requires
        tick.is_tick(),
    ensures
        ({
            let u = spec_update_all(d.current, bytes);
            d.spec_run(writes(bytes).push(tick)) == (
            NoteDetector { last: u, current: u },
            events_of(d.last, u))
        }),
{
    let cmds = writes(bytes).push(tick);
    assert(cmds.drop_last() =~= writes(bytes));
    lemma_writes_give_no_event(d, bytes);
    let u = spec_update_all(d.current, bytes);
    assert(Seq::<NoteEvent>::empty() + events_of(d.last, u) =~= events_of(d.last, u));
}

/// A tick gives at most one event per tone channel, in channel order, and
/// each is the event that the rule gives for that channel.
pub proof fn lemma_one_event_per_channel(last: Sn76489an, current: Sn76489an)
    ensures
        ({
            let ev = events_of(last, current);
            &&& forall|i: int|
                0 <= i < ev.len() ==> 1 <= #[trigger] ev[i].channel <= 3 && event_for(
                    last,
                    current,
                    ev[i].channel as int,
                ) == Some(ev[i].kind)
            &&& forall|i: int, j: int|
                0 <= i < j < ev.len() ==> #[trigger] ev[i].channel < #[trigger] ev[j].channel
            &&& forall|c: int|
                1 <= c <= 3 ==> (#[trigger] event_for(last, current, c) is Some <==> exists|i: int|
                    0 <= i < ev.len() && ev[i].channel == c)
        }),
{
    let ev = events_of(last, current);
    let t1 = tagged(1, event_for(last, current, 1));
    let t2 = tagged(2, event_for(last, current, 2));
    let t3 = tagged(3, event_for(last, current, 3));
    assert(ev == t1 + t2 + t3);
    assert forall|i: int|
        0 <= i < ev.len() implies 1 <= #[trigger] ev[i].channel <= 3 && event_for(
        last,
        current,
        ev[i].channel as int,
    ) == Some(ev[i].kind) by {
        if i < t1.len() {
            assert(ev[i] == t1[i]);
        } else if i < t1.len() + t2.len() {
            assert(ev[i] == t2[i - t1.len()]);
        } else {
            assert(ev[i] == t3[i - t1.len() - t2.len()]);
        }
    }
    assert forall|i: int, j: int|
        0 <= i < j < ev.len() implies #[trigger] ev[i].channel < #[trigger] ev[j].channel by {
        if i < t1.len() {
            assert(ev[i] == t1[i]);
        } else if i < t1.len() + t2.len() {
            assert(ev[i] == t2[i - t1.len()]);
        } else {
            assert(ev[i] == t3[i - t1.len() - t2.len()]);
        }
        if j < t1.len() {
            assert(ev[j] == t1[j]);
        } else if j < t1.len() + t2.len() {
            assert(ev[j] == t2[j - t1.len()]);
        } else {
            assert(ev[j] == t3[j - t1.len() - t2.len()]);
        }
    }
    assert forall|c: int| 1 <= c <= 3 implies (#[trigger] event_for(last, current, c) is Some
        <==> exists|i: int| 0 <= i < ev.len() && ev[i].channel == c) by {
        if event_for(last, current, c) is Some {
            if c == 1 {
                assert(ev[0] == t1[0]);
            } else if c == 2 {
                assert(ev[t1.len() as int] == t2[0]);
            } else {
                assert(ev[(t1.len() + t2.len()) as int] == t3[0]);
            }
        }
        if exists|i: int| 0 <= i < ev.len() && ev[i].channel == c {
            let i = choose|i: int| 0 <= i < ev.len() && ev[i].channel == c;
            if i < t1.len() {
                assert(ev[i] == t1[i]);
            } else if i < t1.len() + t2.len() {
                assert(ev[i] == t2[i - t1.len()]);
            } else {
                assert(ev[i] == t3[i - t1.len() - t2.len()]);
            }
        }
    }
}

/// The event of a tone channel depends on that channel's registers alone:
/// what happens on the other channels never changes it.
pub proof fn lemma_channels_independent(
    last1: Sn76489an,
    current1: Sn76489an,
    last2: Sn76489an,
    current2: Sn76489an,
    c: int,
)
    requires
        1 <= c <= 3,
        tone_frequency(last1, c) == tone_frequency(last2, c),
        tone_frequency(current1, c) == tone_frequency(current2, c),
        tone_attenuation(last1, c) == tone_attenuation(last2, c),
        tone_attenuation(current1, c) == tone_attenuation(current2, c),
    ensures
        event_for(last1, current1, c) == event_for(last2, current2, c),
{
}

} // verus!
