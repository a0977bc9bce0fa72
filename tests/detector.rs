use sn76489::chip::Sn76489an;
use sn76489::detector::{check_channel_changed, diff, Command, NoteDetector, NoteEvent, NoteKind};
use sn76489::pitch::get_note;

fn on(channel: u8, divider: u16) -> NoteEvent {
    NoteEvent { channel, kind: NoteKind::NoteOn(get_note(divider)) }
}

fn off(channel: u8) -> NoteEvent {
    NoteEvent { channel, kind: NoteKind::NoteOff }
}

fn feed(d: &mut NoteDetector, bytes: &[u8]) {
    for b in bytes {
        assert!(d.step(Command::RegisterWrite(*b)).is_empty());
    }
}

#[test]
fn sounding_after_silence_is_a_note_on() {
    assert_eq!(check_channel_changed(254, 254, 15, 0), Some(NoteKind::NoteOn(Some(0))));
    assert_eq!(check_channel_changed(0, 0, 15, 14), Some(NoteKind::NoteOn(None)));
}

#[test]
fn falling_silent_is_a_note_off() {
    assert_eq!(check_channel_changed(254, 254, 0, 15), Some(NoteKind::NoteOff));
    assert_eq!(check_channel_changed(254, 100, 7, 15), Some(NoteKind::NoteOff));
}

#[test]
fn new_divider_while_sounding_is_a_note_on_of_the_new_note() {
    assert_eq!(check_channel_changed(254, 127, 0, 0), Some(NoteKind::NoteOn(Some(12))));
    assert_eq!(check_channel_changed(254, 127, 3, 9), Some(NoteKind::NoteOn(Some(12))));
}

#[test]
fn unchanged_channel_gives_nothing() {
    assert_eq!(check_channel_changed(254, 254, 0, 0), None);
    assert_eq!(check_channel_changed(254, 254, 0, 8), None);
    assert_eq!(check_channel_changed(254, 100, 15, 15), None);
}

#[test]
fn diff_lists_channels_in_order() {
    let last = Sn76489an::default().tone_3_attenuation(0);
    let current = Sn76489an::default()
        .tone_1_frequency(254)
        .tone_1_attenuation(0)
        .tone_2_attenuation(2)
        .tone_3_attenuation(15);
    assert_eq!(diff(&last, &current), vec![on(1, 254), on(2, 0), off(3)]);
    assert!(diff(&current, &current).is_empty());
}

#[test]
fn tick_samples() {
    assert_eq!(Command::WaitSamples(100).samples(), Some(100));
    assert_eq!(Command::Wait735Samples.samples(), Some(735));
    assert_eq!(Command::Wait882Samples.samples(), Some(882));
    assert_eq!(Command::RegisterWrite(0x90).samples(), None);
    assert_eq!(Command::Other.samples(), None);
}

#[test]
fn end_to_end_scenario() {
    let mut d = NoteDetector::new();
    assert!(d.step(Command::RegisterWrite(0x9F)).is_empty());
    assert!(d.step(Command::WaitSamples(100)).is_empty());
    assert!(d.step(Command::RegisterWrite(0x80)).is_empty());
    assert!(d.step(Command::RegisterWrite(0x00)).is_empty());
    assert!(d.step(Command::WaitSamples(100)).is_empty());
    assert!(d.step(Command::RegisterWrite(0x90)).is_empty());
    assert_eq!(d.step(Command::WaitSamples(100)), vec![NoteEvent { channel: 1, kind: NoteKind::NoteOn(None) }]);
}

#[test]
fn run_matches_step_by_step() {
    let cmds = vec![
        Command::RegisterWrite(0x9F),
        Command::WaitSamples(100),
        Command::RegisterWrite(0x80),
        Command::RegisterWrite(0x00),
        Command::Other,
        Command::Wait735Samples,
        Command::RegisterWrite(0x90),
        Command::Wait882Samples,
        Command::RegisterWrite(0x9F),
        Command::WaitSamples(1),
    ];
    let mut d = NoteDetector::new();
    let events = d.run(&cmds);
    assert_eq!(events, vec![NoteEvent { channel: 1, kind: NoteKind::NoteOn(None) }, off(1)]);
    let mut e = NoteDetector::new();
    let mut stepped = Vec::new();
    for c in &cmds {
        stepped.extend(e.step(*c));
    }
    assert_eq!(stepped, events);
    assert_eq!(d, e);
}

#[test]
fn three_writes_before_a_tick_give_one_note_on_of_the_last() {
    let mut d = NoteDetector::new();
    feed(&mut d, &[0x90, 0x8E, 0x0F, 0x8A, 0x07, 0x8E, 0x0F]);
    assert_eq!(d.step(Command::Wait735Samples), vec![on(1, 0xFE)]);
    feed(&mut d, &[0x81, 0x01, 0x83, 0x02, 0x8C, 0x03]);
    assert_eq!(d.step(Command::Wait735Samples), vec![on(1, 0x3C)]);
    assert!(d.step(Command::Wait735Samples).is_empty());
}

#[test]
fn silence_between_ticks_is_invisible() {
    let mut d = NoteDetector::new();
    feed(&mut d, &[0x8E, 0x0F, 0x90]);
    assert_eq!(d.step(Command::WaitSamples(10)), vec![on(1, 0xFE)]);
    feed(&mut d, &[0x9F, 0x90]);
    assert!(d.step(Command::WaitSamples(10)).is_empty());
    feed(&mut d, &[0x9F, 0x90, 0x81]);
    assert_eq!(d.step(Command::WaitSamples(10)), vec![on(1, 0xF1)]);
    feed(&mut d, &[0x90, 0x9F]);
    assert_eq!(d.step(Command::WaitSamples(10)), vec![off(1)]);
}

#[test]
fn a_change_on_channel_2_gives_no_event_on_1_or_3() {
    let mut d = NoteDetector::new();
    feed(&mut d, &[0x90, 0xB0, 0xD0, 0x8E, 0x0F, 0xAE, 0x07, 0xCE, 0x03]);
    assert_eq!(d.step(Command::WaitSamples(10)), vec![on(1, 0xFE), on(2, 0x7E), on(3, 0x3E)]);
    feed(&mut d, &[0xA1, 0x08]);
    assert_eq!(d.step(Command::WaitSamples(10)), vec![on(2, 0x81)]);
    feed(&mut d, &[0xBF]);
    assert_eq!(d.step(Command::WaitSamples(10)), vec![off(2)]);
}

#[test]
fn noise_channel_gives_no_event() {
    let mut d = NoteDetector::new();
    feed(&mut d, &[0xE4, 0xF0]);
    assert!(d.step(Command::WaitSamples(10)).is_empty());
    feed(&mut d, &[0xFF]);
    assert!(d.step(Command::WaitSamples(10)).is_empty());
}
