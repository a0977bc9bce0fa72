use sn76489::pitch::get_note;

#[test]
fn zero_divider_has_no_note() {
    assert_eq!(get_note(0), None);
}

#[test]
fn concert_pitch_divider_is_note_zero() {
    let divider = (3_580_000.0f64 / (32.0 * 440.0)).round() as u16;
    assert_eq!(divider, 254);
    assert_eq!(get_note(divider), Some(0));
}

#[test]
fn extreme_dividers() {
    assert_eq!(get_note(1), Some(96));
    assert_eq!(get_note(1023), Some(-24));
    assert_eq!(get_note(65535), Some(-96));
}

#[test]
fn one_octave_up_is_twelve_semitones() {
    assert_eq!(get_note(127), Some(12));
    assert_eq!(get_note(508), Some(-12));
}

#[test]
fn neighbours_of_a_threshold() {
    assert_eq!(get_note(63237), Some(-95));
    assert_eq!(get_note(63238), Some(-96));
}

#[test]
fn matches_rounded_logarithm_for_every_divider() {
    for d in 1..=u16::MAX {
        let x = 12.0 * ((3_580_000.0f64 / (32.0 * d as f64)) / 440.0).log2();
        assert_eq!(get_note(d), Some(x.round() as isize), "divider {}", d);
    }
}
