use sn76489::chip::{LatchedChannel, Sn76489an};

fn write_all(mut s: Sn76489an, bytes: &[u8]) -> Sn76489an {
    for b in bytes {
        s = s.update(*b);
    }
    s
}

fn in_range(s: &Sn76489an) -> bool {
    s.tone_1_frequency <= 1023
        && s.tone_2_frequency <= 1023
        && s.tone_3_frequency <= 1023
        && s.tone_1_attenuation <= 15
        && s.tone_2_attenuation <= 15
        && s.tone_3_attenuation <= 15
        && s.noise_type <= 15
        && s.noise_attenuation <= 15
}

#[test]
fn power_on_state_is_silent_with_tone_1_latched() {
    let s = Sn76489an::default();
    assert_eq!(s.tone_1_frequency, 0);
    assert_eq!(s.tone_2_frequency, 0);
    assert_eq!(s.tone_3_frequency, 0);
    assert_eq!(s.tone_1_attenuation, 15);
    assert_eq!(s.tone_2_attenuation, 15);
    assert_eq!(s.tone_3_attenuation, 15);
    assert_eq!(s.noise_type, 0);
    assert_eq!(s.noise_attenuation, 15);
    assert_eq!(s.latched_channel, LatchedChannel::Tone1);
    assert_eq!(LatchedChannel::default(), LatchedChannel::Tone1);
}

#[test]
fn latch_then_zero_data_gives_zero_divider() {
    let s = write_all(Sn76489an::default(), &[0x80, 0x00]);
    assert_eq!(s.tone_1_frequency, 0);
}

#[test]
fn latch_then_full_data_sets_high_bits() {
    let s = write_all(Sn76489an::default(), &[0x80, 0x3F]);
    assert_eq!(s.tone_1_frequency, 0x3F0);
}

#[test]
fn low_bits_keep_high_bits_and_latch() {
    let s = write_all(Sn76489an::default(), &[0xA5, 0x12, 0xAC]);
    assert_eq!(s.tone_2_frequency, 0x12C);
    assert_eq!(s.latched_channel, LatchedChannel::Tone2);
    assert_eq!(s.tone_1_frequency, 0);
    assert_eq!(s.tone_3_frequency, 0);
}

#[test]
fn data_byte_targets_last_latched_tone() {
    let s = write_all(Sn76489an::default(), &[0xC7, 0x2A]);
    assert_eq!(s.tone_3_frequency, (0x2A << 4) | 7);
    assert_eq!(s.latched_channel, LatchedChannel::Tone3);
    let s = write_all(s, &[0x81, 0x01]);
    assert_eq!(s.tone_1_frequency, 0x11);
    assert_eq!(s.tone_3_frequency, (0x2A << 4) | 7);
}

#[test]
fn data_byte_before_any_latch_goes_to_tone_1() {
    let s = write_all(Sn76489an::default(), &[0x15]);
    assert_eq!(s.tone_1_frequency, 0x150);
    assert_eq!(s.tone_2_frequency, 0);
}

#[test]
fn data_byte_ignores_bit_6() {
    let s = write_all(Sn76489an::default(), &[0x7F]);
    assert_eq!(s.tone_1_frequency, 0x3F0);
}

#[test]
fn attenuation_and_noise_writes_do_not_move_the_latch() {
    let s = write_all(Sn76489an::default(), &[0xA3, 0x90, 0xB4, 0xDA, 0xE5, 0xF2, 0x01]);
    assert_eq!(s.tone_1_attenuation, 0);
    assert_eq!(s.tone_2_attenuation, 4);
    assert_eq!(s.tone_3_attenuation, 10);
    assert_eq!(s.noise_type, 5);
    assert_eq!(s.noise_attenuation, 2);
    assert_eq!(s.latched_channel, LatchedChannel::Tone2);
    assert_eq!(s.tone_2_frequency, 0x13);
}

#[test]
fn low_bit_write_masks_an_out_of_range_divider() {
    let s = Sn76489an::default().tone_1_frequency(0xFFFF);
    let s = s.update(0x82);
    assert_eq!(s.tone_1_frequency, 0x3F2);
}

#[test]
fn setters_change_one_field() {
    let s = Sn76489an::default()
        .tone_2_frequency(300)
        .tone_3_attenuation(7)
        .noise_type(3)
        .latched_channel(LatchedChannel::Tone3);
    assert_eq!(s.tone_2_frequency, 300);
    assert_eq!(s.tone_3_attenuation, 7);
    assert_eq!(s.noise_type, 3);
    assert_eq!(s.latched_channel, LatchedChannel::Tone3);
    assert_eq!(s.tone_1_frequency, 0);
    assert_eq!(s.tone_2_attenuation, 15);
}

#[test]
fn every_byte_keeps_registers_in_range() {
    let full = write_all(
        Sn76489an::default(),
        &[0x8F, 0x3F, 0x9F, 0xAF, 0x3F, 0xBF, 0xCF, 0x3F, 0xDF, 0xEF, 0xFF],
    );
    for start in [Sn76489an::default(), full] {
        for latch in [0x80u8, 0xA0, 0xC0] {
            let s = start.update(latch);
            for b in 0..=255u8 {
                assert!(in_range(&s.update(b)));
            }
        }
    }
}
