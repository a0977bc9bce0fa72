//! The register engine: one write byte at a time, one new chip state.
use vstd::prelude::*;

verus! {

/// The tone channel that a data-only byte updates.
#[derive(Clone, Copy, Debug, PartialEq, Eq, Structural)]
pub enum LatchedChannel {
    Tone1,
    Tone2,
    Tone3,
}

impl Default for LatchedChannel {
    fn default() -> (r: Self)
        ensures
            r == LatchedChannel::Tone1,
    {
        LatchedChannel::Tone1
    }
}

/// A snapshot of the chip's registers.
#[derive(Clone, Copy, Debug, PartialEq, Eq, Structural)]
pub struct Sn76489an {
    pub tone_1_frequency: u16,
    pub tone_1_attenuation: u8,
    pub tone_2_frequency: u16,
    pub tone_2_attenuation: u8,
    pub tone_3_frequency: u16,
    pub tone_3_attenuation: u8,
    pub noise_type: u8,
    pub noise_attenuation: u8,
    pub latched_channel: LatchedChannel,
}

/// The attenuation code of a silent channel; 0 is the loudest.
pub const SILENT: u8 = 15;

/// Largest frequency divider (10 bits).
pub const MAX_DIVIDER: u16 = 1023;

/// Largest attenuation or noise-type code (4 bits).
pub const MAX_NIBBLE: u8 = 15;

/// The divider of tone channel `c` (1 to 3).
pub open spec fn tone_frequency(s: Sn76489an, c: int) -> u16 {
    if c == 1 {
        s.tone_1_frequency
    } else if c == 2 {
        s.tone_2_frequency
    } else {
        s.tone_3_frequency
    }
}

/// The attenuation of tone channel `c` (1 to 3).
pub open spec fn tone_attenuation(s: Sn76489an, c: int) -> u8 {
    if c == 1 {
        s.tone_1_attenuation
    } else if c == 2 {
        s.tone_2_attenuation
    } else {
        s.tone_3_attenuation
    }
}

/// A divider whose low four bits are replaced by `lo`; bits above 9 are dropped.
pub open spec fn with_low_bits(f: u16, lo: int) -> u16 {
    ((f % 1024) / 16 * 16 + lo) as u16
}

/// A divider whose bits 9..4 are `hi`; its low four bits are kept.
pub open spec fn with_high_bits(f: u16, hi: int) -> u16 {
    (hi * 16 + f % 16) as u16
}

/// The state after one write byte.
///
/// With bit 7 set, bits 6..4 select a register and bits 3..0 are its data;
/// a write to a tone's frequency also latches that tone. With bit 7 clear,
/// bits 5..0 become the upper six bits of the latched tone's divider.
pub open spec fn spec_update(s: Sn76489an, cmd: u8) -> Sn76489an {
    let data: int = cmd as int % 16;
    if cmd >= 128 {
        let reg: int = (cmd as int / 16) % 8;
        if reg == 0 {
            Sn76489an {
                tone_1_frequency: with_low_bits(s.tone_1_frequency, data),
                latched_channel: LatchedChannel::Tone1,
                ..s
            }
        } else if reg == 1 {
            Sn76489an { tone_1_attenuation: data as u8, ..s }
        } else if reg == 2 {
            Sn76489an {
                tone_2_frequency: with_low_bits(s.tone_2_frequency, data),
                latched_channel: LatchedChannel::Tone2,
                ..s
            }
        } else if reg == 3 {
            Sn76489an { tone_2_attenuation: data as u8, ..s }
        } else if reg == 4 {
            Sn76489an {
                tone_3_frequency: with_low_bits(s.tone_3_frequency, data),
                latched_channel: LatchedChannel::Tone3,
                ..s
            }
        } else if reg == 5 {
            Sn76489an { tone_3_attenuation: data as u8, ..s }
        } else if reg == 6 {
            Sn76489an { noise_type: data as u8, ..s }
        } else {
            Sn76489an { noise_attenuation: data as u8, ..s }
        }
    } else {
        let high: int = cmd as int % 64;
        match s.latched_channel {
            LatchedChannel::Tone1 => Sn76489an {
                tone_1_frequency: with_high_bits(s.tone_1_frequency, high),
                ..s
            },
            LatchedChannel::Tone2 => Sn76489an {
                tone_2_frequency: with_high_bits(s.tone_2_frequency, high),
                ..s
            },
            LatchedChannel::Tone3 => Sn76489an {
                tone_3_frequency: with_high_bits(s.tone_3_frequency, high),
                ..s
            },
        }
    }
}

/// The state after a sequence of write bytes, in order.
pub open spec fn spec_update_all(s: Sn76489an, cmds: Seq<u8>) -> Sn76489an
    decreases cmds.len(),
{
    if cmds.len() == 0 {
        s
    } else {
        spec_update(spec_update_all(s, cmds.drop_last()), cmds.last())
    }
}

proof fn lemma_low_bits(f: u16, op: u16)
    requires
        op < 16,
    ensures
        (f & 0x3F0) | op == (f % 1024) / 16 * 16 + op,
        (f & 0x3F0) | op <= 1023,
{
    assert((f & 0x3F0) | op == (f % 1024) / 16 * 16 + op) by (bit_vector)
        requires
            op < 16,
    ;
    assert((f & 0x3F0) | op <= 1023) by (bit_vector)
        requires
            op < 16,
    ;
}

proof fn lemma_high_bits(f: u16, cmd: u8)
    ensures
        (((cmd & 0x3F) as u16) << 4u16) | (f & 0xF) == (cmd % 64) * 16 + f % 16,
        (((cmd & 0x3F) as u16) << 4u16) | (f & 0xF) <= 1023,
{
    assert((((cmd & 0x3F) as u16) << 4u16) | (f & 0xF) == (cmd % 64) * 16 + f % 16)
        by (bit_vector);
    assert((((cmd & 0x3F) as u16) << 4u16) | (f & 0xF) <= 1023) by (bit_vector);
}

impl Sn76489an {
    /// Every register holds a value within its bit width.
    pub open spec fn wf(&self) -> bool {
        &&& self.tone_1_frequency <= MAX_DIVIDER
        &&& self.tone_2_frequency <= MAX_DIVIDER
        &&& self.tone_3_frequency <= MAX_DIVIDER
        &&& self.tone_1_attenuation <= MAX_NIBBLE
        &&& self.tone_2_attenuation <= MAX_NIBBLE
        &&& self.tone_3_attenuation <= MAX_NIBBLE
        &&& self.noise_type <= MAX_NIBBLE
        &&& self.noise_attenuation <= MAX_NIBBLE
    }

    /// The power-on state: every divider 0, every channel silent, tone 1 latched.
    pub open spec fn spec_power_on() -> Sn76489an {
        Sn76489an {
            tone_1_frequency: 0,
            tone_1_attenuation: SILENT,
            tone_2_frequency: 0,
            tone_2_attenuation: SILENT,
            tone_3_frequency: 0,
            tone_3_attenuation: SILENT,
            noise_type: 0,
            noise_attenuation: SILENT,
            latched_channel: LatchedChannel::Tone1,
        }
    }

    pub fn tone_1_frequency(self, data: u16) -> (r: Self)
        ensures
            r == (Sn76489an { tone_1_frequency: data, ..self }),
    {
        Sn76489an { tone_1_frequency: data, ..self }
    }

    pub fn tone_1_attenuation(self, data: u8) -> (r: Self)
        ensures
            r == (Sn76489an { tone_1_attenuation: data, ..self }),
    {
        Sn76489an { tone_1_attenuation: data, ..self }
    }

    pub fn tone_2_frequency(self, data: u16) -> (r: Self)
        ensures
            r == (Sn76489an { tone_2_frequency: data, ..self }),
    {
        Sn76489an { tone_2_frequency: data, ..self }
    }

    pub fn tone_2_attenuation(self, data: u8) -> (r: Self)
        ensures
            r == (Sn76489an { tone_2_attenuation: data, ..self }),
    {
        Sn76489an { tone_2_attenuation: data, ..self }
    }

    pub fn tone_3_frequency(self, data: u16) -> (r: Self)
        ensures
            r == (Sn76489an { tone_3_frequency: data, ..self }),
    {
        Sn76489an { tone_3_frequency: data, ..self }
    }

    pub fn tone_3_attenuation(self, data: u8) -> (r: Self)
        ensures
            r == (Sn76489an { tone_3_attenuation: data, ..self }),
    {
        Sn76489an { tone_3_attenuation: data, ..self }
    }

    pub fn noise_type(self, data: u8) -> (r: Self)
        ensures
            r == (Sn76489an { noise_type: data, ..self }),
    {
        Sn76489an { noise_type: data, ..self }
    }

    pub fn noise_attenuation(self, data: u8) -> (r: Self)
        ensures
            r == (Sn76489an { noise_attenuation: data, ..self }),
    {
        Sn76489an { noise_attenuation: data, ..self }
    }

    pub fn latched_channel(self, channel: LatchedChannel) -> (r: Self)
        ensures
            r == (Sn76489an { latched_channel: channel, ..self }),
    {
        Sn76489an { latched_channel: channel, ..self }
    }

    /// Applies one write byte to the registers.
    pub fn update(self, cmd: u8) -> (r: Self)
        ensures
            r == spec_update(self, cmd),
            self.wf() ==> r.wf(),
    {
        if cmd >> 7u8 == 1 {
            let operand: u8 = cmd & 0x0F;
            assert(cmd & 0x0F == cmd % 16 && (cmd & 0x70) >> 4u8 == (cmd / 16) % 8
                && (cmd >> 7u8 == 1 <==> cmd >= 128)) by (bit_vector);
            let reg: u8 = (cmd & 0x70) >> 4u8;
            if reg == 0 {
                proof { lemma_low_bits(self.tone_1_frequency, operand as u16); }
                self.tone_1_frequency((self.tone_1_frequency & 0x3F0) | (operand as u16))
                    .latched_channel(LatchedChannel::Tone1)
            } else if reg == 1 {
                self.tone_1_attenuation(operand)
            } else if reg == 2 {
                proof { lemma_low_bits(self.tone_2_frequency, operand as u16); }
                self.tone_2_frequency((self.tone_2_frequency & 0x3F0) | (operand as u16))
                    .latched_channel(LatchedChannel::Tone2)
            } else if reg == 3 {
                self.tone_2_attenuation(operand)
            } else if reg == 4 {
                proof { lemma_low_bits(self.tone_3_frequency, operand as u16); }
                self.tone_3_frequency((self.tone_3_frequency & 0x3F0) | (operand as u16))
                    .latched_channel(LatchedChannel::Tone3)
            } else if reg == 5 {
                self.tone_3_attenuation(operand)
            } else if reg == 6 {
                self.noise_type(operand)
            } else {
                self.noise_attenuation(operand)
            }
        } else {
            assert(cmd >> 7u8 != 1 ==> cmd < 128) by (bit_vector);
            let operand: u16 = ((cmd & 0x3F) as u16) << 4u16;
            match self.latched_channel {
                LatchedChannel::Tone1 => {
                    proof { lemma_high_bits(self.tone_1_frequency, cmd); }
                    self.tone_1_frequency(operand | (self.tone_1_frequency & 0xF))
                },
                LatchedChannel::Tone2 => {
                    proof { lemma_high_bits(self.tone_2_frequency, cmd); }
                    self.tone_2_frequency(operand | (self.tone_2_frequency & 0xF))
                },
                LatchedChannel::Tone3 => {
                    proof { lemma_high_bits(self.tone_3_frequency, cmd); }
                    self.tone_3_frequency(operand | (self.tone_3_frequency & 0xF))
                },
            }
        }
    }
}

/// Every write byte keeps every register within its bit width.
pub proof fn lemma_update_wf(s: Sn76489an, cmd: u8)
    requires
        s.wf(),
    ensures
        spec_update(s, cmd).wf(),
{
    assert(cmd as int % 16 <= 15);
    assert(forall|f: u16| #[trigger] with_high_bits(f, cmd as int % 64) <= 1023);
    assert(forall|f: u16, lo: int| 0 <= lo < 16 ==> #[trigger] with_low_bits(f, lo) <= 1023);
}

/// Every state reached from power-on by any sequence of write bytes is well formed.
pub proof fn lemma_reachable_wf(cmds: Seq<u8>)
    ensures
        spec_update_all(Sn76489an::spec_power_on(), cmds).wf(),
    decreases cmds.len(),
{
    if cmds.len() > 0 {
        lemma_reachable_wf(cmds.drop_last());
        lemma_update_wf(spec_update_all(Sn76489an::spec_power_on(), cmds.drop_last()), cmds.last());
    }
}

proof fn lemma_low_then_high(f: u16, lo: int, hi: int)
    requires
        0 <= lo < 16,
        0 <= hi < 64,
    ensures
        with_high_bits(with_low_bits(f, lo), hi) == hi * 16 + lo,
{
    let q = (f % 1024) / 16;
    assert(0 <= q < 64);
    let v = q * 16 + lo;
    assert(v % 16 == lo) by (nonlinear_arith)
        requires
            0 <= q,
            0 <= lo < 16,
            v == q * 16 + lo,
    ;
    assert(with_low_bits(f, lo) == v);
}

/// A latch byte for a tone's frequency followed by a data byte sets that
/// tone's whole divider: the upper six bits from the data byte, the low four
/// from the latch byte.
pub proof fn lemma_latch_then_data(s: Sn76489an, latch: u8, data: u8)
    requires
        latch >= 128,
        (latch / 16) % 8 == 0 || (latch / 16) % 8 == 2 || (latch / 16) % 8 == 4,
        data < 128,
    ensures
        ({
            let c = (latch / 16) % 8 / 2 + 1;
            let r = spec_update(spec_update(s, latch), data);
            &&& tone_frequency(r, c) == (data % 64) * 16 + latch % 16
            &&& forall|o: int| 1 <= o <= 3 && o != c ==> tone_frequency(r, o) == tone_frequency(s, o)
        }),
{
    let reg = (latch / 16) % 8;
    let lo = latch % 16;
    let hi = data % 64;
    if reg == 0 {
        lemma_low_then_high(s.tone_1_frequency, lo as int, hi as int);
    } else if reg == 2 {
        lemma_low_then_high(s.tone_2_frequency, lo as int, hi as int);
    } else {
        lemma_low_then_high(s.tone_3_frequency, lo as int, hi as int);
    }
}

impl Default for Sn76489an {
    fn default() -> (r: Self)
        ensures
            r == Sn76489an::spec_power_on(),
    {
        Sn76489an {
            tone_1_frequency: 0,
            tone_1_attenuation: SILENT,
            tone_2_frequency: 0,
            tone_2_attenuation: SILENT,
            tone_3_frequency: 0,
            tone_3_attenuation: SILENT,
            noise_type: 0,
            noise_attenuation: SILENT,
            latched_channel: LatchedChannel::Tone1,
        }
    }
}

} // verus!
