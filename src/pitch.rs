//! Pitch of a tone divider, as a note number relative to concert pitch A4.
//!
//! A divider `d` makes the chip sound at `clock_rate() / (32 * d)` Hz; its note
//! is `12 * log2(that / 440)`, rounded. All of it is stated and computed over
//! integers: `x >= h / 24` for `x = log2(r)` is `r^24 >= 2^h`.
use vstd::prelude::*;

verus! {

/// Input clock of the sound generator, in Hz.
pub open spec fn clock_rate() -> int {
    3580000
}

/// `clock_rate() / (32 * d)` Hz over concert pitch (440 Hz) is
/// `clock_rate() / tone_scale(d)`.
pub open spec fn tone_scale(d: int) -> int {
    32 * 440 * d
}

/// Lowest note that a 16-bit divider can give.
pub const LOWEST_NOTE: i32 = -96;

/// Highest note that a nonzero divider can give.
pub const HIGHEST_NOTE: i32 = 96;

/// `2^e`.
pub open spec fn two_to(e: nat) -> int
    decreases e,
{
    if e == 0 {
        1
    } else {
        2 * two_to((e - 1) as nat)
    }
}

/// `x^24`.
pub open spec fn pow24(x: int) -> int {
    let x3 = x * x * x;
    let x6 = x3 * x3;
    let x12 = x6 * x6;
    x12 * x12
}

/// `24 * log2(clock_rate() / tone_scale(d)) >= h`, for a divider `d > 0`.
pub open spec fn at_least(d: int, h: int) -> bool {
    if h >= 0 {
        pow24(clock_rate()) >= two_to(h as nat) * pow24(tone_scale(d))
    } else {
        pow24(clock_rate()) * two_to((-h) as nat) >= pow24(tone_scale(d))
    }
}

/// `n - 1/2 <= 12 * log2(clock_rate() / tone_scale(d)) < n + 1/2`:
/// `n` is the note of divider `d`, rounded to the nearest semitone.
pub open spec fn rounds_to(d: int, n: int) -> bool {
    at_least(d, 2 * n - 1) && !at_least(d, 2 * n + 1)
}

/// The note of a divider; a zero divider has none.
pub open spec fn note_value(d: u16) -> Option<isize> {
    if d == 0 {
        None
    } else {
        Some(choose|n: isize| rounds_to(d as int, n as int))
    }
}

proof fn lemma_two_to_pos(e: nat)
    ensures
        two_to(e) > 0,
    decreases e,
{
    if e > 0 {
        lemma_two_to_pos((e - 1) as nat);
    }
}

proof fn lemma_two_to_add(a: nat, b: nat)
    ensures
        two_to(a + b) == two_to(a) * two_to(b),
    decreases a,
{
    if a == 0 {
        assert(two_to(0) == 1);
        assert(a + b == b);
    } else {
        let a1 = (a - 1) as nat;
        lemma_two_to_add(a1, b);
        let s = a1 + b;
        assert(a + b == s + 1);
        assert(two_to(s + 1) == 2 * two_to(s));
        assert(two_to(a) == 2 * two_to(a1));
        assert(2 * two_to(a1) * two_to(b) == 2 * (two_to(a1) * two_to(b))) by (nonlinear_arith);
    }
}

proof fn lemma_two_to_mono(a: nat, b: nat)
    requires
        a <= b,
    ensures
        two_to(a) <= two_to(b),
{
    lemma_two_to_add(a, (b - a) as nat);
    lemma_two_to_pos(a);
    lemma_two_to_pos((b - a) as nat);
    assert(two_to(a) <= two_to(a) * two_to((b - a) as nat)) by (nonlinear_arith)
        requires
            two_to(a) > 0,
            two_to((b - a) as nat) > 0,
    ;
}

proof fn lemma_pow24_nonneg(x: int)
    requires
        x >= 0,
    ensures
        pow24(x) >= 0,
{
    assert(pow24(x) >= 0) by (nonlinear_arith)
        requires
            x >= 0,
    ;
}

proof fn lemma_pow24_mono(x: int, y: int)
    requires
        0 <= x <= y,
    ensures
        pow24(x) <= pow24(y),
{
    assert(x * x * x <= y * y * y && 0 <= x * x * x) by (nonlinear_arith)
        requires
            0 <= x <= y,
    ;
    let x3 = x * x * x;
    let y3 = y * y * y;
    assert(x3 * x3 <= y3 * y3 && 0 <= x3 * x3) by (nonlinear_arith)
        requires
            0 <= x3 <= y3,
    ;
    let x6 = x3 * x3;
    let y6 = y3 * y3;
    assert(x6 * x6 <= y6 * y6 && 0 <= x6 * x6) by (nonlinear_arith)
        requires
            0 <= x6 <= y6,
    ;
    let x12 = x6 * x6;
    let y12 = y6 * y6;
    assert(x12 * x12 <= y12 * y12) by (nonlinear_arith)
        requires
            0 <= x12 <= y12,
    ;
}

proof fn lemma_pow24_double(x: int)
    ensures
        pow24(2 * x) == two_to(24) * pow24(x),
{
    reveal_with_fuel(two_to, 25);
    assert((2 * x) * (2 * x) * (2 * x) == 8 * (x * x * x)) by (nonlinear_arith);
    let x3 = x * x * x;
    assert((8 * x3) * (8 * x3) == 64 * (x3 * x3)) by (nonlinear_arith);
    let x6 = x3 * x3;
    assert((64 * x6) * (64 * x6) == 4096 * (x6 * x6)) by (nonlinear_arith);
    let x12 = x6 * x6;
    assert((4096 * x12) * (4096 * x12) == 16777216 * (x12 * x12)) by (nonlinear_arith);
}

/// Doubling the divider lowers the pitch by one octave (24 half-semitones).
proof fn lemma_at_least_double(d: int, h: int)
    requires
        d >= 0,
    ensures
        at_least(d, h + 24) <==> at_least(2 * d, h),
{
    let c = pow24(clock_rate());
    let p = pow24(tone_scale(d));
    lemma_pow24_double(tone_scale(d));
    assert(tone_scale(2 * d) == 2 * tone_scale(d)) by (nonlinear_arith);
    let p2 = pow24(tone_scale(2 * d));
    assert(p2 == two_to(24) * p);
    if h >= 0 {
        lemma_two_to_add(h as nat, 24);
        assert(two_to((h + 24) as nat) * p == two_to(h as nat) * p2) by (nonlinear_arith)
            requires
                two_to((h + 24) as nat) == two_to(h as nat) * two_to(24),
                p2 == two_to(24) * p,
        ;
    } else if h + 24 >= 0 {
        let k = (-h) as nat;
        let m = (h + 24) as nat;
        lemma_two_to_add(k, m);
        assert(k + m == 24);
        lemma_two_to_pos(k);
        assert((c >= two_to(m) * p) <==> (c * two_to(k) >= p2)) by (nonlinear_arith)
            requires
                two_to(k) > 0,
                two_to(24) == two_to(k) * two_to(m),
                p2 == two_to(24) * p,
        ;
    } else {
        let k = (-h - 24) as nat;
        lemma_two_to_add(k, 24);
        assert((-h) as nat == k + 24);
        lemma_two_to_pos(24);
        assert((c * two_to(k) >= p) <==> (c * two_to((-h) as nat) >= p2)) by (nonlinear_arith)
            requires
                two_to(24) > 0,
                two_to((-h) as nat) == two_to(k) * two_to(24),
                p2 == two_to(24) * p,
        ;
    }
}

/// A smaller divider sounds at least as high.
proof fn lemma_at_least_smaller(d1: int, d2: int, h: int)
    requires
        0 <= d1 <= d2,
        at_least(d2, h),
    ensures
        at_least(d1, h),
{
    assert(0 <= tone_scale(d1) <= tone_scale(d2)) by (nonlinear_arith)
        requires
            0 <= d1 <= d2,
    ;
    lemma_pow24_mono(tone_scale(d1), tone_scale(d2));
    let p1 = pow24(tone_scale(d1));
    let p2 = pow24(tone_scale(d2));
    if h >= 0 {
        lemma_two_to_pos(h as nat);
        assert(two_to(h as nat) * p1 <= two_to(h as nat) * p2) by (nonlinear_arith)
            requires
                two_to(h as nat) > 0,
                p1 <= p2,
        ;
    }
}

/// The bound holds of every lower threshold too.
proof fn lemma_at_least_lower(d: int, h1: int, h2: int)
    requires
        d >= 0,
        h1 <= h2,
        at_least(d, h2),
    ensures
        at_least(d, h1),
{
    let c = pow24(clock_rate());
    let p = pow24(tone_scale(d));
    lemma_pow24_nonneg(tone_scale(d));
    lemma_pow24_nonneg(clock_rate());
    if h1 >= 0 {
        lemma_two_to_mono(h1 as nat, h2 as nat);
        assert(two_to(h1 as nat) * p <= two_to(h2 as nat) * p) by (nonlinear_arith)
            requires
                two_to(h1 as nat) <= two_to(h2 as nat),
                p >= 0,
        ;
    } else if h2 >= 0 {
        lemma_two_to_pos(h2 as nat);
        lemma_two_to_pos((-h1) as nat);
        assert(c * two_to((-h1) as nat) >= p) by (nonlinear_arith)
            requires
                c >= two_to(h2 as nat) * p,
                two_to(h2 as nat) >= 1,
                two_to((-h1) as nat) >= 1,
                p >= 0,
                c >= 0,
        ;
    } else {
        lemma_two_to_mono((-h2) as nat, (-h1) as nat);
        assert(c * two_to((-h2) as nat) <= c * two_to((-h1) as nat)) by (nonlinear_arith)
            requires
                two_to((-h2) as nat) <= two_to((-h1) as nat),
                c >= 0,
        ;
    }
}

/// A divider rounds to at most one note.
pub proof fn lemma_rounds_to_unique(d: int, n: int, m: int)
    requires
        d >= 0,
        rounds_to(d, n),
        rounds_to(d, m),
    ensures
        n == m,
{
    if n < m {
        lemma_at_least_lower(d, 2 * n + 1, 2 * m - 1);
    } else if m < n {
        lemma_at_least_lower(d, 2 * m + 1, 2 * n - 1);
    }
}


/// Largest divider whose note is at least `-95 + i`, for `0 <= i < 12`;
/// each octave up halves it.
pub open spec fn base_threshold(i: int) -> int {
    if i == 0 {
        63237
    } else if i == 1 {
        59688
    } else if i == 2 {
        56338
    } else if i == 3 {
        53176
    } else if i == 4 {
        50191
    } else if i == 5 {
        47374
    } else if i == 6 {
        44715
    } else if i == 7 {
        42206
    } else if i == 8 {
        39837
    } else if i == 9 {
        37601
    } else if i == 10 {
        35491
    } else {
        33499
    }
}

/// `2^168`, by whole octaves of `2^24`.
proof fn lemma_two_to_168()
    ensures
        two_to(168) == 374144419156711147060143317175368453031918731001856,
{
    reveal_with_fuel(two_to, 25);
    assert(two_to(24) == 16777216);
    lemma_two_to_add(24, 24);
    lemma_two_to_add(48, 24);
    lemma_two_to_add(72, 24);
    lemma_two_to_add(96, 24);
    lemma_two_to_add(120, 24);
    lemma_two_to_add(144, 24);
    assert(two_to(48) == 281474976710656);
    assert(two_to(72) == 4722366482869645213696);
    assert(two_to(96) == 79228162514264337593543950336);
    assert(two_to(120) == 1329227995784915872903807060280344576);
    assert(two_to(144) == 22300745198530623141535718272648361505980416);
}

/// `two_to(e)` for the large exponents that the lowest notes reach.
proof fn lemma_two_to_large(e: nat)
    requires
        168 <= e <= 194,
    ensures
        two_to(e) == 374144419156711147060143317175368453031918731001856 * two_to((e - 168) as nat),
{
    lemma_two_to_168();
    lemma_two_to_add(168, (e - 168) as nat);
}

/// Each entry of the base table is checked in exact arithmetic: it meets its
/// bound, and the next divider does not.
proof fn lemma_base_threshold(i: int)
    requires
        0 <= i < 12,
    ensures
        at_least(base_threshold(i), 2 * (-95 + i) - 1),
        !at_least(base_threshold(i) + 1, 2 * (-95 + i) - 1),
{
    reveal_with_fuel(two_to, 25);
    assert(3580000 * 3580000 * 3580000 == 45882712000000000000) by (nonlinear_arith);
    assert(45882712000000000000 * 45882712000000000000 == 2105223260474944000000000000000000000000) by (nonlinear_arith);
    assert(2105223260474944000000000000000000000000 * 2105223260474944000000000000000000000000 == 4431964976444753912220451803136000000000000000000000000000000000000000000000000) by (nonlinear_arith);
    assert(pow24(clock_rate()) == 4431964976444753912220451803136000000000000000000000000000000000000000000000000 * 4431964976444753912220451803136000000000000000000000000000000000000000000000000);
    if i == 0 {
        lemma_two_to_large(191);
        assert(two_to(23) == 8388608);
        assert(tone_scale(63237) == 890376960) by (nonlinear_arith);
        assert(tone_scale(63238) == 890391040) by (nonlinear_arith);
        assert(890376960 * 890376960 * 890376960 == 705865149505472651329536000) by (nonlinear_arith);
        assert(705865149505472651329536000 * 705865149505472651329536000 == 498245609286383257947798554723838672148465975296000000) by (nonlinear_arith);
        assert(498245609286383257947798554723838672148465975296000000 * 498245609286383257947798554723838672148465975296000000 == 248248687173159282609225332648192976106460945835732107753034710849151456780925039644592482287616000000000000) by (nonlinear_arith);
        assert(pow24(890376960) == 248248687173159282609225332648192976106460945835732107753034710849151456780925039644592482287616000000000000 * 248248687173159282609225332648192976106460945835732107753034710849151456780925039644592482287616000000000000);
        assert(890391040 * 890391040 * 890391040 == 705898636687586690596864000) by (nonlinear_arith);
        assert(705898636687586690596864000 * 705898636687586690596864000 == 498292885277393510520936104040955584636566634496000000) by (nonlinear_arith);
        assert(498292885277393510520936104040955584636566634496000000 * 498292885277393510520936104040955584636566634496000000 == 248295799518069650352457368045584521893499060841752609500372958854399460114613531481564057174016000000000000) by (nonlinear_arith);
        assert(pow24(890391040) == 248295799518069650352457368045584521893499060841752609500372958854399460114613531481564057174016000000000000 * 248295799518069650352457368045584521893499060841752609500372958854399460114613531481564057174016000000000000);
        assert(at_least(63237, -191));
        assert(!at_least(63238, -191));
    } else if i == 1 {
        lemma_two_to_large(189);
        assert(two_to(21) == 2097152);
        assert(tone_scale(59688) == 840407040) by (nonlinear_arith);
        assert(tone_scale(59689) == 840421120) by (nonlinear_arith);
        assert(840407040 * 840407040 * 840407040 == 593566039856974254833664000) by (nonlinear_arith);
        assert(593566039856974254833664000 * 593566039856974254833664000 == 352320643671491149667593962121505685668307664896000000) by (nonlinear_arith);
        assert(352320643671491149667593962121505685668307664896000000 * 352320643671491149667593962121505685668307664896000000 == 124129835957093836690292246077040129432174441655954358045471906343503502578513002478744230690816000000000000) by (nonlinear_arith);
        assert(pow24(840407040) == 124129835957093836690292246077040129432174441655954358045471906343503502578513002478744230690816000000000000 * 124129835957093836690292246077040129432174441655954358045471906343503502578513002478744230690816000000000000);
        assert(840421120 * 840421120 * 840421120 == 593595873792659373948928000) by (nonlinear_arith);
        assert(593595873792659373948928000 * 593595873792659373948928000 == 352356061383670795770003630257394476904752349184000000) by (nonlinear_arith);
        assert(352356061383670795770003630257394476904752349184000000 * 352356061383670795770003630257394476904752349184000000 == 124154793993813181783711161753179703551014797652818817810558625546486166314546228521966665465856000000000000) by (nonlinear_arith);
        assert(pow24(840421120) == 124154793993813181783711161753179703551014797652818817810558625546486166314546228521966665465856000000000000 * 124154793993813181783711161753179703551014797652818817810558625546486166314546228521966665465856000000000000);
        assert(at_least(59688, -189));
        assert(!at_least(59689, -189));
    } else if i == 2 {
        lemma_two_to_large(187);
        assert(two_to(19) == 524288);
        assert(tone_scale(56338) == 793239040) by (nonlinear_arith);
        assert(tone_scale(56339) == 793253120) by (nonlinear_arith);
        assert(793239040 * 793239040 * 793239040 == 499128353144888061067264000) by (nonlinear_arith);
        assert(499128353144888061067264000 * 499128353144888061067264000 == 249129112913128087600726355312215222074732445696000000) by (nonlinear_arith);
        assert(249129112913128087600726355312215222074732445696000000 * 249129112913128087600726355312215222074732445696000000 == 62065314900882124046257239273217106691044684565124472016857191405561534412744107463705588924416000000000000) by (nonlinear_arith);
        assert(pow24(793239040) == 62065314900882124046257239273217106691044684565124472016857191405561534412744107463705588924416000000000000 * 62065314900882124046257239273217106691044684565124472016857191405561534412744107463705588924416000000000000);
        assert(793253120 * 793253120 * 793253120 == 499154932214755468771328000) by (nonlinear_arith);
        assert(499154932214755468771328000 * 499154932214755468771328000 == 249155646354317126868480614146584835837954883584000000) by (nonlinear_arith);
        assert(249155646354317126868480614146584835837954883584000000 * 249155646354317126868480614146584835837954883584000000 == 62078536110237541393101115304673154070543541323453755151054556864301863549378084202274992685056000000000000) by (nonlinear_arith);
        assert(pow24(793253120) == 62078536110237541393101115304673154070543541323453755151054556864301863549378084202274992685056000000000000 * 62078536110237541393101115304673154070543541323453755151054556864301863549378084202274992685056000000000000);
        assert(at_least(56338, -187));
        assert(!at_least(56339, -187));
    } else if i == 3 {
        lemma_two_to_large(185);
        assert(two_to(17) == 131072);
        assert(tone_scale(53176) == 748718080) by (nonlinear_arith);
        assert(tone_scale(53177) == 748732160) by (nonlinear_arith);
        assert(748718080 * 748718080 * 748718080 == 419715455360891053146112000) by (nonlinear_arith);
        assert(419715455360891053146112000 * 419715455360891053146112000 == 176161063468800130283541511362829836093220716544000000) by (nonlinear_arith);
        assert(176161063468800130283541511362829836093220716544000000 * 176161063468800130283541511362829836093220716544000000 == 31032720282458627790347890246470860083573054362704341668194469050210326567614115560976795303936000000000000) by (nonlinear_arith);
        assert(pow24(748718080) == 31032720282458627790347890246470860083573054362704341668194469050210326567614115560976795303936000000000000 * 31032720282458627790347890246470860083573054362704341668194469050210326567614115560976795303936000000000000);
        assert(748732160 * 748732160 * 748732160 == 419739134653148426141696000) by (nonlinear_arith);
        assert(419739134653148426141696000 * 419739134653148426141696000 == 176180941159373865950959747233902514761069756416000000) by (nonlinear_arith);
        assert(176180941159373865950959747233902514761069756416000000 * 176180941159373865950959747233902514761069756416000000 == 31039724027802756373495925389736670962247966184573573715664644112974428793367233779109573165056000000000000) by (nonlinear_arith);
        assert(pow24(748732160) == 31039724027802756373495925389736670962247966184573573715664644112974428793367233779109573165056000000000000 * 31039724027802756373495925389736670962247966184573573715664644112974428793367233779109573165056000000000000);
        assert(at_least(53176, -185));
        assert(!at_least(53177, -185));
    } else if i == 4 {
        lemma_two_to_large(183);
        assert(two_to(15) == 32768);
        assert(tone_scale(50191) == 706689280) by (nonlinear_arith);
        assert(tone_scale(50192) == 706703360) by (nonlinear_arith);
        assert(706689280 * 706689280 * 706689280 == 352927508502174867914752000) by (nonlinear_arith);
        assert(352927508502174867914752000 * 352927508502174867914752000 == 124557826257552713678944757561230617712739221504000000) by (nonlinear_arith);
        assert(124557826257552713678944757561230617712739221504000000 * 124557826257552713678944757561230617712739221504000000 == 15514652082006688258833042275236393288882182111983282970577340059027744653576373806127976022016000000000000) by (nonlinear_arith);
        assert(pow24(706689280) == 15514652082006688258833042275236393288882182111983282970577340059027744653576373806127976022016000000000000 * 15514652082006688258833042275236393288882182111983282970577340059027744653576373806127976022016000000000000);
        assert(706703360 * 706703360 * 706703360 == 352948603989826318893056000) by (nonlinear_arith);
        assert(352948603989826318893056000 * 352948603989826318893056000 == 124572717058367242911629384774913789293165019136000000) by (nonlinear_arith);
        assert(124572717058367242911629384774913789293165019136000000 * 124572717058367242911629384774913789293165019136000000 == 15518361835304021070008061762004039008035304448967185633050110271291537095816261053011246186496000000000000) by (nonlinear_arith);
        assert(pow24(706703360) == 15518361835304021070008061762004039008035304448967185633050110271291537095816261053011246186496000000000000 * 15518361835304021070008061762004039008035304448967185633050110271291537095816261053011246186496000000000000);
        assert(at_least(50191, -183));
        assert(!at_least(50192, -183));
    } else if i == 5 {
        lemma_two_to_large(181);
        assert(two_to(13) == 8192);
        assert(tone_scale(47374) == 667025920) by (nonlinear_arith);
        assert(tone_scale(47375) == 667040000) by (nonlinear_arith);
        assert(667025920 * 667025920 * 667025920 == 296775558913022060658688000) by (nonlinear_arith);
        assert(296775558913022060658688000 * 296775558913022060658688000 == 88075732368136627870193240745244949748429881344000000) by (nonlinear_arith);
        assert(88075732368136627870193240745244949748429881344000000 * 88075732368136627870193240745244949748429881344000000 == 7757334632183630086882318099816487666335515717146673129817575220641608184717950200593919246336000000000000) by (nonlinear_arith);
        assert(pow24(667025920) == 7757334632183630086882318099816487666335515717146673129817575220641608184717950200593919246336000000000000 * 7757334632183630086882318099816487666335515717146673129817575220641608184717950200593919246336000000000000);
        assert(667040000 * 667040000 * 667040000 == 296794352881664000000000000) by (nonlinear_arith);
        assert(296794352881664000000000000 * 296794352881664000000000000 == 88086887902445695900787408896000000000000000000000000) by (nonlinear_arith);
        assert(88086887902445695900787408896000000000000000000000000 * 88086887902445695900787408896000000000000000000000000 == 7759299820338033891306281446745957852217761465569499938816000000000000000000000000000000000000000000000000) by (nonlinear_arith);
        assert(pow24(667040000) == 7759299820338033891306281446745957852217761465569499938816000000000000000000000000000000000000000000000000 * 7759299820338033891306281446745957852217761465569499938816000000000000000000000000000000000000000000000000);
        assert(at_least(47374, -181));
        assert(!at_least(47375, -181));
    } else if i == 6 {
        lemma_two_to_large(179);
        assert(two_to(11) == 2048);
        assert(tone_scale(44715) == 629587200) by (nonlinear_arith);
        assert(tone_scale(44716) == 629601280) by (nonlinear_arith);
        assert(629587200 * 629587200 * 629587200 == 249555801032914894848000000) by (nonlinear_arith);
        assert(249555801032914894848000000 * 249555801032914894848000000 == 62278097829179806898330216798854896943104000000000000) by (nonlinear_arith);
        assert(62278097829179806898330216798854896943104000000000000 * 62278097829179806898330216798854896943104000000000000 == 3878561469220890576450108927612416106917336138919576400929858430905312563813154816000000000000000000000000) by (nonlinear_arith);
        assert(pow24(629587200) == 3878561469220890576450108927612416106917336138919576400929858430905312563813154816000000000000000000000000 * 3878561469220890576450108927612416106917336138919576400929858430905312563813154816000000000000000000000000);
        assert(629601280 * 629601280 * 629601280 == 249572544500349012017152000) by (nonlinear_arith);
        assert(249572544500349012017152000 * 249572544500349012017152000 == 62286454968378687884363526375916116507942191104000000) by (nonlinear_arith);
        assert(62286454968378687884363526375916116507942191104000000 * 62286454968378687884363526375916116507942191104000000 == 3879602472527866132736815358424122584759045277962859310083253804211312930696133631532456738816000000000000) by (nonlinear_arith);
        assert(pow24(629601280) == 3879602472527866132736815358424122584759045277962859310083253804211312930696133631532456738816000000000000 * 3879602472527866132736815358424122584759045277962859310083253804211312930696133631532456738816000000000000);
        assert(at_least(44715, -179));
        assert(!at_least(44716, -179));
    } else if i == 7 {
        lemma_two_to_large(177);
        assert(two_to(9) == 512);
        assert(tone_scale(42206) == 594260480) by (nonlinear_arith);
        assert(tone_scale(42207) == 594274560) by (nonlinear_arith);
        assert(594260480 * 594260480 * 594260480 == 209860425089911296622592000) by (nonlinear_arith);
        assert(209860425089911296622592000 * 209860425089911296622592000 == 44041398018918270851120484703555723586084798464000000) by (nonlinear_arith);
        assert(44041398018918270851120484703555723586084798464000000 * 44041398018918270851120484703555723586084798464000000 == 1939644739460778192409892997560774263977049501515098718583149418183630740793009934587496759296000000000000) by (nonlinear_arith);
        assert(pow24(594260480) == 1939644739460778192409892997560774263977049501515098718583149418183630740793009934587496759296000000000000 * 1939644739460778192409892997560774263977049501515098718583149418183630740793009934587496759296000000000000);
        assert(594274560 * 594274560 * 594274560 == 209875342310028204834816000) by (nonlinear_arith);
        assert(209875342310028204834816000 * 209875342310028204834816000 == 44047659309751515134823610807242626997845753856000000) by (nonlinear_arith);
        assert(44047659309751515134823610807242626997845753856000000 * 44047659309751515134823610807242626997845753856000000 == 1940196290667939322730099996291136357335566402322125081532896038457810687030280200448938868736000000000000) by (nonlinear_arith);
        assert(pow24(594274560) == 1940196290667939322730099996291136357335566402322125081532896038457810687030280200448938868736000000000000 * 1940196290667939322730099996291136357335566402322125081532896038457810687030280200448938868736000000000000);
        assert(at_least(42206, -177));
        assert(!at_least(42207, -177));
    } else if i == 8 {
        lemma_two_to_large(175);
        assert(two_to(7) == 128);
        assert(tone_scale(39837) == 560904960) by (nonlinear_arith);
        assert(tone_scale(39838) == 560919040) by (nonlinear_arith);
        assert(560904960 * 560904960 * 560904960 == 176468762949490034343936000) by (nonlinear_arith);
        assert(176468762949490034343936000 * 176468762949490034343936000 == 31141224296923306685555061572912764785939972096000000) by (nonlinear_arith);
        assert(31141224296923306685555061572912764785939972096000000 * 31141224296923306685555061572912764785939972096000000 == 969775850711286496794585526635924605827916231114140821820633831892935832906106426261258633216000000000000) by (nonlinear_arith);
        assert(pow24(560904960) == 969775850711286496794585526635924605827916231114140821820633831892935832906106426261258633216000000000000 * 969775850711286496794585526635924605827916231114140821820633831892935832906106426261258633216000000000000);
        assert(560919040 * 560919040 * 560919040 == 176482052594249198731264000) by (nonlinear_arith);
        assert(176482052594249198731264000 * 176482052594249198731264000 == 31145914887879340336030644740205295587291037696000000) by (nonlinear_arith);
        assert(31145914887879340336030644740205295587291037696000000 * 31145914887879340336030644740205295587291037696000000 == 970068014203023941295206120430907213745185131716567047598612120299209410158363598044492988416000000000000) by (nonlinear_arith);
        assert(pow24(560919040) == 970068014203023941295206120430907213745185131716567047598612120299209410158363598044492988416000000000000 * 970068014203023941295206120430907213745185131716567047598612120299209410158363598044492988416000000000000);
        assert(at_least(39837, -175));
        assert(!at_least(39838, -175));
    } else if i == 9 {
        lemma_two_to_large(173);
        assert(two_to(5) == 32);
        assert(tone_scale(37601) == 529422080) by (nonlinear_arith);
        assert(tone_scale(37602) == 529436160) by (nonlinear_arith);
        assert(529422080 * 529422080 * 529422080 == 148390517669506593062912000) by (nonlinear_arith);
        assert(148390517669506593062912000 * 148390517669506593062912000 == 22019745734224148407267328565715646561589919744000000) by (nonlinear_arith);
        assert(22019745734224148407267328565715646561589919744000000 * 22019745734224148407267328565715646561589919744000000 == 484869202199882580625465548073467374256615785626251144749977080344372849513467206072361025536000000000000) by (nonlinear_arith);
        assert(pow24(529422080) == 484869202199882580625465548073467374256615785626251144749977080344372849513467206072361025536000000000000 * 484869202199882580625465548073467374256615785626251144749977080344372849513467206072361025536000000000000);
        assert(529436160 * 529436160 * 529436160 == 148402357338464002768896000) by (nonlinear_arith);
        assert(148402357338464002768896000 * 148402357338464002768896000 == 22023259663613160655675266546087239154785058816000000) by (nonlinear_arith);
        assert(22023259663613160655675266546087239154785058816000000 * 22023259663613160655675266546087239154785058816000000 == 485023966210930466239519425492100971894076861917834573593127111708301950522512480672579321856000000000000) by (nonlinear_arith);
        assert(pow24(529436160) == 485023966210930466239519425492100971894076861917834573593127111708301950522512480672579321856000000000000 * 485023966210930466239519425492100971894076861917834573593127111708301950522512480672579321856000000000000);
        assert(at_least(37601, -173));
        assert(!at_least(37602, -173));
    } else if i == 10 {
        lemma_two_to_large(171);
        assert(two_to(3) == 8);
        assert(tone_scale(35491) == 499713280) by (nonlinear_arith);
        assert(tone_scale(35492) == 499727360) by (nonlinear_arith);
        assert(499713280 * 499713280 * 499713280 == 124785083288966819479552000) by (nonlinear_arith);
        assert(124785083288966819479552000 * 124785083288966819479552000 == 15571317011434386189505649005759993200146120704000000) by (nonlinear_arith);
        assert(15571317011434386189505649005759993200146120704000000 * 15571317011434386189505649005759993200146120704000000 == 242465913470585904245174255449604875811782359914489836355988007353443340522859776860137455616000000000000) by (nonlinear_arith);
        assert(pow24(499713280) == 242465913470585904245174255449604875811782359914489836355988007353443340522859776860137455616000000000000 * 242465913470585904245174255449604875811782359914489836355988007353443340522859776860137455616000000000000);
        assert(499727360 * 499727360 * 499727360 == 124795631478588368224256000) by (nonlinear_arith);
        assert(124795631478588368224256000 * 124795631478588368224256000 == 15573949636139636032659580250628050158706753536000000) by (nonlinear_arith);
        assert(15573949636139636032659580250628050158706753536000000 * 15573949636139636032659580250628050158706753536000000 == 242547907269013901576041806133979928443563151896593949884517145653778106304403217936648503296000000000000) by (nonlinear_arith);
        assert(pow24(499727360) == 242547907269013901576041806133979928443563151896593949884517145653778106304403217936648503296000000000000 * 242547907269013901576041806133979928443563151896593949884517145653778106304403217936648503296000000000000);
        assert(at_least(35491, -171));
        assert(!at_least(35492, -171));
    } else if i == 11 {
        lemma_two_to_large(169);
        assert(two_to(1) == 2);
        assert(tone_scale(33499) == 471665920) by (nonlinear_arith);
        assert(tone_scale(33500) == 471680000) by (nonlinear_arith);
        assert(471665920 * 471665920 * 471665920 == 104930922965529618546688000) by (nonlinear_arith);
        assert(104930922965529618546688000 * 104930922965529618546688000 == 11010498594397911117071988063584835909235769344000000) by (nonlinear_arith);
        assert(11010498594397911117071988063584835909235769344000000 * 11010498594397911117071988063584835909235769344000000 == 121231079297238376426274521198860714147310900396350730241950281227510310382280734575570190336000000000000) by (nonlinear_arith);
        assert(pow24(471665920) == 121231079297238376426274521198860714147310900396350730241950281227510310382280734575570190336000000000000 * 121231079297238376426274521198860714147310900396350730241950281227510310382280734575570190336000000000000);
        assert(471680000 * 471680000 * 471680000 == 104940320325632000000000000) by (nonlinear_arith);
        assert(104940320325632000000000000 * 104940320325632000000000000 == 11012470830046252670516199424000000000000000000000000) by (nonlinear_arith);
        assert(11012470830046252670516199424000000000000000000000000 * 11012470830046252670516199424000000000000000000000000 == 121274513782619601269740633708055483943491386005337931776000000000000000000000000000000000000000000000000) by (nonlinear_arith);
        assert(pow24(471680000) == 121274513782619601269740633708055483943491386005337931776000000000000000000000000000000000000000000000000 * 121274513782619601269740633708055483943491386005337931776000000000000000000000000000000000000000000000000);
        assert(at_least(33499, -169));
        assert(!at_least(33500, -169));
    }
}


/// Every divider up to 65535 is at least note -96, and none sounds above note 96.
proof fn lemma_note_range()
    ensures
        at_least(65535, -193),
        !at_least(1, 193),
{
    reveal_with_fuel(two_to, 26);
    lemma_two_to_large(193);
    assert(two_to(25) == 33554432);
    assert(two_to(193) == 12554203470773361527671578846415332832204710888928069025792);
    assert(3580000 * 3580000 * 3580000 == 45882712000000000000) by (nonlinear_arith);
    assert(45882712000000000000 * 45882712000000000000 == 2105223260474944000000000000000000000000) by (nonlinear_arith);
    assert(2105223260474944000000000000000000000000 * 2105223260474944000000000000000000000000 == 4431964976444753912220451803136000000000000000000000000000000000000000000000000) by (nonlinear_arith);
    assert(pow24(3580000) == 4431964976444753912220451803136000000000000000000000000000000000000000000000000 * 4431964976444753912220451803136000000000000000000000000000000000000000000000000);
    assert(tone_scale(65535) == 922732800) by (nonlinear_arith);
    assert(tone_scale(1) == 14080) by (nonlinear_arith);
    assert(922732800 * 922732800 * 922732800 == 785647758389603991552000000) by (nonlinear_arith);
    assert(785647758389603991552000000 * 785647758389603991552000000 == 617242400262609569093150751065250887368704000000000000) by (nonlinear_arith);
    assert(617242400262609569093150751065250887368704000000000000 * 617242400262609569093150751065250887368704000000000000 == 380988180681947521449008172077926346830397798940746142385032061295811295216838639616000000000000000000000000) by (nonlinear_arith);
    assert(pow24(922732800) == 380988180681947521449008172077926346830397798940746142385032061295811295216838639616000000000000000000000000 * 380988180681947521449008172077926346830397798940746142385032061295811295216838639616000000000000000000000000);
    assert(14080 * 14080 * 14080 == 2791309312000) by (nonlinear_arith);
    assert(2791309312000 * 2791309312000 == 7791407675257913344000000) by (nonlinear_arith);
    assert(7791407675257913344000000 * 7791407675257913344000000 == 60706033562067921640919549693013262336000000000000) by (nonlinear_arith);
    assert(pow24(14080) == 60706033562067921640919549693013262336000000000000 * 60706033562067921640919549693013262336000000000000);
    assert(pow24(clock_rate()) * two_to(193) >= pow24(tone_scale(65535)));
    assert(pow24(clock_rate()) < two_to(193) * pow24(tone_scale(1)));
}

/// The thresholds of one octave up are half those of the octave below.
proof fn lemma_threshold_halves(t: int, h: int)
    requires
        t >= 0,
        at_least(t, h),
        !at_least(t + 1, h),
    ensures
        at_least(t / 2, h + 24),
        !at_least(t / 2 + 1, h + 24),
{
    lemma_at_least_double(t / 2, h);
    lemma_at_least_double(t / 2 + 1, h);
    lemma_at_least_smaller(2 * (t / 2), t, h);
    if at_least(2 * (t / 2 + 1), h) {
        lemma_at_least_smaller(t + 1, 2 * (t / 2 + 1), h);
    }
}

/// The base table, for execution.
fn base_threshold_of(i: u32) -> (r: u32)
    requires
        i < 12,
    ensures
        r == base_threshold(i as int),
{
    if i == 0 {
        63237
    } else if i == 1 {
        59688
    } else if i == 2 {
        56338
    } else if i == 3 {
        53176
    } else if i == 4 {
        50191
    } else if i == 5 {
        47374
    } else if i == 6 {
        44715
    } else if i == 7 {
        42206
    } else if i == 8 {
        39837
    } else if i == 9 {
        37601
    } else if i == 10 {
        35491
    } else if i == 11 {
        33499
    } else {
        33499
    }
}

/// The largest divider whose note is at least `n`.
fn threshold(n: i32) -> (t: u32)
    requires
        -95 <= n <= 96,
    ensures
        at_least(t as int, 2 * n - 1),
        !at_least(t + 1, 2 * n - 1),
{
    let k: u32 = (n + 95) as u32;
    let octave: u32 = k / 12;
    let b = base_threshold_of(k % 12);
    proof {
        lemma_base_threshold((k % 12) as int);
    }
    let mut t: u32 = b;
    let mut j: u32 = 0;
    while j < octave
        invariant
            j <= octave,
            octave == k / 12,
            k == n + 95,
            at_least(t as int, 2 * (-95 + (k % 12) as int) - 1 + 24 * j),
            !at_least(t + 1, 2 * (-95 + (k % 12) as int) - 1 + 24 * j),
        decreases octave - j,
    {
        proof {
            lemma_threshold_halves(t as int, 2 * (-95 + (k % 12) as int) - 1 + 24 * j);
        }
        t = t / 2;
        j = j + 1;
    }
    proof {
        assert(2 * (-95 + (k % 12) as int) - 1 + 24 * j == 2 * n - 1);
    }
    t
}

/// The note of a tone divider, in semitones from concert pitch A4; a zero
/// divider has none.
pub fn get_note(freq: u16) -> (r: Option<isize>)
    ensures
        r == note_value(freq),
        r is None <==> freq == 0,
        r matches Some(n) ==> rounds_to(freq as int, n as int) && LOWEST_NOTE <= n <= HIGHEST_NOTE,
{
    if freq == 0 {
        return None;
    }
    proof {
        lemma_note_range();
        if at_least(freq as int, 193) {
            lemma_at_least_smaller(1, freq as int, 193);
        }
    }
    let mut n: i32 = HIGHEST_NOTE;
    loop
        invariant
            LOWEST_NOTE <= n <= HIGHEST_NOTE,
            freq > 0,
            !at_least(freq as int, 2 * n + 1),
        ensures
            LOWEST_NOTE <= n <= HIGHEST_NOTE,
            rounds_to(freq as int, n as int),
        decreases n - LOWEST_NOTE,
    {
        if n == LOWEST_NOTE {
            proof {
                lemma_note_range();
                lemma_at_least_smaller(freq as int, 65535, -193);
            }
            break;
        }
        let t = threshold(n);
        if (freq as u32) <= t {
            proof {
                lemma_at_least_smaller(freq as int, t as int, 2 * n - 1);
            }
            break;
        }
        proof {
            if at_least(freq as int, 2 * n - 1) {
                lemma_at_least_smaller(t + 1, freq as int, 2 * n - 1);
            }
        }
        n = n - 1;
    }
    proof {
        let m = choose|m: isize| rounds_to(freq as int, m as int);
        assert(rounds_to(freq as int, (n as isize) as int));
        lemma_rounds_to_unique(freq as int, m as int, n as int);
    }
    Some(n as isize)
}

} // verus!
