//! The PCG random number generator used to humanize playback.
use vstd::prelude::*;
use vstd::wrapping::u64_specs::{wrapping_add, wrapping_mul, wrapping_sub};

verus! {

/// A PCG-XSH-RR generator: 64 bits of state, 32-bit outputs.
pub struct Pcg {
    pub state: u64,
    pub inc: u64,
}

pub open spec fn pcg_multiplier() -> u64 {
    6364136223846793005u64
}

/// The output of the generator in state `s`.
pub open spec fn pcg_output(s: u64) -> u32 {
    let xorshifted = (((s >> 18u64) ^ s) >> 27u64) as u32;
    let rot = (s >> 59u64) as u32;
    (xorshifted >> rot) | (xorshifted << (vstd::wrapping::u32_specs::wrapping_sub(0u32, rot) & 31u32))
}

/// The state that follows `s`.
pub open spec fn pcg_advance(s: u64, inc: u64) -> u64 {
    wrapping_add(wrapping_mul(s, pcg_multiplier()), inc)
}

/// The generator seeded with `seed`.
pub open spec fn pcg_seeded(seed: u64) -> Pcg {
    let inc = (seed << 1u64) | 1u64;
    let s1 = pcg_advance(0, inc);
    let s2 = wrapping_add(s1, seed);
    Pcg { state: pcg_advance(s2, inc), inc }
}

/// How many integers `[min, max]` holds.
pub open spec fn range_span(min: i64, max: i64) -> int {
    max as int - min as int + 1
}

/// The 64-bit number whose low half is `a` and high half is `b`.
pub open spec fn wide_draw(a: u32, b: u32) -> u64 {
    (a as u64) | ((b as u64) << 32u64)
}

/// A draw in `[min, max]` (for `min < max`) from two outputs `a` and `b`: a
/// span of at most 2^32 integers takes `a` modulo the span; a larger span
/// takes the 64-bit number made of `a` and `b`, modulo the span unless the
/// range covers every `i64`.
pub open spec fn range_draw(min: i64, max: i64, a: u32, b: u32) -> i64 {
    let span = range_span(min, max);
    let draw: u64 = if span <= 0x1_0000_0000 {
        ((a as u64) % (span as u64)) as u64
    } else if span == 0x1_0000_0000_0000_0000 {
        wide_draw(a, b)
    } else {
        (wide_draw(a, b) % (span as u64)) as u64
    };
    vstd::wrapping::i64_specs::wrapping_add(min, draw as i64)
}

#[verifier::external_type_specification]
#[verifier::external_body]
pub struct ExSystemTime(std::time::SystemTime);

#[verifier::external_type_specification]
#[verifier::external_body]
pub struct ExSystemTimeError(std::time::SystemTimeError);

/// `SystemTime::now`: the system clock's reading; nothing is promised of it.
#[verifier::external_body]
fn system_now() -> std::time::SystemTime {
    std::time::SystemTime::now()
}

/// `SystemTime::duration_since` against the Unix epoch: the time since it,
/// or an error when the reading lies before it; nothing is promised of either.
#[verifier::external_body]
fn since_unix_epoch(t: std::time::SystemTime) -> Result<std::time::Duration, std::time::SystemTimeError> {
    t.duration_since(std::time::UNIX_EPOCH)
}

/// `Duration::as_nanos`: the whole nanoseconds of a span, which is opaque here.
#[verifier::external_body]
fn duration_nanos(d: &std::time::Duration) -> u128 {
    d.as_nanos()
}

/// The nanoseconds since the Unix epoch on the system clock (the low 64
/// bits), or 0 when the clock is set before it.
pub fn time_seed() -> u64 {
    match since_unix_epoch(system_now()) {
        Ok(d) => duration_nanos(&d) as u64,
        Err(_) => 0,
    }
}

impl Pcg {
    /// A generator seeded with `seed`.
    pub fn new(seed: u64) -> (p: Pcg)
        ensures
            p == pcg_seeded(seed),
    {
        let mut pcg = Pcg { state: 0, inc: (seed << 1) | 1 };
        pcg.next_u32();
        pcg.state = pcg.state.wrapping_add(seed);
        pcg.next_u32();
        pcg
    }

    /// The next 32-bit output.
    pub fn next_u32(&mut self) -> (r: u32)
        ensures
            r == pcg_output(old(self).state),
            final(self).state == pcg_advance(old(self).state, old(self).inc),
            final(self).inc == old(self).inc,
    {
        let oldstate = self.state;
        self.state = oldstate.wrapping_mul(6364136223846793005).wrapping_add(self.inc);
        let xorshifted = #[verifier::truncate] ((((oldstate >> 18) ^ oldstate) >> 27) as u32);
        let rot = #[verifier::truncate] ((oldstate >> 59) as u32);
        assert(oldstate >> 59u64 < 32) by (bit_vector);
        let back = 0u32.wrapping_sub(rot) & 31;
        assert(back < 32) by (bit_vector)
            requires
                back == 0u32.wrapping_sub(rot) & 31,
        {
        }
        (xorshifted >> rot) | (xorshifted << back)
    }

    /// A uniform integer in `[min, max]`; `min` when the range is empty. A
    /// span of more than 2^32 integers takes two outputs, so every value of
    /// the range, up to the whole of `i64`, can come out.
    pub fn next_range_i64(&mut self, min: i64, max: i64) -> (r: i64)
        ensures
            min >= max ==> r == min && *final(self) == *old(self),
            min < max ==> min <= r <= max,
            min < max ==> final(self).inc == old(self).inc,
            min < max ==> r == range_draw(
                min,
                max,
                pcg_output(old(self).state),
                pcg_output(pcg_advance(old(self).state, old(self).inc)),
            ),
            min < max ==> final(self).state == (if range_span(min, max) <= 0x1_0000_0000 {
                pcg_advance(old(self).state, old(self).inc)
            } else {
                pcg_advance(pcg_advance(old(self).state, old(self).inc), old(self).inc)
            }),
    {
        if min >= max {
            return min;
        }
        let span = (max as u64).wrapping_sub(min as u64).wrapping_add(1);
        proof {
            lemma_span(min, max);
        }
        if span != 0 && span <= 0x1_0000_0000 {
            let a = self.next_u32();
            let draw = (a as u64) % span;
            proof {
                lemma_partial_range(min, max, span, draw);
            }
            min.wrapping_add(draw as i64)
        } else {
            let a = self.next_u32();
            let b = self.next_u32();
            let wide = (a as u64) | ((b as u64) << 32);
            assert(wide == wide_draw(a, b));
            if span == 0 {
                proof {
                    lemma_full_range(min, max, wide);
                }
                min.wrapping_add(wide as i64)
            } else {
                let draw = wide % span;
                proof {
                    lemma_partial_range(min, max, span, draw);
                }
                min.wrapping_add(draw as i64)
            }
        }
    }
}

proof fn lemma_i64_as_u64(x: i64)
    ensures
        x >= 0 ==> x as u64 == x,
        x < 0 ==> x as u64 == x + 0x1_0000_0000_0000_0000,
{
    assert(x >= 0 ==> x as u64 == x) by (bit_vector);
    assert(x < 0 ==> x as u64 == x + 0x1_0000_0000_0000_0000) by (bit_vector);
}

proof fn lemma_u64_as_i64(x: u64)
    ensures
        x <= 0x7fff_ffff_ffff_ffff ==> x as i64 == x,
        x > 0x7fff_ffff_ffff_ffff ==> x as i64 == x - 0x1_0000_0000_0000_0000,
{
    assert(x <= 0x7fff_ffff_ffff_ffff ==> x as i64 == x) by (bit_vector);
    assert(x > 0x7fff_ffff_ffff_ffff ==> x as i64 == x - 0x1_0000_0000_0000_0000) by (bit_vector);
}

proof fn lemma_span(min: i64, max: i64)
    requires
        min < max,
    ensures
        ({
            let span = wrapping_add(wrapping_sub(max as u64, min as u64), 1);
            &&& span == 0 <==> (max as int - min as int + 1) == 0x1_0000_0000_0000_0000
            &&& span != 0 ==> span == max as int - min as int + 1
        }),
{
    lemma_i64_as_u64(min);
    lemma_i64_as_u64(max);
}

proof fn lemma_full_range(min: i64, max: i64, draw: u64)
    requires
        min < max,
        (max as int - min as int + 1) == 0x1_0000_0000_0000_0000,
    ensures
        min <= vstd::wrapping::i64_specs::wrapping_add(min, draw as i64) <= max,
{
    assert(min == i64::MIN && max == i64::MAX);
}

proof fn lemma_partial_range(min: i64, max: i64, span: u64, draw: u64)
    requires
        min < max,
        span == max as int - min as int + 1,
        draw < span,
    ensures
        vstd::wrapping::i64_specs::wrapping_add(min, draw as i64) == min + draw,
        min <= min + draw <= max,
{
    lemma_u64_as_i64(draw);
}

} // verus!
