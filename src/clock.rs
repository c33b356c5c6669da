use vstd::prelude::*;

verus! {

/// Number of samples in one tick, truncated toward zero:
/// `60 * samplerate / (tempo * ppq)`, saturated at `u32::MAX`.
pub open spec fn tick_samples(tempo: int, ppq: int, samplerate: int) -> int {
    let exact = (60 * samplerate) / (tempo * ppq);
    if exact > u32::MAX {
        u32::MAX as int
    } else {
        exact
    }
}

/// Samples per tick for the given tempo (beats per minute), pulses per quarter
/// note and sample rate. A tempo or ppq of zero gives zero.
pub fn tick_length_samples(tempo: u16, ppq: u16, samplerate: u32) -> (r: u32)
    ensures
        tempo > 0 && ppq > 0 ==> r == tick_samples(tempo as int, ppq as int, samplerate as int),
        tempo == 0 || ppq == 0 ==> r == 0,
{
    if tempo == 0 || ppq == 0 {
        return 0;
    }
    let num: u64 = 60u64 * samplerate as u64;
    assert(tempo as int * ppq as int <= 0xffff * 0xffff) by (nonlinear_arith)
        requires
            tempo <= 0xffff,
            ppq <= 0xffff,
    ;
    let den: u64 = tempo as u64 * ppq as u64;
    assert(den > 0) by (nonlinear_arith)
        requires
            den == tempo as int * ppq as int,
            tempo > 0,
            ppq > 0,
    ;
    let q: u64 = num / den;
    if q > u32::MAX as u64 {
        u32::MAX
    } else {
        q as u32
    }
}

/// A tick lasts at least one sample whenever one beat is not shorter than
/// `ppq` samples, that is whenever `tempo * ppq <= 60 * samplerate`.
pub proof fn lemma_tick_length_positive(tempo: int, ppq: int, samplerate: int)
    requires
        tempo > 0,
        ppq > 0,
        tempo * ppq <= 60 * samplerate,
    ensures
        tick_samples(tempo, ppq, samplerate) > 0,
{
    let den = tempo * ppq;
    assert(den > 0) by (nonlinear_arith)
        requires
            den == tempo * ppq,
            tempo > 0,
            ppq > 0,
    ;
    assert((60 * samplerate) / den >= 1) by (nonlinear_arith)
        requires
            den > 0,
            den <= 60 * samplerate,
    ;
}

/// Below saturation the tick length is the exact length `60 * samplerate /
/// (tempo * ppq)` rounded down, so it is within one sample of it.
pub proof fn lemma_tick_length_close(tempo: int, ppq: int, samplerate: int)
    requires
        tempo > 0,
        ppq > 0,
        samplerate >= 0,
        (60 * samplerate) / (tempo * ppq) <= u32::MAX,
    ensures
        tick_samples(tempo, ppq, samplerate) * (tempo * ppq) <= 60 * samplerate,
        60 * samplerate < (tick_samples(tempo, ppq, samplerate) + 1) * (tempo * ppq),
{
    let den = tempo * ppq;
    assert(den > 0) by (nonlinear_arith)
        requires
            den == tempo * ppq,
            tempo > 0,
            ppq > 0,
    ;
    let q = (60 * samplerate) / den;
    vstd::arithmetic::div_mod::lemma_fundamental_div_mod(60 * samplerate, den);
    let rem = (60 * samplerate) % den;
    assert(0 <= rem < den);
    assert(q * den <= 60 * samplerate < (q + 1) * den) by (nonlinear_arith)
        requires
            60 * samplerate == den * q + rem,
            0 <= rem < den,
    ;
}

} // verus!
