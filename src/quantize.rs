use vstd::prelude::*;

verus! {

/// Microseconds per beat at `bpm` beats per minute.
pub open spec fn micros_per_beat(bpm: nat) -> nat {
    60_000_000nat / bpm
}

/// `dt` milliseconds as ticks, at `tpq` ticks per quarter note and `mpb`
/// microseconds per quarter note, rounded to the nearest tick (halves up).
pub open spec fn ticks_for(dt: nat, tpq: nat, mpb: nat) -> nat {
    (2000 * tpq * dt + mpb) / (2 * mpb)
}

/// The delta of event `i`: the rounded ticks since the previous event
/// (since time zero for the first), or zero where time went backwards.
pub open spec fn delta_at(ts: Seq<u64>, i: int, tpq: nat, mpb: nat) -> nat {
    let prev: u64 = if i == 0 { 0 } else { ts[i - 1] };
    if ts[i] >= prev {
        ticks_for((ts[i] - prev) as nat, tpq, mpb)
    } else {
        0
    }
}

/// The sum of the first `n` deltas.
pub open spec fn delta_sum(ts: Seq<u64>, n: nat, tpq: nat, mpb: nat) -> nat
    decreases n,
{
    if n == 0 {
        0
    } else {
        delta_sum(ts, (n - 1) as nat, tpq, mpb) + delta_at(ts, n - 1, tpq, mpb)
    }
}

pub open spec fn is_sorted(ts: Seq<u64>) -> bool {
    forall|i: int, j: int| 0 <= i <= j < ts.len() ==> ts[i] <= ts[j]
}

proof fn lemma_ticks_rounding(dt: nat, tpq: nat, mpb: nat)
    requires
        mpb > 0,
    ensures
        2000 * tpq * dt - mpb < 2 * mpb * ticks_for(dt, tpq, mpb) <= 2000 * tpq * dt + mpb,
{
    let x = 2000 * tpq * dt;
    let q = ticks_for(dt, tpq, mpb);
    let d = 2 * mpb;
    assert((x + mpb) == d * ((x + mpb) / d) + (x + mpb) % d) by (nonlinear_arith)
        requires
            d > 0,
    ;
    assert(0 <= (x + mpb) % d < d) by (nonlinear_arith)
        requires
            d > 0,
    ;
}

/// For timestamps in order, each delta rounds its own interval to within
/// half a tick, so after event `i` the sum of the deltas is within
/// `(i + 1) / 2` ticks of the exact tick time of that event. In units of
/// `1 / (2 * mpb)` tick: `|2 mpb S - 2000 tpq t| <= (i + 1) mpb`.
pub proof fn lemma_delta_sum_drift(ts: Seq<u64>, i: int, tpq: nat, mpb: nat)
    requires
        mpb > 0,
        is_sorted(ts),
        0 <= i < ts.len(),
    ensures
        ({
            let e = 2 * mpb * delta_sum(ts, (i + 1) as nat, tpq, mpb) - 2000 * tpq * ts[i];
            -((i + 1) * mpb) <= e <= (i + 1) * mpb
        }),
    decreases i,
{
    let prev: u64 = if i == 0 { 0 } else { ts[i - 1] };
    assert(ts[i] >= prev) by {
        if i > 0 {
            assert(ts[i - 1] <= ts[i]);
        }
    }
    let dt = (ts[i] - prev) as nat;
    lemma_ticks_rounding(dt, tpq, mpb);
    let s_prev = delta_sum(ts, i as nat, tpq, mpb);
    let d = delta_at(ts, i, tpq, mpb);
    assert(delta_sum(ts, (i + 1) as nat, tpq, mpb) == s_prev + d);
    if i > 0 {
        lemma_delta_sum_drift(ts, i - 1, tpq, mpb);
        assert(i - 1 + 1 == i);
    } else {
        assert(s_prev == 0);
    }
    let e_prev = 2 * mpb * s_prev - 2000 * tpq * prev;
    assert(-(i * mpb) <= e_prev <= i * mpb);
    assert(2 * mpb * (s_prev + d) - 2000 * tpq * ts[i] == e_prev + (2 * mpb * d - 2000 * tpq * dt))
        by (nonlinear_arith)
        requires
            e_prev == 2 * mpb * s_prev - 2000 * tpq * prev,
            dt == ts[i] - prev,
    ;
    assert((i + 1) * mpb == i * mpb + mpb) by (nonlinear_arith);
}

/// The tempo, in microseconds per beat, of `bpm` beats per minute.
pub fn bpm_to_microseconds_per_beat(bpm: u32) -> (r: u32)
    requires
        bpm >= 1,
    ensures
        r as nat == micros_per_beat(bpm as nat),
{
    60_000_000u32 / bpm
}

/// The delta ticks of events at the given millisecond timestamps, at
/// `ticks_per_quarter` ticks per quarter note and `bpm` beats per minute.
pub fn quantize(timestamps: &Vec<u64>, ticks_per_quarter: u16, bpm: u32) -> (r: Vec<u128>)
    requires
        1 <= bpm <= 60_000_000,
    ensures
        r@.len() == timestamps@.len(),
        forall|i: int|
            0 <= i < r@.len() ==> r@[i] as nat == delta_at(
                timestamps@,
                i,
                ticks_per_quarter as nat,
                micros_per_beat(bpm as nat),
            ),
{
    let q: u32 = 60_000_000u32 / bpm;
    assert(q >= 1) by (nonlinear_arith)
        requires
            q == 60_000_000int / (bpm as int),
            1 <= bpm <= 60_000_000,
    ;
    let mpb: u128 = q as u128;
    let tpq = ticks_per_quarter as u128;
    let mut out: Vec<u128> = Vec::new();
    let mut prev: u64 = 0;
    let mut i: usize = 0;
    while i < timestamps.len()
        invariant
            i <= timestamps@.len(),
            out@.len() == i,
            mpb as nat == micros_per_beat(bpm as nat),
            mpb >= 1,
            mpb <= 60_000_000,
            tpq == ticks_per_quarter as u128,
            prev == if i == 0 { 0u64 } else { timestamps@[i - 1] },
            forall|j: int|
                0 <= j < i ==> out@[j] as nat == delta_at(
                    timestamps@,
                    j,
                    ticks_per_quarter as nat,
                    mpb as nat,
                ),
        decreases timestamps@.len() - i,
    {
        let t = timestamps[i];
        let d: u128 = if t >= prev {
            let dt = (t - prev) as u128;
            assert(2000 * tpq * dt + mpb <= 0xFFFF_FFFF_FFFF_FFFF_FFFF_FFFF_FFFF_FFFF) by (nonlinear_arith)
                requires
                    tpq < 0x1_0000,
                    dt < 0x1_0000_0000_0000_0000,
                    mpb <= 60_000_000,
            ;
            (2000 * tpq * dt + mpb) / (2 * mpb)
        } else {
            0
        };
        out.push(d);
        prev = t;
        i += 1;
    }
    out
}

} // verus!
