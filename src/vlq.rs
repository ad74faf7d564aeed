use vstd::prelude::*;

use crate::error::{MidiError, ParseError};

verus! {

/// The largest value a variable-length quantity of four bytes holds.
pub const VLQ_MAX: u32 = 0x0FFF_FFFF;

/// The 7-bit groups of `n`, most significant first; every byte but the last
/// carries the continuation bit, and the last carries it only when `!last`.
pub open spec fn vlq_bytes(n: nat, last: bool) -> Seq<u8>
    decreases n,
{
    let low = ((n % 128) + if last { 0nat } else { 128nat }) as u8;
    if n < 128 {
        seq![low]
    } else {
        vlq_bytes(n / 128, false).push(low)
    }
}

/// The variable-length-quantity encoding of `n`.
pub open spec fn vlq(n: nat) -> Seq<u8> {
    vlq_bytes(n, true)
}

/// The least number of 7-bit groups that hold `n`, for `n` below 2^28.
pub open spec fn vlq_min_len(n: nat) -> nat {
    if n < 0x80 {
        1
    } else if n < 0x4000 {
        2
    } else if n < 0x20_0000 {
        3
    } else {
        4
    }
}

/// Reads a variable-length quantity at `pos`, with `acc` the value of the
/// groups read so far and `count` their number. Yields the value and the
/// position after it.
pub open spec fn vlq_read(s: Seq<u8>, pos: int, acc: nat, count: nat) -> Result<(nat, int), MidiError>
    decreases 4 - count,
{
    if count >= 4 {
        Err(MidiError::Parse(ParseError::BadVLQ))
    } else if pos < 0 || pos >= s.len() {
        Err(MidiError::Parse(ParseError::UnexpectedEOF))
    } else {
        let b = s[pos];
        let acc2 = acc * 128 + (b % 128) as nat;
        if b < 128 {
            Ok((acc2, pos + 1))
        } else {
            vlq_read(s, pos + 1, acc2, count + 1)
        }
    }
}

pub open spec fn vlq_parse(s: Seq<u8>, pos: int) -> Result<(nat, int), MidiError> {
    vlq_read(s, pos, 0, 0)
}

pub proof fn lemma_vlq_bytes_len(n: nat, last: bool)
    requires
        n <= VLQ_MAX,
    ensures
        vlq_bytes(n, last).len() == vlq_min_len(n),
    decreases n,
{
    if n >= 128 {
        lemma_vlq_bytes_len(n / 128, false);
    }
}

proof fn lemma_vlq_continued(s: Seq<u8>, pos: int, m: nat, count: nat)
    requires
        0 <= pos,
        m <= VLQ_MAX,
        count + vlq_bytes(m, false).len() <= 3,
        pos + vlq_bytes(m, false).len() <= s.len(),
        s.subrange(pos, pos + vlq_bytes(m, false).len()) == vlq_bytes(m, false),
    ensures
        vlq_read(s, pos, 0, count) == vlq_read(
            s,
            pos + vlq_bytes(m, false).len(),
            m,
            count + vlq_bytes(m, false).len(),
        ),
    decreases m,
{
    let b = vlq_bytes(m, false);
    let k = b.len() as int;
    assert(s[pos + k - 1] == s.subrange(pos, pos + k)[k - 1]);
    if m < 128 {
        assert(s[pos] == b[0]);
    } else {
        let h = vlq_bytes(m / 128, false);
        lemma_vlq_bytes_len(m / 128, false);
        assert(s.subrange(pos, pos + h.len()) =~= b.subrange(0, h.len() as int));
        assert(b.subrange(0, h.len() as int) =~= h);
        lemma_vlq_continued(s, pos, m / 128, count);
        assert(s[pos + k - 1] == ((m % 128) + 128) as u8);
        assert((m / 128) * 128 + m % 128 == m) by (nonlinear_arith);
    }
}

/// Decoding the encoding of `n` gives back `n`, and the encoding is of
/// minimal length: as many 7-bit groups as `n` needs and no more.
pub proof fn lemma_vlq_round_trip(s: Seq<u8>, pos: int, n: nat)
    requires
        0 <= pos,
        n <= VLQ_MAX,
        pos + vlq(n).len() <= s.len(),
        s.subrange(pos, pos + vlq(n).len()) == vlq(n),
    ensures
        vlq(n).len() == vlq_min_len(n),
        vlq_parse(s, pos) == Ok::<(nat, int), MidiError>((n, pos + vlq(n).len())),
{
    lemma_vlq_bytes_len(n, true);
    let k = vlq(n).len() as int;
    assert(s[pos + k - 1] == s.subrange(pos, pos + k)[k - 1]);
    if n >= 128 {
        let h = vlq_bytes(n / 128, false);
        lemma_vlq_bytes_len(n / 128, false);
        assert(s.subrange(pos, pos + h.len()) =~= vlq(n).subrange(0, h.len() as int));
        assert(vlq(n).subrange(0, h.len() as int) =~= h);
        lemma_vlq_continued(s, pos, n / 128, 0);
        assert((n / 128) * 128 + n % 128 == n) by (nonlinear_arith);
    }
}

/// Appends the variable-length-quantity encoding of `n`.
pub fn write_vlq(out: &mut Vec<u8>, n: u32)
    requires
        n <= VLQ_MAX,
    ensures
        final(out)@ == old(out)@ + vlq(n as nat),
{
    proof {
        reveal_with_fuel(vlq_bytes, 4);
        assert(n / 128 / 128 == n / 16384) by (nonlinear_arith);
        assert(n / 16384 / 128 == n / 2097152) by (nonlinear_arith);
    }
    if n >= 0x20_0000 {
        out.push((n / 0x20_0000 + 0x80) as u8);
    }
    if n >= 0x4000 {
        out.push((n / 0x4000 % 0x80 + 0x80) as u8);
    }
    if n >= 0x80 {
        out.push((n / 0x80 % 0x80 + 0x80) as u8);
    }
    out.push((n % 0x80) as u8);
    proof {
        let v = vlq(n as nat);
        if n >= 0x20_0000 {
            assert(n / 2097152 < 128);
        }
        assert(final(out)@ =~= old(out)@ + v);
    }
}

} // verus!
