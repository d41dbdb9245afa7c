use vstd::prelude::*;

verus! {

/// The largest value a variable byte integer can carry.
pub const VBI_MAX: u32 = 268_435_455;

pub open spec fn pow128(n: nat) -> nat
    decreases n,
{
    if n == 0 {
        1
    } else {
        128 * pow128((n - 1) as nat)
    }
}

/// The bytes that encode `v`: seven bits per byte, least significant group
/// first, the high bit set on every byte but the last.
pub open spec fn vbi_encoding(v: nat) -> Seq<u8>
    decreases v,
{
    if v < 128 {
        seq![v as u8]
    } else {
        seq![(v % 128 + 128) as u8] + vbi_encoding(v / 128)
    }
}

/// Reads a variable byte integer at the start of `s` from at most `budget`
/// bytes: the value and the number of bytes it took, or `None` when the
/// bytes run out or the budget is spent on continuation bytes.
pub open spec fn vbi_parse(s: Seq<u8>, budget: nat) -> Option<(nat, nat)>
    decreases budget,
{
    if budget == 0 || s.len() == 0 {
        None
    } else if s[0] < 128 {
        Some((s[0] as nat, 1))
    } else {
        match vbi_parse(s.drop_first(), (budget - 1) as nat) {
            Some((v, n)) => Some((((s[0] - 128) + 128 * v) as nat, n + 1)),
            None => None,
        }
    }
}

/// A variable byte integer as a packet holds it: at most four bytes.
pub open spec fn vbi_decode(s: Seq<u8>) -> Option<(nat, nat)> {
    vbi_parse(s, 4)
}

proof fn lemma_parse_bound(s: Seq<u8>, budget: nat)
    ensures
        vbi_parse(s, budget) matches Some((v, n)) ==> 1 <= n <= budget && n <= s.len() && v
            < pow128(n),
    decreases budget,
{
    assert(pow128(1) == 128 * pow128(0));
    if budget > 0 && s.len() > 0 && s[0] >= 128 {
        lemma_parse_bound(s.drop_first(), (budget - 1) as nat);
        if let Some((v, n)) = vbi_parse(s.drop_first(), (budget - 1) as nat) {
            let p = pow128((n) as nat);
            assert(128 * v <= 128 * (p - 1)) by (nonlinear_arith)
                requires
                    v < p,
            ;
            assert(pow128(n + 1) == 128 * p);
        }
    }
}

/// A decoded variable byte integer takes one to four bytes of its input
/// and is at most `VBI_MAX`.
pub proof fn lemma_vbi_decode_bound(s: Seq<u8>)
    ensures
        vbi_decode(s) matches Some((v, n)) ==> 1 <= n <= 4 && n <= s.len() && v <= VBI_MAX,
{
    lemma_parse_bound(s, 4);
    lemma_pow_values();
}

proof fn lemma_encoding_len(v: nat, k: nat)
    requires
        v < pow128(k),
        k >= 1,
    ensures
        1 <= vbi_encoding(v).len() <= k,
    decreases v,
{
    if v >= 128 {
        assert(k >= 2) by {
            if k == 1 {
                assert(pow128(1) == 128 * pow128(0));
            }
        }
        let p = pow128((k - 1) as nat);
        assert(v / 128 < p) by (nonlinear_arith)
            requires
                v < 128 * p,
        ;
        lemma_encoding_len(v / 128, (k - 1) as nat);
    }
}

/// Decoding the encoding of `v` gives `v` back, whatever follows it.
pub proof fn lemma_vbi_round_trip(v: nat, rest: Seq<u8>)
    requires
        v <= VBI_MAX,
    ensures
        vbi_decode(vbi_encoding(v) + rest) == Some((v, vbi_encoding(v).len())),
{
    lemma_pow_values();
    lemma_round_trip_budget(v, rest, 4);
}

proof fn lemma_round_trip_budget(v: nat, rest: Seq<u8>, k: nat)
    requires
        v < pow128(k),
        k >= 1,
    ensures
        vbi_parse(vbi_encoding(v) + rest, k) == Some((v, vbi_encoding(v).len())),
    decreases v,
{
    let s = vbi_encoding(v) + rest;
    if v < 128 {
        assert(s[0] == v as u8);
    } else {
        assert(k >= 2) by {
            if k == 1 {
                assert(pow128(1) == 128 * pow128(0));
            }
        }
        let p = pow128((k - 1) as nat);
        assert(v / 128 < p) by (nonlinear_arith)
            requires
                v < 128 * p,
        ;
        lemma_round_trip_budget(v / 128, rest, (k - 1) as nat);
        assert(s.drop_first() =~= vbi_encoding(v / 128) + rest);
        assert(s[0] == (v % 128 + 128) as u8);
    }
}

/// Appends the encoding of `value` to `out`.
pub fn write_vbi(value: u32, out: &mut Vec<u8>)
    requires
        value <= VBI_MAX,
    ensures
        final(out)@ == old(out)@ + vbi_encoding(value as nat),
        vbi_encoding(value as nat).len() <= 4,
{
    proof {
        lemma_pow_values();
        lemma_encoding_len(value as nat, 4);
    }
    let mut x: u32 = value;
    while x >= 128
        invariant
            out@ + vbi_encoding(x as nat) == old(out)@ + vbi_encoding(value as nat),
        decreases x,
    {
        out.push((x % 128 + 128) as u8);
        x = x / 128;
    }
    out.push(x as u8);
}

/// Reads a variable byte integer from `bytes` at `pos`: its value and the
/// position just after it, or `MalformedPacket` when the bytes run out or a
/// fifth byte would be needed.
pub fn decode_vbi(bytes: &[u8], pos: usize) -> (r: Result<(u32, usize), crate::reason_codes::ReasonMode>)
    requires
        pos <= bytes@.len(),
    ensures
        match vbi_decode(bytes@.skip(pos as int)) {
            Some((v, n)) => r == Ok::<(u32, usize), crate::reason_codes::ReasonMode>((v as u32, (pos + n) as usize)) && v <= VBI_MAX,
            None => r == Err::<(u32, usize), crate::reason_codes::ReasonMode>(crate::reason_codes::ReasonMode::MalformedPacket),
        },
{
    proof {
        lemma_pow_values();
        lemma_parse_bound(bytes@.skip(pos as int), 4);
    }
    match parse_at(bytes, pos, 4) {
        Some(p) => Ok(p),
        None => Err(crate::reason_codes::ReasonMode::MalformedPacket),
    }
}

fn parse_at(bytes: &[u8], pos: usize, budget: usize) -> (r: Option<(u32, usize)>)
    requires
        pos <= bytes@.len(),
        budget <= 4,
    ensures
        match vbi_parse(bytes@.skip(pos as int), budget as nat) {
            Some((v, n)) => r == Some((v as u32, (pos + n) as usize)),
            None => r is None,
        },
    decreases budget,
{
    proof {
        lemma_parse_bound(bytes@.skip(pos as int), budget as nat);
        lemma_pow_values();
        lemma_pow_mono(budget as nat, 4);
    }
    if budget == 0 || pos >= bytes.len() {
        return None;
    }
    let b = bytes[pos];
    if b < 128 {
        return Some((b as u32, pos + 1));
    }
    proof {
        assert(bytes@.skip(pos as int).drop_first() =~= bytes@.skip(pos + 1));
        lemma_parse_bound(bytes@.skip(pos + 1), (budget - 1) as nat);
        lemma_pow_mono((budget - 1) as nat, 3);
        
    }
    match parse_at(bytes, pos + 1, budget - 1) {
        Some((v, next)) => Some(((b - 128) as u32 + 128 * v, next)),
        None => None,
    }
}

proof fn lemma_pow_values()
    ensures
        pow128(1) == 128,
        pow128(2) == 16384,
        pow128(3) == 2097152,
        pow128(4) == 268_435_456,
{
    assert(pow128(0) == 1);
    assert(pow128(1) == 128);
    assert(pow128(2) == 16384);
    assert(pow128(3) == 2097152);
}

proof fn lemma_pow_mono(a: nat, b: nat)
    requires
        a <= b,
    ensures
        pow128(a) <= pow128(b),
    decreases b,
{
    if a < b {
        lemma_pow_mono(a, (b - 1) as nat);
    }
}

} // verus!
