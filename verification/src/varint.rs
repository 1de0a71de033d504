//! Unsigned LEB128 (VarUInt) and zig-zag signed (VarInt) codec.
//!
//! Sizes, byte offsets and object references in the archive are written as
//! little-endian septets with the high bit set on every non-final byte.
use vstd::prelude::*;

verus! {

/// The LEB128 encoding of a number: little-endian base-128 digits, the high
/// bit marking every byte but the last.
pub open spec fn varuint_bytes(n: nat) -> Seq<u8>
    decreases n,
{
    if n < 128 {
        seq![n as u8]
    } else {
        seq![(n % 128 + 128) as u8] + varuint_bytes(n / 128)
    }
}

/// Parse an LEB128 number from the front of a byte sequence, yielding the
/// value and the number of bytes consumed.
pub open spec fn varuint_parse(s: Seq<u8>) -> Option<(nat, nat)>
    decreases s.len(),
{
    if s.len() == 0 {
        None
    } else if s[0] < 128 {
        Some((s[0] as nat, 1))
    } else {
        match varuint_parse(s.skip(1)) {
            None => None,
            Some((v, used)) => Some((((s[0] - 128) + 128 * v) as nat, used + 1)),
        }
    }
}

/// The zig-zag image of a signed number: non-negative `i` maps to `2 * i`,
/// negative `i` to `-2 * i - 1`.
pub open spec fn zigzag(i: int) -> nat {
    if i >= 0 {
        (2 * i) as nat
    } else {
        (-2 * i - 1) as nat
    }
}

/// The encoding of a signed number: zig-zag, then LEB128.
pub open spec fn varint_bytes(i: int) -> Seq<u8> {
    varuint_bytes(zigzag(i))
}

/// Appends the LEB128 encoding of `data` to `out`.
pub fn encode_varuint(out: &mut Vec<u8>, data: u64)
    ensures
        final(out)@ == old(out)@ + varuint_bytes(data as nat),
{
    let mut rest: u64 = data;
    loop
        invariant
            out@ + varuint_bytes(rest as nat) == old(out)@ + varuint_bytes(data as nat),
        decreases rest,
    {
        if rest < 128 {
            out.push(rest as u8);
            proof {
                assert(out@ == old(out)@ + varuint_bytes(data as nat));
            }
            return;
        } else {
            let ghost prev = out@;
            let frag: u8 = (rest % 128 + 128) as u8;
            out.push(frag);
            proof {
                assert(varuint_bytes(rest as nat) == seq![frag] + varuint_bytes(
                    rest as nat / 128,
                ));
                assert((rest / 128) as nat == rest as nat / 128);
                assert(out@ + varuint_bytes((rest / 128) as nat) == prev + varuint_bytes(
                    rest as nat,
                ));
            }
            rest = rest / 128;
        }
    }
}

/// Appends the zig-zag LEB128 encoding of `data` to `out`.
pub fn encode_varint(out: &mut Vec<u8>, data: i64)
    ensures
        final(out)@ == old(out)@ + varint_bytes(data as int),
{
    let zz: u64 = if data >= 0 {
        (data as u64) * 2
    } else {
        (-(data + 1)) as u64 * 2 + 1
    };
    proof {
        assert(zz == zigzag(data as int));
    }
    encode_varuint(out, zz);
}

/// Every LEB128 encoding is at least one byte.
pub proof fn lemma_varuint_len_min(n: nat)
    ensures
        varuint_bytes(n).len() >= 1,
    decreases n,
{
    if n >= 128 {
        lemma_varuint_len_min(n / 128)
    }
}

/// The encoding of a number below `128^k` takes at most `k` bytes.
pub proof fn lemma_varuint_len_bound(n: nat, k: nat)
    requires
        k >= 1,
        n < pow128(k),
    ensures
        varuint_bytes(n).len() <= k,
    decreases k,
{
    if n >= 128 {
        assert(pow128(k) == 128 * pow128((k - 1) as nat));
        lemma_varuint_len_bound(n / 128, (k - 1) as nat);
    }
}

/// `128^k`.
pub open spec fn pow128(k: nat) -> nat
    decreases k,
{
    if k == 0 {
        1
    } else {
        128 * pow128((k - 1) as nat)
    }
}

/// Every `u64` encodes to between 1 and 10 bytes.
pub proof fn lemma_varuint_len_u64(n: u64)
    ensures
        1 <= varuint_bytes(n as nat).len() <= 10,
{
    lemma_varuint_len_min(n as nat);
    assert(pow128(10) == 0x40_0000_0000_0000_0000) by {
        reveal_with_fuel(pow128, 11);
    }
    lemma_varuint_len_bound(n as nat, 10);
}

/// Round trip: parsing the encoding of `n`, with anything at all after it,
/// yields `n` back and consumes exactly the encoding.
pub proof fn lemma_varuint_round_trip(n: nat, rest: Seq<u8>)
    ensures
        varuint_parse(varuint_bytes(n) + rest) == Some((n, varuint_bytes(n).len())),
    decreases n,
{
    let s = varuint_bytes(n) + rest;
    if n < 128 {
        assert(s[0] == n as u8);
    } else {
        lemma_varuint_round_trip(n / 128, rest);
        assert(s[0] == (n % 128 + 128) as u8);
        assert(s.skip(1) =~= varuint_bytes(n / 128) + rest);
        assert((s[0] - 128) + 128 * (n / 128) == n as int);
    }
}

/// Decodes an LEB128 number starting at `pos`, returning the value and the
/// count of bytes consumed. Returns `None` exactly when no full number
/// starts there or its value does not fit in a `u64`.
pub fn decode_varuint(buf: &[u8], pos: usize) -> (r: Option<(u64, usize)>)
    requires
        pos <= buf.len(),
    ensures
        match varuint_parse(buf@.skip(pos as int)) {
            None => r is None,
            Some((v, used)) => if v <= u64::MAX {
                r == Some((v as u64, used as usize)) && pos + used <= buf.len()
            } else {
                r is None
            },
        },
{
    let ghost whole = buf@.skip(pos as int);
    let mut cur: usize = pos;
    let mut acc: u64 = 0;
    // 128^i while it fits in u64; meaningless once `factor_big` is set.
    let mut factor: u64 = 1;
    let mut factor_big: bool = false;
    let ghost mut f: nat = 1nat;  // the true 128^i
    loop
        invariant
            pos <= cur <= buf.len(),
            whole == buf@.skip(pos as int),
            f == pow128((cur - pos) as nat),
            acc < f,
            !factor_big ==> factor == f && f <= u64::MAX,
            factor_big ==> f > u64::MAX,
            varuint_parse(whole) == match varuint_parse(buf@.skip(cur as int)) {
                None => None::<(nat, nat)>,
                Some((v, used)) => Some(((acc + f * v) as nat, (cur - pos + used) as nat)),
            },
        decreases buf.len() - cur,
    {
        if cur == buf.len() {
            proof {
                assert(buf@.skip(cur as int).len() == 0);
            }
            return None;
        }
        let b: u8 = buf[cur];
        let frag: u8 = b % 128;
        let ghost acc0 = acc as nat;
        let ghost tail = buf@.skip(cur as int);
        proof {
            assert(tail[0] == b);
            assert(tail.skip(1) =~= buf@.skip(cur as int + 1));
        }
        // What the parsed value gains from this byte: frag * f.
        if frag != 0 {
            if factor_big {
                proof {
                    lemma_parse_value_ge(tail, acc0, f, frag as nat);
                    assert(frag as nat * f >= f) by (nonlinear_arith)
                        requires
                            frag as nat >= 1,
                    ;
                }
                return None;
            }
            if factor > u64::MAX / (frag as u64) {
                proof {
                    lemma_parse_value_ge(tail, acc0, f, frag as nat);
                    assert(frag as nat * f > u64::MAX) by (nonlinear_arith)
                        requires
                            factor == f,
                            frag as u64 >= 1,
                            frag < 128,
                            factor > u64::MAX / (frag as u64),
                    ;
                }
                return None;
            }
            proof {
                assert(frag as nat * f <= u64::MAX) by (nonlinear_arith)
                    requires
                        factor == f <= u64::MAX,
                        frag as u64 >= 1,
                        factor <= u64::MAX / (frag as u64),
                ;
            }
            let add: u64 = (frag as u64) * factor;
            if add > u64::MAX - acc {
                proof {
                    lemma_parse_value_ge(tail, acc0, f, frag as nat);
                }
                return None;
            }
            acc = acc + add;
        }
        proof {
            assert(acc as nat == acc0 + frag as nat * f);
        }
        if b < 128 {
            // Terminal byte: the number ends here.
            proof {
                assert(varuint_parse(tail) == Some((b as nat, 1nat)));
                assert(f * (b as nat) == frag as nat * f) by (nonlinear_arith)
                    requires
                        b as nat == frag as nat,
                ;
                assert(acc as nat == acc0 + f * (b as nat));
                lemma_acc_lt_next(acc as nat, frag as nat, f);
            }
            return Some((acc, cur - pos + 1));
        }
        // Continuation byte: step past it.
        proof {
            let sub = varuint_parse(tail.skip(1));
            assert(varuint_parse(tail) == match sub {
                None => None::<(nat, nat)>,
                Some((v, used)) => Some((((b - 128) + 128 * v) as nat, (used + 1) as nat)),
            });
            lemma_step_linear(acc0, frag as nat, f, sub);
            lemma_acc_lt_next(acc as nat, frag as nat, f);
        }
        cur = cur + 1;
        proof {
            f = 128 * f;
            assert(f == pow128((cur - pos) as nat));
        }
        if !factor_big {
            if factor <= u64::MAX / 128 {
                factor = factor * 128;
                proof {
                    assert(factor == f);
                }
            } else {
                factor_big = true;
                proof {
                    assert(f > u64::MAX) by (nonlinear_arith)
                        requires
                            f == 128 * (factor as nat),
                            factor > u64::MAX / 128,
                    ;
                }
            }
        }
    }
}

/// A parse that starts with a byte whose low seven bits are `frag` yields a
/// value of at least `frag`, so its `f`-scaled image is at least `frag * f`.
proof fn lemma_parse_value_ge(s: Seq<u8>, acc: nat, f: nat, frag: nat)
    requires
        s.len() > 0,
        s[0] as nat % 128 == frag,
    ensures
        match varuint_parse(s) {
            None => true,
            Some((v, _)) => f * v >= frag * f && f * v == v * f,
        },
{
    match varuint_parse(s) {
        None => {},
        Some((v, used)) => {
            if s[0] < 128 {
                assert(v == s[0] as nat);
            } else {
                assert(v == (s[0] - 128) + 128 * varuint_parse(s.skip(1)).unwrap().0);
            }
            assert(v >= frag);
            assert(f * v >= frag * f && f * v == v * f) by (nonlinear_arith)
                requires
                    v >= frag,
            ;
        },
    }
}

/// After absorbing one digit, the running value stays below the next power.
proof fn lemma_acc_lt_next(acc: nat, frag: nat, f: nat)
    requires
        acc < f + frag * f,
        frag < 128,
    ensures
        acc < 128 * f,
{
    assert(f + frag * f <= 128 * f) by (nonlinear_arith)
        requires
            frag < 128,
    ;
}

/// Folding one base-128 digit into the accumulator commutes with the
/// recursive parse: `acc + f * (d + 128 v) == (acc + d f) + (128 f) v`.
proof fn lemma_step_linear(acc: nat, frag: nat, f: nat, sub: Option<(nat, nat)>)
    ensures
        match sub {
            None => true,
            Some((v, _)) => acc + f * (frag + 128 * v) == (acc + frag * f) + (128 * f) * v,
        },
{
    match sub {
        None => {},
        Some((v, _)) => {
            assert(f * (frag + 128 * v) == frag * f + (128 * f) * v) by (nonlinear_arith);
        },
    }
}

} // verus!
