//! Byte-level primitives for the value codec: little-endian integers,
//! bit-set packing for flags, and UTF-8 validity.

use vstd::prelude::*;
use vstd::arithmetic::power2::pow2;
use vstd::arithmetic::power2::lemma2_to64;
use vstd::arithmetic::power2::lemma_pow2_adds;
use vstd::arithmetic::div_mod::lemma_fundamental_div_mod;

verus! {

/// Little-endian encoding of `x` into `k` bytes, least significant byte first.
/// Bits of `x` beyond the `k` bytes are discarded.
pub open spec fn le_bytes(x: nat, k: nat) -> Seq<u8>
    decreases k,
{
    if k == 0 {
        Seq::empty()
    } else {
        seq![(x % 256) as u8] + le_bytes(x / 256, (k - 1) as nat)
    }
}

/// The value of a little-endian byte sequence.
pub open spec fn le_val(s: Seq<u8>) -> nat
    decreases s.len(),
{
    if s.len() == 0 {
        0
    } else {
        (s[0] as nat) + 256 * le_val(s.drop_first())
    }
}

pub proof fn lemma_le_bytes_len(x: nat, k: nat)
    ensures
        le_bytes(x, k).len() == k,
    decreases k,
{
    if k > 0 {
        lemma_le_bytes_len(x / 256, (k - 1) as nat);
    }
}

/// Reading back a little-endian encoding recovers the value, as long as the
/// value fits in the chosen width.
pub proof fn lemma_le_roundtrip(x: nat, k: nat)
    requires
        x < pow2(8 * k),
    ensures
        le_val(le_bytes(x, k)) == x,
    decreases k,
{
    if k == 0 {
        assert(pow2(0) == 1) by {
            lemma2_to64();
        }
    } else {
        let s = le_bytes(x, k);
        assert(s.drop_first() =~= le_bytes(x / 256, (k - 1) as nat));
        assert(x / 256 < pow2(8 * (k - 1) as nat)) by {
            lemma_pow2_adds(8, 8 * (k - 1) as nat);
            assert(pow2(8) == 256) by {
                lemma2_to64();
            }
            assert(x < 256 * pow2(8 * (k - 1) as nat));
            vstd::arithmetic::div_mod::lemma_multiply_divide_lt(
                x as int,
                256,
                pow2(8 * (k - 1) as nat) as int,
            );
        }
        lemma_le_roundtrip(x / 256, (k - 1) as nat);
        lemma_fundamental_div_mod(x as int, 256);
    }
}

/// A little-endian byte sequence is bounded by the width it occupies.
pub proof fn lemma_le_val_bound(s: Seq<u8>)
    ensures
        le_val(s) < pow2(8 * s.len()),
    decreases s.len(),
{
    if s.len() == 0 {
        assert(pow2(0) == 1) by {
            lemma2_to64();
        }
    } else {
        lemma_le_val_bound(s.drop_first());
        lemma_pow2_adds(8, 8 * (s.len() - 1) as nat);
        assert(pow2(8) == 256) by {
            lemma2_to64();
        }
    }
}

/// Appends the `k`-byte little-endian encoding of `x` to `out`.
pub fn push_le(out: &mut Vec<u8>, x: u64, k: usize)
    ensures
        final(out)@ == old(out)@ + le_bytes(x as nat, k as nat),
    decreases k,
{
    if k == 0 {
        assert(final(out)@ =~= old(out)@ + le_bytes(x as nat, 0));
    } else {
        let b: u8 = (x % 256) as u8;
        out.push(b);
        push_le(out, x / 256, k - 1);
        assert(final(out)@ =~= old(out)@ + le_bytes(x as nat, k as nat));
    }
}

/// Reads `k` little-endian bytes starting at `pos`.
pub fn read_le(s: &Vec<u8>, pos: usize, k: usize) -> (r: u64)
    requires
        pos + k <= s.len(),
        k <= 8,
    ensures
        r as nat == le_val(s@.subrange(pos as int, pos + k)),
    decreases k,
{
    proof {
        lemma2_to64();
    }
    if k == 0 {
        assert(s@.subrange(pos as int, pos as int).len() == 0);
        0
    } else {
        let lo: u8 = s[pos];
        let rest: u64 = read_le(s, pos + 1, k - 1);
        let sub = Ghost(s@.subrange(pos as int, pos + k));
        proof {
            assert(sub@.drop_first() =~= s@.subrange(pos + 1, pos + 1 + (k - 1)));
            lemma_le_val_bound(sub@.drop_first());
            assert(pow2(8 * (k - 1) as nat) <= pow2(56)) by {
                if (8 * (k - 1) as nat) < 56 {
                    vstd::arithmetic::power2::lemma_pow2_strictly_increases(
                        8 * (k - 1) as nat,
                        56,
                    );
                }
            }
            vstd::arithmetic::power2::lemma2_to64_rest();
            assert((rest as nat) < pow2(56));
            assert((lo as nat) + 256 * (rest as nat) < pow2(64));
        }
        lo as u64 + 256 * rest
    }
}

/// The value of a bit sequence read as a little-endian bit-set: bit `i`
/// holds flag `i`.
pub open spec fn bits_val(bs: Seq<bool>) -> nat
    decreases bs.len(),
{
    if bs.len() == 0 {
        0
    } else {
        (if bs[0] {
            1nat
        } else {
            0nat
        }) + 2 * bits_val(bs.drop_first())
    }
}

/// The first `n` bits of `x`, least significant first.
pub open spec fn bits_of(x: nat, n: nat) -> Seq<bool>
    decreases n,
{
    if n == 0 {
        Seq::empty()
    } else {
        seq![x % 2 == 1] + bits_of(x / 2, (n - 1) as nat)
    }
}

/// `x` with its low `n` bits shifted away.
pub open spec fn drop_bits(x: nat, n: nat) -> nat
    decreases n,
{
    if n == 0 {
        x
    } else {
        drop_bits(x / 2, (n - 1) as nat)
    }
}

pub proof fn lemma_bits_val_bound(bs: Seq<bool>)
    ensures
        bits_val(bs) < pow2(bs.len()),
    decreases bs.len(),
{
    if bs.len() == 0 {
        assert(pow2(0) == 1) by {
            lemma2_to64();
        }
    } else {
        lemma_bits_val_bound(bs.drop_first());
        lemma_pow2_adds(1, (bs.len() - 1) as nat);
        assert(pow2(1) == 2) by {
            lemma2_to64();
        }
    }
}

/// Unpacking a packed bit-set recovers every flag.
pub proof fn lemma_bits_roundtrip(bs: Seq<bool>)
    ensures
        bits_of(bits_val(bs), bs.len()) == bs,
    decreases bs.len(),
{
    if bs.len() == 0 {
        assert(bits_of(bits_val(bs), 0) =~= bs);
    } else {
        let b0: nat = if bs[0] {
            1
        } else {
            0
        };
        let m: nat = bits_val(bs.drop_first());
        assert(bits_val(bs) == b0 + 2 * m);
        assert((b0 + 2 * m) % 2 == b0) by {
            lemma_fundamental_div_mod((b0 + 2 * m) as int, 2);
        }
        assert((b0 + 2 * m) / 2 == m) by {
            lemma_fundamental_div_mod((b0 + 2 * m) as int, 2);
        }
        lemma_bits_roundtrip(bs.drop_first());
        assert(bits_of(bits_val(bs), bs.len()) =~= bs);
    }
}

/// A packed bit-set has nothing beyond its declared width.
pub proof fn lemma_bits_val_drop(bs: Seq<bool>)
    ensures
        drop_bits(bits_val(bs), bs.len()) == 0,
    decreases bs.len(),
{
    if bs.len() > 0 {
        let b0: nat = if bs[0] {
            1
        } else {
            0
        };
        let m: nat = bits_val(bs.drop_first());
        assert((b0 + 2 * m) / 2 == m) by {
            lemma_fundamental_div_mod((b0 + 2 * m) as int, 2);
        }
        lemma_bits_val_drop(bs.drop_first());
    }
}

/// Packs the flags from index `k` on into an unsigned bit-set.
pub fn pack_bits(bs: &Vec<bool>, k: usize) -> (r: u64)
    requires
        bs.len() <= 64,
        k <= bs.len(),
    ensures
        r as nat == bits_val(bs@.skip(k as int)),
    decreases bs.len() - k,
{
    if k == bs.len() {
        assert(bs@.skip(k as int).len() == 0);
        0
    } else {
        let rest: u64 = pack_bits(bs, k + 1);
        let lo: u64 = if bs[k] {
            1
        } else {
            0
        };
        proof {
            let tail = bs@.skip(k as int);
            assert(tail.drop_first() =~= bs@.skip(k + 1));
            lemma_bits_val_bound(bs@.skip(k + 1));
            assert(pow2((bs@.skip(k + 1)).len()) <= pow2(63)) by {
                if (bs@.skip(k + 1)).len() < 63 {
                    vstd::arithmetic::power2::lemma_pow2_strictly_increases(
                        (bs@.skip(k + 1)).len(),
                        63,
                    );
                }
            }
            lemma2_to64();
            vstd::arithmetic::power2::lemma2_to64_rest();
            assert((rest as nat) < pow2(63));
            assert((lo as nat) + 2 * (rest as nat) < pow2(64));
        }
        lo + 2 * rest
    }
}

/// Extracts `n` flags from the low bits of `x`.
pub fn unpack_bits(x: u64, n: usize) -> (r: Vec<bool>)
    ensures
        r@ == bits_of(x as nat, n as nat),
    decreases n,
{
    if n == 0 {
        let r: Vec<bool> = Vec::new();
        proof {
            assert(r@ =~= bits_of(x as nat, 0));
        }
        r
    } else {
        let mut rest: Vec<bool> = unpack_bits(x / 2, n - 1);
        rest.insert(0, x % 2 == 1);
        proof {
            assert(rest@ =~= bits_of(x as nat, n as nat));
        }
        rest
    }
}

/// Shifts the low `n` bits of `x` away.
pub fn shift_out(x: u64, n: usize) -> (r: u64)
    ensures
        r as nat == drop_bits(x as nat, n as nat),
    decreases n,
{
    if n == 0 {
        x
    } else {
        shift_out(x / 2, n - 1)
    }
}

/// A UTF-8 continuation byte.
pub open spec fn is_cont(b: u8) -> bool {
    0x80 <= b && b <= 0xBF
}

/// Well-formed UTF-8, by the shortest-form encoding rules: one- to four-byte
/// sequences, no surrogates, nothing above the last code point.
pub open spec fn valid_utf8(s: Seq<u8>) -> bool
    decreases s.len(),
{
    if s.len() == 0 {
        true
    } else {
        let b0 = s[0];
        if b0 < 0x80 {
            valid_utf8(s.subrange(1, s.len() as int))
        } else if 0xC2 <= b0 && b0 <= 0xDF {
            &&& s.len() >= 2
            &&& is_cont(s[1])
            &&& valid_utf8(s.subrange(2, s.len() as int))
        } else if b0 == 0xE0 {
            &&& s.len() >= 3
            &&& 0xA0 <= s[1] && s[1] <= 0xBF
            &&& is_cont(s[2])
            &&& valid_utf8(s.subrange(3, s.len() as int))
        } else if b0 == 0xED {
            &&& s.len() >= 3
            &&& 0x80 <= s[1] && s[1] <= 0x9F
            &&& is_cont(s[2])
            &&& valid_utf8(s.subrange(3, s.len() as int))
        } else if 0xE1 <= b0 && b0 <= 0xEF {
            &&& s.len() >= 3
            &&& is_cont(s[1])
            &&& is_cont(s[2])
            &&& valid_utf8(s.subrange(3, s.len() as int))
        } else if b0 == 0xF0 {
            &&& s.len() >= 4
            &&& 0x90 <= s[1] && s[1] <= 0xBF
            &&& is_cont(s[2])
            &&& is_cont(s[3])
            &&& valid_utf8(s.subrange(4, s.len() as int))
        } else if 0xF1 <= b0 && b0 <= 0xF3 {
            &&& s.len() >= 4
            &&& is_cont(s[1])
            &&& is_cont(s[2])
            &&& is_cont(s[3])
            &&& valid_utf8(s.subrange(4, s.len() as int))
        } else if b0 == 0xF4 {
            &&& s.len() >= 4
            &&& 0x80 <= s[1] && s[1] <= 0x8F
            &&& is_cont(s[2])
            &&& is_cont(s[3])
            &&& valid_utf8(s.subrange(4, s.len() as int))
        } else {
            false
        }
    }
}

/// Decides UTF-8 validity of `s` from position `i` on.
pub fn check_utf8(s: &Vec<u8>, i: usize) -> (r: bool)
    requires
        i <= s.len(),
    ensures
        r == valid_utf8(s@.skip(i as int)),
    decreases s.len() - i,
{
    let n = s.len();
    if i == n {
        assert(s@.skip(i as int).len() == 0);
        true
    } else {
        let ghost tail = s@.skip(i as int);
        let b0 = s[i];
        if b0 < 0x80 {
            proof {
                assert(tail.subrange(1, tail.len() as int) =~= s@.skip(i + 1));
            }
            check_utf8(s, i + 1)
        } else if 0xC2 <= b0 && b0 <= 0xDF {
            if n - i >= 2 && 0x80 <= s[i + 1] && s[i + 1] <= 0xBF {
                proof {
                    assert(tail.subrange(2, tail.len() as int) =~= s@.skip(i + 2));
                }
                check_utf8(s, i + 2)
            } else {
                false
            }
        } else if b0 == 0xE0 {
            if n - i >= 3 && 0xA0 <= s[i + 1] && s[i + 1] <= 0xBF && 0x80 <= s[i + 2] && s[i + 2]
                <= 0xBF {
                proof {
                    assert(tail.subrange(3, tail.len() as int) =~= s@.skip(i + 3));
                }
                check_utf8(s, i + 3)
            } else {
                false
            }
        } else if b0 == 0xED {
            if n - i >= 3 && 0x80 <= s[i + 1] && s[i + 1] <= 0x9F && 0x80 <= s[i + 2] && s[i + 2]
                <= 0xBF {
                proof {
                    assert(tail.subrange(3, tail.len() as int) =~= s@.skip(i + 3));
                }
                check_utf8(s, i + 3)
            } else {
                false
            }
        } else if 0xE1 <= b0 && b0 <= 0xEF {
            if n - i >= 3 && 0x80 <= s[i + 1] && s[i + 1] <= 0xBF && 0x80 <= s[i + 2] && s[i + 2]
                <= 0xBF {
                proof {
                    assert(tail.subrange(3, tail.len() as int) =~= s@.skip(i + 3));
                }
                check_utf8(s, i + 3)
            } else {
                false
            }
        } else if b0 == 0xF0 {
            if n - i >= 4 && 0x90 <= s[i + 1] && s[i + 1] <= 0xBF && 0x80 <= s[i + 2] && s[i + 2]
                <= 0xBF && 0x80 <= s[i + 3] && s[i + 3] <= 0xBF {
                proof {
                    assert(tail.subrange(4, tail.len() as int) =~= s@.skip(i + 4));
                }
                check_utf8(s, i + 4)
            } else {
                false
            }
        } else if 0xF1 <= b0 && b0 <= 0xF3 {
            if n - i >= 4 && 0x80 <= s[i + 1] && s[i + 1] <= 0xBF && 0x80 <= s[i + 2] && s[i + 2]
                <= 0xBF && 0x80 <= s[i + 3] && s[i + 3] <= 0xBF {
                proof {
                    assert(tail.subrange(4, tail.len() as int) =~= s@.skip(i + 4));
                }
                check_utf8(s, i + 4)
            } else {
                false
            }
        } else if b0 == 0xF4 {
            if n - i >= 4 && 0x80 <= s[i + 1] && s[i + 1] <= 0x8F && 0x80 <= s[i + 2] && s[i + 2]
                <= 0xBF && 0x80 <= s[i + 3] && s[i + 3] <= 0xBF {
                proof {
                    assert(tail.subrange(4, tail.len() as int) =~= s@.skip(i + 4));
                }
                check_utf8(s, i + 4)
            } else {
                false
            }
        } else {
            false
        }
    }
}

} // verus!
