//! Discriminant sizing and little-endian tag bytes.
//!
//! A tagged-variant type stores which variant is active as an unsigned
//! integer at byte offset zero of its archived form.  The width of that
//! integer is the smallest that can enumerate every variant of the type.

use vstd::prelude::*;

verus! {

/// Width in bytes of the on-wire discriminant for a type with `n` variants:
/// one byte covers up to 255 variants, two up to 65535, four up to
/// 4294967295, eight up to 18446744073709551615, and sixteen is the
/// fallback beyond any count a machine word can hold.
pub open spec fn spec_tag_width(n: nat) -> nat {
    if n <= 255 {
        1
    } else if n <= 65535 {
        2
    } else if n <= 4294967295 {
        4
    } else if n <= 18446744073709551615 {
        8
    } else {
        16
    }
}

/// The discriminant width never shrinks as variants are added.
pub proof fn lemma_tag_width_monotonic(m: nat, n: nat)
    requires
        m <= n,
    ensures
        spec_tag_width(m) <= spec_tag_width(n),
{
}

/// Picks the discriminant width for `n` variants.
pub fn tag_width(n: usize) -> (w: usize)
    ensures
        w == spec_tag_width(n as nat),
{
    if n <= 255 {
        1
    } else if n <= 65535 {
        2
    } else if n <= 4294967295 {
        4
    } else {
        8
    }
}

/// `256^w`, the number of tag values a `w`-byte discriminant can carry.
pub open spec fn pow256(w: nat) -> nat
    decreases w,
{
    if w == 0 {
        1
    } else {
        256 * pow256((w - 1) as nat)
    }
}

/// Every variant count fits in the tag width chosen for it.
pub proof fn lemma_tag_width_fits(n: nat)
    requires
        n <= 18446744073709551615,
    ensures
        n <= pow256(spec_tag_width(n)),
{
    reveal_with_fuel(pow256, 9);
}

/// The little-endian bytes of `v`, `w` bytes wide.
pub open spec fn spec_le_bytes(v: nat, w: nat) -> Seq<u8>
    decreases w,
{
    if w == 0 {
        Seq::empty()
    } else {
        seq![(v % 256) as u8] + spec_le_bytes(v / 256, (w - 1) as nat)
    }
}

/// The value carried by a little-endian byte string.
pub open spec fn spec_le_value(bs: Seq<u8>) -> nat
    decreases bs.len(),
{
    if bs.len() == 0 {
        0
    } else {
        bs[0] as nat + 256 * spec_le_value(bs.drop_first())
    }
}

pub proof fn lemma_le_bytes_len(v: nat, w: nat)
    ensures
        spec_le_bytes(v, w).len() == w,
    decreases w,
{
    if w > 0 {
        lemma_le_bytes_len(v / 256, (w - 1) as nat);
    }
}

/// Writing a value in `w` little-endian bytes and reading them back is the
/// identity, as long as the value fits in `w` bytes.
pub proof fn lemma_le_round_trip(v: nat, w: nat)
    requires
        v < pow256(w),
    ensures
        spec_le_value(spec_le_bytes(v, w)) == v,
    decreases w,
{
    if w > 0 {
        let bs = spec_le_bytes(v, w);
        lemma_le_bytes_len(v, w);
        assert(bs.drop_first() =~= spec_le_bytes(v / 256, (w - 1) as nat));
        lemma_le_round_trip(v / 256, (w - 1) as nat);
    }
}

/// A `w`-byte little-endian string can only carry a value below `256^w`.
pub proof fn lemma_le_value_bound(bs: Seq<u8>)
    ensures
        spec_le_value(bs) < pow256(bs.len()),
    decreases bs.len(),
{
    if bs.len() > 0 {
        lemma_le_value_bound(bs.drop_first());
    }
}

/// Little-endian encoding is a bijection on fixed-width byte strings:
/// re-encoding the value a byte string carries gives the same bytes back.
pub proof fn lemma_le_bytes_of_value(bs: Seq<u8>)
    ensures
        spec_le_bytes(spec_le_value(bs), bs.len()) == bs,
    decreases bs.len(),
{
    if bs.len() > 0 {
        let v = spec_le_value(bs);
        let rest = spec_le_value(bs.drop_first());
        vstd::arithmetic::div_mod::lemma_fundamental_div_mod_converse(
            v as int,
            256,
            rest as int,
            bs[0] as int,
        );
        lemma_le_bytes_of_value(bs.drop_first());
        assert(spec_le_bytes(v, bs.len()) =~= bs);
    }
}

/// Encodes `v` as `w` little-endian bytes.
pub fn le_bytes(v: u64, w: usize) -> (out: Vec<u8>)
    requires
        (v as nat) < pow256(w as nat),
    ensures
        out@ == spec_le_bytes(v as nat, w as nat),
{
    let mut out: Vec<u8> = Vec::new();
    let mut x: u64 = v;
    let mut i: usize = 0;
    while i < w
        invariant
            i <= w,
            out@.len() == i,
            spec_le_bytes(v as nat, w as nat) =~= out@ + spec_le_bytes(
                x as nat,
                (w - i) as nat,
            ),
        decreases w - i,
    {
        proof {
            lemma_le_bytes_len(x as nat, (w - i) as nat);
        }
        out.push((x % 256) as u8);
        x = x / 256;
        i = i + 1;
        proof {
            lemma_le_bytes_len(x as nat, (w - i) as nat);
        }
    }
    out
}

/// Reads the value carried by the little-endian bytes `bs[lo..hi]`.
pub fn le_value_at(bs: &Vec<u8>, lo: usize, hi: usize) -> (v: u64)
    requires
        lo <= hi <= bs@.len(),
        spec_le_value(bs@.subrange(lo as int, hi as int)) <= u64::MAX,
    ensures
        v == spec_le_value(bs@.subrange(lo as int, hi as int)),
    decreases hi - lo,
{
    let ghost whole = bs@.subrange(lo as int, hi as int);
    if lo == hi {
        assert(whole.len() == 0);
        0
    } else {
        proof {
            assert(whole.drop_first() =~= bs@.subrange(lo as int + 1, hi as int));
            assert(whole[0] == bs@[lo as int]);
        }
        let rest = le_value_at(bs, lo + 1, hi);
        bs[lo] as u64 + 256 * rest
    }
}

} // verus!
