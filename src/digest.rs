use vstd::prelude::*;

verus! {

/// FNV-1a offset basis for 128-bit states.
pub const FNV_OFFSET: u128 = 0x6c62272e07bb014262b821756295c58d;

/// FNV-1a multiplier for 128-bit states.
pub const FNV_PRIME: u128 = 0x0000000001000000000000000000013b;

/// Number of hexadecimal digits in a digest.
pub const DIGEST_LEN: usize = 32;

/// One FNV-1a step: mix in `b`, then multiply modulo 2^128.
pub open spec fn fnv_step(h: u128, b: u8) -> u128 {
    (((h ^ (b as u128)) as nat * FNV_PRIME as nat) % (u128::MAX as nat + 1)) as u128
}

/// The 128-bit FNV-1a state after reading all of `bytes`.
pub open spec fn fnv_state(bytes: Seq<u8>) -> u128
    decreases bytes.len(),
{
    if bytes.len() == 0 {
        FNV_OFFSET
    } else {
        fnv_step(fnv_state(bytes.drop_last()), bytes.last())
    }
}

/// The lowercase hexadecimal digit for `d` (taken modulo 16).
pub open spec fn hex_digit(d: u8) -> char {
    let d = d % 16;
    if d < 10 {
        ((d + 48) as u8) as char
    } else {
        ((d + 87) as u8) as char
    }
}

/// The `i`-th hexadecimal digit of `v`, counted from the most significant one.
pub open spec fn nibble(v: u128, i: int) -> u8 {
    ((v >> ((124 - 4 * i) as u32)) & 15u128) as u8
}

/// `v` written as exactly 32 lowercase hexadecimal digits.
pub open spec fn hex_text(v: u128) -> Seq<char> {
    Seq::new(32, |i: int| hex_digit(nibble(v, i)))
}

/// The digest text of `bytes`: its FNV-1a state written in hexadecimal.
pub open spec fn digest_text(bytes: Seq<u8>) -> Seq<char> {
    hex_text(fnv_state(bytes))
}

/// The 128-bit FNV-1a state of `bytes`.
pub fn fnv1a_128(bytes: &[u8]) -> (r: u128)
    ensures
        r == fnv_state(bytes@),
{
    let mut h: u128 = FNV_OFFSET;
    let mut i: usize = 0;
    while i < bytes.len()
        invariant
            i <= bytes@.len(),
            h == fnv_state(bytes@.subrange(0, i as int)),
        decreases bytes@.len() - i,
    {
        let b = bytes[i];
        proof {
            let next = bytes@.subrange(0, i as int + 1);
            assert(next.drop_last() =~= bytes@.subrange(0, i as int));
            assert(next.last() == b);
        }
        h = (h ^ (b as u128)).wrapping_mul(FNV_PRIME);
        i = i + 1;
    }
    assert(bytes@.subrange(0, bytes@.len() as int) =~= bytes@);
    h
}

/// The one-character text of the hexadecimal digit `d`.
pub(crate) fn hex_digit_text(d: u8) -> (r: &'static str)
    requires
        d < 16,
    ensures
        r@ == seq![hex_digit(d)],
{
    proof {
        reveal_strlit("0");
        reveal_strlit("1");
        reveal_strlit("2");
        reveal_strlit("3");
        reveal_strlit("4");
        reveal_strlit("5");
        reveal_strlit("6");
        reveal_strlit("7");
        reveal_strlit("8");
        reveal_strlit("9");
        reveal_strlit("a");
        reveal_strlit("b");
        reveal_strlit("c");
        reveal_strlit("d");
        reveal_strlit("e");
        reveal_strlit("f");
    }
    let r = match d {
        0 => "0",
        1 => "1",
        2 => "2",
        3 => "3",
        4 => "4",
        5 => "5",
        6 => "6",
        7 => "7",
        8 => "8",
        9 => "9",
        10 => "a",
        11 => "b",
        12 => "c",
        13 => "d",
        14 => "e",
        _ => "f",
    };
    assert(r@ =~= seq![hex_digit(d)]);
    r
}

/// `v` as 32 lowercase hexadecimal digits, most significant first.
pub fn to_hex(v: u128) -> (r: String)
    ensures
        r@ == hex_text(v),
{
    let mut out = String::new();
    let mut i: u32 = 0;
    while i < 32
        invariant
            i <= 32,
            out@ == hex_text(v).subrange(0, i as int),
        decreases 32 - i,
    {
        let shift: u32 = 124 - 4 * i;
        let n = ((v >> shift) & 15u128) as u8;
        assert(((v >> shift) & 15u128) <= 15u128) by (bit_vector);
        assert(n == nibble(v, i as int));
        out.append(hex_digit_text(n));
        i = i + 1;
        assert(out@ =~= hex_text(v).subrange(0, i as int));
    }
    assert(hex_text(v).subrange(0, 32) =~= hex_text(v));
    out
}

/// The content digest of `bytes`, as stored in metadata rows and directory names.
pub fn hash_bytes(bytes: &[u8]) -> (r: String)
    ensures
        r@ == digest_text(bytes@),
{
    to_hex(fnv1a_128(bytes))
}

/// Equal contents give equal digests: the digest is a function of the bytes
/// alone, with no state carried between calls or processes.
pub proof fn digest_deterministic(a: Seq<u8>, b: Seq<u8>)
    requires
        a == b,
    ensures
        digest_text(a) == digest_text(b),
        digest_text(a).len() == DIGEST_LEN,
{
}

} // verus!
