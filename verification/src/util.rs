//! Byte-level helpers: the SHA-256 digest, hex encoding, and the
//! leading-zero-bit counter that the proof-of-work gate thresholds on.

use vstd::prelude::*;
use sha2::Digest;

verus! {

broadcast use vstd::std_specs::bits::group_bits_axioms;

use vstd::std_specs::bits::u8_leading_zeros;
use vstd::string::StringExecFns;

/// The SHA-256 digest of a byte sequence, as a name: the digest is a function
/// of the input bytes alone and is not restated here.
pub uninterp spec fn sha256_of(data: Seq<u8>) -> Seq<u8>;

/// Relies on `sha2::Sha256` (`Digest`): the 32-byte SHA-256 digest of the
/// input, a function of the input bytes alone.
#[verifier::external_body]
pub fn sha256(data: &[u8]) -> (digest: Vec<u8>)
    ensures
        digest@ == sha256_of(data@),
        digest@.len() == 32,
{
    let mut hasher = sha2::Sha256::new();
    hasher.update(data);
    hasher.finalize().to_vec()
}

/// True when every byte of the sequence is zero.
pub open spec fn all_zero(s: Seq<u8>) -> bool {
    forall|i: int| 0 <= i < s.len() ==> s[i] == 0
}

/// Whether every byte of the slice is zero.
pub fn is_all_zero(bytes: &[u8]) -> (r: bool)
    ensures
        r == all_zero(bytes@),
{
    let mut i: usize = 0;
    while i < bytes.len()
        invariant
            0 <= i <= bytes@.len(),
            forall|j: int| 0 <= j < i ==> bytes@[j] == 0,
        decreases bytes@.len() - i,
    {
        if bytes[i] != 0 {
            return false;
        }
        i = i + 1;
    }
    true
}

/// Compares two byte slices without an early exit on the first mismatch: the
/// running time depends only on the lengths, so tag checks do not leak where
/// a comparison failed.
pub fn constant_time_eq(a: &[u8], b: &[u8]) -> (r: bool)
    ensures
        r == (a@ == b@),
{
    if a.len() != b.len() {
        return false;
    }
    let mut diff: u8 = 0;
    let mut i: usize = 0;
    while i < a.len()
        invariant
            0 <= i <= a@.len(),
            a@.len() == b@.len(),
            (diff == 0) <==> (forall|j: int| 0 <= j < i ==> a@[j] == b@[j]),
        decreases a@.len() - i,
    {
        let x = a[i] ^ b[i];
        let ai = a[i];
        let bi = b[i];
        proof {
            assert((ai ^ bi) == 0 <==> ai == bi) by (bit_vector);
            assert((diff | (ai ^ bi)) == 0 <==> (diff == 0 && (ai ^ bi) == 0)) by (bit_vector);
        }
        diff = diff | x;
        i = i + 1;
    }
    proof {
        if diff == 0 {
            assert(a@ =~= b@);
        }
    }
    diff == 0
}

/// Number of leading zero bits of a byte sequence, most significant byte
/// first.
pub open spec fn spec_leading_zero_bits(s: Seq<u8>) -> nat
    decreases s.len(),
{
    if s.len() == 0 {
        0
    } else if s[0] == 0 {
        8 + spec_leading_zero_bits(s.drop_first())
    } else {
        u8_leading_zeros(s[0]) as nat
    }
}

/// A run of zero bytes at the front contributes eight bits each.
proof fn lemma_lzb_prefix_zeros(s: Seq<u8>, i: int)
    requires
        0 <= i <= s.len(),
        forall|j: int| 0 <= j < i ==> s[j] == 0,
    ensures
        spec_leading_zero_bits(s) == 8 * i + spec_leading_zero_bits(s.skip(i)),
    decreases i,
{
    if i == 0 {
        assert(s.skip(0) =~= s);
    } else {
        assert(s[0] == 0);
        lemma_lzb_prefix_zeros(s.drop_first(), i - 1);
        assert(s.drop_first().skip(i - 1) =~= s.skip(i));
    }
}

/// Counts the leading zero bits of a byte slice.
pub fn leading_zero_bits(bytes: &[u8]) -> (count: u32)
    requires
        8 * bytes@.len() <= u32::MAX,
    ensures
        count == spec_leading_zero_bits(bytes@),
{
    let n = bytes.len();
    let mut i: usize = 0;
    while i < n
        invariant
            0 <= i <= n,
            n == bytes@.len(),
            8 * n <= u32::MAX,
            forall|j: int| 0 <= j < i ==> bytes@[j] == 0,
        decreases n - i,
    {
        let b = bytes[i];
        if b != 0 {
            let lz = b.leading_zeros();
            proof {
                lemma_lzb_prefix_zeros(bytes@, i as int);
                assert(bytes@.skip(i as int)[0] == b);
            }
            return 8 * (i as u32) + lz;
        }
        i = i + 1;
    }
    proof {
        lemma_lzb_prefix_zeros(bytes@, n as int);
        assert(bytes@.skip(n as int) =~= Seq::<u8>::empty());
    }
    8 * (n as u32)
}

/// The lower-case hex digit for a value below sixteen.
pub open spec fn hex_char(n: u8) -> char {
    if n == 0 {
        '0'
    } else if n == 1 {
        '1'
    } else if n == 2 {
        '2'
    } else if n == 3 {
        '3'
    } else if n == 4 {
        '4'
    } else if n == 5 {
        '5'
    } else if n == 6 {
        '6'
    } else if n == 7 {
        '7'
    } else if n == 8 {
        '8'
    } else if n == 9 {
        '9'
    } else if n == 10 {
        'a'
    } else if n == 11 {
        'b'
    } else if n == 12 {
        'c'
    } else if n == 13 {
        'd'
    } else if n == 14 {
        'e'
    } else {
        'f'
    }
}

/// The lower-case hex encoding of a byte sequence: two digits per byte, high
/// nibble first.
pub open spec fn hex_of(bytes: Seq<u8>) -> Seq<char> {
    Seq::new(
        2 * bytes.len(),
        |i: int|
            if i % 2 == 0 {
                hex_char(bytes[i / 2] >> 4u8)
            } else {
                hex_char(bytes[i / 2] & 0xfu8)
            },
    )
}

/// The one-character string for a hex digit.
fn hex_digit_str(n: u8) -> (r: &'static str)
    requires
        n < 16,
    ensures
        r@ == seq![hex_char(n)],
{
    proof {
        reveal_strlit("0");
        reveal_strlit("1");
        reveal_strlit("2");
        reveal_strlit("3");
        reveal_strlit("4");
        reveal_strlit("5");
        reveal_strlit("6");
        reveal_strlit("7");
        reveal_strlit("8");
        reveal_strlit("9");
        reveal_strlit("a");
        reveal_strlit("b");
        reveal_strlit("c");
        reveal_strlit("d");
        reveal_strlit("e");
        reveal_strlit("f");
    }
    let r: &'static str = if n == 0 {
        "0"
    } else if n == 1 {
        "1"
    } else if n == 2 {
        "2"
    } else if n == 3 {
        "3"
    } else if n == 4 {
        "4"
    } else if n == 5 {
        "5"
    } else if n == 6 {
        "6"
    } else if n == 7 {
        "7"
    } else if n == 8 {
        "8"
    } else if n == 9 {
        "9"
    } else if n == 10 {
        "a"
    } else if n == 11 {
        "b"
    } else if n == 12 {
        "c"
    } else if n == 13 {
        "d"
    } else if n == 14 {
        "e"
    } else {
        "f"
    };
    proof {
        assert(r@ =~= seq![hex_char(n)]);
    }
    r
}

/// Hex-encodes a byte slice, two lower-case digits per byte.
pub fn to_hex(bytes: &[u8]) -> (r: String)
    ensures
        r@ == hex_of(bytes@),
{
    let mut out = String::new();
    let mut i: usize = 0;
    while i < bytes.len()
        invariant
            0 <= i <= bytes@.len(),
            out@ == hex_of(bytes@.take(i as int)),
        decreases bytes@.len() - i,
    {
        let b = bytes[i];
        proof {
            assert((b >> 4u8) < 16 && (b & 0xfu8) < 16) by (bit_vector);
        }
        let hi = hex_digit_str(b >> 4);
        let lo = hex_digit_str(b & 0xf);
        out.append(hi);
        out.append(lo);
        proof {
            assert(out@ =~= hex_of(bytes@.take(i as int + 1)));
        }
        i = i + 1;
    }
    proof {
        assert(bytes@.take(bytes@.len() as int) =~= bytes@);
    }
    out
}

} // verus!
