//! Prefix comparison of IP addresses, bit by bit from the most significant.
use vstd::prelude::*;

verus! {

/// Bit `i` of an octet string, counting from the most significant bit of the first octet.
pub open spec fn bit_of(s: Seq<u8>, i: int) -> u8 {
    (s[i / 8] >> ((7 - i % 8) as u8)) & 1u8
}

/// Whether the first `k` bits of `a` and `b` agree.
pub open spec fn prefix_agrees(a: Seq<u8>, b: Seq<u8>, k: int) -> bool {
    forall|i: int| 0 <= i < k ==> #[trigger] bit_of(a, i) == bit_of(b, i)
}

/// The octet whose `m` most significant bits are set.
pub open spec fn high_bits(m: int) -> u8 {
    if m <= 0 {
        0x00
    } else if m == 1 {
        0x80
    } else if m == 2 {
        0xc0
    } else if m == 3 {
        0xe0
    } else if m == 4 {
        0xf0
    } else if m == 5 {
        0xf8
    } else if m == 6 {
        0xfc
    } else if m == 7 {
        0xfe
    } else {
        0xff
    }
}

/// Bit `j` of one octet, from the most significant.
pub open spec fn octet_bit(x: u8, j: int) -> u8 {
    (x >> ((7 - j) as u8)) & 1u8
}

/// Two octets agree on their `m` high bits exactly when they agree under the mask.
proof fn lemma_masked_octet(x: u8, y: u8, m: int)
    requires
        0 <= m <= 8,
    ensures
        ((x & high_bits(m)) == (y & high_bits(m))) <==> (forall|j: int|
            0 <= j < m ==> #[trigger] octet_bit(x, j) == octet_bit(y, j)),
{
    let b0 = ((x >> 7u8) & 1u8) == ((y >> 7u8) & 1u8);
    let b1 = ((x >> 6u8) & 1u8) == ((y >> 6u8) & 1u8);
    let b2 = ((x >> 5u8) & 1u8) == ((y >> 5u8) & 1u8);
    let b3 = ((x >> 4u8) & 1u8) == ((y >> 4u8) & 1u8);
    let b4 = ((x >> 3u8) & 1u8) == ((y >> 3u8) & 1u8);
    let b5 = ((x >> 2u8) & 1u8) == ((y >> 2u8) & 1u8);
    let b6 = ((x >> 1u8) & 1u8) == ((y >> 1u8) & 1u8);
    let b7 = ((x >> 0u8) & 1u8) == ((y >> 0u8) & 1u8);
    assert(octet_bit(x, 0) == octet_bit(y, 0) <==> b0);
    assert(octet_bit(x, 1) == octet_bit(y, 1) <==> b1);
    assert(octet_bit(x, 2) == octet_bit(y, 2) <==> b2);
    assert(octet_bit(x, 3) == octet_bit(y, 3) <==> b3);
    assert(octet_bit(x, 4) == octet_bit(y, 4) <==> b4);
    assert(octet_bit(x, 5) == octet_bit(y, 5) <==> b5);
    assert(octet_bit(x, 6) == octet_bit(y, 6) <==> b6);
    assert(octet_bit(x, 7) == octet_bit(y, 7) <==> b7);
    if m == 0 {
        assert((x & 0u8) == (y & 0u8)) by (bit_vector);
    } else if m == 1 {
        assert(((x & 0x80u8) == (y & 0x80u8)) <==> ((((x >> 7u8) & 1u8) == ((y >> 7u8) & 1u8)))) by (bit_vector);
    } else if m == 2 {
        assert(((x & 0xc0u8) == (y & 0xc0u8)) <==> ((((x >> 7u8) & 1u8) == ((y >> 7u8) & 1u8)) && (((x >> 6u8) & 1u8) == ((y >> 6u8) & 1u8)))) by (bit_vector);
    } else if m == 3 {
        assert(((x & 0xe0u8) == (y & 0xe0u8)) <==> ((((x >> 7u8) & 1u8) == ((y >> 7u8) & 1u8)) && (((x >> 6u8) & 1u8) == ((y >> 6u8) & 1u8)) && (((x >> 5u8) & 1u8) == ((y >> 5u8) & 1u8)))) by (bit_vector);
    } else if m == 4 {
        assert(((x & 0xf0u8) == (y & 0xf0u8)) <==> ((((x >> 7u8) & 1u8) == ((y >> 7u8) & 1u8)) && (((x >> 6u8) & 1u8) == ((y >> 6u8) & 1u8)) && (((x >> 5u8) & 1u8) == ((y >> 5u8) & 1u8)) && (((x >> 4u8) & 1u8) == ((y >> 4u8) & 1u8)))) by (bit_vector);
    } else if m == 5 {
        assert(((x & 0xf8u8) == (y & 0xf8u8)) <==> ((((x >> 7u8) & 1u8) == ((y >> 7u8) & 1u8)) && (((x >> 6u8) & 1u8) == ((y >> 6u8) & 1u8)) && (((x >> 5u8) & 1u8) == ((y >> 5u8) & 1u8)) && (((x >> 4u8) & 1u8) == ((y >> 4u8) & 1u8)) && (((x >> 3u8) & 1u8) == ((y >> 3u8) & 1u8)))) by (bit_vector);
    } else if m == 6 {
        assert(((x & 0xfcu8) == (y & 0xfcu8)) <==> ((((x >> 7u8) & 1u8) == ((y >> 7u8) & 1u8)) && (((x >> 6u8) & 1u8) == ((y >> 6u8) & 1u8)) && (((x >> 5u8) & 1u8) == ((y >> 5u8) & 1u8)) && (((x >> 4u8) & 1u8) == ((y >> 4u8) & 1u8)) && (((x >> 3u8) & 1u8) == ((y >> 3u8) & 1u8)) && (((x >> 2u8) & 1u8) == ((y >> 2u8) & 1u8)))) by (bit_vector);
    } else if m == 7 {
        assert(((x & 0xfeu8) == (y & 0xfeu8)) <==> ((((x >> 7u8) & 1u8) == ((y >> 7u8) & 1u8)) && (((x >> 6u8) & 1u8) == ((y >> 6u8) & 1u8)) && (((x >> 5u8) & 1u8) == ((y >> 5u8) & 1u8)) && (((x >> 4u8) & 1u8) == ((y >> 4u8) & 1u8)) && (((x >> 3u8) & 1u8) == ((y >> 3u8) & 1u8)) && (((x >> 2u8) & 1u8) == ((y >> 2u8) & 1u8)) && (((x >> 1u8) & 1u8) == ((y >> 1u8) & 1u8)))) by (bit_vector);
    } else {
        assert(((x & 0xffu8) == (y & 0xffu8)) <==> ((((x >> 7u8) & 1u8) == ((y >> 7u8) & 1u8)) && (((x >> 6u8) & 1u8) == ((y >> 6u8) & 1u8)) && (((x >> 5u8) & 1u8) == ((y >> 5u8) & 1u8)) && (((x >> 4u8) & 1u8) == ((y >> 4u8) & 1u8)) && (((x >> 3u8) & 1u8) == ((y >> 3u8) & 1u8)) && (((x >> 2u8) & 1u8) == ((y >> 2u8) & 1u8)) && (((x >> 1u8) & 1u8) == ((y >> 1u8) & 1u8)) && (((x >> 0u8) & 1u8) == ((y >> 0u8) & 1u8)))) by (bit_vector);
    }
    if (x & high_bits(m)) != (y & high_bits(m)) {
        let j: int = if !b0 {
            0
        } else if !b1 {
            1
        } else if !b2 {
            2
        } else if !b3 {
            3
        } else if !b4 {
            4
        } else if !b5 {
            5
        } else if !b6 {
            6
        } else {
            7
        };
        assert(octet_bit(x, j) != octet_bit(y, j));
    }
}

/// The octet mask for the `m` high bits, for `m` from 0 to 8.
pub fn high_bits_mask(m: usize) -> (r: u8)
    requires
        m <= 8,
    ensures
        r == high_bits(m as int),
{
    if m == 0 {
        0x00
    } else if m == 1 {
        0x80
    } else if m == 2 {
        0xc0
    } else if m == 3 {
        0xe0
    } else if m == 4 {
        0xf0
    } else if m == 5 {
        0xf8
    } else if m == 6 {
        0xfc
    } else if m == 7 {
        0xfe
    } else {
        0xff
    }
}

/// The IPv4 netmask of a prefix length: the first `mask` bits set. A length of 32
/// or more sets every bit.
pub fn ipv4_subnet_mask(mask: usize) -> (r: [u8; 4])
    ensures
        forall|k: int| 0 <= k < 4 ==> #[trigger] r@[k] == high_bits(mask - 8 * k),
{
    let m0 = if mask >= 8 { 8 } else { mask };
    let m1 = if mask >= 16 { 8 } else if mask >= 8 { mask - 8 } else { 0 };
    let m2 = if mask >= 24 { 8 } else if mask >= 16 { mask - 16 } else { 0 };
    let m3 = if mask >= 32 { 8 } else if mask >= 24 { mask - 24 } else { 0 };
    [high_bits_mask(m0), high_bits_mask(m1), high_bits_mask(m2), high_bits_mask(m3)]
}

/// Whether the first `prefix` bits of two equally long octet strings agree.
pub fn prefix_match(a: &[u8], b: &[u8], prefix: usize) -> (r: bool)
    requires
        a@.len() == b@.len() <= 16,
        prefix <= 8 * a@.len(),
    ensures
        r == prefix_agrees(a@, b@, prefix as int),
{
    let mut k: usize = 0;
    while k < a.len()
        invariant
            k <= a@.len() == b@.len() <= 16,
            prefix <= 8 * a@.len(),
            prefix_agrees(a@, b@, if prefix < 8 * k { prefix as int } else { 8 * k }),
        decreases a@.len() - k,
    {
        let m: usize = if prefix >= 8 * k + 8 {
            8
        } else if prefix >= 8 * k {
            prefix - 8 * k
        } else {
            0
        };
        let mask = high_bits_mask(m);
        let same = (a[k] & mask) == (b[k] & mask);
        proof {
            lemma_masked_octet(a@[k as int], b@[k as int], m as int);
            assert forall|j: int| 0 <= j < 8 implies #[trigger] bit_of(a@, 8 * k + j) == octet_bit(
                a@[k as int],
                j,
            ) && bit_of(b@, 8 * k + j) == octet_bit(b@[k as int], j) by {
                assert((8 * k + j) / 8 == k as int);
                assert((8 * k + j) % 8 == j);
            }
        }
        if !same {
            proof {
                let j = choose|j: int| 0 <= j < m && octet_bit(a@[k as int], j) != octet_bit(
                    b@[k as int],
                    j,
                );
                assert(bit_of(a@, 8 * k + j) != bit_of(b@, 8 * k + j));
            }
            return false;
        }
        proof {
            let lim = if prefix < 8 * (k + 1) { prefix as int } else { 8 * (k + 1) };
            assert forall|i: int| 0 <= i < lim implies #[trigger] bit_of(a@, i) == bit_of(b@, i) by {
                if i >= 8 * k {
                    let j = i - 8 * k;
                    assert(0 <= j < m);
                    assert(octet_bit(a@[k as int], j) == octet_bit(b@[k as int], j));
                    assert(bit_of(a@, 8 * k + j) == octet_bit(a@[k as int], j));
                }
            }
        }
        k = k + 1;
    }
    true
}

} // verus!
