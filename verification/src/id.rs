//! 160-bit identifiers: equality, bits, and the length of the prefix that
//! two identifiers share.

use vstd::prelude::*;
use vstd::std_specs::bits::axiom_u8_leading_zeros;
use vstd::std_specs::bits::u8_leading_zeros;

verus! {

/// Bytes in an identifier.
pub const ID_BYTES: usize = 20;

/// Bits in an identifier.
pub const ID_BITS: usize = 160;

/// Bit `i` of `id`, counted from the most significant bit of its first byte.
pub open spec fn bit(id: Seq<u8>, i: int) -> bool {
    (id[i / 8] >> ((7 - i % 8) as u8)) & 1u8 == 1u8
}

/// `a` and `b` carry the same first `n` bits.
pub open spec fn agree(a: Seq<u8>, b: Seq<u8>, n: int) -> bool {
    forall|i: int| 0 <= i < n ==> #[trigger] bit(a, i) == bit(b, i)
}

/// How many bits `a` and `b` share from position `i` on before they first
/// differ.
pub open spec fn shared_from(a: Seq<u8>, b: Seq<u8>, i: int) -> nat
    decreases ID_BITS - i,
{
    if i < 0 || i >= ID_BITS || bit(a, i) != bit(b, i) {
        0
    } else {
        1 + shared_from(a, b, i + 1)
    }
}

/// The number of leading bits that `a` and `b` have in common: the leading
/// zero bits of their XOR, 160 where they are equal.
pub open spec fn shared_prefix_len(a: Seq<u8>, b: Seq<u8>) -> nat {
    shared_from(a, b, 0)
}

/// The bucket that `id` belongs to in the table of the node `local`: 160
/// less the length of their common prefix. It is 160 where the two differ
/// in their first bit, 1 where they differ in their last bit only, and 0
/// for `local` itself.
pub open spec fn bucket_index(local: Seq<u8>, id: Seq<u8>) -> nat {
    (ID_BITS - shared_prefix_len(local, id)) as nat
}

proof fn lemma_xor_bit(x: u8, y: u8, k: u8)
    by (bit_vector)
    requires
        k < 8,
    ensures
        (((x ^ y) >> k) & 1 == 0) <==> (((x >> k) & 1 == 1) <==> ((y >> k) & 1 == 1)),
{
}

proof fn lemma_xor_zero(x: u8, y: u8)
    by (bit_vector)
    ensures
        (x ^ y == 0) <==> x == y,
{
}

/// From position `i` on, `a` and `b` share at most the bits that are left.
proof fn lemma_shared_from_bound(a: Seq<u8>, b: Seq<u8>, i: int)
    requires
        0 <= i <= ID_BITS,
    ensures
        shared_from(a, b, i) <= ID_BITS - i,
    decreases ID_BITS - i,
{
    if i < ID_BITS && bit(a, i) == bit(b, i) {
        lemma_shared_from_bound(a, b, i + 1);
    }
}

/// Bits that agree from `i` up to `n` are counted, and the count goes on
/// from `n`.
proof fn lemma_shared_from_run(a: Seq<u8>, b: Seq<u8>, i: int, n: int)
    requires
        0 <= i <= n <= ID_BITS,
        forall|k: int| i <= k < n ==> #[trigger] bit(a, k) == bit(b, k),
    ensures
        shared_from(a, b, i) == (n - i) + shared_from(a, b, n),
    decreases n - i,
{
    if i < n {
        assert(bit(a, i) == bit(b, i));
        lemma_shared_from_run(a, b, i + 1, n);
    }
}

/// The count from `i` stops at the first bit that differs.
proof fn lemma_shared_from_stop(a: Seq<u8>, b: Seq<u8>, i: int, n: int)
    requires
        0 <= i <= ID_BITS,
        i <= n <= i + shared_from(a, b, i),
    ensures
        n <= ID_BITS,
        forall|k: int| i <= k < n ==> #[trigger] bit(a, k) == bit(b, k),
    decreases n - i,
{
    lemma_shared_from_bound(a, b, i);
    if i < n {
        lemma_shared_from_stop(a, b, i + 1, n);
    }
}

/// The common prefix is the longest on which the two agree: they agree on
/// their first `n` bits exactly if `n` is at most its length.
pub proof fn lemma_shared_prefix(a: Seq<u8>, b: Seq<u8>, n: int)
    requires
        0 <= n <= ID_BITS,
    ensures
        shared_prefix_len(a, b) <= ID_BITS,
        agree(a, b, n) <==> n <= shared_prefix_len(a, b),
{
    lemma_shared_from_bound(a, b, 0);
    if agree(a, b, n) {
        lemma_shared_from_run(a, b, 0, n);
    }
    if n <= shared_prefix_len(a, b) {
        lemma_shared_from_stop(a, b, 0, n);
    }
}

/// Equal bytes agree in all their eight bits.
proof fn lemma_byte_same(a: Seq<u8>, b: Seq<u8>, q: int)
    requires
        a[q] == b[q],
    ensures
        forall|k: int| 8 * q <= k < 8 * q + 8 ==> #[trigger] bit(a, k) == bit(b, k),
{
}

/// Two bytes that differ agree in as many leading bits as their XOR has
/// leading zeros, and differ in the next.
proof fn lemma_byte_differs(a: Seq<u8>, b: Seq<u8>, q: int)
    requires
        a[q] != b[q],
    ensures
        u8_leading_zeros(a[q] ^ b[q]) < 8,
        forall|k: int|
            8 * q <= k < 8 * q + u8_leading_zeros(a[q] ^ b[q]) ==> #[trigger] bit(a, k) == bit(
                b,
                k,
            ),
        bit(a, 8 * q + u8_leading_zeros(a[q] ^ b[q])) != bit(
            b,
            8 * q + u8_leading_zeros(a[q] ^ b[q]),
        ),
{
    let x = a[q];
    let y = b[q];
    let zeros = u8_leading_zeros(x ^ y);
    axiom_u8_leading_zeros(x ^ y);
    lemma_xor_zero(x, y);
    assert forall|k: int| 8 * q <= k < 8 * q + zeros implies #[trigger] bit(a, k) == bit(b, k) by {
        let shift = (7 - k % 8) as u8;
        assert(k / 8 == q);
        assert(8 - zeros <= shift < 8);
        assert(((x ^ y) >> shift) & 1u8 == 0u8);
        lemma_xor_bit(x, y, shift);
    }
    let k = 8 * q + zeros;
    let shift = (7 - zeros) as u8;
    assert(k / 8 == q && k % 8 == zeros);
    assert(((x ^ y) >> shift) & 1u8 != 0u8);
    lemma_xor_bit(x, y, shift);
}

/// Where the first `q` bytes are equal and byte `q` differs, the common
/// prefix ends inside byte `q`, after the leading zeros of its XOR.
pub proof fn lemma_prefix_ends_in(a: Seq<u8>, b: Seq<u8>, q: int)
    requires
        0 <= q < ID_BYTES,
        forall|j: int| 0 <= j < q ==> a[j] == b[j],
        a[q] != b[q],
    ensures
        shared_prefix_len(a, b) == 8 * q + u8_leading_zeros(a[q] ^ b[q]),
        u8_leading_zeros(a[q] ^ b[q]) < 8,
{
    let zeros = u8_leading_zeros(a[q] ^ b[q]);
    lemma_byte_differs(a, b, q);
    let n = 8 * q + zeros;
    assert forall|k: int| 0 <= k < n implies #[trigger] bit(a, k) == bit(b, k) by {
        if k < 8 * q {
            lemma_byte_same(a, b, k / 8);
        }
    }
    lemma_shared_from_run(a, b, 0, n);
}

/// Identifiers that are equal byte for byte share all their 160 bits.
pub proof fn lemma_prefix_of_equal(a: Seq<u8>, b: Seq<u8>)
    requires
        forall|j: int| 0 <= j < ID_BYTES ==> a[j] == b[j],
    ensures
        shared_prefix_len(a, b) == ID_BITS,
{
    assert forall|k: int| 0 <= k < ID_BITS implies #[trigger] bit(a, k) == bit(b, k) by {
        lemma_byte_same(a, b, k / 8);
    }
    lemma_shared_from_run(a, b, 0, ID_BITS as int);
}

/// Identifiers that differ somewhere in their first `n` bytes have a first
/// byte in which they differ.
proof fn lemma_first_difference(a: Seq<u8>, b: Seq<u8>, n: int) -> (q: int)
    requires
        exists|j: int| 0 <= j < n && a[j] != b[j],
    ensures
        0 <= q < n,
        a[q] != b[q],
        forall|j: int| 0 <= j < q ==> a[j] == b[j],
    decreases n,
{
    if exists|j: int| 0 <= j < n - 1 && a[j] != b[j] {
        lemma_first_difference(a, b, n - 1)
    } else {
        n - 1
    }
}

/// Only an identifier itself shares all 160 bits with it: bucket 0 is the
/// node's own.
pub proof fn bucket_index_of_self(local: Seq<u8>, id: Seq<u8>)
    requires
        local.len() == ID_BYTES,
        id.len() == ID_BYTES,
    ensures
        bucket_index(local, id) <= ID_BITS,
        bucket_index(local, id) == 0 <==> id == local,
{
    lemma_shared_prefix(local, id, 0);
    if id == local {
        lemma_prefix_of_equal(local, id);
    } else {
        assert(!(local =~= id));
        let q = lemma_first_difference(local, id, ID_BYTES as int);
        lemma_prefix_ends_in(local, id, q);
    }
}

/// The more leading bits an identifier shares with the local one, the lower
/// its bucket.
pub proof fn bucket_index_monotonic(local: Seq<u8>, a: Seq<u8>, b: Seq<u8>)
    requires
        shared_prefix_len(local, a) > shared_prefix_len(local, b),
    ensures
        bucket_index(local, a) < bucket_index(local, b),
{
    lemma_shared_prefix(local, a, 0);
    lemma_shared_prefix(local, b, 0);
}

/// An identifier that agrees with the local one on `n` leading bits lies in
/// a lower bucket than one that does not.
pub proof fn bucket_index_by_prefix(local: Seq<u8>, a: Seq<u8>, b: Seq<u8>, n: int)
    requires
        0 <= n <= ID_BITS,
        agree(local, a, n),
        !agree(local, b, n),
    ensures
        bucket_index(local, a) < bucket_index(local, b),
{
    lemma_shared_prefix(local, a, n);
    lemma_shared_prefix(local, b, n);
}

/// Whether two identifiers are the same.
pub fn same_id(a: &[u8; 20], b: &[u8; 20]) -> (same: bool)
    ensures
        same == (a@ == b@),
{
    let mut i: usize = 0;
    while i < ID_BYTES
        invariant
            i <= ID_BYTES,
            forall|j: int| 0 <= j < i ==> a@[j] == b@[j],
        decreases ID_BYTES - i,
    {
        if a[i] != b[i] {
            return false;
        }
        i += 1;
    }
    assert(a@ =~= b@);
    true
}

} // verus!
