//! Byte strings: the order that the maps of this crate sort their keys by, equality, copies
//! and fixed-size arrays.

use vstd::prelude::*;

verus! {

/// Dictionary order on byte strings: a proper prefix comes first, otherwise the first byte
/// that differs decides.
pub open spec fn bytes_lt(a: Seq<u8>, b: Seq<u8>) -> bool
    decreases a.len(),
{
    if b.len() == 0 {
        false
    } else if a.len() == 0 {
        true
    } else if a[0] != b[0] {
        a[0] < b[0]
    } else {
        bytes_lt(a.drop_first(), b.drop_first())
    }
}

/// No byte string comes before itself, and of two different ones exactly one comes first.
pub proof fn lemma_bytes_lt_total(a: Seq<u8>, b: Seq<u8>)
    ensures
        a == b ==> !bytes_lt(a, b),
        a != b ==> (bytes_lt(a, b) <==> !bytes_lt(b, a)),
    decreases a.len(),
{
    if a.len() == 0 || b.len() == 0 {
        assert(a.len() == 0 && b.len() == 0 ==> a =~= b);
    } else {
        lemma_bytes_lt_total(a.drop_first(), b.drop_first());
        if a[0] == b[0] && a.drop_first() == b.drop_first() {
            assert(a =~= seq![a[0]] + a.drop_first());
            assert(b =~= seq![b[0]] + b.drop_first());
        }
    }
}

pub proof fn lemma_bytes_lt_transitive(a: Seq<u8>, b: Seq<u8>, c: Seq<u8>)
    requires
        bytes_lt(a, b),
        bytes_lt(b, c),
    ensures
        bytes_lt(a, c),
    decreases a.len(),
{
    if a.len() > 0 && b.len() > 0 && c.len() > 0 && a[0] == b[0] && b[0] == c[0] {
        lemma_bytes_lt_transitive(a.drop_first(), b.drop_first(), c.drop_first());
    }
}

/// A common prefix does not matter to the order.
proof fn lemma_bytes_lt_skip(a: Seq<u8>, b: Seq<u8>, n: int)
    requires
        0 <= n <= a.len(),
        n <= b.len(),
        forall|j: int| 0 <= j < n ==> a[j] == b[j],
    ensures
        bytes_lt(a, b) == bytes_lt(a.skip(n), b.skip(n)),
    decreases n,
{
    if n == 0 {
        assert(a.skip(0) =~= a);
        assert(b.skip(0) =~= b);
    } else {
        assert(a[0] == b[0]);
        lemma_bytes_lt_skip(a.drop_first(), b.drop_first(), n - 1);
        assert(a.drop_first().skip(n - 1) =~= a.skip(n));
        assert(b.drop_first().skip(n - 1) =~= b.skip(n));
    }
}

/// Whether `a` comes before `b` in dictionary order.
pub fn bytes_less(a: &[u8], b: &[u8]) -> (less: bool)
    ensures
        less == bytes_lt(a@, b@),
{
    let mut i: usize = 0;
    while i < a.len() && i < b.len()
        invariant
            i <= a@.len(),
            i <= b@.len(),
            forall|j: int| 0 <= j < i ==> a@[j] == b@[j],
        decreases a@.len() - i,
    {
        if a[i] != b[i] {
            proof {
                lemma_bytes_lt_skip(a@, b@, i as int);
                assert(a@.skip(i as int)[0] == a@[i as int]);
                assert(b@.skip(i as int)[0] == b@[i as int]);
            }
            return a[i] < b[i];
        }
        i = i + 1;
    }
    proof {
        lemma_bytes_lt_skip(a@, b@, i as int);
    }
    i < b.len()
}

/// Whether `a` and `b` hold the same bytes.
pub fn bytes_equal(a: &[u8], b: &[u8]) -> (equal: bool)
    ensures
        equal == (a@ == b@),
{
    if a.len() != b.len() {
        return false;
    }
    let mut i: usize = 0;
    while i < a.len()
        invariant
            a@.len() == b@.len(),
            i <= a@.len(),
            forall|j: int| 0 <= j < i ==> a@[j] == b@[j],
        decreases a@.len() - i,
    {
        if a[i] != b[i] {
            return false;
        }
        i = i + 1;
    }
    assert(a@ =~= b@);
    true
}

/// A copy of `bytes`.
pub fn copy_bytes(bytes: &[u8]) -> (copy: Vec<u8>)
    ensures
        copy@ == bytes@,
{
    vstd::slice::slice_to_vec(bytes)
}

/// The twelve bytes as an array, where there are exactly twelve.
pub fn array_12(bytes: &[u8]) -> (array: Option<[u8; 12]>)
    ensures
        array is Some <==> bytes@.len() == 12,
        array matches Some(a) ==> a@ == bytes@,
{
    if bytes.len() != 12 {
        return None;
    }
    let mut array: [u8; 12] = [0u8; 12];
    let mut i: usize = 0;
    while i < 12
        invariant
            i <= 12,
            bytes@.len() == 12,
            forall|j: int| 0 <= j < i ==> array@[j] == bytes@[j],
        decreases 12 - i,
    {
        array[i] = bytes[i];
        i = i + 1;
    }
    assert(array@ =~= bytes@);
    Some(array)
}

/// The sixteen bytes as an array, where there are exactly sixteen.
pub fn array_16(bytes: &[u8]) -> (array: Option<[u8; 16]>)
    ensures
        array is Some <==> bytes@.len() == 16,
        array matches Some(a) ==> a@ == bytes@,
{
    if bytes.len() != 16 {
        return None;
    }
    let mut array: [u8; 16] = [0u8; 16];
    let mut i: usize = 0;
    while i < 16
        invariant
            i <= 16,
            bytes@.len() == 16,
            forall|j: int| 0 <= j < i ==> array@[j] == bytes@[j],
        decreases 16 - i,
    {
        array[i] = bytes[i];
        i = i + 1;
    }
    assert(array@ =~= bytes@);
    Some(array)
}

/// The thirty-two bytes as an array, where there are exactly thirty-two.
pub fn array_32(bytes: &[u8]) -> (array: Option<[u8; 32]>)
    ensures
        array is Some <==> bytes@.len() == 32,
        array matches Some(a) ==> a@ == bytes@,
{
    if bytes.len() != 32 {
        return None;
    }
    let mut array: [u8; 32] = [0u8; 32];
    let mut i: usize = 0;
    while i < 32
        invariant
            i <= 32,
            bytes@.len() == 32,
            forall|j: int| 0 <= j < i ==> array@[j] == bytes@[j],
        decreases 32 - i,
    {
        array[i] = bytes[i];
        i = i + 1;
    }
    assert(array@ =~= bytes@);
    Some(array)
}

/// The two bytes of a 16-bit number, most significant first.
pub open spec fn be_16(n: u16) -> Seq<u8> {
    seq![(n / 256) as u8, (n % 256) as u8]
}

/// The eight bytes of a 64-bit number, most significant first.
pub open spec fn be_64(n: u64) -> Seq<u8> {
    Seq::new(8, |i: int| ((n >> ((56 - 8 * i) as u64)) & 0xff) as u8)
}

/// Appends a 16-bit number, most significant byte first.
pub fn push_be_16(out: &mut Vec<u8>, n: u16)
    ensures
        final(out)@ == old(out)@ + be_16(n),
{
    out.push((n / 256) as u8);
    out.push((n % 256) as u8);
    assert(out@ =~= old(out)@ + be_16(n));
}

/// Appends a 64-bit number, most significant byte first.
pub fn push_be_64(out: &mut Vec<u8>, n: u64)
    ensures
        final(out)@ == old(out)@ + be_64(n),
{
    let mut i: u64 = 0;
    while i < 8
        invariant
            i <= 8,
            out@ == old(out)@ + be_64(n).take(i as int),
        decreases 8 - i,
    {
        let byte: u8 = ((n >> (56 - 8 * i)) & 0xff) as u8;
        out.push(byte);
        assert(be_64(n).take(i + 1) =~= be_64(n).take(i as int).push(byte));
        assert(out@ =~= old(out)@ + be_64(n).take(i + 1));
        i = i + 1;
    }
    assert(be_64(n).take(8) =~= be_64(n));
}

/// The two byte orders of different 16-bit numbers differ.
pub proof fn lemma_be_16_injective(m: u16, n: u16)
    requires
        be_16(m) == be_16(n),
    ensures
        m == n,
{
    assert(be_16(m)[0] == be_16(n)[0]);
    assert(be_16(m)[1] == be_16(n)[1]);
    assert((m / 256) as u8 as int == m as int / 256);
    assert((n / 256) as u8 as int == n as int / 256);
}

/// In dictionary order the first byte that differs decides, and a proper prefix comes first.
pub proof fn law_the_first_difference_decides(a: Seq<u8>, b: Seq<u8>, n: int)
    requires
        0 <= n <= a.len(),
        n < b.len(),
        forall|j: int| 0 <= j < n ==> a[j] == b[j],
    ensures
        n < a.len() && a[n] < b[n] ==> bytes_lt(a, b) && !bytes_lt(b, a),
        n == a.len() ==> bytes_lt(a, b) && !bytes_lt(b, a),
{
    lemma_bytes_lt_skip(a, b, n);
    lemma_bytes_lt_skip(b, a, n);
    if n < a.len() {
        assert(a.skip(n)[0] == a[n]);
    }
    assert(b.skip(n)[0] == b[n]);
}

} // verus!
