//! Byte strings: equality, and the order in which a database keeps its keys.
use vstd::prelude::*;

verus! {

/// Whether `a` comes before `b` in lexicographic order: where they first differ `a` has the smaller
/// byte, or has ended.
pub open spec fn precedes(a: Seq<u8>, b: Seq<u8>) -> bool
    decreases a.len(),
{
    if b.len() == 0 {
        false
    } else if a.len() == 0 {
        true
    } else {
        a[0] < b[0] || (a[0] == b[0] && precedes(a.drop_first(), b.drop_first()))
    }
}

/// The byte string of `len` zeros.
pub open spec fn zeros(len: nat) -> Seq<u8> {
    Seq::new(len, |i: int| 0u8)
}

/// Whether `a` and `b` hold the same bytes.
pub fn bytes_equal(a: &[u8], b: &[u8]) -> (r: bool)
    ensures
        r == (a@ == b@),
{
    if a.len() != b.len() {
        return false;
    }
    let mut i: usize = 0;
    while i < a.len()
        invariant
            a@.len() == b@.len(),
            i <= a@.len(),
            forall|j: int| 0 <= j < i ==> a@[j] == b@[j],
        decreases a@.len() - i,
    {
        if a[i] != b[i] {
            return false;
        }
        i = i + 1;
    }
    assert(a@ =~= b@);
    true
}

/// Whether `a` comes before `b` in lexicographic order.
pub fn bytes_precede(a: &[u8], b: &[u8]) -> (r: bool)
    ensures
        r == precedes(a@, b@),
{
    let mut i: usize = 0;
    assert(a@.skip(0) =~= a@);
    assert(b@.skip(0) =~= b@);
    while i < a.len() && i < b.len()
        invariant
            i <= a@.len(),
            i <= b@.len(),
            precedes(a@, b@) == precedes(a@.skip(i as int), b@.skip(i as int)),
        decreases a@.len() - i,
    {
        assert(a@.skip(i as int).drop_first() =~= a@.skip(i + 1));
        assert(b@.skip(i as int).drop_first() =~= b@.skip(i + 1));
        if a[i] != b[i] {
            return a[i] < b[i];
        }
        i = i + 1;
    }
    i < b.len()
}

/// Whether `bytes` begins with `head`.
pub fn has_head(bytes: &[u8], head: &[u8]) -> (r: bool)
    ensures
        r == head@.is_prefix_of(bytes@),
{
    if bytes.len() < head.len() {
        return false;
    }
    let start = vstd::slice::slice_subrange(bytes, 0, head.len());
    bytes_equal(head, start)
}

/// The number that `bytes` stand for, the first byte being the most significant one.
pub open spec fn big_endian(bytes: Seq<u8>) -> int
    decreases bytes.len(),
{
    if bytes.len() == 0 {
        0
    } else {
        256 * big_endian(bytes.drop_last()) + bytes.last()
    }
}

/// The order of byte strings is lexicographic, by the numeric value of bytes: `a` comes before `b` if
/// and only if, after a head that they share, `a` ends and `b` does not, or `a` goes on with a smaller
/// byte than `b`.
pub proof fn order_is_lexicographic(a: Seq<u8>, b: Seq<u8>)
    ensures
        precedes(a, b) <==> exists|i: int|
            {
                &&& 0 <= i <= a.len()
                &&& i <= b.len()
                &&& #[trigger] a.take(i) == b.take(i)
                &&& (i == a.len() < b.len()) || (i < a.len() && i < b.len() && (a[i] as int) < (
                b[i] as int))
            },
    decreases a.len(),
{
    if precedes(a, b) {
        if a.len() == 0 {
            assert(a.take(0) =~= b.take(0));
        } else if a[0] < b[0] {
            assert(a.take(0) =~= b.take(0));
        } else {
            let a1 = a.drop_first();
            let b1 = b.drop_first();
            order_is_lexicographic(a1, b1);
            let i = choose|i: int|
                {
                    &&& 0 <= i <= a1.len()
                    &&& i <= b1.len()
                    &&& #[trigger] a1.take(i) == b1.take(i)
                    &&& (i == a1.len() < b1.len()) || (i < a1.len() && i < b1.len() && (
                    a1[i] as int) < (b1[i] as int))
                };
            assert(a.take(i + 1) =~= seq![a[0]] + a1.take(i));
            assert(b.take(i + 1) =~= seq![b[0]] + b1.take(i));
            assert(a.take(i + 1) == b.take(i + 1));
        }
    }
    assert forall|i: int|
        {
            &&& 0 <= i <= a.len()
            &&& i <= b.len()
            &&& #[trigger] a.take(i) == b.take(i)
            &&& (i == a.len() < b.len()) || (i < a.len() && i < b.len() && (a[i] as int) < (
            b[i] as int))
        } implies precedes(a, b) by {
        assert(a =~= a.take(i) + a.skip(i));
        assert(b =~= a.take(i) + b.skip(i));
        precedes_below_common_head(a.take(i), a.skip(i), b.skip(i));
    }
}

/// Byte strings of one length are in the order of the numbers that they stand for.
pub proof fn order_is_numeric(a: Seq<u8>, b: Seq<u8>)
    requires
        a.len() == b.len(),
    ensures
        precedes(a, b) <==> big_endian(a) < big_endian(b),
        a == b <==> big_endian(a) == big_endian(b),
    decreases a.len(),
{
    if a.len() == 0 {
        assert(a =~= b);
    } else {
        let a1 = a.drop_last();
        let b1 = b.drop_last();
        order_is_numeric(a1, b1);
        assert(a =~= a1 + seq![a.last()]);
        assert(b =~= b1 + seq![b.last()]);
        precedes_is_decided_by_heads(a1, seq![a.last()], b1, seq![b.last()]);
        assert(precedes(seq![a.last()], seq![b.last()]) <==> a.last() < b.last()) by {
            reveal_with_fuel(precedes, 2);
        }
    }
}

/// The number of a byte string grows by a digit to the base of 256 with each byte, so that eight bytes
/// stand for the number of 64 bits of which they are the bytes.
pub proof fn big_endian_is_positional(bytes: Seq<u8>, byte: u8)
    ensures
        big_endian(Seq::empty()) == 0,
        big_endian(bytes.push(byte)) == 256 * big_endian(bytes) + byte,
        bytes.len() == 8 ==> big_endian(bytes) == 0x100_0000_0000_0000 * bytes[0]
            + 0x1_0000_0000_0000 * bytes[1] + 0x100_0000_0000 * bytes[2] + 0x1_0000_0000 * bytes[3]
            + 0x100_0000 * bytes[4] + 0x1_0000 * bytes[5] + 0x100 * bytes[6] + bytes[7],
{
    assert(bytes.push(byte).drop_last() =~= bytes);
    if bytes.len() == 8 {
        reveal_with_fuel(big_endian, 9);
    }
}

/// Heads of one length that differ decide the order of two byte strings; equal heads leave it to the
/// rest.
proof fn precedes_is_decided_by_heads(head1: Seq<u8>, a: Seq<u8>, head2: Seq<u8>, b: Seq<u8>)
    requires
        head1.len() == head2.len(),
    ensures
        precedes(head1 + a, head2 + b) <==> precedes(head1, head2) || (head1 == head2 && precedes(
            a,
            b,
        )),
    decreases head1.len(),
{
    if head1.len() == 0 {
        assert(head1 =~= head2);
        assert(head1 + a =~= a);
        assert(head2 + b =~= b);
    } else {
        let rest1 = head1.drop_first();
        let rest2 = head2.drop_first();
        assert((head1 + a).drop_first() =~= rest1 + a);
        assert((head2 + b).drop_first() =~= rest2 + b);
        precedes_is_decided_by_heads(rest1, a, rest2, b);
        if head1[0] == head2[0] && rest1 == rest2 {
            assert(head1 =~= seq![head1[0]] + rest1);
            assert(head2 =~= seq![head2[0]] + rest2);
        }
    }
}

/// The byte string of `len` zeros has `len` bytes, each of which is zero.
pub proof fn zeros_are_zero(len: nat)
    ensures
        zeros(len).len() == len,
        forall|i: int| 0 <= i < len ==> #[trigger] zeros(len)[i] == 0,
{
}

/// No byte string comes before itself.
pub proof fn precedes_is_irreflexive(a: Seq<u8>)
    ensures
        !precedes(a, a),
    decreases a.len(),
{
    if a.len() > 0 {
        precedes_is_irreflexive(a.drop_first());
    }
}

/// What comes before a byte string comes before all that follow that one.
pub proof fn precedes_is_transitive(a: Seq<u8>, b: Seq<u8>, c: Seq<u8>)
    requires
        precedes(a, b),
        precedes(b, c),
    ensures
        precedes(a, c),
    decreases a.len(),
{
    if a.len() > 0 && a[0] == b[0] && b[0] == c[0] {
        precedes_is_transitive(a.drop_first(), b.drop_first(), c.drop_first());
    }
}

/// Of two different byte strings one comes before the other.
pub proof fn precedes_is_total(a: Seq<u8>, b: Seq<u8>)
    ensures
        a == b || precedes(a, b) || precedes(b, a),
    decreases a.len(),
{
    if a.len() == 0 {
        if b.len() == 0 {
            assert(a =~= b);
        }
    } else if b.len() > 0 && a[0] == b[0] {
        precedes_is_total(a.drop_first(), b.drop_first());
        if a.drop_first() == b.drop_first() {
            assert(a =~= seq![a[0]] + a.drop_first());
            assert(b =~= seq![b[0]] + b.drop_first());
        }
    }
}

/// A common head does not change the order of two byte strings.
pub proof fn precedes_below_common_head(head: Seq<u8>, a: Seq<u8>, b: Seq<u8>)
    ensures
        precedes(head + a, head + b) == precedes(a, b),
    decreases head.len(),
{
    if head.len() == 0 {
        assert(head + a =~= a);
        assert(head + b =~= b);
    } else {
        assert((head + a).drop_first() =~= head.drop_first() + a);
        assert((head + b).drop_first() =~= head.drop_first() + b);
        precedes_below_common_head(head.drop_first(), a, b);
    }
}

/// What lies between two byte strings with a common head has that head too.
pub proof fn between_keeps_common_head(head: Seq<u8>, low: Seq<u8>, x: Seq<u8>, high: Seq<u8>)
    requires
        !precedes(x, head + low),
        !precedes(head + high, x),
    ensures
        head.is_prefix_of(x),
    decreases head.len(),
{
    if head.len() > 0 {
        assert(x.len() > 0);
        assert((head + low).drop_first() =~= head.drop_first() + low);
        assert((head + high).drop_first() =~= head.drop_first() + high);
        between_keeps_common_head(head.drop_first(), low, x.drop_first(), high);
        assert(x =~= seq![x[0]] + x.drop_first());
        assert forall|i: int| 0 <= i < head.len() implies head[i] == x[i] by {
            if i > 0 {
                assert(head.drop_first()[i - 1] == x.drop_first()[i - 1]);
            }
        }
        assert(head =~= x.subrange(0, head.len() as int));
    }
}

/// Only the shorter strings of zeros come before a string of zeros.
pub proof fn precedes_zeros(a: Seq<u8>, len: nat)
    ensures
        precedes(a, zeros(len)) <==> a.len() < len && a == zeros(a.len()),
    decreases a.len(),
{
    if a.len() > 0 && len > 0 {
        let rest = a.drop_first();
        precedes_zeros(rest, (len - 1) as nat);
        assert(zeros(len).drop_first() =~= zeros((len - 1) as nat));
        if a[0] == 0 && rest == zeros(rest.len()) {
            assert forall|i: int| 0 <= i < a.len() implies a[i] == 0 by {
                if i > 0 {
                    assert(rest[i - 1] == a[i]);
                }
            }
            assert(a =~= zeros(a.len()));
        }
        if a == zeros(a.len()) {
            assert(a[0] == 0);
            assert(rest =~= zeros(rest.len()));
        }
    } else if a.len() == 0 {
        assert(a =~= zeros(0));
    }
}

} // verus!
