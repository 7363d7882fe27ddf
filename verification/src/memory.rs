//! The freestanding memory routines: fill, copy, overlapping move and compare.

use vstd::prelude::*;

verus! {

/// Sets the first `count` bytes of `dest` to the low byte of `value`.
pub fn memset(dest: &mut [u8], value: i32, count: usize)
    requires
        count <= old(dest).len(),
    ensures
        final(dest)@.len() == old(dest)@.len(),
        forall|j: int| 0 <= j < count ==> #[trigger] final(dest)@[j] == value as u8,
        forall|j: int| count <= j < old(dest)@.len() ==> #[trigger] final(dest)@[j] == old(dest)@[j],
{
    let byte = value as u8;
    let mut i: usize = 0;
    while i < count
        invariant
            count <= dest@.len(),
            dest@.len() == old(dest)@.len(),
            i <= count,
            byte == value as u8,
            forall|j: int| 0 <= j < i ==> #[trigger] dest@[j] == byte,
            forall|j: int| i <= j < dest@.len() ==> #[trigger] dest@[j] == old(dest)@[j],
        decreases count - i,
    {
        dest[i] = byte;
        i = i + 1;
    }
}

/// Copies the first `count` bytes of `src` to the start of `dest`.
pub fn memcpy(dest: &mut [u8], src: &[u8], count: usize)
    requires
        count <= old(dest).len(),
        count <= src.len(),
    ensures
        final(dest)@ == src@.take(count as int) + old(dest)@.skip(count as int),
{
    let mut i: usize = 0;
    while i < count
        invariant
            count <= dest@.len(),
            count <= src@.len(),
            dest@.len() == old(dest)@.len(),
            i <= count,
            forall|j: int| 0 <= j < i ==> #[trigger] dest@[j] == src@[j],
            forall|j: int| i <= j < dest@.len() ==> #[trigger] dest@[j] == old(dest)@[j],
        decreases count - i,
    {
        dest[i] = src[i];
        i = i + 1;
    }
    assert(dest@ =~= src@.take(count as int) + old(dest)@.skip(count as int));
}

/// The buffer after moving `count` bytes from offset `src` to offset `dest`:
/// the destination range holds what the source range held before.
pub open spec fn moved(buffer: Seq<u8>, dest: int, src: int, count: int) -> Seq<u8> {
    Seq::new(
        buffer.len(),
        |j: int|
            if dest <= j < dest + count {
                buffer[src + j - dest]
            } else {
                buffer[j]
            },
    )
}

/// Moves `count` bytes within `buffer` from offset `src` to offset `dest`; the
/// two ranges may overlap.
pub fn memmove(buffer: &mut [u8], dest: usize, src: usize, count: usize)
    requires
        dest + count <= old(buffer).len(),
        src + count <= old(buffer).len(),
    ensures
        final(buffer)@ == moved(old(buffer)@, dest as int, src as int, count as int),
{
    let ghost original = buffer@;
    if dest <= src {
        let mut i: usize = 0;
        while i < count
            invariant
                dest <= src,
                dest + count <= buffer.len(),
                src + count <= buffer.len(),
                buffer@.len() == original.len(),
                i <= count,
                forall|k: int| 0 <= k < i ==> #[trigger] buffer@[dest + k] == original[src + k],
                forall|j: int| 0 <= j < buffer@.len() && !(dest <= j < dest + i) ==> #[trigger] buffer@[j] == original[j],
            decreases count - i,
        {
            let byte = buffer[src + i];
            buffer[dest + i] = byte;
            i = i + 1;
        }
        assert forall|j: int| 0 <= j < buffer@.len() implies #[trigger] buffer@[j] == moved(original, dest as int, src as int, count as int)[j] by {
            if dest <= j < dest + count {
                assert(buffer@[dest + (j - dest)] == original[src + (j - dest)]);
            }
        }
    } else {
        let mut i: usize = count;
        while i > 0
            invariant
                dest > src,
                dest + count <= buffer.len(),
                src + count <= buffer.len(),
                buffer@.len() == original.len(),
                i <= count,
                forall|k: int| i <= k < count ==> #[trigger] buffer@[dest + k] == original[src + k],
                forall|j: int| 0 <= j < buffer@.len() && !(dest + i <= j < dest + count) ==> #[trigger] buffer@[j] == original[j],
            decreases i,
        {
            i = i - 1;
            let byte = buffer[src + i];
            buffer[dest + i] = byte;
        }
        assert forall|j: int| 0 <= j < buffer@.len() implies #[trigger] buffer@[j] == moved(original, dest as int, src as int, count as int)[j] by {
            if dest <= j < dest + count {
                assert(buffer@[dest + (j - dest)] == original[src + (j - dest)]);
            }
        }
    }
    assert(buffer@ =~= moved(original, dest as int, src as int, count as int));
}

/// Wherever the first `count` bytes first differ, at `k`, `order` is the
/// difference of the two bytes there.
pub open spec fn first_difference_decides(left: Seq<u8>, right: Seq<u8>, count: usize, order: i32) -> bool {
    forall|k: int|
        0 <= k < count && left[k] != right[k] && (forall|j: int| 0 <= j < k ==> left[j] == right[j])
            ==> order as int == left[k] as int - right[k] as int
}

proof fn lemma_first_difference_decides(left: Seq<u8>, right: Seq<u8>, count: usize)
    requires
        count <= left.len(),
        count <= right.len(),
    ensures
        first_difference_decides(left, right, count, compared(left, right, count, 0)),
{
    assert forall|k: int|
        0 <= k < count && left[k] != right[k] && (forall|j: int| 0 <= j < k ==> left[j] == right[j])
        implies compared(left, right, count, 0) as int == left[k] as int - right[k] as int by {
        law_compared_first_difference(left, right, count, k);
    }
}

/// Compares the first `count` bytes from position `from` on: the difference of
/// the first differing pair, or 0.
pub open spec fn compare_from(left: Seq<u8>, right: Seq<u8>, count: int, from: int) -> i32
    decreases count - from,
{
    if from < 0 || from >= count {
        0
    } else if left[from] != right[from] {
        byte_difference(left[from], right[from])
    } else {
        compare_from(left, right, count, from + 1)
    }
}

/// The compared result of two differing bytes.
pub open spec fn byte_difference(a: u8, b: u8) -> i32 {
    (a as int - b as int) as i32
}

/// The difference of two bytes.
fn difference(a: u8, b: u8) -> (d: i32)
    ensures
        d == byte_difference(a, b),
{
    a as i32 - b as i32
}

/// The comparison of the first `count` bytes.
pub open spec fn compared(left: Seq<u8>, right: Seq<u8>, count: usize, done: usize) -> i32 {
    compare_from(left, right, count as int, done as int)
}

/// Compares the first `count` bytes of `left` and `right`: the difference of
/// the first differing pair of bytes, or 0 when they agree.
pub fn memcmp(left: &[u8], right: &[u8], count: usize) -> (order: i32)
    requires
        count <= left.len(),
        count <= right.len(),
    ensures
        order == compared(left@, right@, count, 0),
        (order == 0) <==> (forall|j: int| 0 <= j < count ==> left@[j] == right@[j]),
        first_difference_decides(left@, right@, count, order),
{
    proof {
        law_compared_zero_iff_equal(left@, right@, count);
        lemma_first_difference_decides(left@, right@, count);
    }
    let mut i: usize = 0;
    while i < count
        invariant
            count <= left@.len(),
            count <= right@.len(),
            i <= count,
            compared(left@, right@, count, 0) == compared(left@, right@, count, i),
            (compared(left@, right@, count, 0) == 0) <==> (forall|j: int| 0 <= j < count ==> left@[j] == right@[j]),
            first_difference_decides(left@, right@, count, compared(left@, right@, count, 0)),
        decreases count - i,
    {
        let a = left[i];
        let b = right[i];
        if a != b {
            return difference(a, b);
        }
        i = i + 1;
    }
    0
}

/// Comparing the other way round negates the result.
pub proof fn law_memcmp_antisymmetric(left: Seq<u8>, right: Seq<u8>, count: int, from: int)
    requires
        count <= left.len(),
        count <= right.len(),
    ensures
        compare_from(left, right, count, from) == -compare_from(right, left, count, from),
    decreases count - from,
{
    if 0 <= from < count && left[from] == right[from] {
        law_memcmp_antisymmetric(left, right, count, from + 1);
    }
}

/// The comparison is 0 exactly when the compared bytes agree.
pub proof fn law_memcmp_zero_iff_equal(left: Seq<u8>, right: Seq<u8>, count: int, from: int)
    requires
        0 <= from <= count,
        count <= left.len(),
        count <= right.len(),
    ensures
        (compare_from(left, right, count, from) == 0) <==> (forall|j: int| from <= j < count ==> left[j] == right[j]),
    decreases count - from,
{
    if from < count {
        law_memcmp_zero_iff_equal(left, right, count, from + 1);
    }
}

proof fn lemma_compare_from_zero(left: Seq<u8>, right: Seq<u8>, count: int, from: int)
    requires
        0 <= from <= count,
        count <= left.len(),
        count <= right.len(),
    ensures
        (compare_from(left, right, count, from) == 0) <==> (forall|j: int| from <= j < count ==> left[j] == right[j]),
    decreases count - from,
{
    if from < count {
        lemma_compare_from_zero(left, right, count, from + 1);
    }
}

proof fn lemma_compare_from_first(left: Seq<u8>, right: Seq<u8>, count: int, from: int, k: int)
    requires
        0 <= from <= k < count,
        count <= left.len(),
        count <= right.len(),
        left[k] != right[k],
        forall|j: int| from <= j < k ==> left[j] == right[j],
    ensures
        compare_from(left, right, count, from) as int == left[k] as int - right[k] as int,
    decreases k - from,
{
    if from < k {
        lemma_compare_from_first(left, right, count, from + 1, k);
    }
}

/// The result of comparing `count` bytes is 0 exactly when all `count` bytes
/// agree, zero bytes included.
pub proof fn law_compared_zero_iff_equal(left: Seq<u8>, right: Seq<u8>, count: usize)
    requires
        count <= left.len(),
        count <= right.len(),
    ensures
        (compared(left, right, count, 0) == 0) <==> (forall|j: int| 0 <= j < count ==> left[j] == right[j]),
{
    lemma_compare_from_zero(left, right, count as int, 0);
}

/// When the compared bytes first differ at position `k`, the result is the
/// difference of the two bytes there, whatever bytes follow.
pub proof fn law_compared_first_difference(left: Seq<u8>, right: Seq<u8>, count: usize, k: int)
    requires
        count <= left.len(),
        count <= right.len(),
        0 <= k < count,
        left[k] != right[k],
        forall|j: int| 0 <= j < k ==> left[j] == right[j],
    ensures
        compared(left, right, count, 0) as int == left[k] as int - right[k] as int,
{
    lemma_compare_from_first(left, right, count as int, 0, k);
}

/// After a move, the destination range reads as the source range read before,
/// whether or not the two overlap, and every byte outside the destination range
/// is what it was.
pub proof fn law_move_copies_the_source(buffer: Seq<u8>, dest: int, src: int, count: int)
    requires
        0 <= dest,
        0 <= src,
        0 <= count,
        dest + count <= buffer.len(),
        src + count <= buffer.len(),
    ensures
        moved(buffer, dest, src, count).len() == buffer.len(),
        moved(buffer, dest, src, count).subrange(dest, dest + count) == buffer.subrange(src, src + count),
        forall|j: int|
            0 <= j < buffer.len() && !(dest <= j < dest + count) ==> #[trigger] moved(buffer, dest, src, count)[j] == buffer[j],
{
    assert(moved(buffer, dest, src, count).subrange(dest, dest + count) =~= buffer.subrange(src, src + count));
}

} // verus!
