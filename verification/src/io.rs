//! Batching helpers for bulk work such as inserting many rows in one transaction.

use vstd::prelude::*;
use vstd::slice::slice_subrange;

verus! {

/// The consecutive chunks of `s` of `n` items each; the last chunk holds what is
/// left and is shorter when `n` does not divide the length.
pub open spec fn chunks_of<T>(s: Seq<T>, n: nat) -> Seq<Seq<T>>
    decreases s.len(),
{
    if s.len() == 0 || n == 0 {
        Seq::empty()
    } else if s.len() <= n {
        seq![s]
    } else {
        seq![s.take(n as int)] + chunks_of(s.skip(n as int), n)
    }
}

/// The concatenation of a sequence of sequences.
pub open spec fn flatten_chunks<T>(chunks: Seq<Seq<T>>) -> Seq<T>
    decreases chunks.len(),
{
    if chunks.len() == 0 {
        Seq::empty()
    } else {
        chunks[0] + flatten_chunks(chunks.drop_first())
    }
}

/// The items of each borrowed chunk.
pub open spec fn chunk_views<T>(chunks: Seq<&[T]>) -> Seq<Seq<T>> {
    chunks.map_values(|c: &[T]| c@)
}

/// Batch execution helper to chunk large collections of items inside SQLite transactions.
/// The chunks come in order, each of `chunk_size` items but the last, which holds
/// the rest.
pub fn chunk_slice<T>(items: &[T], chunk_size: usize) -> (chunks: Vec<&[T]>)
    requires
        chunk_size > 0,
    ensures
        chunk_views(chunks@) == chunks_of(items@, chunk_size as nat),
{
    let n = items.len();
    let mut out: Vec<&[T]> = Vec::new();
    let mut start: usize = 0;
    assert(items@.subrange(0, n as int) =~= items@);
    while start < n
        invariant
            chunk_size > 0,
            start <= n == items@.len(),
            chunks_of(items@, chunk_size as nat) == chunk_views(out@) + chunks_of(
                items@.subrange(start as int, n as int),
                chunk_size as nat,
            ),
        decreases n - start,
    {
        let ghost rest = items@.subrange(start as int, n as int);
        let ghost before = chunk_views(out@);
        if n - start <= chunk_size {
            let piece = slice_subrange(items, start, n);
            out.push(piece);
            assert(chunk_views(out@) =~= before + seq![rest]);
            assert(chunk_views(out@) + chunks_of(items@.subrange(n as int, n as int), chunk_size as nat)
                =~= chunk_views(out@));
            start = n;
        } else {
            let end = start + chunk_size;
            let piece = slice_subrange(items, start, end);
            out.push(piece);
            assert(piece@ =~= rest.take(chunk_size as int));
            assert(rest.skip(chunk_size as int) =~= items@.subrange(end as int, n as int));
            assert(chunk_views(out@) =~= before + seq![rest.take(chunk_size as int)]);
            assert(chunk_views(out@) + chunks_of(items@.subrange(end as int, n as int), chunk_size as nat)
                =~= before + chunks_of(rest, chunk_size as nat));
            start = end;
        }
    }
    assert(chunks_of(items@.subrange(n as int, n as int), chunk_size as nat) =~= Seq::<Seq<T>>::empty());
    assert(chunk_views(out@) + Seq::<Seq<T>>::empty() =~= chunk_views(out@));
    out
}

/// Chunking loses nothing and reorders nothing: the chunks, joined in order, are
/// the items.
pub proof fn law_chunks_rejoin<T>(s: Seq<T>, n: nat)
    requires
        n > 0,
    ensures
        flatten_chunks(chunks_of(s, n)) == s,
    decreases s.len(),
{
    if s.len() == 0 {
        assert(flatten_chunks(chunks_of(s, n)) =~= s);
    } else if s.len() <= n {
        let c = chunks_of(s, n);
        assert(c.drop_first() =~= Seq::<Seq<T>>::empty());
        assert(flatten_chunks(c.drop_first()) == Seq::<T>::empty());
        assert(c[0] == s);
        assert(s + Seq::<T>::empty() =~= s);
    } else {
        law_chunks_rejoin(s.skip(n as int), n);
        let c = chunks_of(s, n);
        assert(c.drop_first() =~= chunks_of(s.skip(n as int), n));
        assert(s.take(n as int) + s.skip(n as int) =~= s);
    }
}

/// Every chunk is non-empty and holds at most `n` items, and every chunk but the
/// last holds exactly `n`.
pub proof fn law_chunk_sizes<T>(s: Seq<T>, n: nat)
    requires
        n > 0,
    ensures
        forall|i: int|
            0 <= i < chunks_of(s, n).len() ==> 0 < (#[trigger] chunks_of(s, n)[i]).len() <= n,
        forall|i: int|
            0 <= i < chunks_of(s, n).len() - 1 ==> (#[trigger] chunks_of(s, n)[i]).len() == n,
    decreases s.len(),
{
    if s.len() > n {
        law_chunk_sizes(s.skip(n as int), n);
        let c = chunks_of(s, n);
        let tail = chunks_of(s.skip(n as int), n);
        assert forall|i: int| 0 < i < c.len() implies c[i] == tail[i - 1] by {}
    }
}

} // verus!
