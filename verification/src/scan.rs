//! Splitting bytes on a separator, the only parsing that ingestion needs:
//! a table is cut into lines at each line feed and a line into fields at each
//! comma, with no quoting and no escapes.

use vstd::prelude::*;

verus! {

/// The line feed that ends every line of a table.
pub const NEWLINE: u8 = 10;

/// The comma that separates the fields of a line.
pub const COMMA: u8 = 44;

/// The pieces of `s` between occurrences of `sep`, in order. There is always
/// one piece more than there are separators: an empty input has one empty
/// piece, and a trailing separator is followed by an empty piece.
pub open spec fn split_on<T>(s: Seq<T>, sep: T) -> Seq<Seq<T>>
    decreases s.len(),
{
    if s.len() == 0 {
        seq![Seq::<T>::empty()]
    } else {
        let rest = split_on(s.drop_last(), sep);
        if s.last() == sep {
            rest.push(Seq::<T>::empty())
        } else {
            rest.drop_last().push(rest.last().push(s.last()))
        }
    }
}

/// Cuts `data[lo..hi]` at each `sep` and returns the pieces as index ranges
/// into `data`, each a pair of start and end.
pub fn split_ranges(data: &[u8], lo: usize, hi: usize, sep: u8) -> (pieces: Vec<(usize, usize)>)
    requires
        lo <= hi <= data@.len(),
    ensures
        pieces@.len() == split_on(data@.subrange(lo as int, hi as int), sep).len(),
        pieces@.len() >= 1,
        forall|i: int|
            0 <= i < pieces@.len() ==> lo <= (#[trigger] pieces@[i]).0 <= pieces@[i].1 <= hi,
        forall|i: int|
            0 <= i < pieces@.len() ==> data@.subrange(
                (#[trigger] pieces@[i]).0 as int,
                pieces@[i].1 as int,
            ) == split_on(data@.subrange(lo as int, hi as int), sep)[i],
{
    let mut pieces: Vec<(usize, usize)> = Vec::new();
    let mut start: usize = lo;
    let mut i: usize = lo;
    proof {
        assert(data@.subrange(lo as int, lo as int) =~= Seq::<u8>::empty());
        assert(split_on(data@.subrange(lo as int, lo as int), sep) =~= seq![Seq::<u8>::empty()]);
    }
    while i < hi
        invariant
            lo <= start <= i <= hi <= data@.len(),
            split_on(data@.subrange(lo as int, i as int), sep).len() == pieces@.len() + 1,
            forall|j: int|
                0 <= j < pieces@.len() ==> lo <= (#[trigger] pieces@[j]).0 <= pieces@[j].1 <= hi,
            forall|j: int|
                0 <= j < pieces@.len() ==> data@.subrange(
                    (#[trigger] pieces@[j]).0 as int,
                    pieces@[j].1 as int,
                ) == split_on(data@.subrange(lo as int, i as int), sep)[j],
            split_on(data@.subrange(lo as int, i as int), sep).last() == data@.subrange(
                start as int,
                i as int,
            ),
        decreases hi - i,
    {
        let ghost before = split_on(data@.subrange(lo as int, i as int), sep);
        let ghost old_pieces = pieces@;
        proof {
            let next = data@.subrange(lo as int, i + 1);
            assert(next.drop_last() =~= data@.subrange(lo as int, i as int));
            assert(next.last() == data@[i as int]);
        }
        if data[i] == sep {
            pieces.push((start, i));
            start = i + 1;
            proof {
                let after = split_on(data@.subrange(lo as int, i + 1), sep);
                assert(after == before.push(Seq::<u8>::empty()));
                assert(data@.subrange(i + 1, i + 1) =~= Seq::<u8>::empty());
                assert forall|j: int| 0 <= j < pieces@.len() implies data@.subrange(
                    (#[trigger] pieces@[j]).0 as int,
                    pieces@[j].1 as int,
                ) == after[j] by {
                    if j < old_pieces.len() {
                        assert(pieces@[j] == old_pieces[j]);
                    }
                }
            }
        } else {
            proof {
                let after = split_on(data@.subrange(lo as int, i + 1), sep);
                assert(after == before.drop_last().push(before.last().push(data@[i as int])));
                assert(data@.subrange(start as int, i as int).push(data@[i as int])
                    =~= data@.subrange(start as int, i + 1));
                assert forall|j: int| 0 <= j < pieces@.len() implies data@.subrange(
                    (#[trigger] pieces@[j]).0 as int,
                    pieces@[j].1 as int,
                ) == after[j] by {
                    assert(after[j] == before[j]);
                }
            }
        }
        i += 1;
    }
    let ghost done = split_on(data@.subrange(lo as int, hi as int), sep);
    let ghost old_pieces = pieces@;
    pieces.push((start, hi));
    proof {
        assert forall|j: int| 0 <= j < pieces@.len() implies data@.subrange(
            (#[trigger] pieces@[j]).0 as int,
            pieces@[j].1 as int,
        ) == done[j] by {
            if j < old_pieces.len() {
                assert(pieces@[j] == old_pieces[j]);
            }
        }
    }
    pieces
}

} // verus!
