//! The piece hashes of a torrent: on the wire they are one byte string, the
//! 20-byte hashes one after the other.

use vstd::prelude::*;

verus! {

/// The length of one piece hash.
pub const PIECE_LEN: usize = 20;

/// The hashes as sequences of bytes, in their order.
pub open spec fn pieces_view(pieces: Seq<[u8; 20]>) -> Seq<Seq<u8>> {
    Seq::new(pieces.len(), |i: int| pieces[i]@)
}

/// The hashes one after the other.
pub open spec fn joined(pieces: Seq<Seq<u8>>) -> Seq<u8>
    decreases pieces.len(),
{
    if pieces.len() == 0 {
        Seq::empty()
    } else {
        joined(pieces.drop_last()) + pieces.last()
    }
}

/// The bytes cut into hashes of 20; what is left over at the end, fewer
/// than 20 bytes, belongs to none.
pub open spec fn split(bytes: Seq<u8>) -> Seq<Seq<u8>> {
    Seq::new((bytes.len() / 20) as nat, |k: int| bytes.subrange(20 * k, 20 * k + 20))
}

/// Hashes of 20 bytes each, joined, are 20 bytes for each hash.
pub proof fn lemma_joined_len(pieces: Seq<Seq<u8>>)
    requires
        forall|i: int| 0 <= i < pieces.len() ==> (#[trigger] pieces[i]).len() == 20,
    ensures
        joined(pieces).len() == 20 * pieces.len(),
    decreases pieces.len(),
{
    if pieces.len() > 0 {
        lemma_joined_len(pieces.drop_last());
    }
}

/// Hashes of 20 bytes each, joined and split again, are the same hashes.
pub proof fn lemma_split_joined(pieces: Seq<Seq<u8>>)
    requires
        forall|i: int| 0 <= i < pieces.len() ==> (#[trigger] pieces[i]).len() == 20,
    ensures
        split(joined(pieces)) == pieces,
    decreases pieces.len(),
{
    lemma_joined_len(pieces);
    if pieces.len() == 0 {
        assert(split(joined(pieces)) =~= pieces);
    } else {
        let front = pieces.drop_last();
        lemma_split_joined(front);
        lemma_joined_len(front);
        let all = joined(pieces);
        assert(all == joined(front) + pieces.last());
        assert forall|k: int| 0 <= k < pieces.len() implies split(all)[k] == pieces[k] by {
            if k < front.len() {
                assert(split(joined(front))[k] == front[k]);
                assert(all.subrange(20 * k, 20 * k + 20) =~= joined(front).subrange(
                    20 * k,
                    20 * k + 20,
                ));
            } else {
                assert(all.subrange(20 * k, 20 * k + 20) =~= pieces.last());
            }
        }
        assert(split(all) =~= pieces);
    }
}

/// Bytes that are whole hashes, split and joined again, are the same bytes.
pub proof fn lemma_joined_split(bytes: Seq<u8>)
    requires
        bytes.len() % 20 == 0,
    ensures
        joined(split(bytes)) == bytes,
    decreases bytes.len(),
{
    let pieces = split(bytes);
    if bytes.len() == 0 {
        assert(joined(pieces) =~= bytes);
    } else {
        let n = bytes.len() / 20;
        let front = bytes.take(20 * (n - 1));
        lemma_joined_split(front);
        assert(pieces.drop_last() =~= split(front)) by {
            assert forall|k: int| 0 <= k < n - 1 implies pieces.drop_last()[k] == split(
                front,
            )[k] by {
                assert(bytes.subrange(20 * k, 20 * k + 20) =~= front.subrange(
                    20 * k,
                    20 * k + 20,
                ));
            }
        }
        assert(pieces.last() == bytes.subrange(20 * (n - 1), 20 * (n - 1) + 20));
        assert(joined(pieces) =~= bytes);
    }
}

/// The hashes as the one byte string that goes on the wire.
pub fn serialize(data: &Vec<[u8; 20]>) -> (r: Vec<u8>)
    ensures
        r@ == joined(pieces_view(data@)),
{
    let mut out: Vec<u8> = Vec::new();
    let ghost views = pieces_view(data@);
    let mut i: usize = 0;
    assert(views.take(0) =~= Seq::<Seq<u8>>::empty());
    while i < data.len()
        invariant
            i <= data.len(),
            views == pieces_view(data@),
            out@ == joined(views.take(i as int)),
        decreases data.len() - i,
    {
        let piece = &data[i];
        let ghost before = out@;
        let mut j: usize = 0;
        while j < 20
            invariant
                j <= 20,
                piece@.len() == 20,
                out@ == before + piece@.take(j as int),
            decreases 20 - j,
        {
            out.push(piece[j]);
            assert(piece@.take(j + 1) =~= piece@.take(j as int).push(piece@[j as int]));
            j = j + 1;
        }
        proof {
            assert(piece@.take(20) =~= piece@);
            let next = views.take(i + 1);
            assert(next.drop_last() =~= views.take(i as int));
            assert(next.last() == piece@);
        }
        i = i + 1;
    }
    assert(views.take(i as int) =~= views);
    out
}

/// The hashes that a byte string holds, 20 bytes each, in their order.
/// Bytes that are left over at the end are dropped; where none are, the
/// hashes joined are the byte string again.
pub fn deserialize(bytes: &[u8]) -> (r: Vec<[u8; 20]>)
    ensures
        pieces_view(r@) == split(bytes@),
        r@.len() == bytes@.len() / 20,
        forall|i: int|
            0 <= i < r@.len() ==> (#[trigger] r@[i])@ == bytes@.subrange(20 * i, 20 * i + 20),
        bytes@.len() % 20 == 0 ==> joined(pieces_view(r@)) == bytes@,
{
    let mut out: Vec<[u8; 20]> = Vec::new();
    let len = bytes.len();
    let count = len / 20;
    let mut k: usize = 0;
    while k < count
        invariant
            k <= count,
            len == bytes@.len(),
            count == bytes@.len() / 20,
            out@.len() == k,
            forall|i: int|
                0 <= i < k ==> (#[trigger] out@[i])@ == bytes@.subrange(20 * i, 20 * i + 20),
        decreases count - k,
    {
        let mut piece = [0u8;20];
        let mut j: usize = 0;
        while j < 20
            invariant
                j <= 20,
                k < count,
                len == bytes@.len(),
                count == bytes@.len() / 20,
                forall|m: int| 0 <= m < j ==> piece@[m] == bytes@[20 * k + m],
            decreases 20 - j,
        {
            piece[j] = bytes[20 * k + j];
            j = j + 1;
        }
        assert(piece@ =~= bytes@.subrange(20 * k, 20 * k + 20));
        out.push(piece);
        k = k + 1;
    }
    assert(pieces_view(out@) =~= split(bytes@));
    proof {
        if bytes@.len() % 20 == 0 {
            lemma_joined_split(bytes@);
        }
    }
    out
}

} // verus!
