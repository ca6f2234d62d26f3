//! What holds of the bytes of the snapshot files: what was put in can be told from what is there.
use crate::encoding::{
    be_bytes, header, lemma_be_bytes_len, part_delimiter, varint, Blob, LiveObject, ObjectRef,
    BLOB_ENCODING_BYTES, OBJECT_REF_BYTES,
};
use vstd::arithmetic::power::pow;
use vstd::prelude::*;

verus! {

/// An integer that fits in `width` bytes can be told from its bytes.
pub proof fn law_be_bytes_determine(m: nat, n: nat, width: nat)
    requires
        m < pow(256, width),
        n < pow(256, width),
        be_bytes(m, width) == be_bytes(n, width),
    ensures
        m == n,
    decreases width,
{
    if width == 0 {
        reveal(pow);
    } else {
        let w = (width - 1) as nat;
        assert(pow(256, width) == 256 * pow(256, w)) by {
            reveal(pow);
        }
        let bm = be_bytes(m / 256, w);
        let bn = be_bytes(n / 256, w);
        assert(bm =~= be_bytes(m, width).drop_last());
        assert(bn =~= be_bytes(n, width).drop_last());
        assert((m % 256) as u8 == be_bytes(m, width).last());
        assert((n % 256) as u8 == be_bytes(n, width).last());
        law_be_bytes_determine(m / 256, n / 256, w);
    }
}

proof fn lemma_pow_256()
    ensures
        pow(256, 4) == 0x1_0000_0000,
        pow(256, 8) == 0x1_0000_0000_0000_0000,
{
    reveal_with_fuel(pow, 9);
}

/// The kind of a file can be told from its header.
pub proof fn law_header_determines(a: u32, b: u32)
    requires
        header(a) == header(b),
    ensures
        a == b,
{
    lemma_pow_256();
    law_be_bytes_determine(a as nat, b as nat, 4);
}

/// An object reference takes as many bytes as the delimiter, and can be told from them.
pub proof fn law_row_determines(a: ObjectRef, b: ObjectRef)
    ensures
        a.row().len() == OBJECT_REF_BYTES,
        part_delimiter().len() == OBJECT_REF_BYTES,
        a.row() == b.row() ==> a.object_id@ == b.object_id@ && a.version == b.version && a.digest@
            == b.digest@,
{
    lemma_be_bytes_len(a.version as nat, 8);
    lemma_be_bytes_len(b.version as nat, 8);
    if a.row() == b.row() {
        assert(a.object_id@ =~= a.row().subrange(0, 32));
        assert(b.object_id@ =~= b.row().subrange(0, 32));
        assert(be_bytes(a.version as nat, 8) =~= a.row().subrange(32, 40));
        assert(be_bytes(b.version as nat, 8) =~= b.row().subrange(32, 40));
        assert(a.digest@ =~= a.row().subrange(40, 72));
        assert(b.digest@ =~= b.row().subrange(40, 72));
        lemma_pow_256();
        law_be_bytes_determine(a.version as nat, b.version as nat, 8);
    }
}

/// A variable-length integer can be told from its bytes, and so can where it ends.
pub proof fn law_varint_determines(m: nat, n: nat, x: Seq<u8>, y: Seq<u8>)
    requires
        varint(m) + x == varint(n) + y,
    ensures
        m == n,
        x == y,
    decreases m,
{
    let s = varint(m) + x;
    let t = varint(n) + y;
    assert(s[0] == if m < 128 {
        m as u8
    } else {
        (m % 128 + 128) as u8
    });
    assert(t[0] == if n < 128 {
        n as u8
    } else {
        (n % 128 + 128) as u8
    });
    if m < 128 {
        assert(x =~= s.skip(1));
        assert(y =~= t.skip(1));
    } else {
        assert(varint(m / 128) + x =~= s.skip(1));
        assert(varint(n / 128) + y =~= t.skip(1));
        law_varint_determines(m / 128, n / 128, x, y);
    }
}

/// A blob can be told from its bytes in an object file, and so can where it ends.
pub proof fn law_frame_determines(a: Blob, b: Blob, x: Seq<u8>, y: Seq<u8>)
    requires
        a.frame() + x == b.frame() + y,
    ensures
        a.data@ == b.data@,
        a.encoding == b.encoding,
        x == y,
{
    let ra = seq![a.encoding.tag()] + a.data@ + x;
    let rb = seq![b.encoding.tag()] + b.data@ + y;
    assert(a.frame() + x =~= varint(a.data@.len()) + ra);
    assert(b.frame() + y =~= varint(b.data@.len()) + rb);
    law_varint_determines(a.data@.len(), b.data@.len(), ra, rb);
    let len = a.data@.len() as int;
    assert(a.data@ =~= ra.subrange(1, len + 1));
    assert(b.data@ =~= rb.subrange(1, len + 1));
    assert(x =~= ra.skip(len + 1));
    assert(y =~= rb.skip(len + 1));
}

/// The blobs of `objects`, one behind the other.
pub open spec fn frames(objects: Seq<LiveObject>) -> Seq<u8>
    decreases objects.len(),
{
    if objects.len() == 0 {
        Seq::empty()
    } else {
        frames(objects.drop_last()) + objects.last().blob.frame()
    }
}

/// The references of `objects`, one behind the other.
pub open spec fn rows(objects: Seq<LiveObject>) -> Seq<u8>
    decreases objects.len(),
{
    if objects.len() == 0 {
        Seq::empty()
    } else {
        rows(objects.drop_last()) + objects.last().reference.row()
    }
}

/// The first blob stands at the front.
pub proof fn lemma_frames_first(objects: Seq<LiveObject>)
    requires
        objects.len() > 0,
    ensures
        frames(objects) == objects[0].blob.frame() + frames(objects.skip(1)),
    decreases objects.len(),
{
    if objects.len() == 1 {
        assert(objects.drop_last() =~= Seq::empty());
        assert(objects.skip(1) =~= Seq::empty());
        assert(frames(objects) =~= objects[0].blob.frame() + frames(objects.skip(1)));
    } else {
        let front = objects.drop_last();
        lemma_frames_first(front);
        assert(front.skip(1) =~= objects.skip(1).drop_last());
        assert(frames(objects) =~= objects[0].blob.frame() + frames(objects.skip(1)));
    }
}

/// What an object file holds tells the objects in it, their number and their order.
pub proof fn law_frames_determine(a: Seq<LiveObject>, b: Seq<LiveObject>)
    requires
        frames(a) == frames(b),
    ensures
        a.len() == b.len(),
        forall|i: int|
            0 <= i < a.len() ==> (#[trigger] a[i]).blob.data@ == b[i].blob.data@
                && a[i].blob.encoding == b[i].blob.encoding,
    decreases a.len(),
{
    if a.len() > 0 {
        lemma_frames_first(a);
    }
    if b.len() > 0 {
        lemma_frames_first(b);
    }
    if a.len() > 0 && b.len() > 0 {
        law_frame_determines(a[0].blob, b[0].blob, frames(a.skip(1)), frames(b.skip(1)));
        law_frames_determine(a.skip(1), b.skip(1));
        assert forall|i: int| 0 <= i < a.len() implies (#[trigger] a[i]).blob.data@
            == b[i].blob.data@ && a[i].blob.encoding == b[i].blob.encoding by {
            if i > 0 {
                assert(a[i] == a.skip(1)[i - 1]);
                assert(b[i] == b.skip(1)[i - 1]);
            }
        }
    } else if a.len() > 0 {
        assert(a[0].blob.frame().len() > 0);
        assert(frames(b).len() == 0);
    } else if b.len() > 0 {
        assert(b[0].blob.frame().len() > 0);
        assert(frames(a).len() == 0);
    }
}

/// The references in a reference file are all of one length, and tell the objects that they are
/// of, their number and their order.
pub proof fn law_rows_determine(a: Seq<LiveObject>, b: Seq<LiveObject>)
    ensures
        rows(a).len() == OBJECT_REF_BYTES * a.len(),
        rows(a) == rows(b) ==> a.len() == b.len() && forall|i: int|
            0 <= i < a.len() ==> {
                &&& (#[trigger] a[i]).reference.object_id@ == b[i].reference.object_id@
                &&& a[i].reference.version == b[i].reference.version
                &&& a[i].reference.digest@ == b[i].reference.digest@
            },
    decreases a.len(),
{
    assert(OBJECT_REF_BYTES == 72);
    lemma_rows_len(a);
    lemma_rows_len(b);
    if rows(a) == rows(b) && a.len() > 0 {
        assert(a.len() == b.len());
        law_row_determines(a.last().reference, b.last().reference);
        law_row_determines(b.last().reference, a.last().reference);
        let fa = rows(a.drop_last());
        let fb = rows(b.drop_last());
        lemma_rows_len(a.drop_last());
        lemma_rows_len(b.drop_last());
        assert(fa =~= rows(a).take(fa.len() as int));
        assert(fb =~= rows(b).take(fb.len() as int));
        assert(a.last().reference.row() =~= rows(a).skip(fa.len() as int));
        assert(b.last().reference.row() =~= rows(b).skip(fb.len() as int));
        law_rows_determine(a.drop_last(), b.drop_last());
        assert forall|i: int| 0 <= i < a.len() implies {
            &&& (#[trigger] a[i]).reference.object_id@ == b[i].reference.object_id@
            &&& a[i].reference.version == b[i].reference.version
            &&& a[i].reference.digest@ == b[i].reference.digest@
        } by {
            if i < a.len() - 1 {
                assert(a[i] == a.drop_last()[i]);
                assert(b[i] == b.drop_last()[i]);
            }
        }
    }
}

proof fn lemma_rows_len(a: Seq<LiveObject>)
    ensures
        rows(a).len() == 72 * a.len(),
    decreases a.len(),
{
    if a.len() > 0 {
        lemma_rows_len(a.drop_last());
        law_row_determines(a.last().reference, a.last().reference);
    }
}

/// What is reckoned for a blob is what it takes: the length of its length, a byte for the
/// encoding, its data.
pub proof fn law_frame_len(blob: Blob)
    ensures
        blob.frame().len() == varint(blob.data@.len()).len() + BLOB_ENCODING_BYTES
            + blob.data@.len(),
        blob.data@.len() <= u64::MAX ==> 1 <= varint(blob.data@.len()).len() <= 10,
{
    reveal_with_fuel(varint, 11);
}

} // verus!
