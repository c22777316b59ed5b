//! The generic nested framing for "a sequence of independently serialized
//! objects": a table-length word, an object count, one length word per
//! object, then the objects' bytes concatenated with no separators. All four
//! integer fields are little-endian — deliberately the opposite byte order
//! from every other field in the format. Decoding validates every embedded
//! length against the remaining buffer and consumes the buffer exactly, so a
//! truncated or padded table fails instead of panicking.

use vstd::prelude::*;
use vstd::bytes::{
    lemma_auto_spec_u32_to_from_le_bytes, spec_u32_from_le_bytes, spec_u32_to_le_bytes,
    u32_from_le_bytes, u32_to_le_bytes,
};
use vstd::slice::{slice_subrange, slice_to_vec};

use crate::byte_deserializer::ByteError;
use crate::errors::Error;

verus! {

broadcast use crate::views::group_deep_view_facts;

/// The framing has no state of its own; it is a pair of algorithms.
pub struct LengthTable;

/// The total byte count of the chunks.
pub open spec fn spec_sum_len(chunks: Seq<Seq<u8>>) -> int
    decreases chunks.len(),
{
    if chunks.len() == 0 {
        0
    } else {
        spec_sum_len(chunks.drop_last()) + chunks.last().len()
    }
}

/// The per-object length words, in order.
pub open spec fn spec_len_entries(chunks: Seq<Seq<u8>>) -> Seq<u8>
    decreases chunks.len(),
{
    if chunks.len() == 0 {
        Seq::empty()
    } else {
        spec_len_entries(chunks.drop_last()) + spec_u32_to_le_bytes(chunks.last().len() as u32)
    }
}

/// The objects' bytes, concatenated without separators.
pub open spec fn spec_payload(chunks: Seq<Seq<u8>>) -> Seq<u8>
    decreases chunks.len(),
{
    if chunks.len() == 0 {
        Seq::empty()
    } else {
        spec_payload(chunks.drop_last()) + chunks.last()
    }
}

/// Every length fits its 4-byte word, and the recorded table length
/// (4 per object plus the objects' bytes) fits its own word.
pub open spec fn table_encodable(chunks: Seq<Seq<u8>>) -> bool {
    &&& forall|i: int| 0 <= i < chunks.len() ==> #[trigger] chunks[i].len() <= u32::MAX
    &&& 4 * chunks.len() + spec_sum_len(chunks) <= u32::MAX
}

/// The whole wire form of a framed sequence.
pub open spec fn spec_table_bytes(chunks: Seq<Seq<u8>>) -> Seq<u8> {
    spec_u32_to_le_bytes((4 * chunks.len() + spec_sum_len(chunks)) as u32) + spec_u32_to_le_bytes(
        chunks.len() as u32,
    ) + spec_len_entries(chunks) + spec_payload(chunks)
}

/// Component lengths: the length words take 4 bytes per object and the
/// payload takes exactly the summed object lengths, which are nonnegative.
pub proof fn lemma_table_parts_len(chunks: Seq<Seq<u8>>)
    ensures
        spec_sum_len(chunks) >= 0,
        spec_len_entries(chunks).len() == 4 * chunks.len(),
        spec_payload(chunks).len() == spec_sum_len(chunks),
    decreases chunks.len(),
{
    lemma_auto_spec_u32_to_from_le_bytes();
    if chunks.len() > 0 {
        lemma_table_parts_len(chunks.drop_last());
    }
}

/// The whole table's length.
pub proof fn lemma_table_bytes_len(chunks: Seq<Seq<u8>>)
    ensures
        spec_table_bytes(chunks).len() == 8 + 4 * chunks.len() + spec_sum_len(chunks),
        spec_sum_len(chunks) >= 0,
{
    lemma_auto_spec_u32_to_from_le_bytes();
    lemma_table_parts_len(chunks);
}

/// The sum splits at any cut point.
pub proof fn lemma_sum_len_split(chunks: Seq<Seq<u8>>, k: int)
    requires
        0 <= k <= chunks.len(),
    ensures
        spec_sum_len(chunks) == spec_sum_len(chunks.subrange(0, k)) + spec_sum_len(
            chunks.subrange(k, chunks.len() as int),
        ),
    decreases chunks.len() - k,
{
    if k == chunks.len() {
        assert(chunks.subrange(0, k) =~= chunks);
        assert(spec_sum_len(chunks.subrange(k, chunks.len() as int)) == 0);
    } else {
        let pre = chunks.subrange(0, chunks.len() - 1);
        lemma_sum_len_split(pre, k);
        assert(pre =~= chunks.drop_last());
        assert(pre.subrange(0, k) =~= chunks.subrange(0, k));
        assert(chunks.subrange(k, chunks.len() as int).drop_last() =~= pre.subrange(
            k,
            pre.len() as int,
        ));
    }
}

/// The `j`-th length word records the `j`-th chunk's length.
pub proof fn lemma_len_entries_extract(chunks: Seq<Seq<u8>>, j: int)
    requires
        0 <= j < chunks.len(),
    ensures
        spec_len_entries(chunks).subrange(4 * j, 4 * j + 4) == spec_u32_to_le_bytes(
            chunks[j].len() as u32,
        ),
    decreases chunks.len(),
{
    lemma_table_parts_len(chunks);
    lemma_table_parts_len(chunks.drop_last());
    lemma_auto_spec_u32_to_from_le_bytes();
    if j == chunks.len() - 1 {
        assert(spec_len_entries(chunks).subrange(4 * j, 4 * j + 4) =~= spec_u32_to_le_bytes(
            chunks[j].len() as u32,
        ));
    } else {
        lemma_len_entries_extract(chunks.drop_last(), j);
        assert(spec_len_entries(chunks).subrange(4 * j, 4 * j + 4) =~= spec_len_entries(
            chunks.drop_last(),
        ).subrange(4 * j, 4 * j + 4));
    }
}

/// Sequences with the same length words and the same concatenated payload
/// are the same sequences.
pub proof fn lemma_entries_payload_injective(c1: Seq<Seq<u8>>, c2: Seq<Seq<u8>>)
    requires
        c1.len() == c2.len(),
        forall|i: int| 0 <= i < c1.len() ==> #[trigger] c1[i].len() <= u32::MAX,
        forall|i: int| 0 <= i < c2.len() ==> #[trigger] c2[i].len() <= u32::MAX,
        spec_len_entries(c1) == spec_len_entries(c2),
        spec_payload(c1) == spec_payload(c2),
    ensures
        c1 == c2,
    decreases c1.len(),
{
    lemma_auto_spec_u32_to_from_le_bytes();
    if c1.len() > 0 {
        let n = c1.len() as int;
        lemma_table_parts_len(c1);
        lemma_table_parts_len(c2);
        lemma_table_parts_len(c1.drop_last());
        lemma_table_parts_len(c2.drop_last());
        // The last length word is the tail of the entries region, so the
        // last chunks have the same length.
        assert(spec_len_entries(c1).subrange(4 * n - 4, 4 * n) =~= spec_u32_to_le_bytes(
            c1.last().len() as u32,
        ));
        assert(spec_len_entries(c2).subrange(4 * n - 4, 4 * n) =~= spec_u32_to_le_bytes(
            c2.last().len() as u32,
        ));
        assert(spec_u32_from_le_bytes(spec_u32_to_le_bytes(c1.last().len() as u32))
            == spec_u32_from_le_bytes(spec_u32_to_le_bytes(c2.last().len() as u32)));
        assert(c1.last().len() == c2.last().len());
        // Equal totals and equal last lengths split the payload equally.
        assert(c1.last() =~= spec_payload(c1).subrange(
            spec_payload(c1).len() - c1.last().len() as int,
            spec_payload(c1).len() as int,
        ));
        assert(c2.last() =~= spec_payload(c2).subrange(
            spec_payload(c2).len() - c2.last().len() as int,
            spec_payload(c2).len() as int,
        ));
        assert(spec_payload(c1.drop_last()) =~= spec_payload(c1).subrange(
            0,
            spec_payload(c1).len() - c1.last().len() as int,
        ));
        assert(spec_payload(c2.drop_last()) =~= spec_payload(c2).subrange(
            0,
            spec_payload(c2).len() - c2.last().len() as int,
        ));
        assert(spec_len_entries(c1.drop_last()) =~= spec_len_entries(c1).subrange(0, 4 * n - 4));
        assert(spec_len_entries(c2.drop_last()) =~= spec_len_entries(c2).subrange(0, 4 * n - 4));
        lemma_entries_payload_injective(c1.drop_last(), c2.drop_last());
        assert(c1.last() == c2.last());
        assert forall|i: int| 0 <= i < n implies c1[i] == c2[i] by {
            if i < n - 1 {
                assert(c1[i] == c1.drop_last()[i]);
                assert(c2[i] == c2.drop_last()[i]);
            } else {
                assert(c1[i] == c1.last());
                assert(c2[i] == c2.last());
            }
        }
        assert(c1 =~= c2);
    } else {
        assert(c1 =~= c2);
    }
}

/// The four regions of a framed table, read back off the whole.
pub proof fn lemma_table_bytes_parts(chunks: Seq<Seq<u8>>)
    ensures
        spec_table_bytes(chunks).subrange(0, 4) == spec_u32_to_le_bytes(
            (4 * chunks.len() + spec_sum_len(chunks)) as u32,
        ),
        spec_table_bytes(chunks).subrange(4, 8) == spec_u32_to_le_bytes(chunks.len() as u32),
        spec_table_bytes(chunks).subrange(8, 8 + 4 * chunks.len() as int) == spec_len_entries(
            chunks,
        ),
        spec_table_bytes(chunks).subrange(
            8 + 4 * chunks.len() as int,
            spec_table_bytes(chunks).len() as int,
        ) == spec_payload(chunks),
        spec_table_bytes(chunks).len() == 8 + 4 * chunks.len() + spec_sum_len(chunks),
{
    lemma_auto_spec_u32_to_from_le_bytes();
    lemma_table_parts_len(chunks);
    assert(spec_table_bytes(chunks).subrange(0, 4) =~= spec_u32_to_le_bytes(
        (4 * chunks.len() + spec_sum_len(chunks)) as u32,
    ));
    assert(spec_table_bytes(chunks).subrange(4, 8) =~= spec_u32_to_le_bytes(chunks.len() as u32));
    assert(spec_table_bytes(chunks).subrange(8, 8 + 4 * chunks.len() as int) =~= spec_len_entries(
        chunks,
    ));
    assert(spec_table_bytes(chunks).subrange(
        8 + 4 * chunks.len() as int,
        spec_table_bytes(chunks).len() as int,
    ) =~= spec_payload(chunks));
}

/// The sum depends only on the chunks' lengths.
pub proof fn lemma_sum_len_pointwise(c1: Seq<Seq<u8>>, c2: Seq<Seq<u8>>)
    requires
        c1.len() == c2.len(),
        forall|i: int| 0 <= i < c1.len() ==> #[trigger] c1[i].len() == c2[i].len(),
    ensures
        spec_sum_len(c1) == spec_sum_len(c2),
    decreases c1.len(),
{
    if c1.len() > 0 {
        assert forall|i: int| 0 <= i < c1.len() - 1 implies #[trigger] c1.drop_last()[i].len()
            == c2.drop_last()[i].len() by {
            assert(c1[i].len() == c2[i].len());
        }
        lemma_sum_len_pointwise(c1.drop_last(), c2.drop_last());
    }
}

/// No two distinct framed sequences share a wire form.
pub proof fn lemma_table_bytes_injective(c1: Seq<Seq<u8>>, c2: Seq<Seq<u8>>)
    requires
        table_encodable(c1),
        table_encodable(c2),
        spec_table_bytes(c1) == spec_table_bytes(c2),
    ensures
        c1 == c2,
{
    lemma_auto_spec_u32_to_from_le_bytes();
    lemma_table_bytes_parts(c1);
    lemma_table_bytes_parts(c2);
    lemma_table_parts_len(c1);
    lemma_table_parts_len(c2);
    assert(spec_u32_from_le_bytes(spec_u32_to_le_bytes(c1.len() as u32)) == spec_u32_from_le_bytes(
        spec_u32_to_le_bytes(c2.len() as u32),
    ));
    assert(c1.len() == c2.len());
    lemma_entries_payload_injective(c1, c2);
}

impl LengthTable {
    /// Frame the given already-serialized objects: the table-length word,
    /// the count, one length word per object, then the objects' bytes.
    pub fn serialize(objects: &Vec<Vec<u8>>) -> (r: Vec<u8>)
        requires
            table_encodable(objects.deep_view()),
        ensures
            r@ == spec_table_bytes(objects.deep_view()),
    {
        broadcast use crate::views::lemma_bytes_deep_view;

        let ghost chunks = objects.deep_view();
        let mut entries: Vec<u8> = Vec::new();
        let mut payload: Vec<u8> = Vec::new();
        proof {
            lemma_table_parts_len(chunks);
            assert(entries@ =~= spec_len_entries(chunks.subrange(0, 0)));
            assert(payload@ =~= spec_payload(chunks.subrange(0, 0)));
        }
        let mut i: usize = 0;
        while i < objects.len()
            invariant
                table_encodable(chunks),
                chunks == objects.deep_view(),
                chunks.len() == objects@.len(),
                0 <= i <= objects@.len(),
                entries@ == spec_len_entries(chunks.subrange(0, i as int)),
                payload@ == spec_payload(chunks.subrange(0, i as int)),
            decreases objects@.len() - i,
        {
            let ghost pre = chunks.subrange(0, i as int);
            proof {
                assert(chunks[i as int] == objects@[i as int].deep_view());
                assert(chunks[i as int].len() <= u32::MAX);
            }
            let obj = &objects[i];
            let mut len_word = u32_to_le_bytes(obj.len() as u32);
            entries.append(&mut len_word);
            let mut chunk = slice_to_vec(obj.as_slice());
            payload.append(&mut chunk);
            proof {
                let cur = chunks.subrange(0, i + 1);
                assert(cur.drop_last() =~= pre);
                assert(cur.last() == chunks[i as int]);
                assert(entries@ =~= spec_len_entries(cur));
                assert(payload@ =~= spec_payload(cur));
            }
            i += 1;
        }
        proof {
            assert(chunks.subrange(0, chunks.len() as int) =~= chunks);
            lemma_table_parts_len(chunks);
        }
        let table_len: usize = 4 * objects.len() + payload.len();
        let mut r = u32_to_le_bytes(table_len as u32);
        let mut count_word = u32_to_le_bytes(objects.len() as u32);
        r.append(&mut count_word);
        r.append(&mut entries);
        r.append(&mut payload);
        proof {
            assert(r@ =~= spec_table_bytes(chunks));
        }
        r
    }

    /// Split a framed buffer back into its objects' byte runs. Exactly the
    /// buffers `spec_table_bytes` produces are accepted: every recorded
    /// length is checked against what is left, the recorded table length
    /// must match the lengths read, and the buffer must be consumed
    /// entirely, so truncation or padding fails cleanly.
    pub fn deserialize(bytes: &[u8]) -> (r: Result<Vec<Vec<u8>>, Error>)
        ensures
            r matches Ok(objects) ==> table_encodable(objects.deep_view()) && bytes@
                == spec_table_bytes(objects.deep_view()),
            forall|chunks: Seq<Seq<u8>>|
                #![trigger spec_table_bytes(chunks)]
                table_encodable(chunks) && spec_table_bytes(chunks) == bytes@ ==> (r matches Ok(
                    objects,
                ) && objects.deep_view() == chunks),
            r is Err ==> (match r {
                Err(Error::ByteError(ByteError::OutOfBoundsError { pos, len })) => len == bytes@
                    .len(),
                _ => false,
            }),
    {
        broadcast use crate::views::lemma_bytes_deep_view;

        let n_bytes = bytes.len();
        if n_bytes < 8 {
            proof {
                assert forall|chunks: Seq<Seq<u8>>| table_encodable(chunks)
                    implies spec_table_bytes(chunks) != bytes@ by {
                    lemma_table_bytes_len(chunks);
                }
            }
            return Err(Error::ByteError(ByteError::OutOfBoundsError { pos: 0, len: n_bytes }));
        }
        let table_len = u32_from_le_bytes(slice_subrange(bytes, 0, 4));
        let count = u32_from_le_bytes(slice_subrange(bytes, 4, 8));
        if ((n_bytes as u64) - 8) / 4 < count as u64 {
            proof {
                assert forall|chunks: Seq<Seq<u8>>| table_encodable(chunks)
                    implies spec_table_bytes(chunks) != bytes@ by {
                    if spec_table_bytes(chunks) == bytes@ {
                        lemma_frame_fields(chunks, bytes@);
                    }
                }
            }
            return Err(Error::ByteError(ByteError::OutOfBoundsError { pos: 8, len: n_bytes }));
        }
        let p0: usize = 8 + 4 * (count as usize);
        let mut objects: Vec<Vec<u8>> = Vec::new();
        let mut cursor: usize = p0;
        let mut j: usize = 0;
        proof {
            assert(objects.deep_view() =~= Seq::<Seq<u8>>::empty());
            assert(spec_len_entries(objects.deep_view()) =~= bytes@.subrange(8, 8));
            assert(spec_payload(objects.deep_view()) =~= bytes@.subrange(p0 as int, p0 as int));
        }
        while j < count as usize
            invariant
                bytes@.len() == n_bytes,
                n_bytes >= 8,
                p0 == 8 + 4 * (count as int),
                p0 <= n_bytes,
                0 <= j <= count,
                p0 <= cursor <= n_bytes,
                table_len == spec_u32_from_le_bytes(bytes@.subrange(0, 4)),
                count == spec_u32_from_le_bytes(bytes@.subrange(4, 8)),
                objects.deep_view().len() == j,
                forall|k: int|
                    0 <= k < j ==> #[trigger] objects.deep_view()[k].len() <= u32::MAX,
                spec_len_entries(objects.deep_view()) == bytes@.subrange(8, 8 + 4 * j as int),
                spec_payload(objects.deep_view()) == bytes@.subrange(p0 as int, cursor as int),
                spec_sum_len(objects.deep_view()) == cursor - p0,
            decreases count - j,
        {
            let ghost dv = objects.deep_view();
            let entry_off: usize = 8 + 4 * j;
            let len_j = u32_from_le_bytes(slice_subrange(bytes, entry_off, entry_off + 4));
            if (len_j as usize) > n_bytes - cursor {
                proof {
                    assert forall|chunks: Seq<Seq<u8>>| table_encodable(chunks)
                        implies spec_table_bytes(chunks) != bytes@ by {
                        if spec_table_bytes(chunks) == bytes@ {
                            lemma_frame_fields(chunks, bytes@);
                            lemma_read_prefix_lens(dv, chunks, bytes@, j as int);
                            let n = chunks.len() as int;
                            assert(chunks[j as int].len() == len_j);
                            lemma_sum_len_pointwise(dv, chunks.subrange(0, j as int));
                            lemma_sum_len_split(chunks, j as int);
                            let tail = chunks.subrange(j as int, n);
                            lemma_sum_len_split(tail, 1);
                            assert(chunks.len() == count as int);
                            assert(tail.subrange(0, 1) =~= seq![chunks[j as int]]);
                            assert(seq![chunks[j as int]].drop_last()
                                =~= Seq::<Seq<u8>>::empty());
                            assert(seq![chunks[j as int]].len() == 1);
                            assert(seq![chunks[j as int]].last() == chunks[j as int]);
                            assert(spec_sum_len(Seq::<Seq<u8>>::empty()) == 0);
                            assert(spec_sum_len(seq![chunks[j as int]])
                                == chunks[j as int].len());
                            lemma_table_parts_len(tail.subrange(1, tail.len() as int));
                            assert(spec_sum_len(chunks.subrange(0, j as int)) == cursor - p0);
                            assert(spec_sum_len(chunks) >= (cursor - p0) + len_j);
                            assert(bytes@.len() >= cursor + len_j);
                        }
                    }
                }
                return Err(Error::ByteError(ByteError::OutOfBoundsError {
                    pos: cursor,
                    len: n_bytes,
                }));
            }
            let chunk = slice_to_vec(slice_subrange(bytes, cursor, cursor + len_j as usize));
            let ghost chunk_view = chunk.deep_view();
            objects.push(chunk);
            proof {
                lemma_auto_spec_u32_to_from_le_bytes();
                assert(objects.deep_view() =~= dv.push(chunk_view));
                let cur = dv.push(chunk_view);
                assert(cur.drop_last() =~= dv);
                assert(cur.last() == chunk_view);
                assert(chunk_view.len() == len_j);
                assert(spec_u32_to_le_bytes(chunk_view.len() as u32) =~= bytes@.subrange(
                    8 + 4 * j as int,
                    8 + 4 * j + 4,
                ));
                assert(spec_len_entries(cur) =~= bytes@.subrange(8, 8 + 4 * (j + 1)));
                assert(spec_payload(cur) =~= bytes@.subrange(p0 as int, cursor + len_j as int));
            }
            cursor = cursor + len_j as usize;
            j += 1;
        }
        let ghost dv = objects.deep_view();
        if cursor != n_bytes {
            proof {
                assert forall|chunks: Seq<Seq<u8>>| table_encodable(chunks)
                    implies spec_table_bytes(chunks) != bytes@ by {
                    if spec_table_bytes(chunks) == bytes@ {
                        lemma_frame_fields(chunks, bytes@);
                        lemma_read_prefix_lens(dv, chunks, bytes@, count as int);
                        assert(chunks.subrange(0, count as int) =~= chunks);
                        lemma_sum_len_pointwise(dv, chunks);
                    }
                }
            }
            return Err(Error::ByteError(ByteError::OutOfBoundsError {
                pos: cursor,
                len: n_bytes,
            }));
        }
        if (table_len as u64) != (n_bytes as u64) - 8 {
            proof {
                assert forall|chunks: Seq<Seq<u8>>| table_encodable(chunks)
                    implies spec_table_bytes(chunks) != bytes@ by {
                    if spec_table_bytes(chunks) == bytes@ {
                        lemma_frame_fields(chunks, bytes@);
                        assert(table_len as int == 4 * chunks.len() + spec_sum_len(chunks));
                        assert((table_len as u64) == (n_bytes as u64) - 8);
                    }
                }
            }
            return Err(Error::ByteError(ByteError::OutOfBoundsError { pos: 0, len: n_bytes }));
        }
        proof {
            lemma_auto_spec_u32_to_from_le_bytes();
            lemma_table_parts_len(dv);
            assert(4 * dv.len() + spec_sum_len(dv) == table_len as int);
            assert(table_encodable(dv));
            lemma_table_bytes_parts(dv);
            assert(spec_u32_to_le_bytes((4 * dv.len() + spec_sum_len(dv)) as u32)
                == spec_u32_to_le_bytes(table_len));
            assert(spec_u32_to_le_bytes(table_len) =~= bytes@.subrange(0, 4));
            assert(spec_u32_to_le_bytes(dv.len() as u32) == spec_u32_to_le_bytes(count));
            assert(spec_u32_to_le_bytes(count) =~= bytes@.subrange(4, 8));
            assert(spec_table_bytes(dv).len() == n_bytes);
            assert forall|b: int| 0 <= b < n_bytes implies spec_table_bytes(dv)[b]
                == bytes@[b] by {
                if b < 4 {
                    assert(spec_table_bytes(dv)[b] == spec_table_bytes(dv).subrange(0, 4)[b]);
                    assert(bytes@[b] == bytes@.subrange(0, 4)[b]);
                } else if b < 8 {
                    assert(spec_table_bytes(dv)[b] == spec_table_bytes(dv).subrange(4, 8)[b - 4]);
                    assert(bytes@[b] == bytes@.subrange(4, 8)[b - 4]);
                } else if b < p0 {
                    assert(spec_table_bytes(dv)[b] == spec_table_bytes(dv).subrange(
                        8,
                        8 + 4 * dv.len() as int,
                    )[b - 8]);
                    assert(bytes@[b] == bytes@.subrange(8, p0 as int)[b - 8]);
                } else {
                    assert(spec_table_bytes(dv)[b] == spec_table_bytes(dv).subrange(
                        8 + 4 * dv.len() as int,
                        spec_table_bytes(dv).len() as int,
                    )[b - p0]);
                    assert(bytes@[b] == bytes@.subrange(p0 as int, cursor as int)[b - p0]);
                }
            }
            assert(bytes@ =~= spec_table_bytes(dv));
            assert forall|chunks: Seq<Seq<u8>>| table_encodable(chunks) && spec_table_bytes(chunks)
                == bytes@ implies dv == chunks by {
                lemma_table_bytes_injective(chunks, dv);
            }
        }
        Ok(objects)
    }
}

/// What the header and length words of a framed buffer say about the framed
/// sequence: its count, its total, and each chunk's recorded length.
proof fn lemma_frame_fields(chunks: Seq<Seq<u8>>, bytes: Seq<u8>)
    requires
        table_encodable(chunks),
        spec_table_bytes(chunks) == bytes,
    ensures
        spec_sum_len(chunks) >= 0,
        bytes.len() == 8 + 4 * chunks.len() + spec_sum_len(chunks),
        chunks.len() <= u32::MAX,
        spec_u32_from_le_bytes(bytes.subrange(4, 8)) == chunks.len() as u32,
        spec_u32_from_le_bytes(bytes.subrange(0, 4)) as int == 4 * chunks.len() + spec_sum_len(
            chunks,
        ),
        forall|k: int|
            0 <= k < chunks.len() ==> #[trigger] chunks[k].len() == spec_u32_from_le_bytes(
                bytes.subrange(8 + 4 * k, 8 + 4 * k + 4),
            ),
{
    lemma_auto_spec_u32_to_from_le_bytes();
    lemma_table_bytes_parts(chunks);
    lemma_table_parts_len(chunks);
    assert(spec_u32_from_le_bytes(spec_u32_to_le_bytes(chunks.len() as u32)) == chunks.len()
        as u32);
    assert(spec_u32_from_le_bytes(spec_u32_to_le_bytes(
        (4 * chunks.len() + spec_sum_len(chunks)) as u32,
    )) == (4 * chunks.len() + spec_sum_len(chunks)) as u32);
    assert forall|k: int| 0 <= k < chunks.len() implies #[trigger] chunks[k].len()
        == spec_u32_from_le_bytes(bytes.subrange(8 + 4 * k, 8 + 4 * k + 4)) by {
        lemma_len_entries_extract(chunks, k);
        assert(spec_len_entries(chunks).subrange(4 * k, 4 * k + 4) =~= bytes.subrange(
            8 + 4 * k,
            8 + 4 * k + 4,
        ));
        assert(spec_u32_from_le_bytes(spec_u32_to_le_bytes(chunks[k].len() as u32)) == chunks[
            k
        ].len() as u32);
    }
}

/// Chunks already parsed out of a framed buffer have the lengths the
/// buffer's length words record, so they match any framed sequence's.
proof fn lemma_read_prefix_lens(dv: Seq<Seq<u8>>, chunks: Seq<Seq<u8>>, bytes: Seq<u8>, j: int)
    requires
        0 <= j <= chunks.len(),
        j == dv.len(),
        forall|k: int| 0 <= k < j ==> #[trigger] dv[k].len() <= u32::MAX,
        forall|k: int| 0 <= k < chunks.len() ==> #[trigger] chunks[k].len() <= u32::MAX,
        spec_len_entries(dv) == bytes.subrange(8, 8 + 4 * j),
        forall|k: int|
            0 <= k < chunks.len() ==> #[trigger] chunks[k].len() == spec_u32_from_le_bytes(
                bytes.subrange(8 + 4 * k, 8 + 4 * k + 4),
            ),
        bytes.len() >= 8 + 4 * chunks.len(),
    ensures
        forall|k: int| 0 <= k < j ==> #[trigger] dv[k].len() == chunks[k].len(),
{
    lemma_auto_spec_u32_to_from_le_bytes();
    lemma_table_parts_len(dv);
    assert forall|k: int| 0 <= k < j implies #[trigger] dv[k].len() == chunks[k].len() by {
        lemma_len_entries_extract(dv, k);
        assert(spec_len_entries(dv).subrange(4 * k, 4 * k + 4) =~= bytes.subrange(
            8 + 4 * k,
            8 + 4 * k + 4,
        ));
        assert(spec_u32_from_le_bytes(spec_u32_to_le_bytes(dv[k].len() as u32)) == dv[k].len()
            as u32);
    }
}

} // verus!
