//! The chunk writer: chunks are decrypted in order with AES-CTR, the
//! counter moved forward to each chunk's place in the file, and appended to
//! the output until the file is complete.

use vstd::prelude::*;
use crate::crypto::{aes128_ctr_apply, aes_ctr_decrypt, ctr_decryption_of, forward_mega_link_key_iv, spec_ctr, spec_forward_iv, CryptoError};
use super::chunk::{
    calculate_chunk_offset, calculate_chunk_size, chunk_offset_fits, lemma_chunk_covers_to_next, spec_chunk_offset,
    spec_chunk_size,
};

verus! {

/// Where the writer stands in the output file.
pub struct ChunkWriter {
    /// The chunk to write next.
    pub chunk_id: u64,
    /// Bytes of the file written so far.
    pub bytes_written: u64,
    pub file_size: u64,
    pub size_multi: u32,
}

/// Whether a download resuming at `start_chunk` appends to the file it
/// already has (rather than creating it anew).
pub fn resume_appends(start_chunk: u64) -> (r: bool)
    ensures
        r == (start_chunk > 1),
{
    start_chunk > 1
}

impl ChunkWriter {
    /// A writer starting at `start_chunk` (at least the first chunk), with
    /// the bytes before that chunk already in the file.
    pub fn new(start_chunk: u64, file_size: u64, size_multi: u32) -> (r: Self)
        requires
            chunk_offset_fits((if start_chunk >= 1 { start_chunk } else { 1 }) as nat, size_multi as nat),
        ensures
            r.chunk_id == (if start_chunk >= 1 { start_chunk } else { 1 }),
            r.bytes_written == spec_chunk_offset(r.chunk_id as nat, size_multi as nat),
            r.file_size == file_size,
            r.size_multi == size_multi,
    {
        let chunk_id = if start_chunk >= 1 { start_chunk } else { 1 };
        let bytes_written = calculate_chunk_offset(chunk_id, size_multi);
        ChunkWriter { chunk_id, bytes_written, file_size, size_multi }
    }

    /// The size of the chunk to write next; zero where the file is complete.
    pub fn current_chunk_size(&self) -> (r: u64)
        requires
            chunk_offset_fits(self.chunk_id as nat, self.size_multi as nat),
        ensures
            r == spec_chunk_size(self.chunk_id as nat, self.file_size as nat, self.size_multi as nat),
    {
        calculate_chunk_size(self.chunk_id, self.file_size, self.size_multi)
    }

    /// Decrypts the next chunk, its counter moved forward to the bytes
    /// written so far, and counts its bytes as written. Returns the
    /// plaintext and whether the file is now complete; the writer moves to
    /// the next chunk unless it is. A key the cipher refuses leaves the
    /// writer as it was.
    pub fn write_chunk(&mut self, encrypted: &[u8], key: &[u8], file_iv: &[u8]) -> (r: Result<(Vec<u8>, bool), CryptoError>)
        requires
            old(self).bytes_written + encrypted@.len() <= u64::MAX,
            old(self).chunk_id < u64::MAX,
        ensures
            match spec_ctr(encrypted@, key@, spec_forward_iv(file_iv@, old(self).bytes_written)) {
                Ok(plain) => r matches Ok((d, done)) && d@ == plain
                    && final(self).bytes_written == old(self).bytes_written + encrypted@.len()
                    && done == (final(self).bytes_written >= old(self).file_size)
                    && final(self).chunk_id == (if done { old(self).chunk_id } else { (old(self).chunk_id + 1) as u64 })
                    && final(self).file_size == old(self).file_size
                    && final(self).size_multi == old(self).size_multi,
                Err(e) => r matches Err(e2) && e2 == e && *final(self) == *old(self),
            },
    {
        let iv = forward_mega_link_key_iv(file_iv, self.bytes_written);
        let decrypted = match aes_ctr_decrypt(encrypted, key, iv.as_slice()) {
            Ok(d) => d,
            Err(e) => {
                return Err(e);
            },
        };
        self.bytes_written = self.bytes_written + decrypted.len() as u64;
        let done = self.bytes_written >= self.file_size;
        if !done {
            self.chunk_id = self.chunk_id + 1;
        }
        Ok((decrypted, done))
    }
}

/// The writer stays on chunk boundaries: when it stands at the start of its
/// chunk and is handed a chunk of that chunk's planned size without
/// completing the file, it stands at the start of the next chunk.
pub proof fn lemma_writer_stays_aligned(k: nat, file_size: nat, size_multi: nat)
    requires
        k >= 1,
        spec_chunk_offset(k, size_multi) < file_size,
        spec_chunk_offset(k, size_multi) + spec_chunk_size(k, file_size, size_multi) < file_size,
    ensures
        spec_chunk_offset(k, size_multi) + spec_chunk_size(k, file_size, size_multi) == spec_chunk_offset(k + 1, size_multi),
{
    lemma_chunk_covers_to_next(k, file_size, size_multi);
}


/// The chunks joined in order.
pub open spec fn joined_chunks(chunks: Seq<Seq<u8>>) -> Seq<u8>
    decreases chunks.len(),
{
    if chunks.len() == 0 { Seq::empty() } else { chunks[0] + joined_chunks(chunks.drop_first()) }
}

/// What a writer standing at byte `start` appends for the chunks handed to
/// it in order: each chunk decrypted at the IV moved forward to its place
/// (what `write_chunk` returns for it), one after the other.
pub open spec fn writer_output(key: Seq<u8>, file_iv: Seq<u8>, start: nat, chunks: Seq<Seq<u8>>) -> Seq<u8>
    decreases chunks.len(),
{
    if chunks.len() == 0 {
        Seq::empty()
    } else {
        aes128_ctr_apply(key, spec_forward_iv(file_iv, start as u64), chunks[0])
            + writer_output(key, file_iv, start + chunks[0].len(), chunks.drop_first())
    }
}

/// Whether every chunk but the last is a whole number of AES blocks.
pub open spec fn blocks_until_last(chunks: Seq<Seq<u8>>) -> bool {
    forall|i: int| 0 <= i < chunks.len() - 1 ==> #[trigger] chunks[i].len() % 16 == 0
}

/// The writer's whole run: where `plain` is the CTR decryption of the
/// file's data (as `aes_ctr_decrypt` gives it for the file's IV) and the
/// chunks handed to the writer, from a block boundary `start` on, are the
/// file's data from there cut into pieces of whole blocks (but the last),
/// the writer's output is the matching part of `plain`.
pub proof fn lemma_writer_run(key: Seq<u8>, file_iv: Seq<u8>, data: Seq<u8>, plain: Seq<u8>, start: nat, chunks: Seq<Seq<u8>>)
    requires
        ctr_decryption_of(key, file_iv, data, plain),
        data.len() <= u64::MAX,
        start % 16 == 0,
        blocks_until_last(chunks),
        start + joined_chunks(chunks).len() <= data.len(),
        joined_chunks(chunks) == data.subrange(start as int, (start + joined_chunks(chunks).len()) as int),
    ensures
        writer_output(key, file_iv, start, chunks) == plain.subrange(start as int, (start + joined_chunks(chunks).len()) as int),
    decreases chunks.len(),
{
    if chunks.len() == 0 {
        assert(plain.subrange(start as int, start as int) =~= Seq::<u8>::empty());
    } else {
        let c0 = chunks[0];
        let rest = chunks.drop_first();
        let st: int = start as int;
        let n0: int = c0.len() as int;
        let total: int = joined_chunks(chunks).len() as int;
        let rest_total: int = joined_chunks(rest).len() as int;
        assert(total == n0 + rest_total);
        let whole = data.subrange(st, st + total);
        assert(c0 =~= whole.subrange(0, n0));
        assert(c0 =~= data.subrange(st, st + n0));
        assert(joined_chunks(rest) =~= whole.subrange(n0, total));
        assert(joined_chunks(rest) =~= data.subrange(st + n0, st + n0 + rest_total));
        let m0: nat = c0.len();
        assert(start % 16 == 0 && start + m0 <= data.len());
        assert(plain.subrange(start as int, (start + m0) as int) == aes128_ctr_apply(
            key,
            spec_forward_iv(file_iv, start as u64),
            data.subrange(start as int, (start + m0) as int),
        ));
        if rest.len() > 0 {
            assert(c0.len() % 16 == 0);
            assert forall|i: int| 0 <= i < rest.len() - 1 implies #[trigger] rest[i].len() % 16 == 0 by {
                assert(rest[i] == chunks[i + 1]);
            }
            lemma_writer_run(key, file_iv, data, plain, start + c0.len(), rest);
        } else {
            assert(joined_chunks(rest) =~= Seq::<u8>::empty());
            assert(plain.subrange(st + n0, st + n0) =~= Seq::<u8>::empty());
        }
        assert(c0 == data.subrange(start as int, (start + m0) as int));
        assert(writer_output(key, file_iv, start, chunks) == aes128_ctr_apply(key, spec_forward_iv(file_iv, start as u64), c0)
            + writer_output(key, file_iv, start + m0, rest));
        assert(writer_output(key, file_iv, start + m0, rest) == plain.subrange(st + n0, st + total));
        assert(plain.subrange(st, st + total) =~=
            plain.subrange(st, st + n0) + plain.subrange(st + n0, st + total));
    }
}

} // verus!
