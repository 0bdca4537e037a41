//! Chunk layout of a download: where each chunk starts, how large it is, and
//! how far a partially written file has got.

use vstd::prelude::*;
use crate::text::{decimal, push_decimal, str_chars, chars_to_string};

verus! {

/// Offsets in KiB of chunks 1 to 7.
const CHUNK_OFFSETS_KB: [u64; 7] = [0u64, 128, 384, 768, 1280, 1920, 2688];

/// Offset in KiB of chunk `k`, for `1 <= k <= 7`.
pub open spec fn small_chunk_offset_kb(k: int) -> nat {
    if k == 1 { 0 }
    else if k == 2 { 128 }
    else if k == 3 { 384 }
    else if k == 4 { 768 }
    else if k == 5 { 1280 }
    else if k == 6 { 1920 }
    else { 2688 }
}

/// Byte offset of chunk `chunk_id` (1-based): chunks 1 to 7 grow by 128 KiB
/// each, from chunk 8 on every chunk is `size_multi` MiB.
pub open spec fn spec_chunk_offset(chunk_id: nat, size_multi: nat) -> nat {
    if chunk_id <= 7 {
        small_chunk_offset_kb(chunk_id as int) * 1024
    } else {
        (3584 + ((chunk_id - 8) as nat) * 1024 * size_multi) * 1024
    }
}

/// Size in bytes of chunk `chunk_id` before clamping to the file.
pub open spec fn spec_chunk_raw_size(chunk_id: nat, size_multi: nat) -> nat {
    if chunk_id <= 7 { chunk_id * 128 * 1024 } else { 1024 * 1024 * size_multi }
}

/// Size in bytes of chunk `chunk_id` of a file of `file_size` bytes: zero
/// past the end, clamped to what remains of the file.
pub open spec fn spec_chunk_size(chunk_id: nat, file_size: nat, size_multi: nat) -> nat {
    let offset = spec_chunk_offset(chunk_id, size_multi);
    if offset >= file_size {
        0
    } else if spec_chunk_raw_size(chunk_id, size_multi) < file_size - offset {
        spec_chunk_raw_size(chunk_id, size_multi)
    } else {
        (file_size - offset) as nat
    }
}

/// Whether computing the offset of `chunk_id` stays within 64 bits at every step.
pub open spec fn chunk_offset_fits(chunk_id: nat, size_multi: nat) -> bool {
    chunk_id >= 1 && (chunk_id <= 7 || (
        ((chunk_id - 8) as nat) * 1024 <= u64::MAX
        && ((chunk_id - 8) as nat) * 1024 * size_multi <= u64::MAX
        && spec_chunk_offset(chunk_id, size_multi) <= u64::MAX))
}

/// Byte offset of a chunk (1-based).
pub fn calculate_chunk_offset(chunk_id: u64, size_multi: u32) -> (r: u64)
    requires
        chunk_offset_fits(chunk_id as nat, size_multi as nat),
    ensures
        r == spec_chunk_offset(chunk_id as nat, size_multi as nat),
{
    if chunk_id <= 7 {
        let idx = (chunk_id - 1) as usize;
        let kb = CHUNK_OFFSETS_KB[idx];
        assert(kb == small_chunk_offset_kb(chunk_id as int));
        kb * 1024
    } else {
        let a = (chunk_id - 8) * 1024;
        let b = a * size_multi as u64;
        assert(3584 + b <= u64::MAX) by (nonlinear_arith)
            requires (3584 + b) * 1024 <= u64::MAX;
        (3584 + b) * 1024
    }
}

/// Whether the offset of a chunk can be computed in 64 bits.
pub fn chunk_offset_in_range(chunk_id: u64, size_multi: u32) -> (r: bool)
    ensures
        r == chunk_offset_fits(chunk_id as nat, size_multi as nat),
{
    if chunk_id == 0 {
        return false;
    }
    if chunk_id <= 7 {
        return true;
    }
    let a = match (chunk_id - 8).checked_mul(1024) {
        Some(a) => a,
        None => {
            return false;
        },
    };
    let b = match a.checked_mul(size_multi as u64) {
        Some(b) => b,
        None => {
            return false;
        },
    };
    let c = match b.checked_add(3584) {
        Some(c) => c,
        None => {
            assert(spec_chunk_offset(chunk_id as nat, size_multi as nat) > u64::MAX) by (nonlinear_arith)
                requires
                    spec_chunk_offset(chunk_id as nat, size_multi as nat) == (3584 + b) * 1024,
                    3584 + b > u64::MAX;
            return false;
        },
    };
    c.checked_mul(1024).is_some()
}

/// Size in bytes of a chunk (1-based) of a file of `file_size` bytes.
pub fn calculate_chunk_size(chunk_id: u64, file_size: u64, size_multi: u32) -> (r: u64)
    requires
        chunk_offset_fits(chunk_id as nat, size_multi as nat),
    ensures
        r == spec_chunk_size(chunk_id as nat, file_size as nat, size_multi as nat),
{
    let offset = calculate_chunk_offset(chunk_id, size_multi);
    if offset >= file_size {
        return 0;
    }
    let raw_size = if chunk_id <= 7 {
        chunk_id * 128 * 1024
    } else {
        let m = size_multi as u64;
        assert(1048576 * m <= 1048576 * 0xffff_ffffu64) by (nonlinear_arith)
            requires m <= 0xffff_ffffu64;
        1024 * 1024 * m
    };
    if raw_size < file_size - offset { raw_size } else { file_size - offset }
}

/// The download URL of a byte range: `url/offset-last` for a chunk of
/// `chunk_size` bytes, or `url/offset` for an open-ended one.
pub open spec fn spec_chunk_url(file_url: Seq<char>, offset: nat, chunk_size: nat) -> Seq<char> {
    if chunk_size == 0 {
        file_url + seq!['/'] + decimal(offset)
    } else {
        file_url + seq!['/'] + decimal(offset) + seq!['-'] + decimal((offset + chunk_size - 1) as nat)
    }
}

/// The HTTP range URL for a chunk.
pub fn gen_chunk_url(file_url: &str, offset: u64, chunk_size: u64) -> (r: String)
    requires
        chunk_size == 0 || offset + chunk_size <= u64::MAX,
    ensures
        r@ == spec_chunk_url(file_url@, offset as nat, chunk_size as nat),
{
    let mut out = str_chars(file_url);
    out.push('/');
    push_decimal(&mut out, offset);
    if chunk_size != 0 {
        let end = offset + chunk_size - 1;
        out.push('-');
        push_decimal(&mut out, end);
    }
    assert(out@ =~= spec_chunk_url(file_url@, offset as nat, chunk_size as nat));
    chars_to_string(out.as_slice())
}

/// Whether a chunk starts inside a file of `file_size` bytes.
pub fn is_valid_chunk_id(chunk_id: u64, file_size: u64, size_multi: u32) -> (r: bool)
    requires
        chunk_offset_fits(chunk_id as nat, size_multi as nat),
    ensures
        r == (spec_chunk_offset(chunk_id as nat, size_multi as nat) < file_size),
{
    let offset = calculate_chunk_offset(chunk_id, size_multi);
    offset < file_size
}

/// Where chunks start: the first chunk at 0, each of the first seven chunks
/// 128 KiB longer than the one before (chunk `k` is `k * 128` KiB long),
/// and every chunk from the eighth on `size_multi` MiB long, the eighth
/// starting at 3584 KiB.
pub proof fn lemma_chunk_layout(k: nat, size_multi: nat)
    requires
        k >= 1,
    ensures
        spec_chunk_offset(1, size_multi) == 0,
        k <= 8 ==> spec_chunk_offset(k, size_multi) == 65536 * k * (k - 1),
        k >= 8 ==> spec_chunk_offset(k + 1, size_multi) == spec_chunk_offset(k, size_multi) + 1048576 * size_multi,
        k <= 7 ==> spec_chunk_raw_size(k, size_multi) == 131072 * k,
        k >= 8 ==> spec_chunk_raw_size(k, size_multi) == 1048576 * size_multi,
{
    if k <= 8 {
        assert(65536 * k * (k - 1) == (if k == 1 { 0 } else if k == 2 { 131072 } else if k == 3 { 393216 }
            else if k == 4 { 786432 } else if k == 5 { 1310720 } else if k == 6 { 1966080 }
            else if k == 7 { 2752512 } else { 3670016int })) by (nonlinear_arith)
            requires
                1 <= k <= 8;
        if k == 8 {
            let z: nat = (8 - 8) as nat;
            assert(z * 1024 * size_multi == 0) by (nonlinear_arith)
                requires
                    z == 0;
        }
    }
    if k >= 8 {
        lemma_chunks_contiguous(k, size_multi);
    }
}

/// Chunk `k + 1` starts where chunk `k` ends, before clamping to the file.
pub proof fn lemma_chunks_contiguous(k: nat, size_multi: nat)
    requires
        k >= 1,
    ensures
        spec_chunk_offset(k + 1, size_multi) == spec_chunk_offset(k, size_multi) + spec_chunk_raw_size(k, size_multi),
{
    if k >= 8 {
        let a = (k - 8) as nat;
        assert((3584 + (a + 1) * 1024 * size_multi) * 1024 == (3584 + a * 1024 * size_multi) * 1024 + 1024 * 1024 * size_multi)
            by (nonlinear_arith);
        assert(((k + 1 - 8) as nat) == a + 1);
    }
}

/// Within a file, chunk `k` runs up to where chunk `k + 1` starts or to the
/// end of the file, whichever comes first: the chunks tile the file.
pub proof fn lemma_chunk_covers_to_next(k: nat, file_size: nat, size_multi: nat)
    requires
        k >= 1,
        spec_chunk_offset(k, size_multi) < file_size,
    ensures
        spec_chunk_offset(k, size_multi) + spec_chunk_size(k, file_size, size_multi)
            == if spec_chunk_offset(k + 1, size_multi) < file_size { spec_chunk_offset(k + 1, size_multi) } else { file_size },
{
    lemma_chunks_contiguous(k, size_multi);
}

/// The total size of chunks 1 to `n` of a file of `file_size` bytes.
pub open spec fn chunk_sizes_sum(n: nat, file_size: nat, size_multi: nat) -> nat
    decreases n,
{
    if n == 0 {
        0
    } else {
        chunk_sizes_sum((n - 1) as nat, file_size, size_multi) + spec_chunk_size(n, file_size, size_multi)
    }
}

/// The chunks tile the file: chunks 1 to `n` together cover the file up to
/// the start of chunk `n + 1` (or all of it, once that start is past the
/// end); a chunk that starts inside the file is not empty, and one that
/// starts at or past the end is.
pub proof fn lemma_chunk_sizes_tile(n: nat, file_size: nat, size_multi: nat)
    ensures
        chunk_sizes_sum(n, file_size, size_multi) == (if spec_chunk_offset(n + 1, size_multi) < file_size {
            spec_chunk_offset(n + 1, size_multi)
        } else {
            file_size
        }),
        n >= 1 && spec_chunk_offset(n, size_multi) >= file_size ==> spec_chunk_size(n, file_size, size_multi) == 0,
        n >= 1 && spec_chunk_offset(n, size_multi) < file_size && (n <= 7 || size_multi >= 1)
            ==> spec_chunk_size(n, file_size, size_multi) > 0,
    decreases n,
{
    if n >= 1 {
        lemma_chunk_sizes_tile((n - 1) as nat, file_size, size_multi);
        lemma_chunks_contiguous(n, size_multi);
        if n <= 7 {
            assert(n * 128 * 1024 > 0) by (nonlinear_arith)
                requires
                    n >= 1;
        } else if size_multi >= 1 {
            assert(1024 * 1024 * size_multi > 0) by (nonlinear_arith)
                requires
                    size_multi >= 1;
        }
    }
}

/// Whether chunk `k` is a non-empty chunk lying wholly within the first
/// `current_bytes` bytes of the file.
pub open spec fn chunk_written(k: nat, current_bytes: nat, size_multi: nat) -> bool {
    k >= 1 && spec_chunk_raw_size(k, size_multi) > 0 && spec_chunk_offset(k + 1, size_multi) <= current_bytes
}

/// How many chunks a file holding `current_bytes` bytes has fully written:
/// the chunks end at the offsets of their successors, so this is the
/// number of chunk ends at or before `current_bytes`.
pub open spec fn spec_last_written_chunk(current_bytes: nat, size_multi: nat) -> nat {
    if current_bytes < 131072 {
        0
    } else if current_bytes < 393216 {
        1
    } else if current_bytes < 786432 {
        2
    } else if current_bytes < 1310720 {
        3
    } else if current_bytes < 1966080 {
        4
    } else if current_bytes < 2752512 {
        5
    } else if current_bytes < 3670016 {
        6
    } else if size_multi == 0 {
        7
    } else {
        7 + ((current_bytes / 1024 - 3584) as nat) / (1024 * size_multi)
    }
}

/// Chunk offsets never decrease.
pub proof fn lemma_offset_monotone(a: nat, b: nat, size_multi: nat)
    requires
        1 <= a <= b,
    ensures
        spec_chunk_offset(a, size_multi) <= spec_chunk_offset(b, size_multi),
{
    if a >= 8 {
        assert(((a - 8) as nat) * 1024 * size_multi <= ((b - 8) as nat) * 1024 * size_multi) by (nonlinear_arith)
            requires
                a <= b,
                a >= 8;
    } else if b >= 8 {
        assert(((b - 8) as nat) * 1024 * size_multi >= 0) by (nonlinear_arith);
    }
}

/// The count is exact: the chunks up to it are fully written and no later
/// chunk is.
pub proof fn lemma_last_written_meaning(current_bytes: nat, size_multi: nat)
    ensures
        ({
            let r = spec_last_written_chunk(current_bytes, size_multi);
            &&& forall|k: nat| 1 <= k <= r ==> #[trigger] chunk_written(k, current_bytes, size_multi)
            &&& forall|k: nat| k > r ==> !#[trigger] chunk_written(k, current_bytes, size_multi)
        }),
{
    let r = spec_last_written_chunk(current_bytes, size_multi);
    let m = size_multi;
    // The end of chunk `r` is within the bytes (when r > 0), and the end of
    // chunk `r + 1` is past them (unless no later chunk holds anything).
    if r >= 8 {
        let c = (current_bytes / 1024 - 3584) as nat;
        let q = c / (1024 * m);
        assert(r == 7 + q);
        assert(((r + 1 - 8) as nat) == q);
        assert(((r + 2 - 8) as nat) == q + 1);
        assert(spec_chunk_offset(r + 1, m) <= current_bytes) by (nonlinear_arith)
            requires
                spec_chunk_offset(r + 1, m) == (3584 + q * 1024 * m) * 1024,
                q == c / (1024 * m),
                c == current_bytes / 1024 - 3584,
                m >= 1;
        assert(spec_chunk_offset(r + 2, m) > current_bytes) by (nonlinear_arith)
            requires
                spec_chunk_offset(r + 2, m) == (3584 + (q + 1) * 1024 * m) * 1024,
                q == c / (1024 * m),
                c == current_bytes / 1024 - 3584,
                m >= 1;
    } else if r == 7 && m >= 1 {
        let c = (current_bytes / 1024 - 3584) as nat;
        assert(c / (1024 * m) == 0);
        assert(spec_chunk_offset(9, m) > current_bytes) by (nonlinear_arith)
            requires
                spec_chunk_offset(9, m) == (3584 + 1 * 1024 * m) * 1024,
                c / (1024 * m) == 0,
                c == current_bytes / 1024 - 3584,
                m >= 1;
    }
    if r == 7 {
        let z: nat = (8 - 8) as nat;
        assert(z * 1024 * m == 0) by (nonlinear_arith)
            requires
                z == 0;
        assert(spec_chunk_offset(8, m) == 3670016);
    }
    assert(r >= 8 ==> m >= 1);
    assert(r >= 1 ==> spec_chunk_offset(r + 1, m) <= current_bytes);
    assert forall|k: nat| 1 <= k <= r implies #[trigger] chunk_written(k, current_bytes, size_multi) by {
        lemma_offset_monotone(k + 1, r + 1, m);
        assert(spec_chunk_offset(k + 1, m) <= current_bytes);
        if k >= 8 {
            assert(1024 * 1024 * m > 0) by (nonlinear_arith)
                requires
                    m >= 1;
        } else {
            assert(k * 128 * 1024 > 0) by (nonlinear_arith)
                requires
                    k >= 1;
        }
    }
    assert forall|k: nat| k > r implies !#[trigger] chunk_written(k, current_bytes, size_multi) by {
        if !(r == 7 && m == 0) {
            lemma_offset_monotone(r + 2, k + 1, m);
        }
    }
}

/// Chunk offsets that fit in 64 bits can be computed in 64 bits.
proof fn lemma_offset_fits(k: nat, size_multi: nat)
    requires
        k >= 1,
        k <= 8 || size_multi >= 1,
        spec_chunk_offset(k, size_multi) <= u64::MAX,
    ensures
        chunk_offset_fits(k, size_multi),
{
    if k > 8 {
        assert(((k - 8) as nat) * 1024 <= ((k - 8) as nat) * 1024 * size_multi) by (nonlinear_arith)
            requires
                size_multi >= 1;
        assert(((k - 8) as nat) * 1024 * size_multi <= (3584 + ((k - 8) as nat) * 1024 * size_multi) * 1024)
            by (nonlinear_arith);
    }
}

/// How many chunks have been fully written, for a file already holding
/// `current_bytes` bytes.
pub fn calculate_last_written_chunk(current_bytes: u64, size_multi: u32) -> (r: u64)
    ensures
        r == spec_last_written_chunk(current_bytes as nat, size_multi as nat),
        forall|k: nat| 1 <= k <= r ==> #[trigger] chunk_written(k, current_bytes as nat, size_multi as nat),
        forall|k: nat| k > r ==> !#[trigger] chunk_written(k, current_bytes as nat, size_multi as nat),
        r < 0x1_0000_0000_0000,
        chunk_offset_fits(r as nat + 1, size_multi as nat),
        spec_chunk_offset(r as nat + 1, size_multi as nat) <= current_bytes,
{
    proof {
        lemma_last_written_meaning(current_bytes as nat, size_multi as nat);
    }
    let r: u64 = if current_bytes < 131072 {
        0
    } else if current_bytes < 393216 {
        1
    } else if current_bytes < 786432 {
        2
    } else if current_bytes < 1310720 {
        3
    } else if current_bytes < 1966080 {
        4
    } else if current_bytes < 2752512 {
        5
    } else if current_bytes < 3670016 {
        6
    } else if size_multi == 0 {
        7
    } else {
        let c = current_bytes / 1024 - 3584;
        let unit = 1024 * (size_multi as u64);
        assert(c / unit <= c / 1024) by (nonlinear_arith)
            requires
                unit >= 1024;
        assert(c / 1024 < 0x1_0000_0000_0000 - 8);
        7 + c / unit
    };
    proof {
        if r >= 1 {
            assert(chunk_written(r as nat, current_bytes as nat, size_multi as nat));
            lemma_offset_fits(r as nat + 1, size_multi as nat);
        }
    }
    r
}

} // verus!
