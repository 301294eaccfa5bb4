//! SBT metadata compression: delta encoding with a run-length fallback.
//!
//! Format of compressed data: the magic byte `0xC1`, a flag byte (non-zero
//! for delta encoding, zero for run-length encoding), then the body. A
//! delta body holds one byte per input byte (the difference to the previous
//! input byte, modulo 256); a run-length body holds `(count, byte)` pairs.
use vstd::prelude::*;

verus! {

/// First byte marking compressed SBT metadata.
pub const COMPRESSION_MAGIC: u8 = 0xC1;

/// Reasons a compression or decompression request is refused.
#[derive(Copy, Clone, Debug, PartialEq, Eq, Structural)]
pub enum CompressionError {
    /// Input metadata was empty.
    EmptyMetadata,
    /// Compressed data is malformed.
    InvalidCompressedData,
    /// The output would exceed the maximum size.
    OutputTooLarge,
}

impl CompressionError {
    /// The contract error code of this error.
    pub fn code(&self) -> (c: u32)
        ensures
            c == match *self {
                CompressionError::EmptyMetadata => 200u32,
                CompressionError::InvalidCompressedData => 201u32,
                CompressionError::OutputTooLarge => 202u32,
            },
    {
        match self {
            CompressionError::EmptyMetadata => 200,
            CompressionError::InvalidCompressedData => 201,
            CompressionError::OutputTooLarge => 202,
        }
    }
}

// ---------------------------------------------------------------------------
// Specification
// ---------------------------------------------------------------------------

/// Delta encoding: each byte is replaced by its difference (mod 256) to the
/// byte before it; the first byte is kept as it is.
pub open spec fn delta_encode(m: Seq<u8>) -> Seq<u8> {
    Seq::new(
        m.len(),
        |i: int| (if i == 0 { m[0] as int } else { (m[i] - m[i - 1]) % 256 }) as u8,
    )
}

/// Sum of the first `n` bytes of `d`.
pub open spec fn running_sum(d: Seq<u8>, n: int) -> int
    decreases n,
{
    if n <= 0 {
        0
    } else {
        running_sum(d, n - 1) + d[n - 1]
    }
}

/// Delta decoding: byte `i` of the output is the sum of the first `i + 1`
/// deltas, modulo 256.
pub open spec fn delta_decode(d: Seq<u8>) -> Seq<u8> {
    Seq::new(d.len(), |i: int| (running_sum(d, i + 1) % 256) as u8)
}

/// Length of the greedy run of bytes equal to `m[i]` that starts at `i`,
/// counted from `r` on and capped at 255.
pub open spec fn run_from(m: Seq<u8>, i: int, r: int) -> int
    decreases 255 - r,
{
    if r < 255 && i + r < m.len() && m[i + r] == m[i] {
        run_from(m, i, r + 1)
    } else {
        r
    }
}

/// Length of the run starting at `i` (at least one byte, at most 255).
pub open spec fn run_len(m: Seq<u8>, i: int) -> int {
    run_from(m, i, 1)
}

/// Run-length encoding of `m` from position `i` on: greedy runs, each
/// written as a `(count, byte)` pair.
pub open spec fn rle_encode_from(m: Seq<u8>, i: int) -> Seq<u8>
    decreases m.len() - i,
{
    if i < 0 || i >= m.len() {
        Seq::empty()
    } else {
        let r = run_len(m, i);
        if r < 1 || i + r > m.len() {
            Seq::empty()
        } else {
            seq![r as u8, m[i]] + rle_encode_from(m, i + r)
        }
    }
}

/// Run-length encoding of the whole of `m`.
pub open spec fn rle_encode(m: Seq<u8>) -> Seq<u8> {
    rle_encode_from(m, 0)
}

/// Expansion of a sequence of `(count, byte)` pairs; a lone trailing byte
/// is ignored.
pub open spec fn rle_expand(s: Seq<u8>) -> Seq<u8>
    decreases s.len(),
{
    if s.len() < 2 {
        Seq::empty()
    } else {
        Seq::new(s[0] as nat, |k: int| s[1]) + rle_expand(s.skip(2))
    }
}

/// Length of the longest prefix of `s` made of complete pairs.
pub open spec fn even_len(s: Seq<u8>) -> int {
    2 * (s.len() as int / 2)
}

/// Whether an output of `len` bytes trips the size limit: `max` is the
/// largest output allowed.
pub open spec fn trips_limit(len: int, max: u32) -> bool {
    len > max
}

/// What `compress_with_delta` gives.
pub open spec fn delta_compressed(m: Seq<u8>, max: u32) -> Result<Seq<u8>, CompressionError> {
    if trips_limit(m.len() + 2int, max) && m.len() > 0 {
        Err(CompressionError::OutputTooLarge)
    } else {
        Ok(seq![COMPRESSION_MAGIC, 1u8] + delta_encode(m))
    }
}

/// What `compress_with_rle` gives.
pub open spec fn rle_compressed(m: Seq<u8>, max: u32) -> Result<Seq<u8>, CompressionError> {
    if trips_limit(rle_encode(m).len() + 2int, max) && m.len() > 0 {
        Err(CompressionError::OutputTooLarge)
    } else {
        Ok(seq![COMPRESSION_MAGIC, 0u8] + rle_encode(m))
    }
}

/// What `compress_metadata` gives.
pub open spec fn compressed(m: Seq<u8>, max: u32) -> Result<Seq<u8>, CompressionError> {
    if m.len() == 0 {
        Err(CompressionError::EmptyMetadata)
    } else if delta_compressed(m, max) is Ok {
        delta_compressed(m, max)
    } else {
        rle_compressed(m, max)
    }
}

/// What decoding a delta body gives.
pub open spec fn delta_decompressed(body: Seq<u8>, max: u32) -> Result<Seq<u8>, CompressionError> {
    if trips_limit(body.len() as int, max) {
        Err(CompressionError::OutputTooLarge)
    } else {
        Ok(delta_decode(body))
    }
}

/// What decoding a run-length body gives: the limit is checked while the
/// complete pairs are expanded, and a lone trailing byte is refused after.
pub open spec fn rle_decompressed(body: Seq<u8>, max: u32) -> Result<Seq<u8>, CompressionError> {
    let out = rle_expand(body);
    if trips_limit(out.len() as int, max) {
        Err(CompressionError::OutputTooLarge)
    } else if body.len() % 2 == 1 {
        Err(CompressionError::InvalidCompressedData)
    } else {
        Ok(out)
    }
}

/// What `decompress_metadata` gives.
pub open spec fn decompressed(c: Seq<u8>, max: u32) -> Result<Seq<u8>, CompressionError> {
    if c.len() < 2 || c[0] != COMPRESSION_MAGIC {
        Err(CompressionError::InvalidCompressedData)
    } else if c[1] != 0 {
        delta_decompressed(c.skip(2), max)
    } else {
        rle_decompressed(c.skip(2), max)
    }
}

// ---------------------------------------------------------------------------
// Lemmas
// ---------------------------------------------------------------------------

proof fn lemma_run_from_bounds(m: Seq<u8>, i: int, r: int)
    requires
        0 <= i < m.len(),
        1 <= r <= 255,
        i + r <= m.len(),
        forall|k: int| 0 <= k < r ==> #[trigger] m[i + k] == m[i],
    ensures
        r <= run_from(m, i, r) <= 255,
        i + run_from(m, i, r) <= m.len(),
        forall|k: int| 0 <= k < run_from(m, i, r) ==> #[trigger] m[i + k] == m[i],
    decreases 255 - r,
{
    if r < 255 && i + r < m.len() && m[i + r] == m[i] {
        assert forall|k: int| 0 <= k < r + 1 implies #[trigger] m[i + k] == m[i] by {
            if k < r {
            }
        }
        lemma_run_from_bounds(m, i, r + 1);
    }
}

proof fn lemma_run_len(m: Seq<u8>, i: int)
    requires
        0 <= i < m.len(),
    ensures
        1 <= run_len(m, i) <= 255,
        i + run_len(m, i) <= m.len(),
        forall|k: int| 0 <= k < run_len(m, i) ==> #[trigger] m[i + k] == m[i],
{
    lemma_run_from_bounds(m, i, 1);
}

/// Expanding a run-length encoding gives back the input.
proof fn lemma_rle_roundtrip_from(m: Seq<u8>, i: int)
    requires
        0 <= i <= m.len(),
    ensures
        rle_expand(rle_encode_from(m, i)) =~= m.skip(i),
        rle_encode_from(m, i).len() % 2 == 0,
    decreases m.len() - i,
{
    if i < m.len() {
        lemma_run_len(m, i);
        let r = run_len(m, i);
        lemma_rle_roundtrip_from(m, i + r);
        let rest = rle_encode_from(m, i + r);
        let enc = seq![r as u8, m[i]] + rest;
        assert(enc.skip(2) =~= rest);
        assert(enc[0] == r as u8);
        assert(enc[1] == m[i]);
        let run = Seq::new(r as nat, |k: int| m[i]);
        assert forall|k: int| 0 <= k < r implies run[k] == m.subrange(i, i + r)[k] by {
            assert(m[i + k] == m[i]);
        }
        assert(run =~= m.subrange(i, i + r));
        assert(m.skip(i) =~= m.subrange(i, i + r) + m.skip(i + r));
    } else {
        assert(m.skip(i) =~= Seq::<u8>::empty());
    }
}

/// Expanding `k + 1` pairs is expanding `k` pairs, then the next pair.
proof fn lemma_rle_expand_snoc(s: Seq<u8>, k: int)
    requires
        0 <= k,
        2 * k + 2 <= s.len(),
    ensures
        rle_expand(s.take(2 * k + 2)) =~= rle_expand(s.take(2 * k)) + Seq::new(
            s[2 * k] as nat,
            |j: int| s[2 * k + 1],
        ),
    decreases k,
{
    if k == 0 {
        let t = s.take(2);
        assert(t.skip(2) =~= Seq::<u8>::empty());
        assert(rle_expand(t.skip(2)) =~= Seq::<u8>::empty());
        assert(rle_expand(s.take(0)) =~= Seq::<u8>::empty());
    } else {
        let s2 = s.skip(2);
        lemma_rle_expand_snoc(s2, k - 1);
        assert(s.take(2 * k + 2).skip(2) =~= s2.take(2 * k));
        assert(s.take(2 * k).skip(2) =~= s2.take(2 * k - 2));
        assert(s2[2 * (k - 1)] == s[2 * k]);
        assert(s2[2 * (k - 1) + 1] == s[2 * k + 1]);
    }
}

/// Expansion ignores a lone trailing byte.
proof fn lemma_rle_expand_even_prefix(s: Seq<u8>)
    ensures
        rle_expand(s) =~= rle_expand(s.take(even_len(s))),
    decreases s.len(),
{
    if s.len() >= 2 {
        lemma_rle_expand_even_prefix(s.skip(2));
        let t = s.take(even_len(s));
        assert(t.skip(2) =~= s.skip(2).take(even_len(s.skip(2))));
    } else {
        assert(s.take(even_len(s)) =~= Seq::<u8>::empty());
    }
}

proof fn lemma_running_sum_mod(d: Seq<u8>, n: int)
    requires
        0 <= n < d.len(),
    ensures
        running_sum(d, n + 1) % 256 == ((running_sum(d, n) % 256) + d[n]) % 256,
{
    vstd::arithmetic::div_mod::lemma_add_mod_noop(running_sum(d, n), d[n] as int, 256);
    vstd::arithmetic::div_mod::lemma_small_mod(d[n] as nat, 256);
}

/// Decoding a delta encoding gives back the input.
proof fn lemma_delta_roundtrip(m: Seq<u8>)
    ensures
        delta_decode(delta_encode(m)) =~= m,
{
    let e = delta_encode(m);
    assert forall|i: int| 0 <= i < m.len() implies running_sum(e, i + 1) % 256 == m[i] by {
        lemma_delta_prefix(m, i);
    }
}

proof fn lemma_delta_prefix(m: Seq<u8>, i: int)
    requires
        0 <= i < m.len(),
    ensures
        running_sum(delta_encode(m), i + 1) % 256 == m[i],
    decreases i,
{
    let e = delta_encode(m);
    if i == 0 {
        assert(running_sum(e, 0) == 0);
    } else {
        lemma_delta_prefix(m, i - 1);
        lemma_running_sum_mod(e, i);
        let diff = m[i] - m[i - 1];
        assert(e[i] as int == diff % 256);
        vstd::arithmetic::div_mod::lemma_add_mod_noop(m[i - 1] as int, diff, 256);
        vstd::arithmetic::div_mod::lemma_small_mod(m[i - 1] as nat, 256);
        vstd::arithmetic::div_mod::lemma_small_mod(m[i] as nat, 256);
        vstd::arithmetic::div_mod::lemma_mod_twice(diff, 256);
    }
}

// ---------------------------------------------------------------------------
// Public API
// ---------------------------------------------------------------------------

/// Compresses metadata with delta encoding, or with run-length encoding
/// where the delta form would exceed `max_compressed_size` bytes.
pub fn compress_metadata(metadata: &[u8], max_compressed_size: u32) -> (res: Result<
    Vec<u8>,
    CompressionError,
>)
    ensures
        match res {
            Ok(c) => compressed(metadata@, max_compressed_size) == Ok::<
                Seq<u8>,
                CompressionError,
            >(c@),
            Err(e) => compressed(metadata@, max_compressed_size) == Err::<
                Seq<u8>,
                CompressionError,
            >(e),
        },
{
    if metadata.len() == 0 {
        return Err(CompressionError::EmptyMetadata);
    }
    match compress_with_delta(metadata, max_compressed_size) {
        Ok(c) => Ok(c),
        Err(_) => compress_with_rle(metadata, max_compressed_size),
    }
}

/// Decompresses metadata that `compress_metadata` produced, refusing to
/// produce more than `max_decompressed_size` bytes.
pub fn decompress_metadata(compressed_data: &[u8], max_decompressed_size: u32) -> (res: Result<
    Vec<u8>,
    CompressionError,
>)
    ensures
        match res {
            Ok(m) => decompressed(compressed_data@, max_decompressed_size) == Ok::<
                Seq<u8>,
                CompressionError,
            >(m@),
            Err(e) => decompressed(compressed_data@, max_decompressed_size) == Err::<
                Seq<u8>,
                CompressionError,
            >(e),
        },
{
    if compressed_data.len() == 0 {
        return Err(CompressionError::InvalidCompressedData);
    }
    if compressed_data[0] != COMPRESSION_MAGIC {
        return Err(CompressionError::InvalidCompressedData);
    }
    if compressed_data.len() < 2 {
        return Err(CompressionError::InvalidCompressedData);
    }
    if compressed_data[1] != 0 {
        decompress_delta_encoded(compressed_data, max_decompressed_size)
    } else {
        decompress_rle_encoded(compressed_data, max_decompressed_size)
    }
}

/// Whether data starts with the compression magic byte.
pub fn is_compressed(metadata: &[u8]) -> (b: bool)
    ensures
        b == (metadata@.len() > 0 && metadata@[0] == COMPRESSION_MAGIC),
{
    metadata.len() > 0 && metadata[0] == COMPRESSION_MAGIC
}

/// Decompressing what `compress_metadata` produced gives back the
/// metadata, whenever the metadata is shorter than the decompression limit.
pub proof fn lemma_compression_roundtrip(m: Seq<u8>, max_compressed: u32, max_decompressed: u32)
    requires
        compressed(m, max_compressed) is Ok,
        m.len() < max_decompressed,
    ensures
        decompressed(compressed(m, max_compressed)->Ok_0, max_decompressed) == Ok::<
            Seq<u8>,
            CompressionError,
        >(m),
{
    let c = compressed(m, max_compressed)->Ok_0;
    if delta_compressed(m, max_compressed) is Ok {
        assert(c.skip(2) =~= delta_encode(m));
        lemma_delta_roundtrip(m);
    } else {
        assert(c.skip(2) =~= rle_encode(m));
        lemma_rle_roundtrip_from(m, 0);
        assert(m.skip(0) =~= m);
    }
}

/// Compressed data is recognised as compressed.
pub proof fn lemma_compressed_is_marked(m: Seq<u8>, max_compressed: u32)
    requires
        compressed(m, max_compressed) is Ok,
    ensures
        compressed(m, max_compressed)->Ok_0.len() > 0,
        compressed(m, max_compressed)->Ok_0[0] == COMPRESSION_MAGIC,
{
}

// ---------------------------------------------------------------------------
// Encoders and decoders
// ---------------------------------------------------------------------------

fn compress_with_delta(metadata: &[u8], max_size: u32) -> (res: Result<Vec<u8>, CompressionError>)
    requires
        metadata@.len() > 0,
    ensures
        match res {
            Ok(c) => delta_compressed(metadata@, max_size) == Ok::<Seq<u8>, CompressionError>(
                c@,
            ),
            Err(e) => delta_compressed(metadata@, max_size) == Err::<Seq<u8>, CompressionError>(
                e,
            ),
        },
{
    let mut out: Vec<u8> = Vec::new();
    out.push(COMPRESSION_MAGIC);
    out.push(1);
    let len = metadata.len();
    let mut prev: u8 = 0;
    let mut i: usize = 0;
    while i < len
        invariant
            len == metadata@.len(),
            0 < len,
            i <= len,
            out@.len() == i + 2,
            out@.len() <= max_size || i == 0,
            out@ =~= seq![COMPRESSION_MAGIC, 1u8] + delta_encode(metadata@).take(i as int),
            i > 0 ==> prev == metadata@[i - 1],
            i == 0 ==> prev == 0,
        decreases len - i,
    {
        let current = metadata[i];
        let delta = current.wrapping_sub(prev);
        proof {
            let d = delta_encode(metadata@);
            if i == 0 {
                assert(d[0] == current);
            } else {
                assert(d[i as int] as int == (current - prev) % 256);
            }
            assert(delta as int == d[i as int]);
        }
        out.push(delta);
        if out.len() > max_size as usize {
            return Err(CompressionError::OutputTooLarge);
        }
        prev = current;
        i += 1;
        proof {
            assert(out@ =~= seq![COMPRESSION_MAGIC, 1u8] + delta_encode(metadata@).take(i as int));
        }
    }
    proof {
        assert(delta_encode(metadata@).take(len as int) =~= delta_encode(metadata@));
    }
    Ok(out)
}

fn compress_with_rle(metadata: &[u8], max_size: u32) -> (res: Result<Vec<u8>, CompressionError>)
    requires
        metadata@.len() > 0,
    ensures
        match res {
            Ok(c) => rle_compressed(metadata@, max_size) == Ok::<Seq<u8>, CompressionError>(c@),
            Err(e) => rle_compressed(metadata@, max_size) == Err::<Seq<u8>, CompressionError>(
                e,
            ),
        },
{
    let ghost m = metadata@;
    let mut out: Vec<u8> = Vec::new();
    out.push(COMPRESSION_MAGIC);
    out.push(0);
    let len = metadata.len();
    let mut i: usize = 0;
    while i < len
        invariant
            len == m.len(),
            m == metadata@,
            0 < len,
            i <= len,
            out@.len() >= 2,
            out@.len() <= max_size || i == 0,
            out@[0] == COMPRESSION_MAGIC,
            out@[1] == 0u8,
            out@.skip(2) + rle_encode_from(m, i as int) =~= rle_encode(m),
        decreases len - i,
    {
        let current = metadata[i];
        let mut run: usize = 1;
        while run < 255 && i + run < len && metadata[i + run] == current
            invariant
                len == m.len(),
                m == metadata@,
                i < len,
                1 <= run <= 255,
                i + run <= len,
                current == m[i as int],
                run_from(m, i as int, run as int) == run_len(m, i as int),
            decreases 255 - run,
        {
            run += 1;
        }
        proof {
            lemma_run_len(m, i as int);
            assert(run as int == run_len(m, i as int));
        }
        let ghost before = out@;
        out.push(run as u8);
        out.push(current);
        proof {
            let r = run as int;
            let rest = rle_encode_from(m, i + r);
            assert(rle_encode_from(m, i as int) == seq![r as u8, m[i as int]] + rest);
            assert(out@.skip(2) =~= before.skip(2) + seq![r as u8, m[i as int]]);
        }
        if out.len() > max_size as usize {
            proof {
                lemma_rle_tail_len(m, (i + run) as int);
                let rest = rle_encode_from(m, (i + run) as int);
                assert(rle_encode(m).len() == out@.len() - 2 + rest.len());
            }
            return Err(CompressionError::OutputTooLarge);
        }
        i += run;
    }
    proof {
        assert(rle_encode_from(m, len as int) =~= Seq::<u8>::empty());
        assert(out@ =~= seq![COMPRESSION_MAGIC, 0u8] + out@.skip(2));
    }
    Ok(out)
}

proof fn lemma_rle_tail_len(m: Seq<u8>, i: int)
    ensures
        rle_encode_from(m, i).len() >= 0,
{
}

fn decompress_delta_encoded(compressed_data: &[u8], max_size: u32) -> (res: Result<
    Vec<u8>,
    CompressionError,
>)
    requires
        compressed_data@.len() >= 2,
    ensures
        match res {
            Ok(m) => delta_decompressed(compressed_data@.skip(2), max_size) == Ok::<
                Seq<u8>,
                CompressionError,
            >(m@),
            Err(e) => delta_decompressed(compressed_data@.skip(2), max_size) == Err::<
                Seq<u8>,
                CompressionError,
            >(e),
        },
{
    let ghost body = compressed_data@.skip(2);
    let mut out: Vec<u8> = Vec::new();
    let mut current: u8 = 0;
    let compressed_len = compressed_data.len();
    let mut i: usize = 2;
    while i < compressed_len
        invariant
            compressed_len == compressed_data@.len(),
            body == compressed_data@.skip(2),
            2 <= i <= compressed_len,
            out@.len() == i - 2,
            !trips_limit(out@.len() as int, max_size),
            current as int == running_sum(body, i - 2) % 256,
            out@ =~= delta_decode(body).take(i - 2),
        decreases compressed_len - i,
    {
        let delta = compressed_data[i];
        proof {
            lemma_running_sum_mod(body, i - 2);
            assert(body[i - 2] == delta);
        }
        current = current.wrapping_add(delta);
        out.push(current);
        if out.len() > max_size as usize {
            return Err(CompressionError::OutputTooLarge);
        }
        i += 1;
        proof {
            assert(out@ =~= delta_decode(body).take(i - 2));
        }
    }
    proof {
        assert(delta_decode(body).take(body.len() as int) =~= delta_decode(body));
    }
    Ok(out)
}

fn decompress_rle_encoded(compressed_data: &[u8], max_size: u32) -> (res: Result<
    Vec<u8>,
    CompressionError,
>)
    requires
        compressed_data@.len() >= 2,
    ensures
        match res {
            Ok(m) => rle_decompressed(compressed_data@.skip(2), max_size) == Ok::<
                Seq<u8>,
                CompressionError,
            >(m@),
            Err(e) => rle_decompressed(compressed_data@.skip(2), max_size) == Err::<
                Seq<u8>,
                CompressionError,
            >(e),
        },
{
    let ghost body = compressed_data@.skip(2);
    let mut out: Vec<u8> = Vec::new();
    let compressed_len = compressed_data.len();
    let mut i: usize = 2;
    while i < compressed_len
        invariant
            compressed_len == compressed_data@.len(),
            body == compressed_data@.skip(2),
            2 <= i,
            i <= compressed_len,
            (i - 2) % 2 == 0,
            !trips_limit(out@.len() as int, max_size),
            out@ =~= rle_expand(body.take(i - 2)),
        decreases compressed_len - i,
    {
        if i + 1 >= compressed_len {
            proof {
                lemma_rle_expand_even_prefix(body);
                assert(body.take(even_len(body)) =~= body.take(i - 2));
            }
            return Err(CompressionError::InvalidCompressedData);
        }
        let count = compressed_data[i];
        let byte = compressed_data[i + 1];
        let ghost k = (i - 2) / 2;
        proof {
            lemma_rle_expand_snoc(body, k);
            assert(body[2 * k] == count);
            assert(body[2 * k + 1] == byte);
        }
        let ghost before = out@;
        let mut j: u8 = 0;
        while j < count
            invariant
                compressed_len == compressed_data@.len(),
                body == compressed_data@.skip(2),
                2 <= i,
                i + 1 < compressed_len,
                k == (i - 2) / 2,
                (i - 2) % 2 == 0,
                0 <= k,
                2 * k + 2 <= body.len(),
                rle_expand(body.take(2 * k + 2)) =~= before + Seq::new(count as nat, |x: int| byte),
                before == rle_expand(body.take(i - 2)),
                out@ =~= before + Seq::new(j as nat, |x: int| byte),
                j <= count,
                !trips_limit(out@.len() as int, max_size),
            decreases count - j,
        {
            out.push(byte);
            if out.len() > max_size as usize {
                proof {
                    lemma_rle_expand_monotone(body, k + 1);
                    assert(rle_expand(body.take(2 * k + 2)).len() >= out@.len());
                }
                return Err(CompressionError::OutputTooLarge);
            }
            j += 1;
            proof {
                assert(out@ =~= before + Seq::new(j as nat, |x: int| byte));
            }
        }
        i += 2;
        proof {
            assert(out@ =~= rle_expand(body.take(i - 2)));
        }
    }
    proof {
        assert(body.take(body.len() as int) =~= body);
    }
    Ok(out)
}

/// Expanding more pairs never gives a shorter output.
proof fn lemma_rle_expand_monotone(body: Seq<u8>, k: int)
    requires
        0 <= k,
        2 * k <= body.len(),
    ensures
        rle_expand(body).len() >= rle_expand(body.take(2 * k)).len(),
    decreases body.len() / 2 - k,
{
    lemma_rle_expand_even_prefix(body);
    if 2 * k + 2 <= body.len() {
        lemma_rle_expand_snoc(body, k);
        lemma_rle_expand_monotone(body, k + 1);
    } else {
        assert(body.take(even_len(body)) =~= body.take(2 * k));
    }
}

} // verus!
