//! A minimal PNG encoder for RGBA images: stored (uncompressed) zlib blocks,
//! with the CRC-32 and Adler-32 checksums the format requires.
use vstd::prelude::*;

verus! {

/// The eight signature bytes that open every PNG file.
pub open spec fn png_signature() -> Seq<u8> {
    seq![0x89u8, 0x50u8, 0x4eu8, 0x47u8, 0x0du8, 0x0au8, 0x1au8, 0x0au8]
}

/// Big-endian bytes of a 32-bit number.
pub open spec fn be32(v: u32) -> Seq<u8> {
    seq![(v / 0x1000000) as u8, ((v / 0x10000) % 256) as u8, ((v / 0x100) % 256) as u8, (v % 256) as u8]
}

/// Little-endian bytes of a 16-bit number.
pub open spec fn le16(v: u16) -> Seq<u8> {
    seq![(v % 256) as u8, (v / 256) as u8]
}

/// Eight steps of the reflected CRC-32 shift register (polynomial 0xEDB88320).
pub open spec fn crc_shift(c: u32, k: nat) -> u32
    decreases k,
{
    if k == 0 {
        c
    } else {
        let p = crc_shift(c, (k - 1) as nat);
        if p & 1 == 1 {
            (p >> 1) ^ 0xedb8_8320u32
        } else {
            p >> 1
        }
    }
}

/// The CRC-32 register after `data`, starting from `c`.
pub open spec fn crc_update(c: u32, data: Seq<u8>) -> u32
    decreases data.len(),
{
    if data.len() == 0 {
        c
    } else {
        crc_shift(crc_update(c, data.drop_last()) ^ (data.last() as u32), 8)
    }
}

/// The CRC-32 of `data`.
pub open spec fn crc32_spec(data: Seq<u8>) -> u32 {
    !crc_update(0xffff_ffffu32, data)
}

/// The CRC-32 of `data`.
pub fn crc32(data: &[u8]) -> (c: u32)
    ensures
        c == crc32_spec(data@),
{
    let mut crc: u32 = 0xffff_ffff;
    let mut i: usize = 0;
    while i < data.len()
        invariant
            i <= data.len(),
            crc == crc_update(0xffff_ffffu32, data@.take(i as int)),
        decreases data.len() - i,
    {
        proof {
            assert(data@.take(i + 1).drop_last() =~= data@.take(i as int));
            assert(data@.take(i + 1).last() == data@[i as int]);
        }
        let start = crc ^ (data[i] as u32);
        crc = start;
        let mut k: u32 = 0;
        while k < 8
            invariant
                k <= 8,
                crc == crc_shift(start, k as nat),
            decreases 8 - k,
        {
            if crc & 1 == 1 {
                crc = (crc >> 1) ^ 0xedb8_8320u32;
            } else {
                crc = crc >> 1;
            }
            k = k + 1;
        }
        i = i + 1;
    }
    assert(data@.take(data.len() as int) =~= data@);
    !crc
}

/// The Adler-32 sums `(a, b)` after `data`.
pub open spec fn adler_sums(data: Seq<u8>) -> (u32, u32)
    decreases data.len(),
{
    if data.len() == 0 {
        (1, 0)
    } else {
        let (a, b) = adler_sums(data.drop_last());
        let a2 = ((a + data.last()) % 65521) as u32;
        (a2, ((b + a2) % 65521) as u32)
    }
}

pub proof fn lemma_adler_bounds(data: Seq<u8>)
    ensures
        adler_sums(data).0 < 65521,
        adler_sums(data).1 < 65521,
    decreases data.len(),
{
    if data.len() > 0 {
        lemma_adler_bounds(data.drop_last());
    }
}

/// The Adler-32 checksum of `data`.
pub open spec fn adler32_spec(data: Seq<u8>) -> u32 {
    (adler_sums(data).1 * 65536 + adler_sums(data).0) as u32
}

/// The Adler-32 checksum of `data`.
pub fn adler32(data: &[u8]) -> (c: u32)
    ensures
        c == adler32_spec(data@),
{
    let mut a: u32 = 1;
    let mut b: u32 = 0;
    let mut i: usize = 0;
    while i < data.len()
        invariant
            i <= data.len(),
            a < 65521,
            b < 65521,
            (a, b) == adler_sums(data@.take(i as int)),
        decreases data.len() - i,
    {
        proof {
            assert(data@.take(i + 1).drop_last() =~= data@.take(i as int));
            assert(data@.take(i + 1).last() == data@[i as int]);
        }
        a = (a + data[i] as u32) % 65521;
        b = (b + a) % 65521;
        i = i + 1;
    }
    assert(data@.take(data.len() as int) =~= data@);
    b * 65536 + a
}

/// Most bytes of one stored deflate block.
pub const STORED_BLOCK_BYTES: usize = 65535;

/// The stored deflate blocks of `data` from `start` on: each holds up to
/// 65535 bytes after a final-block flag and the block length with its
/// complement, little-endian.
pub open spec fn stored_blocks(data: Seq<u8>, start: nat) -> Seq<u8>
    decreases data.len() - start,
{
    if start >= data.len() {
        Seq::empty()
    } else {
        let end = if start + 65535 < data.len() { start + 65535 } else { data.len() as nat };
        let n = (end - start) as u16;
        seq![if end == data.len() { 1u8 } else { 0u8 }] + le16(n) + le16((65535 - n) as u16)
            + data.subrange(start as int, end as int) + stored_blocks(data, end)
    }
}

/// A zlib stream of stored blocks: the header `78 01`, the blocks, and the
/// Adler-32 checksum big-endian.
pub open spec fn zlib_stored(data: Seq<u8>) -> Seq<u8> {
    seq![0x78u8, 0x01u8] + stored_blocks(data, 0) + be32(adler32_spec(data))
}

fn push_be32(out: &mut Vec<u8>, v: u32)
    ensures
        final(out)@ == old(out)@ + be32(v),
{
    out.push((v / 0x1000000) as u8);
    out.push(((v / 0x10000) % 256) as u8);
    out.push(((v / 0x100) % 256) as u8);
    out.push((v % 256) as u8);
    assert(out@ =~= old(out)@ + be32(v));
}

fn push_le16(out: &mut Vec<u8>, v: u16)
    ensures
        final(out)@ == old(out)@ + le16(v),
{
    out.push((v % 256) as u8);
    out.push((v / 256) as u8);
    assert(out@ =~= old(out)@ + le16(v));
}

fn push_range(out: &mut Vec<u8>, data: &[u8], from: usize, to: usize)
    requires
        from <= to <= data.len(),
    ensures
        final(out)@ == old(out)@ + data@.subrange(from as int, to as int),
{
    let mut i = from;
    while i < to
        invariant
            from <= i <= to <= data.len(),
            out@ == old(out)@ + data@.subrange(from as int, i as int),
        decreases to - i,
    {
        out.push(data[i]);
        assert(out@ =~= old(out)@ + data@.subrange(from as int, i + 1));
        i = i + 1;
    }
}

/// The zlib stream of `data` in stored blocks.
pub fn zlib_store_blocks(data: &[u8]) -> (out: Vec<u8>)
    ensures
        out@ == zlib_stored(data@),
{
    let mut out: Vec<u8> = Vec::new();
    out.push(0x78);
    out.push(0x01);
    let mut start: usize = 0;
    proof {
        assert(out@ =~= seq![0x78u8, 0x01u8]);
    }
    while start < data.len()
        invariant
            start <= data.len(),
            out@ + stored_blocks(data@, start as nat) == seq![0x78u8, 0x01u8] + stored_blocks(data@, 0),
        decreases data.len() - start,
    {
        let end = if data.len() - start > STORED_BLOCK_BYTES { start + STORED_BLOCK_BYTES } else { data.len() };
        let n = (end - start) as u16;
        let ghost before = out@;
        out.push(if end == data.len() { 1u8 } else { 0u8 });
        push_le16(&mut out, n);
        push_le16(&mut out, 65535 - n);
        push_range(&mut out, data, start, end);
        proof {
            assert(out@ + stored_blocks(data@, end as nat) =~= before + stored_blocks(data@, start as nat));
        }
        start = end;
    }
    proof {
        assert(out@ + Seq::<u8>::empty() =~= out@);
    }
    push_be32(&mut out, adler32(data));
    out
}

/// One PNG chunk: data length, type, data, and the CRC-32 of type and data.
pub open spec fn png_chunk(kind: Seq<u8>, data: Seq<u8>) -> Seq<u8> {
    be32(data.len() as u32) + kind + data + be32(crc32_spec(kind + data))
}

/// Appends one PNG chunk.
pub fn write_png_chunk(output: &mut Vec<u8>, kind: &[u8; 4], data: &[u8])
    requires
        data@.len() <= u32::MAX,
    ensures
        final(output)@ == old(output)@ + png_chunk(kind@, data@),
{
    push_be32(output, data.len() as u32);
    let mut crc_input: Vec<u8> = Vec::new();
    push_range(&mut crc_input, kind.as_slice(), 0, 4);
    push_range(&mut crc_input, data, 0, data.len());
    push_range(output, crc_input.as_slice(), 0, crc_input.len());
    proof {
        assert(kind@.subrange(0, 4) =~= kind@);
        assert(data@.subrange(0, data@.len() as int) =~= data@);
        assert(crc_input@ =~= kind@ + data@);
        assert(crc_input@.subrange(0, crc_input@.len() as int) =~= crc_input@);
    }
    push_be32(output, crc32(crc_input.as_slice()));
    assert(output@ =~= old(output)@ + png_chunk(kind@, data@));
}

/// The PNG raw image data: each row of `width` RGBA pixels after a filter
/// byte of 0.
pub open spec fn filtered_rows(pixels: Seq<u8>, row_len: nat, height: nat) -> Seq<u8>
    decreases height,
{
    if height == 0 {
        Seq::empty()
    } else {
        filtered_rows(pixels, row_len, (height - 1) as nat) + seq![0u8] + pixels.subrange(
            ((height - 1) * row_len) as int,
            (height * row_len) as int,
        )
    }
}

/// The PNG file of an RGBA image.
#[verifier::opaque]
pub open spec fn png_file(width: u32, height: u32, pixels: Seq<u8>) -> Seq<u8> {
    let raw = filtered_rows(pixels, (width * 4) as nat, height as nat);
    png_signature() + png_chunk(seq![0x49u8, 0x48u8, 0x44u8, 0x52u8], be32(width) + be32(height) + seq![8u8, 6u8, 0u8, 0u8, 0u8])
        + png_chunk(seq![0x49u8, 0x44u8, 0x41u8, 0x54u8], zlib_stored(raw))
        + png_chunk(seq![0x49u8, 0x45u8, 0x4eu8, 0x44u8], Seq::empty())
}

proof fn lemma_row_bounds(y: nat, row_len: nat, height: nat)
    requires
        y < height,
    ensures
        y * row_len + row_len <= row_len * height,
        y * row_len + row_len == (y + 1) * row_len,
        row_len <= row_len * height,
{
    assert(y * row_len + row_len <= row_len * height) by (nonlinear_arith)
        requires
            y < height,
    ;
    assert(y * row_len + row_len == (y + 1) * row_len) by (nonlinear_arith);
    assert(row_len <= row_len * height) by (nonlinear_arith)
        requires
            y < height,
    ;
}

/// The filtered rows of the image.
fn filter_rows(pixels: &[u8], row_len: usize, height: usize) -> (raw: Vec<u8>)
    requires
        pixels@.len() == row_len * height,
    ensures
        raw@ == filtered_rows(pixels@, row_len as nat, height as nat),
{
    let n = pixels.len();
    let mut raw: Vec<u8> = Vec::new();
    let mut y: usize = 0;
    while y < height
        invariant
            y <= height,
            n == pixels@.len(),
            pixels@.len() == row_len * height,
            raw@ == filtered_rows(pixels@, row_len as nat, y as nat),
        decreases height - y,
    {
        proof {
            lemma_row_bounds(y as nat, row_len as nat, height as nat);
        }
        raw.push(0);
        let start = y * row_len;
        push_range(&mut raw, pixels, start, start + row_len);
        y = y + 1;
    }
    raw
}

/// The PNG file with an IHDR for `width` x `height` and the data `compressed`.
fn assemble_png(width: u32, height: u32, compressed: &[u8]) -> (png: Vec<u8>)
    requires
        compressed@.len() <= u32::MAX,
    ensures
        png@ == png_signature() + png_chunk(seq![0x49u8, 0x48u8, 0x44u8, 0x52u8], be32(width) + be32(height) + seq![8u8, 6u8, 0u8, 0u8, 0u8])
            + png_chunk(seq![0x49u8, 0x44u8, 0x41u8, 0x54u8], compressed@)
            + png_chunk(seq![0x49u8, 0x45u8, 0x4eu8, 0x44u8], Seq::empty()),
{
    let mut png: Vec<u8> = Vec::new();
    png.push(0x89);
    png.push(0x50);
    png.push(0x4e);
    png.push(0x47);
    png.push(0x0d);
    png.push(0x0a);
    png.push(0x1a);
    png.push(0x0a);
    let mut ihdr: Vec<u8> = Vec::new();
    push_be32(&mut ihdr, width);
    push_be32(&mut ihdr, height);
    ihdr.push(8);
    ihdr.push(6);
    ihdr.push(0);
    ihdr.push(0);
    ihdr.push(0);
    proof {
        assert(png@ =~= png_signature());
        assert(ihdr@ =~= be32(width) + be32(height) + seq![8u8, 6u8, 0u8, 0u8, 0u8]);
    }
    let ihdr_kind: [u8; 4] = [0x49, 0x48, 0x44, 0x52];
    let idat_kind: [u8; 4] = [0x49, 0x44, 0x41, 0x54];
    let iend_kind: [u8; 4] = [0x49, 0x45, 0x4e, 0x44];
    assert(ihdr_kind@ =~= seq![0x49u8, 0x48u8, 0x44u8, 0x52u8]);
    assert(idat_kind@ =~= seq![0x49u8, 0x44u8, 0x41u8, 0x54u8]);
    assert(iend_kind@ =~= seq![0x49u8, 0x45u8, 0x4eu8, 0x44u8]);
    write_png_chunk(&mut png, &ihdr_kind, ihdr.as_slice());
    write_png_chunk(&mut png, &idat_kind, compressed);
    let empty: Vec<u8> = Vec::new();
    write_png_chunk(&mut png, &iend_kind, empty.as_slice());
    proof {
        assert(empty@ =~= Seq::<u8>::empty());
    }
    png
}

/// Whether the image data fits one PNG data chunk.
#[verifier::opaque]
pub open spec fn png_encodable(width: u32, height: u32, pixels: Seq<u8>) -> bool {
    &&& pixels.len() == width * 4 * height
    &&& zlib_stored(filtered_rows(pixels, (width * 4) as nat, height as nat)).len() <= u32::MAX
}

/// Encodes an RGBA image of `width` x `height` pixels, four bytes each, row
/// by row; a buffer of another size, or data too large for one chunk, is
/// refused (`None`).
pub fn encode_png_rgba(width: u32, height: u32, pixels: &[u8]) -> (r: Option<Vec<u8>>)
    ensures
        png_encodable(width, height, pixels@) ==> (r matches Some(png) && png@ == png_file(width, height, pixels@)),
        !png_encodable(width, height, pixels@) ==> r is None,
{
    reveal(png_encodable);
    reveal(png_file);
    let w4: u128 = (width as u128) * 4;
    assert(w4 * (height as u128) <= 0x4_0000_0000_0000_0000) by (nonlinear_arith)
        requires
            w4 <= 0x4_0000_0000,
            height <= 0xffff_ffff,
    ;
    let total: u128 = w4 * (height as u128);
    if pixels.len() as u128 != total {
        return None;
    }
    let raw = if height == 0 {
        let raw: Vec<u8> = Vec::new();
        assert(raw@ =~= filtered_rows(pixels@, (width * 4) as nat, 0));
        raw
    } else {
        proof {
            lemma_row_bounds(0, (width * 4) as nat, height as nat);
        }
        let row_len = (width as usize) * 4;
        filter_rows(pixels, row_len, height as usize)
    };
    let compressed = zlib_store_blocks(raw.as_slice());
    if compressed.len() > u32::MAX as usize {
        return None;
    }
    Some(assemble_png(width, height, compressed.as_slice()))
}

} // verus!
