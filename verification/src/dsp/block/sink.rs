//! Sinks for data.
//!
//! `WaveFileI8` collects signed 8-bit mono samples and lays them out as a
//! PCM WAVE file: a 44-byte header followed by the samples.
use vstd::prelude::*;
use crate::dsp::block::{lemma_flatten_push, Sink};

verus! {

/// The length of the WAVE header.
pub const WAV_HEADER_LEN: usize = 44;

/// The little-endian bytes of the 16-bit value `v`.
pub open spec fn le16(v: nat) -> Seq<u8> {
    seq![(v % 256) as u8, ((v / 256) % 256) as u8]
}

/// The little-endian bytes of the 32-bit value `v`.
pub open spec fn le32(v: nat) -> Seq<u8> {
    seq![
        (v % 256) as u8,
        ((v / 256) % 256) as u8,
        ((v / 65536) % 256) as u8,
        ((v / 16777216) % 256) as u8,
    ]
}

/// The big-endian bytes of the 32-bit value `v`.
pub open spec fn be32(v: nat) -> Seq<u8> {
    seq![
        ((v / 16777216) % 256) as u8,
        ((v / 65536) % 256) as u8,
        ((v / 256) % 256) as u8,
        (v % 256) as u8,
    ]
}

/// The value that four little-endian bytes encode.
pub open spec fn le_value(b: Seq<u8>) -> int {
    b[0] + 256 * b[1] + 65536 * b[2] + 16777216 * b[3]
}

/// The value that two little-endian bytes encode.
pub open spec fn le16_value(b: Seq<u8>) -> int {
    b[0] + 256 * b[1]
}

/// The bit pattern of a signed byte read as an unsigned byte.
pub open spec fn unsigned_byte(x: i8) -> u8 {
    (if x < 0 { x + 256 } else { x as int }) as u8
}

/// The bytes of signed samples, each read as unsigned.
pub open spec fn unsigned_bytes(s: Seq<i8>) -> Seq<u8> {
    s.map_values(|x: i8| unsigned_byte(x))
}

/// The ASCII tags of a WAVE file.
pub open spec fn tag_riff() -> Seq<u8> {
    seq![0x52u8, 0x49, 0x46, 0x46]
}

pub open spec fn tag_wave() -> Seq<u8> {
    seq![0x57u8, 0x41, 0x56, 0x45]
}

pub open spec fn tag_fmt() -> Seq<u8> {
    seq![0x66u8, 0x6d, 0x74, 0x20]
}

pub open spec fn tag_data() -> Seq<u8> {
    seq![0x64u8, 0x61, 0x74, 0x61]
}

/// The header of a PCM WAVE file of one channel of 8-bit samples at `sps`
/// samples per second, holding `data_len` bytes of samples.
pub open spec fn wav_header(sps: u32, data_len: nat) -> Seq<u8> {
    tag_riff() + le32((data_len + 44 - 8) as nat) + tag_wave()
        + tag_fmt() + le32(16)  // format data length
        + le16(1)  // PCM
        + le16(1)  // one channel
        + le32(sps as nat)  // sample rate
        + le32(sps as nat)  // byte rate: sps * bits per sample * channels / 8
        + le16(1)  // block align: bits per sample * channels / 8
        + le16(8)  // bits per sample
        + tag_data() + le32(data_len)
}

/// The number of sample bytes in `chunks`.
pub open spec fn data_len(chunks: Seq<Seq<i8>>) -> nat {
    chunks.flatten().len()
}

/// The WAVE file of the samples in `chunks`, in order, at `sps` samples per
/// second.
pub open spec fn wav_file(sps: u32, chunks: Seq<Seq<i8>>) -> Seq<u8> {
    wav_header(sps, data_len(chunks)) + unsigned_bytes(chunks.flatten())
}

/// Four little-endian bytes give back the 32-bit value they encode.
pub proof fn lemma_le32_roundtrip(v: u32)
    ensures
        le32(v as nat).len() == 4,
        le_value(le32(v as nat)) == v,
{
    assert(v as int == v % 256 + 256 * ((v / 256) % 256) + 65536 * ((v / 65536) % 256)
        + 16777216 * ((v / 16777216) % 256)) by (bit_vector);
}

/// The big-endian bytes of a value are its little-endian bytes reversed.
pub proof fn lemma_be32_reverses_le32(v: u32)
    ensures
        be32(v as nat) == le32(v as nat).reverse(),
{
    assert(be32(v as nat) =~= le32(v as nat).reverse());
}

/// The layout of a WAVE file: a 44-byte header followed by the sample bytes;
/// the size field after `RIFF` holds the file size less 8, the sample rate
/// field holds the sample rate, and the size field after `data` holds the
/// file size less 44, the number of sample bytes.
pub proof fn lemma_wav_layout(sps: u32, chunks: Seq<Seq<i8>>)
    requires
        data_len(chunks) + 44 <= u32::MAX,
    ensures
        wav_header(sps, data_len(chunks)).len() == 44,
        wav_file(sps, chunks).len() == 44 + data_len(chunks),
        wav_file(sps, chunks).subrange(0, 4) == tag_riff(),
        le_value(wav_file(sps, chunks).subrange(4, 8)) == wav_file(sps, chunks).len() - 8,
        wav_file(sps, chunks).subrange(8, 12) == tag_wave(),
        wav_file(sps, chunks).subrange(12, 16) == tag_fmt(),
        le_value(wav_file(sps, chunks).subrange(16, 20)) == 16,
        le16_value(wav_file(sps, chunks).subrange(20, 22)) == 1,
        le16_value(wav_file(sps, chunks).subrange(22, 24)) == 1,
        le_value(wav_file(sps, chunks).subrange(24, 28)) == sps,
        le16_value(wav_file(sps, chunks).subrange(34, 36)) == 8,
        le16_value(wav_file(sps, chunks).subrange(32, 34)) * 8 == le16_value(
            wav_file(sps, chunks).subrange(22, 24),
        ) * le16_value(wav_file(sps, chunks).subrange(34, 36)),
        le_value(wav_file(sps, chunks).subrange(28, 32)) == le_value(
            wav_file(sps, chunks).subrange(24, 28),
        ) * le16_value(wav_file(sps, chunks).subrange(32, 34)),
        le_value(wav_file(sps, chunks).subrange(28, 32)) == sps * le16_value(
            wav_file(sps, chunks).subrange(22, 24),
        ) * le16_value(wav_file(sps, chunks).subrange(34, 36)) / 8,
        wav_file(sps, chunks).subrange(36, 40) == tag_data(),
        le_value(wav_file(sps, chunks).subrange(40, 44)) == wav_file(sps, chunks).len() - 44,
        wav_file(sps, chunks).subrange(44, wav_file(sps, chunks).len() as int) == unsigned_bytes(
            chunks.flatten(),
        ),
{
    let n = data_len(chunks);
    let f = wav_file(sps, chunks);
    let h = wav_header(sps, n);
    assert(h.len() == 44);
    lemma_le32_roundtrip((n + 36) as u32);
    lemma_le32_roundtrip(sps);
    lemma_le32_roundtrip(n as u32);
    assert(f.subrange(0, 4) =~= tag_riff());
    assert(f.subrange(4, 8) =~= le32((n + 44 - 8) as nat));
    lemma_le32_roundtrip(16);
    assert(f.subrange(8, 12) =~= tag_wave());
    assert(f.subrange(12, 16) =~= tag_fmt());
    assert(f.subrange(16, 20) =~= le32(16));
    assert(f.subrange(20, 22) =~= le16(1));
    assert(f.subrange(22, 24) =~= le16(1));
    assert(f.subrange(24, 28) =~= le32(sps as nat));
    assert(f.subrange(28, 32) =~= le32(sps as nat));
    assert(f.subrange(32, 34) =~= le16(1));
    assert(f.subrange(34, 36) =~= le16(8));
    assert(f.subrange(36, 40) =~= tag_data());
    assert(f.subrange(40, 44) =~= le32(n));
    assert(f.subrange(44, f.len() as int) =~= unsigned_bytes(chunks.flatten()));
}

/// The little-endian bytes of `v`.
pub fn u16tou8ale(v: u16) -> (r: [u8; 2])
    ensures
        r@ == le16(v as nat),
{
    let r = [v as u8, (v >> 8) as u8];
    assert((v as u8) as int == v % 256 && ((v >> 8) as u8) as int == (v / 256) % 256)
        by (bit_vector);
    assert(r@ =~= le16(v as nat));
    r
}

/// The little-endian bytes of `v`.
pub fn u32tou8ale(v: u32) -> (r: [u8; 4])
    ensures
        r@ == le32(v as nat),
{
    let r = [v as u8, (v >> 8) as u8, (v >> 16) as u8, (v >> 24) as u8];
    assert((v as u8) as int == v % 256 && ((v >> 8) as u8) as int == (v / 256) % 256
        && ((v >> 16) as u8) as int == (v / 65536) % 256
        && ((v >> 24) as u8) as int == (v / 16777216) % 256) by (bit_vector);
    assert(r@ =~= le32(v as nat));
    r
}

/// The big-endian bytes of `v`.
pub fn u32tou8abe(v: u32) -> (r: [u8; 4])
    ensures
        r@ == be32(v as nat),
{
    let r = [(v >> 24) as u8, (v >> 16) as u8, (v >> 8) as u8, v as u8];
    assert((v as u8) as int == v % 256 && ((v >> 8) as u8) as int == (v / 256) % 256
        && ((v >> 16) as u8) as int == (v / 65536) % 256
        && ((v >> 24) as u8) as int == (v / 16777216) % 256) by (bit_vector);
    assert(r@ =~= be32(v as nat));
    r
}

/// Appends `bytes` to `out`.
fn append_bytes(out: &mut Vec<u8>, bytes: &[u8])
    ensures
        final(out)@ == old(out)@ + bytes@,
{
    let mut i: usize = 0;
    while i < bytes.len()
        invariant
            i <= bytes@.len(),
            out@ == old(out)@ + bytes@.take(i as int),
        decreases bytes@.len() - i,
    {
        out.push(bytes[i]);
        i = i + 1;
        assert(out@ =~= old(out)@ + bytes@.take(i as int));
    }
    assert(bytes@.take(i as int) =~= bytes@);
}

/// A sink that collects signed 8-bit mono samples for a WAVE file at
/// `path`, at `sps` samples per second.
pub struct WaveFileI8 {
    path: String,
    sps: u32,
    buf: Vec<Vec<i8>>,
}

impl WaveFileI8 {
    /// The path of the file.
    pub closed spec fn path_view(&self) -> Seq<char> {
        self.path@
    }

    /// The sample rate.
    pub closed spec fn sps_view(&self) -> u32 {
        self.sps
    }

    /// The chunks of samples written so far, in order.
    pub closed spec fn chunks(&self) -> Seq<Seq<i8>> {
        self.buf@.map_values(|c: Vec<i8>| c@)
    }

    /// A sink for the file at `path` with `sps` samples per second and no
    /// samples yet.
    pub fn new(path: String, sps: u32) -> (w: WaveFileI8)
        ensures
            w.path_view() == path@,
            w.sps_view() == sps,
            w.chunks() == Seq::<Seq<i8>>::empty(),
    {
        let w = WaveFileI8 { path: path, sps: sps, buf: Vec::new() };
        assert(w.chunks() =~= Seq::<Seq<i8>>::empty());
        w
    }

    /// The path of the file.
    pub fn path(&self) -> (p: &String)
        ensures
            p@ == self.path_view(),
    {
        &self.path
    }

    /// The sample rate.
    pub fn sps(&self) -> (r: u32)
        ensures
            r == self.sps_view(),
    {
        self.sps
    }

    /// The number of sample bytes collected, where it leaves room for the
    /// header in a 32-bit file size; `None` where it does not.
    pub fn data_size(&self) -> (r: Option<u32>)
        ensures
            match r {
                Some(n) => n == data_len(self.chunks()) && data_len(self.chunks()) + 44
                    <= u32::MAX,
                None => data_len(self.chunks()) + 44 > u32::MAX,
            },
    {
        let mut total: u32 = 0;
        let mut i: usize = 0;
        while i < self.buf.len()
            invariant
                i <= self.buf@.len(),
                total == data_len(self.chunks().take(i as int)),
                total + 44 <= u32::MAX,
            decreases self.buf@.len() - i,
        {
            let len = self.buf[i].len();
            proof {
                assert(self.chunks().take(i + 1) =~= self.chunks().take(i as int).push(
                    self.chunks()[i as int],
                ));
                lemma_flatten_push(self.chunks().take(i as int), self.chunks()[i as int]);
                lemma_prefix_data_len(self.chunks(), i as int + 1);
            }
            if len > (u32::MAX - 44) as usize - total as usize {
                return None;
            }
            total = total + len as u32;
            i = i + 1;
        }
        assert(self.chunks().take(i as int) =~= self.chunks());
        Some(total)
    }

    /// The bytes of the WAVE file that holds the collected samples.
    pub fn wav_bytes(&self) -> (out: Vec<u8>)
        requires
            data_len(self.chunks()) + 44 <= u32::MAX,
        ensures
            out@ == wav_file(self.sps_view(), self.chunks()),
    {
        let total = match self.data_size() {
            Some(n) => n,
            None => unreached(),
        };
        let mut out: Vec<u8> = Vec::new();
        append_bytes(&mut out, &[0x52u8, 0x49, 0x46, 0x46]);  // RIFF
        append_bytes(&mut out, &u32tou8ale((total + 44) - 8));  // file size - 8
        append_bytes(&mut out, &[0x57u8, 0x41, 0x56, 0x45]);  // WAVE
        append_bytes(&mut out, &[0x66u8, 0x6d, 0x74, 0x20]);  // fmt
        append_bytes(&mut out, &u32tou8ale(16));  // format data length
        append_bytes(&mut out, &u16tou8ale(1));  // PCM
        append_bytes(&mut out, &u16tou8ale(1));  // one channel
        append_bytes(&mut out, &u32tou8ale(self.sps));  // sample rate
        append_bytes(&mut out, &u32tou8ale(self.sps));  // byte rate
        append_bytes(&mut out, &u16tou8ale(1));  // block align
        append_bytes(&mut out, &u16tou8ale(8));  // bits per sample
        append_bytes(&mut out, &[0x64u8, 0x61, 0x74, 0x61]);  // data
        append_bytes(&mut out, &u32tou8ale(total));  // data size = file size - 44
        let ghost header = out@;
        assert(header =~= wav_header(self.sps, total as nat));
        let mut i: usize = 0;
        while i < self.buf.len()
            invariant
                i <= self.buf@.len(),
                header == wav_header(self.sps, data_len(self.chunks())),
                out@ == header + unsigned_bytes(self.chunks().take(i as int).flatten()),
            decreases self.buf@.len() - i,
        {
            let chunk = &self.buf[i];
            let ghost before = out@;
            let mut j: usize = 0;
            while j < chunk.len()
                invariant
                    j <= chunk@.len(),
                    out@ == before + unsigned_bytes(chunk@.take(j as int)),
                decreases chunk@.len() - j,
            {
                let x = chunk[j];
                let b = x as u8;
                assert((x as u8) as int == if x < 0 { x + 256 } else { x as int }) by (bit_vector);
                out.push(b);
                j = j + 1;
                assert(out@ =~= before + unsigned_bytes(chunk@.take(j as int)));
            }
            proof {
                let q = self.chunks().take(i as int);
                assert(chunk@.take(j as int) =~= chunk@);
                assert(self.chunks().take(i + 1) =~= q.push(chunk@));
                lemma_flatten_push(q, chunk@);
                assert(unsigned_bytes(q.flatten() + chunk@) =~= unsigned_bytes(q.flatten())
                    + unsigned_bytes(chunk@));
            }
            i = i + 1;
        }
        assert(self.chunks().take(i as int) =~= self.chunks());
        out
    }
}

/// The sample bytes of a prefix of the chunks are no more than those of all
/// chunks.
proof fn lemma_prefix_data_len(chunks: Seq<Seq<i8>>, k: int)
    requires
        0 <= k <= chunks.len(),
    ensures
        data_len(chunks.take(k)) <= data_len(chunks),
    decreases chunks.len() - k,
{
    if k < chunks.len() {
        assert(chunks.take(k + 1) =~= chunks.take(k).push(chunks[k]));
        lemma_flatten_push(chunks.take(k), chunks[k]);
        lemma_prefix_data_len(chunks, k + 1);
    } else {
        assert(chunks.take(k) =~= chunks);
    }
}

impl Sink<i8> for WaveFileI8 {
    /// Collects a chunk of samples.
    fn write(&mut self, input: Vec<i8>)
        ensures
            final(self).chunks() == old(self).chunks().push(input@),
            final(self).path_view() == old(self).path_view(),
            final(self).sps_view() == old(self).sps_view(),
    {
        let ghost c = input@;
        self.buf.push(input);
        assert(self.chunks() =~= old(self).chunks().push(c));
    }
}

} // verus!
