//! Wire format shared by hosts and listeners.
//!
//! Every message travels inside a length frame: a little-endian `u32` byte
//! count followed by the payload.  Audio payloads start with the magic
//! `SNR1`, a little-endian `u64` sequence number and a little-endian `u32`
//! sample count, followed by the samples as little-endian `i16`.

use vstd::prelude::*;
use vstd::bytes::*;

verus! {

/// Sample rate of the audio stream, in frames per second.
pub const SAMPLE_RATE: u32 = 48_000;

/// Number of interleaved channels in the audio stream.
pub const CHANNELS: u16 = 2;

/// Largest payload a length frame may announce.
pub const MAX_FRAME_LEN: usize = 2_000_000;

/// A control message exchanged on the bidirectional stream of a session.
#[derive(Debug, Clone)]
pub enum Ctrl {
    Hello { name: String, role: String },
    Room { host: String, source: String, rate: u32, channels: u16 },
    Peers { names: Vec<String> },
    Bye { reason: String },
}

/// The four bytes `SNR1` that open every audio payload.
pub open spec fn magic() -> Seq<u8> {
    seq![0x53u8, 0x4eu8, 0x52u8, 0x31u8]
}

/// Little-endian encoding of one sample.
pub open spec fn sample_le(s: i16) -> Seq<u8> {
    spec_u16_to_le_bytes(s as u16)
}

/// Little-endian encoding of a run of samples, one after the other.
pub open spec fn samples_le(pcm: Seq<i16>) -> Seq<u8>
    decreases pcm.len(),
{
    if pcm.len() == 0 {
        seq![]
    } else {
        samples_le(pcm.drop_last()) + sample_le(pcm.last())
    }
}

/// The audio payload for sequence number `seq` and samples `pcm`.  The
/// sample count is written as a `u32`, so it wraps for more than
/// `u32::MAX` samples.
pub open spec fn audio_payload(seq: u64, pcm: Seq<i16>) -> Seq<u8> {
    magic() + spec_u64_to_le_bytes(seq) + spec_u32_to_le_bytes(pcm.len() as u32) + samples_le(pcm)
}

/// The sample stored at byte offset `at` of `buf`.
pub open spec fn sample_at(buf: Seq<u8>, at: int) -> i16 {
    spec_u16_from_le_bytes(buf.subrange(at, at + 2)) as i16
}

/// What an audio payload decodes to: `None` when it is shorter than its
/// header, does not start with the magic, or its length disagrees with the
/// sample count it announces.
pub open spec fn decoded_audio(buf: Seq<u8>) -> Option<(u64, Seq<i16>)> {
    if buf.len() < 16 || buf.subrange(0, 4) != magic() {
        None
    } else {
        let n = spec_u32_from_le_bytes(buf.subrange(12, 16)) as int;
        if buf.len() != 16 + 2 * n {
            None
        } else {
            Some((
                spec_u64_from_le_bytes(buf.subrange(4, 12)),
                Seq::new(n as nat, |i: int| sample_at(buf, 16 + 2 * i)),
            ))
        }
    }
}

/// A length frame holding `payload`; the length wraps for payloads longer
/// than `u32::MAX` bytes.
pub open spec fn length_frame(payload: Seq<u8>) -> Seq<u8> {
    spec_u32_to_le_bytes(payload.len() as u32) + payload
}

/// The payload length a frame header announces, when it is acceptable.
pub open spec fn announced_len(header: Seq<u8>) -> Option<int> {
    let n = spec_u32_from_le_bytes(header) as int;
    if n == 0 || n > MAX_FRAME_LEN {
        None
    } else {
        Some(n)
    }
}

proof fn lemma_i16_u16_roundtrip(s: i16)
    ensures
        (s as u16) as i16 == s,
{
    assert((s as u16) as i16 == s) by (bit_vector);
}

proof fn lemma_samples_le_len(pcm: Seq<i16>)
    ensures
        samples_le(pcm).len() == 2 * pcm.len(),
    decreases pcm.len(),
{
    vstd::bytes::lemma_auto_spec_u16_to_from_le_bytes();
    if pcm.len() > 0 {
        lemma_samples_le_len(pcm.drop_last());
    }
}

proof fn lemma_samples_le_at(pcm: Seq<i16>, i: int)
    requires
        0 <= i < pcm.len(),
    ensures
        samples_le(pcm).subrange(2 * i, 2 * i + 2) == sample_le(pcm[i]),
    decreases pcm.len(),
{
    vstd::bytes::lemma_auto_spec_u16_to_from_le_bytes();
    lemma_samples_le_len(pcm.drop_last());
    let front = samples_le(pcm.drop_last());
    let back = sample_le(pcm.last());
    if i < pcm.len() - 1 {
        lemma_samples_le_at(pcm.drop_last(), i);
        assert((front + back).subrange(2 * i, 2 * i + 2) =~= front.subrange(2 * i, 2 * i + 2));
    } else {
        assert((front + back).subrange(2 * i, 2 * i + 2) =~= back);
    }
}

/// Encodes one audio payload: the magic, the sequence number, the sample
/// count and the samples.
pub fn encode_audio_frame(seq: u64, pcm: &[i16]) -> (out: Vec<u8>)
    requires
        pcm@.len() <= (usize::MAX - 16) / 2,
    ensures
        out@ == audio_payload(seq, pcm@),
{
    let mut out: Vec<u8> = Vec::with_capacity(16 + pcm.len() * 2);
    out.push(0x53u8);
    out.push(0x4eu8);
    out.push(0x52u8);
    out.push(0x31u8);
    let mut seq_bytes = u64_to_le_bytes(seq);
    out.append(&mut seq_bytes);
    let count = pcm.len() as u32;
    let mut count_bytes = u32_to_le_bytes(count);
    out.append(&mut count_bytes);
    let ghost header = out@;
    assert(header =~= magic() + spec_u64_to_le_bytes(seq) + spec_u32_to_le_bytes(pcm@.len() as u32));
    let mut i: usize = 0;
    while i < pcm.len()
        invariant
            i <= pcm@.len(),
            out@ == header + samples_le(pcm@.take(i as int)),
        decreases pcm@.len() - i,
    {
        let mut sample_bytes = u16_to_le_bytes(pcm[i] as u16);
        out.append(&mut sample_bytes);
        proof {
            assert(pcm@.take(i + 1).drop_last() =~= pcm@.take(i as int));
            assert(pcm@.take(i + 1).last() == pcm@[i as int]);
        }
        i = i + 1;
    }
    assert(pcm@.take(pcm@.len() as int) =~= pcm@);
    out
}

/// Decodes one audio payload into its sequence number and samples.
pub fn decode_audio_frame(buf: &[u8]) -> (res: Option<(u64, Vec<i16>)>)
    ensures
        match decoded_audio(buf@) {
            None => res is None,
            Some((seq, pcm)) => res matches Some((s, v)) && s == seq && v@ == pcm,
        },
{
    if buf.len() < 16 {
        return None;
    }
    if buf[0] != 0x53u8 || buf[1] != 0x4eu8 || buf[2] != 0x52u8 || buf[3] != 0x31u8 {
        proof {
            assert(buf@.subrange(0, 4) != magic()) by {
                if buf@.subrange(0, 4) == magic() {
                    assert(buf@.subrange(0, 4)[0] == buf@[0]);
                    assert(buf@.subrange(0, 4)[1] == buf@[1]);
                    assert(buf@.subrange(0, 4)[2] == buf@[2]);
                    assert(buf@.subrange(0, 4)[3] == buf@[3]);
                }
            }
        }
        return None;
    }
    assert(buf@.subrange(0, 4) =~= magic());
    let seq = u64_from_le_bytes(&buf[4..12]);
    let n = u32_from_le_bytes(&buf[12..16]);
    if (buf.len() as u64) != 16 + (n as u64) * 2 {
        return None;
    }
    let n = n as usize;
    let mut pcm: Vec<i16> = Vec::with_capacity(n);
    let mut i: usize = 0;
    while i < n
        invariant
            i <= n,
            buf@.len() == 16 + 2 * n,
            buf@.len() <= usize::MAX,
            pcm@.len() == i,
            forall|j: int| 0 <= j < i ==> pcm@[j] == sample_at(buf@, 16 + 2 * j),
        decreases n - i,
    {
        let at = 16 + 2 * i;
        let raw = u16_from_le_bytes(&buf[at..at + 2]);
        pcm.push(#[verifier::truncate] (raw as i16));
        i = i + 1;
    }
    let ghost expected = Seq::new(n as nat, |j: int| sample_at(buf@, 16 + 2 * j));
    assert(pcm@ =~= expected);
    Some((seq, pcm))
}

/// Wraps `payload` in a length frame.
pub fn write_frame(payload: &[u8]) -> (out: Vec<u8>)
    requires
        payload@.len() <= usize::MAX - 4,
    ensures
        out@ == length_frame(payload@),
{
    let mut out: Vec<u8> = Vec::with_capacity(4 + payload.len());
    let mut len_bytes = u32_to_le_bytes(payload.len() as u32);
    out.append(&mut len_bytes);
    let ghost header = out@;
    let mut i: usize = 0;
    while i < payload.len()
        invariant
            i <= payload@.len(),
            out@ == header + payload@.take(i as int),
        decreases payload@.len() - i,
    {
        out.push(payload[i]);
        assert(payload@.take(i + 1) =~= payload@.take(i as int).push(payload@[i as int]));
        i = i + 1;
    }
    assert(payload@.take(payload@.len() as int) =~= payload@);
    out
}

/// Reads the header of a length frame: the payload length it announces,
/// or `None` when that length is zero or larger than `MAX_FRAME_LEN`.
pub fn parse_frame_len(header: &[u8]) -> (res: Option<usize>)
    requires
        header@.len() == 4,
    ensures
        match announced_len(header@) {
            None => res is None,
            Some(n) => res == Some(n as usize),
        },
{
    let n = u32_from_le_bytes(header);
    if n == 0 || n as u64 > MAX_FRAME_LEN as u64 {
        None
    } else {
        Some(n as usize)
    }
}

/// Law: an audio payload decodes to the sequence number and the samples it
/// was encoded from, whenever the sample count fits its `u32` field.
pub proof fn audio_frame_round_trip(seq: u64, pcm: Seq<i16>)
    requires
        pcm.len() <= u32::MAX,
    ensures
        decoded_audio(audio_payload(seq, pcm)) == Some((seq, pcm)),
{
    vstd::bytes::lemma_auto_spec_u16_to_from_le_bytes();
    vstd::bytes::lemma_auto_spec_u32_to_from_le_bytes();
    vstd::bytes::lemma_auto_spec_u64_to_from_le_bytes();
    lemma_samples_le_len(pcm);
    let buf = audio_payload(seq, pcm);
    let m = magic();
    let sb = spec_u64_to_le_bytes(seq);
    let cb = spec_u32_to_le_bytes(pcm.len() as u32);
    let body = samples_le(pcm);
    assert(buf.subrange(0, 4) =~= m);
    assert(buf.subrange(4, 12) =~= sb);
    assert(buf.subrange(12, 16) =~= cb);
    assert((pcm.len() as u32) as int == pcm.len());
    let decoded = Seq::new(pcm.len(), |i: int| sample_at(buf, 16 + 2 * i));
    assert forall|i: int| 0 <= i < pcm.len() implies decoded[i] == pcm[i] by {
        lemma_samples_le_at(pcm, i);
        assert(buf.subrange(16 + 2 * i, 16 + 2 * i + 2) =~= body.subrange(2 * i, 2 * i + 2));
        lemma_i16_u16_roundtrip(pcm[i]);
    }
    assert(decoded =~= pcm);
}

/// Law: the header of a length frame announces the length of its payload,
/// for every payload of 1 to `MAX_FRAME_LEN` bytes, and the payload follows.
pub proof fn length_frame_round_trip(payload: Seq<u8>)
    requires
        1 <= payload.len() <= MAX_FRAME_LEN,
    ensures
        announced_len(length_frame(payload).subrange(0, 4)) == Some(payload.len() as int),
        length_frame(payload).subrange(4, 4 + payload.len() as int) == payload,
{
    vstd::bytes::lemma_auto_spec_u32_to_from_le_bytes();
    let f = length_frame(payload);
    assert(f.subrange(0, 4) =~= spec_u32_to_le_bytes(payload.len() as u32));
    assert(f.subrange(4, 4 + payload.len() as int) =~= payload);
}

proof fn lemma_u16_i16_roundtrip(x: u16)
    ensures
        (x as i16) as u16 == x,
{
    assert((x as i16) as u16 == x) by (bit_vector);
}

/// Law: a payload that decodes is exactly the encoding of what it decodes
/// to, so decoding loses nothing and accepts no other bytes.
pub proof fn decoded_audio_reencodes(buf: Seq<u8>)
    ensures
        decoded_audio(buf) matches Some((s, p)) ==> audio_payload(s, p) == buf,
{
    if let Some((s, p)) = decoded_audio(buf) {
        vstd::bytes::lemma_auto_spec_u16_to_from_le_bytes();
        vstd::bytes::lemma_auto_spec_u32_to_from_le_bytes();
        vstd::bytes::lemma_auto_spec_u64_to_from_le_bytes();
        let n = spec_u32_from_le_bytes(buf.subrange(12, 16)) as int;
        assert(p.len() == n);
        assert((p.len() as u32) == spec_u32_from_le_bytes(buf.subrange(12, 16)));
        lemma_samples_le_len(p);
        let body = samples_le(p);
        let rest = buf.subrange(16, buf.len() as int);
        assert forall|j: int| 0 <= j < body.len() implies body[j] == rest[j] by {
            let k = j / 2;
            assert(0 <= k < p.len());
            assert(2 * k <= j < 2 * k + 2);
            lemma_samples_le_at(p, k);
            let raw = buf.subrange(16 + 2 * k, 16 + 2 * k + 2);
            let v = spec_u16_from_le_bytes(raw);
            assert(p[k] == sample_at(buf, 16 + 2 * k));
            lemma_u16_i16_roundtrip(v);
            assert(sample_le(p[k]) == spec_u16_to_le_bytes(v));
            assert(spec_u16_to_le_bytes(v) == raw);
            assert(body.subrange(2 * k, 2 * k + 2)[j - 2 * k] == body[j]);
            assert(raw[j - 2 * k] == rest[j]);
        }
        assert(body =~= rest);
        assert(audio_payload(s, p) =~= buf);
    }
}

} // verus!
