//! Mono 16-bit samples as a WAVE file.

use vstd::prelude::*;

verus! {

/// A number below 2^16 as two bytes, the low byte first.
pub open spec fn le2(n: int) -> Seq<u8> {
    seq![(n % 256) as u8, (n / 256 % 256) as u8]
}

/// A number below 2^32 as four bytes, the low byte first.
pub open spec fn le4(n: int) -> Seq<u8> {
    seq![
        (n % 256) as u8,
        (n / 256 % 256) as u8,
        (n / 65536 % 256) as u8,
        (n / 16777216 % 256) as u8,
    ]
}

/// A sample as an unsigned number, in two's complement.
pub open spec fn sample_code(sample: i16) -> int {
    if sample < 0 {
        sample + 65536
    } else {
        sample as int
    }
}

/// The bytes of a run of samples.
pub open spec fn sample_bytes(samples: Seq<i16>) -> Seq<u8>
    decreases samples.len(),
{
    if samples.len() == 0 {
        seq![]
    } else {
        sample_bytes(samples.drop_last()) + le2(sample_code(samples.last()))
    }
}

/// The 44 bytes in front of the samples.
pub open spec fn wav_header(sample_rate: int, data_size: nat) -> Seq<u8> {
    seq![0x52u8, 0x49u8, 0x46u8, 0x46u8] + le4(36 + data_size as int) + seq![
        0x57u8,
        0x41u8,
        0x56u8,
        0x45u8,
    ] + seq![0x66u8, 0x6du8, 0x74u8, 0x20u8] + le4(16) + le2(1) + le2(1) + le4(sample_rate) + le4(
        sample_rate * 2,
    ) + le2(2) + le2(16) + seq![0x64u8, 0x61u8, 0x74u8, 0x61u8] + le4(data_size as int)
}

/// Writes four bytes.
fn push4(bytes: &mut Vec<u8>, a: u8, b: u8, c: u8, d: u8)
    ensures
        final(bytes)@ == old(bytes)@ + seq![a, b, c, d],
{
    bytes.push(a);
    bytes.push(b);
    bytes.push(c);
    bytes.push(d);
    assert(bytes@ =~= old(bytes)@ + seq![a, b, c, d]);
}

/// Writes a number as two bytes, the low byte first.
fn push_le2(bytes: &mut Vec<u8>, n: u16)
    ensures
        final(bytes)@ == old(bytes)@ + le2(n as int),
{
    bytes.push((n % 256) as u8);
    bytes.push((n / 256) as u8);
    assert(bytes@ =~= old(bytes)@ + le2(n as int));
}

/// Writes a number as four bytes, the low byte first.
fn push_le4(bytes: &mut Vec<u8>, n: u32)
    ensures
        final(bytes)@ == old(bytes)@ + le4(n as int),
{
    push4(
        bytes,
        (n % 256) as u8,
        (n / 256 % 256) as u8,
        (n / 65536 % 256) as u8,
        (n / 16777216) as u8,
    );
    assert(bytes@ =~= old(bytes)@ + le4(n as int));
}

/// Wraps mono 16-bit samples in a minimal WAVE header.
pub fn samples_to_wav_bytes(sample_rate: u32, samples: &[i16]) -> (wav: Vec<u8>)
    requires
        36 + samples@.len() * 2 <= u32::MAX,
        sample_rate * 2 <= u32::MAX,
    ensures
        wav@ == wav_header(sample_rate as int, samples@.len() * 2) + sample_bytes(samples@),
{
    let n: usize = samples.len();
    let data_size: u32 = n as u32 * 2;
    let mut wav: Vec<u8> = Vec::new();
    push4(&mut wav, 0x52, 0x49, 0x46, 0x46);
    push_le4(&mut wav, 36 + data_size);
    push4(&mut wav, 0x57, 0x41, 0x56, 0x45);
    push4(&mut wav, 0x66, 0x6d, 0x74, 0x20);
    push_le4(&mut wav, 16);
    push_le2(&mut wav, 1);
    push_le2(&mut wav, 1);
    push_le4(&mut wav, sample_rate);
    push_le4(&mut wav, sample_rate * 2);
    push_le2(&mut wav, 2);
    push_le2(&mut wav, 16);
    push4(&mut wav, 0x64, 0x61, 0x74, 0x61);
    push_le4(&mut wav, data_size);
    let ghost header = wav_header(sample_rate as int, samples@.len() * 2);
    assert(wav@ =~= header);
    let mut i: usize = 0;
    assert(wav@ =~= header + sample_bytes(samples@.take(0)));
    while i < n
        invariant
            i <= n,
            n == samples@.len(),
            wav@ == header + sample_bytes(samples@.take(i as int)),
        decreases n - i,
    {
        let sample: i16 = samples[i];
        let code: u16 = if sample < 0 {
            (sample as i32 + 65536) as u16
        } else {
            sample as u16
        };
        push_le2(&mut wav, code);
        proof {
            assert(samples@.take(i + 1).drop_last() =~= samples@.take(i as int));
            assert(wav@ =~= header + sample_bytes(samples@.take(i + 1)));
        }
        i = i + 1;
    }
    assert(samples@.take(n as int) =~= samples@);
    wav
}

/// The number that four bytes from `at` on stand for.
pub open spec fn read4(bytes: Seq<u8>, at: int) -> int {
    bytes[at] + 256 * bytes[at + 1] + 65536 * bytes[at + 2] + 16777216 * bytes[at + 3]
}

/// The sample that two bytes from `at` on stand for.
pub open spec fn read_sample(bytes: Seq<u8>, at: int) -> int {
    let code = bytes[at] + 256 * bytes[at + 1];
    if code >= 32768 {
        code - 65536
    } else {
        code
    }
}

proof fn lemma_sample_bytes(samples: Seq<i16>, i: int)
    requires
        0 <= i < samples.len(),
    ensures
        sample_bytes(samples).len() == 2 * samples.len(),
        read_sample(sample_bytes(samples), 2 * i) == samples[i],
    decreases samples.len(),
{
    let rest = samples.drop_last();
    let code = sample_code(samples.last());
    if rest.len() > 0 {
        lemma_sample_bytes(rest, if i < rest.len() { i } else { 0 });
    } else {
        assert(sample_bytes(rest) =~= seq![]);
    }
    assert(le2(code)[0] == code % 256);
    assert(le2(code)[1] == code / 256);
    if i < rest.len() {
        assert(sample_bytes(samples)[2 * i] == sample_bytes(rest)[2 * i]);
        assert(sample_bytes(samples)[2 * i + 1] == sample_bytes(rest)[2 * i + 1]);
    } else {
        assert(sample_bytes(samples)[2 * i] == le2(code)[0]);
        assert(sample_bytes(samples)[2 * i + 1] == le2(code)[1]);
    }
}

/// Every sample can be read back from behind the header.
pub proof fn lemma_samples_read_back(sample_rate: int, samples: Seq<i16>, i: int)
    requires
        0 <= i < samples.len(),
    ensures
        ({
            let wav = wav_header(sample_rate, samples.len() * 2) + sample_bytes(samples);
            read_sample(wav, 44 + 2 * i) == samples[i]
        }),
{
    let header = wav_header(sample_rate, samples.len() * 2);
    let wav = header + sample_bytes(samples);
    lemma_sample_bytes(samples, i);
    assert(header.len() == 44);
    assert(wav[44 + 2 * i] == sample_bytes(samples)[2 * i]);
    assert(wav[44 + 2 * i + 1] == sample_bytes(samples)[2 * i + 1]);
}

/// The sizes in the header are those of the file and of the samples, and the rate is the rate.
pub proof fn lemma_header_sizes(sample_rate: int, samples: Seq<i16>)
    requires
        36 + samples.len() * 2 <= u32::MAX,
        0 <= sample_rate <= u32::MAX,
    ensures
        ({
            let wav = wav_header(sample_rate, samples.len() * 2) + sample_bytes(samples);
            &&& wav.len() == 44 + 2 * samples.len()
            &&& read4(wav, 4) + 8 == wav.len()
            &&& read4(wav, 24) == sample_rate
            &&& read4(wav, 40) + 44 == wav.len()
        }),
{
    let size = samples.len() * 2;
    let header = wav_header(sample_rate, size);
    let wav = header + sample_bytes(samples);
    if samples.len() > 0 {
        lemma_sample_bytes(samples, 0);
    } else {
        assert(sample_bytes(samples) =~= seq![]);
    }
    lemma_le4(36 + size as int);
    lemma_le4(sample_rate);
    lemma_le4(size as int);
    assert(wav.subrange(4, 8) =~= le4(36 + size as int));
    assert(wav.subrange(24, 28) =~= le4(sample_rate));
    assert(wav.subrange(40, 44) =~= le4(size as int));
    assert(forall|k: int| 0 <= k < 4 ==> wav[4 + k] == #[trigger] wav.subrange(4, 8)[k]);
    assert(forall|k: int| 0 <= k < 4 ==> wav[24 + k] == #[trigger] wav.subrange(24, 28)[k]);
    assert(forall|k: int| 0 <= k < 4 ==> wav[40 + k] == #[trigger] wav.subrange(40, 44)[k]);
    assert(read4(wav, 4) == read4(le4(36 + size as int), 0)) by {
        assert(wav[4] == wav.subrange(4, 8)[0] && wav[5] == wav.subrange(4, 8)[1] && wav[6]
            == wav.subrange(4, 8)[2] && wav[7] == wav.subrange(4, 8)[3]);
    }
    assert(read4(wav, 24) == read4(le4(sample_rate), 0)) by {
        assert(wav[24] == wav.subrange(24, 28)[0] && wav[25] == wav.subrange(24, 28)[1] && wav[26]
            == wav.subrange(24, 28)[2] && wav[27] == wav.subrange(24, 28)[3]);
    }
    assert(read4(wav, 40) == read4(le4(size as int), 0)) by {
        assert(wav[40] == wav.subrange(40, 44)[0] && wav[41] == wav.subrange(40, 44)[1] && wav[42]
            == wav.subrange(40, 44)[2] && wav[43] == wav.subrange(40, 44)[3]);
    }
}

proof fn lemma_le4(n: int)
    requires
        0 <= n <= u32::MAX,
    ensures
        read4(le4(n), 0) == n,
{
    assert(n == n % 256 + 256 * (n / 256 % 256) + 65536 * (n / 65536 % 256) + 16777216 * (n
        / 16777216 % 256));
}

/// The number that two bytes from `at` on stand for.
pub open spec fn read2(bytes: Seq<u8>, at: int) -> int {
    bytes[at] + 256 * bytes[at + 1]
}

/// A file says of itself that it is a wave file with one channel of sixteen bits, uncompressed; its
/// rates and sizes fit the samples, which follow behind.
pub proof fn lemma_files_describe_themselves(
    sample_rate: u32,
    samples: &[i16],
    wav: Vec<u8>,
    i: int,
)
    requires
        36 + samples@.len() * 2 <= u32::MAX,
        sample_rate * 2 <= u32::MAX,
        call_ensures(samples_to_wav_bytes, (sample_rate, samples), wav),
    ensures
        ({
            let b = wav@;
            &&& b.len() == 44 + 2 * samples@.len()
            &&& b.subrange(0, 4) == seq![0x52u8, 0x49u8, 0x46u8, 0x46u8]
            &&& read4(b, 4) == b.len() - 8
            &&& b.subrange(8, 16) == seq![
                0x57u8,
                0x41u8,
                0x56u8,
                0x45u8,
                0x66u8,
                0x6du8,
                0x74u8,
                0x20u8,
            ]
            &&& read4(b, 16) == 16
            &&& read2(b, 20) == 1
            &&& read2(b, 22) == 1
            &&& read4(b, 24) == sample_rate
            &&& read4(b, 28) == sample_rate * 2
            &&& read2(b, 32) == 2
            &&& read2(b, 34) == 16
            &&& b.subrange(36, 40) == seq![0x64u8, 0x61u8, 0x74u8, 0x61u8]
            &&& read4(b, 40) == b.len() - 44
            &&& 0 <= i < samples@.len() ==> read_sample(b, 44 + 2 * i) == samples@[i]
        }),
{
    let b = wav@;
    let rate = sample_rate as int;
    let size = samples@.len() * 2;
    let header = wav_header(rate, size);
    lemma_header_sizes(rate, samples@);
    if 0 <= i < samples@.len() {
        lemma_samples_read_back(rate, samples@, i);
    }
    assert(header.len() == 44);
    assert(b.subrange(0, 4) =~= seq![0x52u8, 0x49u8, 0x46u8, 0x46u8]);
    assert(b.subrange(8, 16) =~= seq![
        0x57u8,
        0x41u8,
        0x56u8,
        0x45u8,
        0x66u8,
        0x6du8,
        0x74u8,
        0x20u8,
    ]);
    assert(b.subrange(36, 40) =~= seq![0x64u8, 0x61u8, 0x74u8, 0x61u8]);
    lemma_le4(16);
    lemma_le4(rate * 2);
    assert(b[16] == le4(16)[0] && b[17] == le4(16)[1] && b[18] == le4(16)[2] && b[19] == le4(16)[3]);
    assert(b[20] == le2(1)[0] && b[21] == le2(1)[1]);
    assert(b[22] == le2(1)[0] && b[23] == le2(1)[1]);
    assert(b[28] == le4(rate * 2)[0] && b[29] == le4(rate * 2)[1] && b[30] == le4(rate * 2)[2]
        && b[31] == le4(rate * 2)[3]);
    assert(b[32] == le2(2)[0] && b[33] == le2(2)[1]);
    assert(b[34] == le2(16)[0] && b[35] == le2(16)[1]);
}

} // verus!
