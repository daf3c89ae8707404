//! The chime at the end of a job: three beeps, as a WAV file.

use vstd::prelude::*;

verus! {

/// Samples a second.
pub const RATE: u32 = 22_050;

pub const BEEPS: usize = 3;

/// The samples of one beep, 0.13 seconds.
pub const BEEP: usize = 2866;

/// The samples of silence behind each beep, 0.09 seconds.
pub const GAP: usize = 1984;

/// The samples over which a beep fades in, and out, 0.006 seconds. A tone that
/// starts or stops at once clicks.
pub const FADE: usize = 132;

/// The loudness of a beep at a sample, in parts of [`FADE`]: it rises from
/// nothing at the first sample and is back at nothing at the last.
pub open spec fn loudness(i: int) -> int {
    let left = BEEP - 1 - i;
    let near = if i < left {
        i
    } else {
        left
    };
    if near < FADE {
        near
    } else {
        FADE as int
    }
}

/// The loudness of a beep at a sample, in parts of [`FADE`].
pub fn envelope(i: usize) -> (r: usize)
    requires
        i < BEEP,
    ensures
        r == loudness(i as int),
{
    let left: usize = BEEP - 1 - i;
    let near: usize = if i < left {
        i
    } else {
        left
    };
    if near < FADE {
        near
    } else {
        FADE
    }
}

/// A beep begins and ends silent, is never louder than full, and is the same
/// forwards and backwards.
pub proof fn law_a_beep_fades_at_both_ends(i: int)
    requires
        0 <= i < BEEP,
    ensures
        loudness(0) == 0,
        loudness(BEEP - 1) == 0,
        0 <= loudness(i) <= FADE,
        loudness(i) == loudness(BEEP - 1 - i),
{
}

/// The sample at an index of the chime that the tone of one beep makes.
pub open spec fn chime_sample(tone: Seq<i16>, i: int) -> i16 {
    let within = i % (BEEP + GAP);
    if within < BEEP {
        tone[within]
    } else {
        0
    }
}

/// The chime that the tone of one beep makes: beeps with silence behind each.
pub open spec fn chime(tone: Seq<i16>) -> Seq<i16> {
    Seq::new((BEEPS * (BEEP + GAP)) as nat, |i: int| chime_sample(tone, i))
}

/// The chime, one channel of 16-bit samples.
pub fn samples(tone: &Vec<i16>) -> (r: Vec<i16>)
    requires
        tone@.len() == BEEP,
    ensures
        r@ == chime(tone@),
{
    let mut r: Vec<i16> = Vec::new();
    let mut n: usize = 0;
    while n < BEEPS
        invariant
            n <= BEEPS,
            tone@.len() == BEEP,
            r@.len() == n * (BEEP + GAP),
            forall|i: int| 0 <= i < r@.len() ==> #[trigger] r@[i] == chime_sample(tone@, i),
        decreases BEEPS - n,
    {
        let mut within: usize = 0;
        while within < BEEP + GAP
            invariant
                n < BEEPS,
                within <= BEEP + GAP,
                tone@.len() == BEEP,
                r@.len() == n * (BEEP + GAP) + within,
                forall|i: int| 0 <= i < r@.len() ==> #[trigger] r@[i] == chime_sample(tone@, i),
            decreases BEEP + GAP - within,
        {
            proof {
                let i = n * (BEEP + GAP) + within;
                assert(i % (BEEP + GAP) == within) by (nonlinear_arith)
                    requires
                        i == n * (BEEP + GAP) + within,
                        0 <= within < BEEP + GAP,
                ;
            }
            if within < BEEP {
                r.push(tone[within]);
            } else {
                r.push(0);
            }
            within += 1;
        }
        assert((n + 1) * (BEEP + GAP) == n * (BEEP + GAP) + (BEEP + GAP)) by (nonlinear_arith);
        n += 1;
    }
    assert(r@ =~= chime(tone@));
    r
}

/// A number of two bytes, the low one first.
pub open spec fn le16(n: int) -> Seq<u8> {
    seq![(n % 256) as u8, (n / 256 % 256) as u8]
}

/// A number of four bytes, the low one first.
pub open spec fn le32(n: int) -> Seq<u8> {
    seq![
        (n % 256) as u8,
        (n / 256 % 256) as u8,
        (n / 65536 % 256) as u8,
        (n / 16777216 % 256) as u8,
    ]
}

/// The number that four bytes make, the low one first.
pub open spec fn from_le32(b: Seq<u8>) -> int {
    b[0] + 256 * b[1] + 65536 * b[2] + 16777216 * b[3]
}

/// A sample as the number its two bytes hold.
pub open spec fn unsigned_sample(s: i16) -> int {
    if s >= 0 {
        s as int
    } else {
        s + 65536
    }
}

/// The bytes of the first `n` samples.
pub open spec fn sample_bytes(samples: Seq<i16>, n: int) -> Seq<u8>
    decreases n,
{
    if n <= 0 || n > samples.len() {
        Seq::empty()
    } else {
        sample_bytes(samples, n - 1) + le16(unsigned_sample(samples[n - 1]))
    }
}

/// The header of a WAV file of so many bytes of samples: one channel, 16 bits.
pub open spec fn header(data_len: int) -> Seq<u8> {
    seq![82u8, 73, 70, 70] + le32(36 + data_len) + seq![87u8, 65, 86, 69, 102, 109, 116, 32]
        + le32(16) + le16(1) + le16(1) + le32(RATE as int) + le32(RATE * 2) + le16(2) + le16(16)
        + seq![100u8, 97, 116, 97] + le32(data_len)
}

/// A WAV file of the samples: a header of 44 bytes, then every sample.
pub open spec fn wav_file(samples: Seq<i16>) -> Seq<u8> {
    header(samples.len() as int * 2) + sample_bytes(samples, samples.len() as int)
}

fn put16(out: &mut Vec<u8>, n: u16)
    ensures
        final(out)@ == old(out)@ + le16(n as int),
{
    let ghost before = out@;
    out.push((n % 256) as u8);
    out.push((n / 256) as u8);
    assert(out@ =~= before + le16(n as int));
}

fn put32(out: &mut Vec<u8>, n: u32)
    ensures
        final(out)@ == old(out)@ + le32(n as int),
{
    let ghost before = out@;
    out.push((n % 256) as u8);
    out.push((n / 256 % 256) as u8);
    out.push((n / 65536 % 256) as u8);
    out.push((n / 16777216 % 256) as u8);
    assert(out@ =~= before + le32(n as int));
}

fn put4(out: &mut Vec<u8>, a: u8, b: u8, c: u8, d: u8)
    ensures
        final(out)@ == old(out)@ + seq![a, b, c, d],
{
    let ghost before = out@;
    out.push(a);
    out.push(b);
    out.push(c);
    out.push(d);
    assert(out@ =~= before + seq![a, b, c, d]);
}

/// A WAV file of the samples: a header of 44 bytes, then every sample.
pub fn riff(samples: &Vec<i16>) -> (r: Vec<u8>)
    requires
        36 + samples@.len() * 2 <= u32::MAX,
    ensures
        r@ == wav_file(samples@),
{
    let data_len: u32 = (samples.len() * 2) as u32;
    let mut out: Vec<u8> = Vec::new();
    put4(&mut out, 82, 73, 70, 70);
    put32(&mut out, 36 + data_len);
    put4(&mut out, 87, 65, 86, 69);
    put4(&mut out, 102, 109, 116, 32);
    put32(&mut out, 16);
    put16(&mut out, 1);
    put16(&mut out, 1);
    put32(&mut out, RATE);
    put32(&mut out, RATE * 2);
    put16(&mut out, 2);
    put16(&mut out, 16);
    put4(&mut out, 100, 97, 116, 97);
    put32(&mut out, data_len);
    assert(out@ =~= header(data_len as int));
    let mut i: usize = 0;
    assert(out@ =~= header(data_len as int) + sample_bytes(samples@, 0));
    while i < samples.len()
        invariant
            i <= samples@.len(),
            out@ == header(data_len as int) + sample_bytes(samples@, i as int),
        decreases samples.len() - i,
    {
        let s: i16 = samples[i];
        let n: u16 = if s >= 0 {
            s as u16
        } else {
            (s as i32 + 65536) as u16
        };
        put16(&mut out, n);
        i += 1;
        assert(out@ =~= header(data_len as int) + sample_bytes(samples@, i as int));
    }
    out
}

/// The chime as a WAV file.
pub fn wav(tone: &Vec<i16>) -> (r: Vec<u8>)
    requires
        tone@.len() == BEEP,
    ensures
        r@ == wav_file(chime(tone@)),
{
    riff(&samples(tone))
}

/// What to play when a job is over: the chime, where the machine can play it
/// and the user wants it.
pub fn finished(wanted: bool, playable: bool, tone: &Vec<i16>) -> (r: Option<Vec<u8>>)
    requires
        tone@.len() == BEEP,
    ensures
        match r {
            Some(file) => wanted && playable && file@ == wav_file(chime(tone@)),
            None => !(wanted && playable),
        },
{
    if wanted && playable {
        Some(wav(tone))
    } else {
        None
    }
}

proof fn lemma_le32(n: int)
    requires
        0 <= n <= u32::MAX,
    ensures
        from_le32(le32(n)) == n,
{
    let a = n % 256;
    let b = n / 256 % 256;
    let c = n / 65536 % 256;
    let d = n / 16777216 % 256;
    assert(n == a + 256 * b + 65536 * c + 16777216 * d);
}

proof fn lemma_sample_bytes(samples: Seq<i16>, n: int)
    requires
        0 <= n <= samples.len(),
    ensures
        sample_bytes(samples, n).len() == 2 * n,
    decreases n,
{
    if n > 0 {
        lemma_sample_bytes(samples, n - 1);
    }
}

/// The header describes what follows it: it is 44 bytes long, the length it
/// gives the samples is that of their bytes, and the length it gives the file
/// leaves out the first eight bytes.
pub proof fn law_the_header_describes_the_payload(samples: Seq<i16>)
    requires
        36 + samples.len() * 2 <= u32::MAX,
    ensures
        ({
            let file = wav_file(samples);
            &&& file.len() == 44 + samples.len() * 2
            &&& from_le32(file.subrange(40, 44)) == samples.len() * 2
            &&& from_le32(file.subrange(4, 8)) == file.len() - 8
        }),
{
    let n = samples.len() as int * 2;
    let file = wav_file(samples);
    lemma_sample_bytes(samples, samples.len() as int);
    assert(file.subrange(40, 44) =~= le32(n));
    assert(file.subrange(4, 8) =~= le32(36 + n));
    lemma_le32(n);
    lemma_le32(36 + n);
}

// --- what the chime promises ----------------------------------------------

/// The chime is three beeps with a pause behind each: the tone sample by sample,
/// then silence, and the same again.
pub proof fn law_the_chime_is_three_beeps(tone: &Vec<i16>, r: Vec<i16>, beep: int, i: int)
    requires
        tone@.len() == 2866,
        call_ensures(samples, (tone,), r),
        0 <= beep < 3,
    ensures
        r@.len() == 3 * (2866 + 1984),
        0 <= i < 2866 ==> r@[beep * 4850 + i] == tone@[i],
        2866 <= i < 4850 ==> r@[beep * 4850 + i] == 0,
{
    if 0 <= i < 4850 {
        let at = beep * 4850 + i;
        assert(at % 4850 == i) by {
            assert(beep == 0 || beep == 1 || beep == 2);
        }
        assert(r@[at] == chime_sample(tone@, at));
    }
}

/// A beep swells from nothing over its first samples and dies away over its
/// last, and is of one loudness between.
pub proof fn law_a_beep_swells_and_dies_away(i: usize, r: usize)
    requires
        i < 2866,
        call_ensures(envelope, (i,), r),
    ensures
        i <= 132 ==> r == i,
        2865 - i <= 132 ==> r == 2865 - i,
        132 <= i <= 2733 ==> r == 132,
{
}

proof fn lemma_sample_at(samples: Seq<i16>, n: int, i: int)
    requires
        0 <= i < n <= samples.len(),
    ensures
        sample_bytes(samples, n).len() == 2 * n,
        sample_bytes(samples, n)[2 * i] == unsigned_sample(samples[i]) % 256,
        sample_bytes(samples, n)[2 * i + 1] == unsigned_sample(samples[i]) / 256,
    decreases n,
{
    lemma_sample_bytes(samples, n);
    lemma_sample_bytes(samples, n - 1);
    if i < n - 1 {
        lemma_sample_at(samples, n - 1, i);
    }
}

/// A sound file holds every sample in its order, low byte first, behind a header
/// that says one channel of sixteen bits at twenty-two thousand and fifty a
/// second.
pub proof fn law_a_sound_file_holds_every_sample(samples: &Vec<i16>, r: Vec<u8>, i: int)
    requires
        36 + samples@.len() * 2 <= u32::MAX,
        call_ensures(riff, (samples,), r),
        0 <= i < samples@.len(),
    ensures
        r@.len() == 44 + 2 * samples@.len(),
        r@[44 + 2 * i] + 256 * r@[45 + 2 * i] == samples@[i] || r@[44 + 2 * i] + 256 * r@[45 + 2
            * i] == samples@[i] + 65536,
        r@[22] == 1 && r@[23] == 0,
        r@[34] == 16 && r@[35] == 0,
        r@[24] + 256 * r@[25] == 22050 && r@[26] == 0 && r@[27] == 0,
        r@[0] == 82 && r@[1] == 73 && r@[2] == 70 && r@[3] == 70,
        r@[8] == 87 && r@[9] == 65 && r@[10] == 86 && r@[11] == 69,
{
    let n = samples@.len() as int;
    lemma_sample_at(samples@, n, i);
    let data = sample_bytes(samples@, n);
    assert(header(n * 2).len() == 44);
    assert(r@[44 + 2 * i] == data[2 * i]);
    assert(r@[44 + (2 * i + 1)] == data[2 * i + 1]);
    let u = unsigned_sample(samples@[i]);
    assert(u == 256 * (u / 256) + u % 256);
}

/// The chime is played exactly where it is wanted and can be played, and is the
/// sound file of the chime.
pub proof fn law_the_chime_is_played_where_wanted(
    wanted: bool,
    playable: bool,
    tone: &Vec<i16>,
    beeps: Vec<i16>,
    file: Vec<u8>,
    r: Option<Vec<u8>>,
)
    requires
        tone@.len() == 2866,
        call_ensures(samples, (tone,), beeps),
        call_ensures(riff, (&beeps,), file),
        call_ensures(finished, (wanted, playable, tone), r),
    ensures
        r is Some <==> wanted && playable,
        r matches Some(bytes) ==> bytes@ == file@,
{
}

} // verus!
