//! A track's identity independent of where its file lives and what its tags
//! say: a hash of the codec parameters and the first megabyte of demuxed
//! packet payload. Probing the file and reading its packets belong to the
//! application, which feeds what it reads to a `Fingerprinter`.

use vstd::prelude::*;

use crate::text::push_char;

verus! {

/// Packet payload hashed per track.
pub const HEAD_BYTES: usize = 1048576;

/// Bytes read from a source before fingerprinting gives up, leaving room for
/// embedded cover art ahead of the audio.
pub const READ_LIMIT: u64 = 16777216;

/// What SHA-256 makes of `data`.
pub uninterp spec fn sha256(data: Seq<u8>) -> Seq<u8>;

/// The SHA-256 digest of `data` (`sha2::Sha256::digest`): 32 bytes.
#[verifier::external_body]
fn sha256_digest(data: &[u8]) -> (d: Vec<u8>)
    ensures
        d@ == sha256(data@),
        d@.len() == 32,
{
    <sha2::Sha256 as sha2::Digest>::digest(data).to_vec()
}

/// `x` as four little-endian bytes.
pub open spec fn le_bytes(x: u32) -> Seq<u8> {
    seq![
        (x % 256) as u8,
        ((x / 256) % 256) as u8,
        ((x / 65536) % 256) as u8,
        (x / 16777216) as u8,
    ]
}

/// The lower-case hexadecimal digit for `v`, below sixteen.
pub open spec fn hex_digit(v: int) -> char {
    if v < 10 {
        (48 + v) as char
    } else {
        (87 + v) as char
    }
}

/// Each byte as two lower-case hexadecimal digits.
pub open spec fn hex(bytes: Seq<u8>) -> Seq<char>
    decreases bytes.len(),
{
    if bytes.len() == 0 {
        Seq::empty()
    } else {
        hex(bytes.drop_last()) + seq![
            hex_digit((bytes.last() / 16) as int),
            hex_digit((bytes.last() % 16) as int),
        ]
    }
}

/// The stored form of a fingerprint: the algorithm's version, then the
/// digest in hex.
pub open spec fn fingerprint_text(digest: Seq<u8>) -> Seq<char> {
    seq!['v', '1', ':'] + hex(digest)
}

fn push_le_bytes(v: &mut Vec<u8>, x: u32)
    ensures
        final(v)@ == old(v)@ + le_bytes(x),
{
    v.push((x % 256) as u8);
    v.push(((x / 256) % 256) as u8);
    v.push(((x / 65536) % 256) as u8);
    v.push((x / 16777216) as u8);
    proof {
        assert(final(v)@ =~= old(v)@ + le_bytes(x));
    }
}

/// The hash input of one track as it is read.
pub struct Fingerprinter {
    header: Vec<u8>,
    payload: Vec<u8>,
}

impl Fingerprinter {
    /// The codec parameters hashed ahead of the audio.
    pub closed spec fn header(&self) -> Seq<u8> {
        self.header@
    }

    /// The packet payload taken so far.
    pub closed spec fn payload(&self) -> Seq<u8> {
        self.payload@
    }

    pub closed spec fn wf(&self) -> bool {
        self.payload@.len() <= HEAD_BYTES
    }

    /// Start with the codec's name, the sample rate (0 if unknown) and the
    /// channel count (0 if unknown).
    pub fn new(codec: &[u8], sample_rate: u32, channels: u32) -> (f: Fingerprinter)
        ensures
            f.wf(),
            f.header() == codec@ + le_bytes(sample_rate) + le_bytes(channels),
            f.payload().len() == 0,
    {
        let mut header: Vec<u8> = Vec::new();
        let mut i: usize = 0;
        while i < codec.len()
            invariant
                i <= codec@.len(),
                header@ == codec@.take(i as int),
            decreases codec@.len() - i,
        {
            header.push(codec[i]);
            proof {
                assert(codec@.take(i as int + 1) =~= codec@.take(i as int).push(codec@[i as int]));
            }
            i = i + 1;
        }
        proof {
            assert(codec@.take(codec@.len() as int) =~= codec@);
        }
        push_le_bytes(&mut header, sample_rate);
        push_le_bytes(&mut header, channels);
        Fingerprinter { header, payload: Vec::new() }
    }

    /// Whether less than the whole head has been taken.
    pub fn wants_more(&self) -> (r: bool)
        requires
            self.wf(),
        ensures
            r == (self.payload().len() < HEAD_BYTES),
    {
        self.payload.len() < HEAD_BYTES
    }

    /// Take as much of a packet of the track as the head still has room for.
    pub fn feed(&mut self, packet: &[u8])
        requires
            old(self).wf(),
        ensures
            final(self).wf(),
            final(self).header() == old(self).header(),
            final(self).payload() == old(self).payload() + packet@.take(
                if packet@.len() < HEAD_BYTES - old(self).payload().len() {
                    packet@.len() as int
                } else {
                    HEAD_BYTES - old(self).payload().len()
                },
            ),
    {
        let room = HEAD_BYTES - self.payload.len();
        let take = if packet.len() < room {
            packet.len()
        } else {
            room
        };
        let ghost before = self.payload@;
        let mut i: usize = 0;
        while i < take
            invariant
                i <= take,
                take <= packet@.len(),
                self.payload@ == before + packet@.take(i as int),
                before.len() + take <= HEAD_BYTES,
                self.header@ == old(self).header@,
            decreases take - i,
        {
            self.payload.push(packet[i]);
            proof {
                assert(packet@.take(i as int + 1) =~= packet@.take(i as int).push(packet@[i as int]));
                assert(self.payload@ =~= before + packet@.take(i as int + 1));
            }
            i = i + 1;
        }
    }

    /// The fingerprint, or `None` when no audio packet was read.
    pub fn finish(&self) -> (r: Option<String>)
        requires
            self.wf(),
        ensures
            self.payload().len() == 0 ==> r is None,
            self.payload().len() > 0 ==> (r matches Some(s) && s@ == fingerprint_text(
                sha256(self.header() + self.payload()),
            )),
    {
        if self.payload.len() == 0 {
            return None;
        }
        let mut input: Vec<u8> = Vec::new();
        let mut i: usize = 0;
        while i < self.header.len()
            invariant
                i <= self.header@.len(),
                input@ == self.header@.take(i as int),
            decreases self.header@.len() - i,
        {
            input.push(self.header[i]);
            proof {
                assert(self.header@.take(i as int + 1) =~= self.header@.take(i as int).push(self.header@[i as int]));
            }
            i = i + 1;
        }
        let mut j: usize = 0;
        proof {
            assert(self.header@.take(self.header@.len() as int) =~= self.header@);
        }
        while j < self.payload.len()
            invariant
                j <= self.payload@.len(),
                input@ == self.header@ + self.payload@.take(j as int),
            decreases self.payload@.len() - j,
        {
            input.push(self.payload[j]);
            proof {
                assert(input@ =~= self.header@ + self.payload@.take(j as int + 1));
            }
            j = j + 1;
        }
        proof {
            assert(self.payload@.take(self.payload@.len() as int) =~= self.payload@);
        }
        let digest = sha256_digest(input.as_slice());
        let mut s = String::new();
        push_char(&mut s, 'v');
        push_char(&mut s, '1');
        push_char(&mut s, ':');
        let mut k: usize = 0;
        while k < digest.len()
            invariant
                k <= digest@.len(),
                s@ == seq!['v', '1', ':'] + hex(digest@.take(k as int)),
            decreases digest@.len() - k,
        {
            let b = digest[k];
            let hi = b / 16;
            let lo = b % 16;
            let h = if hi < 10 {
                (48 + hi) as char
            } else {
                (87 + hi) as char
            };
            let l = if lo < 10 {
                (48 + lo) as char
            } else {
                (87 + lo) as char
            };
            assert(h == hex_digit(hi as int));
            assert(l == hex_digit(lo as int));
            push_char(&mut s, h);
            push_char(&mut s, l);
            proof {
                let t = digest@.take(k as int + 1);
                assert(t.drop_last() =~= digest@.take(k as int));
                assert(t.last() == b);
                assert(s@ =~= seq!['v', '1', ':'] + hex(t));
            }
            k = k + 1;
        }
        proof {
            assert(digest@.take(digest@.len() as int) =~= digest@);
        }
        Some(s)
    }
}

} // verus!
