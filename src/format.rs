//! The `.reflex` container: a fixed 29-byte header, three length-prefixed
//! payloads and a trailing CRC-32 of everything before it.
use vstd::prelude::*;

use vstd::slice::{slice_subrange, slice_to_vec};

use crate::bytes::{lemma_read16, lemma_read32, lemma_read64, push_all,
    get16, get32, get64, le16, le32, le64, push_le16, push_le32, push_le64, read16, read32,
    read64,
};

verus! {

/// Magic bytes `"NEM1"`.
pub const MAGIC: [u8; 4] = [0x4e, 0x45, 0x4d, 0x31];

/// The container format version this library reads and writes.
pub const VERSION: u16 = 1;

/// Size of the fixed header in bytes.
pub const HEADER_SIZE: usize = 29;

pub open spec fn magic_seq() -> Seq<u8> {
    seq![0x4e_u8, 0x45_u8, 0x4d_u8, 0x31_u8]
}

/// Kind of model held in the payload.
#[derive(Debug, Clone, Copy, PartialEq, Eq, Structural)]
pub enum ModelType {
    DecisionTree,
    Linear,
}

pub open spec fn model_type_code(t: ModelType) -> u8 {
    match t {
        ModelType::DecisionTree => 0,
        ModelType::Linear => 1,
    }
}

/// Why an artifact was refused at load time.
#[derive(Debug, Clone, Copy, PartialEq, Eq, Structural)]
pub enum ArtifactError {
    /// The buffer is shorter than a header plus checksum.
    Truncated,
    /// The trailing CRC-32 does not match the preceding bytes.
    ChecksumMismatch,
    /// The first four bytes are not `"NEM1"`.
    BadMagic,
    /// The version field is not 1.
    BadVersion,
    /// A declared payload size runs past the checksummed region.
    PayloadOverrun,
    /// The bounds arrays differ in length or disagree with the output count.
    BoundsMismatch,
}

/// The fixed-size header of a reflex container.
#[derive(Debug, Clone, Copy)]
pub struct ReflexHeader {
    pub magic: [u8; 4],
    pub version: u16,
    pub model_type: u8,
    pub feature_count: u8,
    pub output_count: u8,
    pub created_at_unix: u64,
    pub model_size_bytes: u32,
    pub bounds_size_bytes: u32,
    pub metadata_size_bytes: u32,
}

/// The 29 bytes that encode a header.
#[verifier::opaque]
pub open spec fn header_bytes(h: ReflexHeader) -> Seq<u8> {
    h.magic@ + le16(h.version) + seq![h.model_type, h.feature_count, h.output_count] + le64(
        h.created_at_unix,
    ) + le32(h.model_size_bytes) + le32(h.bounds_size_bytes) + le32(h.metadata_size_bytes)
}

/// `h` is the header that the first 29 bytes of `s` denote.
pub open spec fn header_read_from(h: ReflexHeader, s: Seq<u8>) -> bool {
    &&& s.len() >= 29
    &&& h.magic@ == s.subrange(0, 4)
    &&& h.version == read16(s, 4)
    &&& h.model_type == s[6]
    &&& h.feature_count == s[7]
    &&& h.output_count == s[8]
    &&& h.created_at_unix == read64(s, 9)
    &&& h.model_size_bytes == read32(s, 17)
    &&& h.bounds_size_bytes == read32(s, 21)
    &&& h.metadata_size_bytes == read32(s, 25)
}

impl ReflexHeader {
    /// A header with the current magic and version.
    pub fn new(
        model_type: ModelType,
        feature_count: u8,
        output_count: u8,
        created_at_unix: u64,
        model_size_bytes: u32,
        bounds_size_bytes: u32,
        metadata_size_bytes: u32,
    ) -> (r: Self)
        ensures
            r.magic@ == magic_seq(),
            r.version == VERSION,
            r.model_type == model_type_code(model_type),
            r.feature_count == feature_count,
            r.output_count == output_count,
            r.created_at_unix == created_at_unix,
            r.model_size_bytes == model_size_bytes,
            r.bounds_size_bytes == bounds_size_bytes,
            r.metadata_size_bytes == metadata_size_bytes,
    {
        let code: u8 = match model_type {
            ModelType::DecisionTree => 0,
            ModelType::Linear => 1,
        };
        let r = ReflexHeader {
            magic: MAGIC,
            version: VERSION,
            model_type: code,
            feature_count,
            output_count,
            created_at_unix,
            model_size_bytes,
            bounds_size_bytes,
            metadata_size_bytes,
        };
        assert(r.magic@ =~= magic_seq());
        r
    }

    /// The little-endian encoding of the header.
    pub fn to_bytes(&self) -> (r: Vec<u8>)
        ensures
            r@ == header_bytes(*self),
            r@.len() == HEADER_SIZE,
    {
        reveal(header_bytes);
        let mut buf: Vec<u8> = Vec::new();
        buf.push(self.magic[0]);
        buf.push(self.magic[1]);
        buf.push(self.magic[2]);
        buf.push(self.magic[3]);
        assert(buf@ =~= self.magic@);
        push_le16(&mut buf, self.version);
        buf.push(self.model_type);
        buf.push(self.feature_count);
        buf.push(self.output_count);
        assert(buf@ =~= self.magic@ + le16(self.version) + seq![
            self.model_type,
            self.feature_count,
            self.output_count,
        ]);
        push_le64(&mut buf, self.created_at_unix);
        push_le32(&mut buf, self.model_size_bytes);
        push_le32(&mut buf, self.bounds_size_bytes);
        push_le32(&mut buf, self.metadata_size_bytes);
        buf
    }

    /// Reads a header from the first 29 bytes; fails only when fewer are given.
    pub fn from_bytes(bytes: &[u8]) -> (r: Result<Self, ArtifactError>)
        ensures
            bytes@.len() < HEADER_SIZE ==> r == Err::<Self, ArtifactError>(ArtifactError::Truncated),
            bytes@.len() >= HEADER_SIZE ==> (r matches Ok(h) && header_read_from(h, bytes@)),
    {
        if bytes.len() < HEADER_SIZE {
            return Err(ArtifactError::Truncated);
        }
        let magic: [u8; 4] = [bytes[0], bytes[1], bytes[2], bytes[3]];
        assert(magic@ =~= bytes@.subrange(0, 4));
        Ok(ReflexHeader {
            magic,
            version: get16(bytes, 4),
            model_type: bytes[6],
            feature_count: bytes[7],
            output_count: bytes[8],
            created_at_unix: get64(bytes, 9),
            model_size_bytes: get32(bytes, 17),
            bounds_size_bytes: get32(bytes, 21),
            metadata_size_bytes: get32(bytes, 25),
        })
    }

    /// Checks the magic and the version, in that order.
    pub fn validate(&self) -> (r: Result<(), ArtifactError>)
        ensures
            self.magic@ != magic_seq() ==> r == Err::<(), ArtifactError>(ArtifactError::BadMagic),
            self.magic@ == magic_seq() && self.version != VERSION ==> r == Err::<(), ArtifactError>(
                ArtifactError::BadVersion,
            ),
            self.magic@ == magic_seq() && self.version == VERSION ==> r is Ok,
    {
        if self.magic[0] != 0x4e || self.magic[1] != 0x45 || self.magic[2] != 0x4d
            || self.magic[3] != 0x31 {
            return Err(ArtifactError::BadMagic);
        }
        assert(self.magic@ =~= magic_seq());
        if self.version != VERSION {
            return Err(ArtifactError::BadVersion);
        }
        Ok(())
    }
}

/// Decoding the encoding of a header gives the header back.
pub proof fn lemma_header_round_trip(h: ReflexHeader)
    ensures
        header_bytes(h).len() == 29,
        header_read_from(h, header_bytes(h)),
        h.magic@ == header_bytes(h).subrange(0, 4),
{
    reveal(header_bytes);
    let s = header_bytes(h);
    lemma_read16(h.version);
    lemma_read64(h.created_at_unix);
    lemma_read32(h.model_size_bytes);
    lemma_read32(h.bounds_size_bytes);
    lemma_read32(h.metadata_size_bytes);
    assert(s.subrange(0, 4) =~= h.magic@);
    assert(read16(s, 4) == read16(le16(h.version), 0));
    assert(read64(s, 9) == read64(le64(h.created_at_unix), 0));
    assert(read32(s, 17) == read32(le32(h.model_size_bytes), 0));
    assert(read32(s, 21) == read32(le32(h.bounds_size_bytes), 0));
    assert(read32(s, 25) == read32(le32(h.metadata_size_bytes), 0));
}

} // verus!

verus! {

/// Name for the CRC-32 (IEEE, reflected polynomial 0xEDB88320) of a byte
/// string; it depends on the bytes alone.
pub uninterp spec fn crc32_of(b: Seq<u8>) -> u32;

/// Relies on `crc32fast::hash`: the standard CRC-32 of the whole slice.
#[verifier::external_body]
fn crc32(b: &[u8]) -> (r: u32)
    ensures
        r == crc32_of(b@),
{
    crc32fast::hash(b)
}

/// The header, the three payloads and the checksum over all of them.
pub open spec fn container_bytes(h: ReflexHeader, m: Seq<u8>, b: Seq<u8>, d: Seq<u8>) -> Seq<u8> {
    let body = header_bytes(h) + m + b + d;
    body + le32(crc32_of(body))
}

/// The header that `Container::to_bytes` writes for the given payloads.
pub open spec fn sealed_header(h: ReflexHeader, m: Seq<u8>, b: Seq<u8>, d: Seq<u8>) -> ReflexHeader {
    ReflexHeader {
        magic: MAGIC,
        version: VERSION,
        model_type: 0,
        feature_count: h.feature_count,
        output_count: h.output_count,
        created_at_unix: h.created_at_unix,
        model_size_bytes: m.len() as u32,
        bounds_size_bytes: b.len() as u32,
        metadata_size_bytes: d.len() as u32,
    }
}

/// The first reason, in checking order, for which `s` is not a container.
pub open spec fn container_error(s: Seq<u8>) -> Option<ArtifactError> {
    container_error_given(s, crc32_of(s.subrange(0, s.len() - 4)))
}

/// As `container_error`, with `crc` standing for the CRC-32 of all but the
/// last four bytes.
pub open spec fn container_error_given(s: Seq<u8>, crc: u32) -> Option<ArtifactError> {
    if s.len() < HEADER_SIZE + 4 {
        Some(ArtifactError::Truncated)
    } else if crc != read32(s, s.len() - 4) {
        Some(ArtifactError::ChecksumMismatch)
    } else if s.subrange(0, 4) != magic_seq() {
        Some(ArtifactError::BadMagic)
    } else if read16(s, 4) != VERSION {
        Some(ArtifactError::BadVersion)
    } else if HEADER_SIZE + read32(s, 17) + read32(s, 21) + read32(s, 25) > s.len() - 4 {
        Some(ArtifactError::PayloadOverrun)
    } else {
        None
    }
}

/// A reflex container whose payloads are still encoded bytes.
pub struct Container {
    pub header: ReflexHeader,
    pub model: Vec<u8>,
    pub bounds: Vec<u8>,
    pub metadata: Vec<u8>,
}

/// `c` holds the header and the three declared payloads of `s`.
pub open spec fn container_read_from(c: Container, s: Seq<u8>) -> bool {
    let m = c.header.model_size_bytes as int;
    let b = c.header.bounds_size_bytes as int;
    let d = c.header.metadata_size_bytes as int;
    &&& header_read_from(c.header, s)
    &&& c.model@ == s.subrange(29, 29 + m)
    &&& c.bounds@ == s.subrange(29 + m, 29 + m + b)
    &&& c.metadata@ == s.subrange(29 + m + b, 29 + m + b + d)
}

impl Container {
    /// Writes the header (fresh magic, version and payload sizes; counts and
    /// creation time from `self.header`), the payloads and the CRC-32.
    pub fn to_bytes(&self) -> (r: Vec<u8>)
        requires
            self.model@.len() <= u32::MAX,
            self.bounds@.len() <= u32::MAX,
            self.metadata@.len() <= u32::MAX,
            HEADER_SIZE + self.model@.len() + self.bounds@.len() + self.metadata@.len() + 4
                <= usize::MAX,
        ensures
            r@ == container_bytes(
                sealed_header(self.header, self.model@, self.bounds@, self.metadata@),
                self.model@,
                self.bounds@,
                self.metadata@,
            ),
    {
        let header = ReflexHeader::new(
            ModelType::DecisionTree,
            self.header.feature_count,
            self.header.output_count,
            self.header.created_at_unix,
            self.model.len() as u32,
            self.bounds.len() as u32,
            self.metadata.len() as u32,
        );
        let ghost h = sealed_header(self.header, self.model@, self.bounds@, self.metadata@);
        assert(header.magic@ =~= h.magic@);
        assert(header_bytes(header) == header_bytes(h)) by {
            reveal(header_bytes);
        }
        let mut buf = header.to_bytes();
        push_all(&mut buf, self.model.as_slice());
        push_all(&mut buf, self.bounds.as_slice());
        push_all(&mut buf, self.metadata.as_slice());
        let crc = crc32(buf.as_slice());
        push_le32(&mut buf, crc);
        buf
    }

    /// Checks length, checksum, magic, version and payload sizes, in that
    /// order, and slices out the three payloads. Bytes between the last
    /// payload and the checksum are ignored.
    pub fn from_bytes(data: &[u8]) -> (r: Result<Container, ArtifactError>)
        ensures
            match r {
                Ok(c) => container_error(data@) is None && container_read_from(c, data@),
                Err(e) => container_error(data@) == Some(e),
            },
    {
        let n = data.len();
        if n < HEADER_SIZE + 4 {
            return Err(ArtifactError::Truncated);
        }
        let crc = crc32(slice_subrange(data, 0, n - 4));
        Container::from_bytes_with_crc(data, crc)
    }

    /// `from_bytes` once the CRC-32 of all but the last four bytes is known
    /// to be `crc`.
    pub fn from_bytes_with_crc(data: &[u8], crc: u32) -> (r: Result<Container, ArtifactError>)
        ensures
            match r {
                Ok(c) => container_error_given(data@, crc) is None && container_read_from(c, data@),
                Err(e) => container_error_given(data@, crc) == Some(e),
            },
    {
        let n = data.len();
        if n < HEADER_SIZE + 4 {
            return Err(ArtifactError::Truncated);
        }
        let body_len = n - 4;
        let expected = get32(data, body_len);
        if crc != expected {
            return Err(ArtifactError::ChecksumMismatch);
        }
        let header = match ReflexHeader::from_bytes(data) {
            Ok(h) => h,
            Err(e) => {
                return Err(e);
            },
        };
        proof {
            assert(header.magic@ == data@.subrange(0, 4));
        }
        match header.validate() {
            Ok(()) => {},
            Err(e) => {
                return Err(e);
            },
        }
        let m = header.model_size_bytes as usize;
        let b = header.bounds_size_bytes as usize;
        let d = header.metadata_size_bytes as usize;
        if m > body_len - HEADER_SIZE || b > body_len - HEADER_SIZE - m || d > body_len
            - HEADER_SIZE - m - b {
            return Err(ArtifactError::PayloadOverrun);
        }
        let model = slice_to_vec(slice_subrange(data, HEADER_SIZE, HEADER_SIZE + m));
        let bounds = slice_to_vec(slice_subrange(data, HEADER_SIZE + m, HEADER_SIZE + m + b));
        let metadata = slice_to_vec(
            slice_subrange(data, HEADER_SIZE + m + b, HEADER_SIZE + m + b + d),
        );
        Ok(Container { header, model, bounds, metadata })
    }
}

proof fn lemma_header_prefix(h: ReflexHeader, t: Seq<u8>, s: Seq<u8>)
    requires
        t.len() == 29,
        header_read_from(h, t),
        s.len() >= 29,
        s.subrange(0, 29) == t,
    ensures
        header_read_from(h, s),
{
    assert forall|i: int| 0 <= i < 29 implies s[i] == t[i] by {
        assert(s[i] == s.subrange(0, 29)[i]);
    }
    assert(s.subrange(0, 4) =~= t.subrange(0, 4));
}

/// Round trip of the container: decoding what `Container::to_bytes` writes
/// succeeds, yields the written header and the same three payloads, and the
/// stored checksum is the CRC-32 recomputed over the bytes before it.
pub proof fn lemma_container_round_trip(h: ReflexHeader, m: Seq<u8>, b: Seq<u8>, d: Seq<u8>)
    requires
        m.len() <= u32::MAX,
        b.len() <= u32::MAX,
        d.len() <= u32::MAX,
    ensures
        ({
            let s = container_bytes(sealed_header(h, m, b, d), m, b, d);
            let n = s.len() as int - 4;
            let mm = m.len() as int;
            let bb = b.len() as int;
            let dd = d.len() as int;
            &&& container_error(s) is None
            &&& read32(s, n) == crc32_of(s.subrange(0, n))
            &&& header_read_from(sealed_header(h, m, b, d), s)
            &&& s.subrange(29, 29 + mm) == m
            &&& s.subrange(29 + mm, 29 + mm + bb) == b
            &&& s.subrange(29 + mm + bb, 29 + mm + bb + dd) == d
        }),
{
    let sh = sealed_header(h, m, b, d);
    let hb = header_bytes(sh);
    let body = hb + m + b + d;
    let crc = le32(crc32_of(body));
    let s = body + crc;
    let mm = m.len() as int;
    let bb = b.len() as int;
    let dd = d.len() as int;
    lemma_header_round_trip(sh);
    lemma_read32(crc32_of(body));
    let n = s.len() as int - 4;
    assert(n == body.len());
    assert(s.subrange(0, n) =~= body);
    assert(s[n] == crc[0] && s[n + 1] == crc[1] && s[n + 2] == crc[2] && s[n + 3] == crc[3]);
    assert(read32(s, n) == read32(crc, 0));
    assert(s.subrange(0, 29) =~= hb);
    lemma_header_prefix(sh, hb, s);
    assert(sh.magic@ =~= magic_seq());
    assert(s.subrange(29, 29 + mm) =~= m);
    assert(s.subrange(29 + mm, 29 + mm + bb) =~= b);
    assert(s.subrange(29 + mm + bb, 29 + mm + bb + dd) =~= d);
    assert(container_error(s) is None);
}

/// Integrity of the trailer: in a buffer that decodes, replacing any byte
/// of the stored checksum by a different value (a bit flip among them)
/// makes decoding fail with a checksum mismatch.
pub proof fn lemma_checksum_change_detected(s: Seq<u8>, i: int, v: u8)
    requires
        container_error(s) is None,
        s.len() - 4 <= i < s.len(),
        v != s[i],
    ensures
        container_error(s.update(i, v)) == Some(ArtifactError::ChecksumMismatch),
{
    let t = s.update(i, v);
    let n = s.len() - 4;
    assert(t.subrange(0, n) =~= s.subrange(0, n));
    let k = i - n;
    assert(read32(t, n) - read32(s, n) == (if k == 0 {
        1int
    } else if k == 1 {
        256int
    } else if k == 2 {
        65536int
    } else {
        16777216int
    }) * (v - s[i]));
    assert(read32(t, n) != read32(s, n));
}

} // verus!
