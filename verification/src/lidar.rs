//! LiDAR point cloud buffers: fixed-stride point records in a byte buffer.
//!
//! Each point record is `stride` bytes; coordinates and the optional intensity
//! and timestamp are 32-bit values stored little-endian at their field offsets,
//! the optional ring number is one byte. Values are kept as raw 32-bit
//! patterns (for single-precision floats, their bit patterns).
//!
//! Little-endian is the native byte order of every target the records are
//! produced on (x86-64, AArch64, ARMv7 and Cortex-M), so records match what
//! the sensors' drivers write there.

use vstd::prelude::*;
use crate::buffer::{BorrowedBuffer, ZeroCopyBuffer};

verus! {

/// Specification of the point data layout.
#[derive(Debug, Clone, Copy, PartialEq, Eq, Structural)]
pub struct PointFormat {
    /// Stride per point in bytes
    pub stride: usize,
    /// Offsets (in bytes) for each field
    pub x_offset: usize,
    pub y_offset: usize,
    pub z_offset: usize,
    pub intensity_offset: Option<usize>,
    pub ring_offset: Option<usize>,
    pub timestamp_offset: Option<usize>,
}

/// One point record's fields, as raw values: 32-bit patterns for the
/// coordinates, intensity and timestamp, a byte for the ring number.
#[derive(Debug, Clone, Copy, PartialEq, Eq, Structural)]
pub struct RawPoint {
    pub x: u32,
    pub y: u32,
    pub z: u32,
    pub intensity: Option<u32>,
    pub ring: Option<u8>,
    pub timestamp: Option<u32>,
}

/// Number of fields (channels) a format describes.
pub open spec fn format_channels(f: PointFormat) -> nat {
    3 + (if f.intensity_offset is Some {
        1nat
    } else {
        0
    }) + (if f.ring_offset is Some {
        1nat
    } else {
        0
    }) + (if f.timestamp_offset is Some {
        1nat
    } else {
        0
    })
}

impl PointFormat {
    /// Standard 12-byte format: x, y, z as f32 (4 bytes each)
    pub fn xyz_float() -> (f: Self)
        ensures
            f == (PointFormat {
                stride: 12,
                x_offset: 0,
                y_offset: 4,
                z_offset: 8,
                intensity_offset: None,
                ring_offset: None,
                timestamp_offset: None,
            }),
    {
        PointFormat {
            stride: 12,
            x_offset: 0,
            y_offset: 4,
            z_offset: 8,
            intensity_offset: None,
            ring_offset: None,
            timestamp_offset: None,
        }
    }

    /// 16-byte format: x, y, z, intensity all as f32
    pub fn xyz_intensity_float() -> (f: Self)
        ensures
            f == (PointFormat {
                stride: 16,
                x_offset: 0,
                y_offset: 4,
                z_offset: 8,
                intensity_offset: Some(12),
                ring_offset: None,
                timestamp_offset: None,
            }),
    {
        PointFormat {
            stride: 16,
            x_offset: 0,
            y_offset: 4,
            z_offset: 8,
            intensity_offset: Some(12),
            ring_offset: None,
            timestamp_offset: None,
        }
    }

    /// 32-byte format with all fields
    pub fn full_32byte() -> (f: Self)
        ensures
            f == (PointFormat {
                stride: 32,
                x_offset: 0,
                y_offset: 4,
                z_offset: 8,
                intensity_offset: Some(12),
                ring_offset: Some(16),
                timestamp_offset: Some(20),
            }),
    {
        PointFormat {
            stride: 32,
            x_offset: 0,
            y_offset: 4,
            z_offset: 8,
            intensity_offset: Some(12),
            ring_offset: Some(16),
            timestamp_offset: Some(20),
        }
    }

    /// Calculate size for N points
    pub fn size_for_points(&self, num_points: usize) -> (n: usize)
        requires
            self.stride * num_points <= usize::MAX,
        ensures
            n == self.stride * num_points,
    {
        self.stride * num_points
    }

    /// Whether every field of the format lies inside one record.
    pub fn fits_stride(&self) -> (b: bool)
        ensures
            b == fields_fit(*self),
    {
        let fits = |o: usize, w: usize| -> (r: bool)
            ensures
                r == (o + w <= self.stride),
            { o <= self.stride && w <= self.stride - o };
        fits(self.x_offset, 4) && fits(self.y_offset, 4) && fits(self.z_offset, 4) && match self.intensity_offset {
            Some(o) => fits(o, 4),
            None => true,
        } && match self.ring_offset {
            Some(o) => fits(o, 1),
            None => true,
        } && match self.timestamp_offset {
            Some(o) => fits(o, 4),
            None => true,
        }
    }

    /// Get the number of channels (fields) in this format.
    pub fn num_channels(&self) -> (n: usize)
        ensures
            n == format_channels(*self),
    {
        let mut n: usize = 3;
        if self.intensity_offset.is_some() {
            n += 1;
        }
        if self.ring_offset.is_some() {
            n += 1;
        }
        if self.timestamp_offset.is_some() {
            n += 1;
        }
        n
    }
}

/// The four little-endian bytes of a 32-bit value.
pub open spec fn le_bytes(v: u32) -> Seq<u8> {
    seq![
        (v % 256) as u8,
        ((v / 256) % 256) as u8,
        ((v / 65536) % 256) as u8,
        ((v / 16777216) % 256) as u8,
    ]
}

/// The 32-bit value of four little-endian bytes.
pub open spec fn le_value(b0: u8, b1: u8, b2: u8, b3: u8) -> u32 {
    (b0 + 256 * b1 + 65536 * b2 + 16777216 * b3) as u32
}

/// The 32-bit value stored little-endian at `off` in `s`.
pub open spec fn read_u32_at(s: Seq<u8>, off: int) -> u32 {
    le_value(s[off], s[off + 1], s[off + 2], s[off + 3])
}

/// `s` with the bytes from `off` on replaced by `b`.
pub open spec fn put(s: Seq<u8>, off: int, b: Seq<u8>) -> Seq<u8> {
    s.subrange(0, off) + b + s.subrange(off + b.len(), s.len() as int)
}

/// The fields a format names lie within its stride.
pub open spec fn fields_fit(f: PointFormat) -> bool {
    &&& f.x_offset + 4 <= f.stride
    &&& f.y_offset + 4 <= f.stride
    &&& f.z_offset + 4 <= f.stride
    &&& (f.intensity_offset matches Some(o) ==> o + 4 <= f.stride)
    &&& (f.ring_offset matches Some(o) ==> o + 1 <= f.stride)
    &&& (f.timestamp_offset matches Some(o) ==> o + 4 <= f.stride)
}

/// The byte ranges `[a, a + wa)` and `[b, b + wb)` do not overlap.
pub open spec fn apart(a: int, wa: int, b: int, wb: int) -> bool {
    a + wa <= b || b + wb <= a
}

/// A field of width `w` at `a` does not overlap an optional field of width
/// `wb` at `b`.
pub open spec fn apart_opt(a: int, wa: int, b: Option<usize>, wb: int) -> bool {
    b matches Some(o) ==> apart(a, wa, o as int, wb)
}

/// No two fields of the format share a byte.
pub open spec fn fields_disjoint(f: PointFormat) -> bool {
    let x = f.x_offset as int;
    let y = f.y_offset as int;
    let z = f.z_offset as int;
    &&& apart(x, 4, y, 4)
    &&& apart(x, 4, z, 4)
    &&& apart(y, 4, z, 4)
    &&& apart_opt(x, 4, f.intensity_offset, 4) && apart_opt(y, 4, f.intensity_offset, 4)
        && apart_opt(z, 4, f.intensity_offset, 4)
    &&& apart_opt(x, 4, f.ring_offset, 1) && apart_opt(y, 4, f.ring_offset, 1) && apart_opt(
        z,
        4,
        f.ring_offset,
        1,
    )
    &&& apart_opt(x, 4, f.timestamp_offset, 4) && apart_opt(y, 4, f.timestamp_offset, 4)
        && apart_opt(z, 4, f.timestamp_offset, 4)
    &&& (f.intensity_offset matches Some(a) ==> apart_opt(a as int, 4, f.ring_offset, 1)
        && apart_opt(a as int, 4, f.timestamp_offset, 4))
    &&& (f.ring_offset matches Some(a) ==> apart_opt(a as int, 1, f.timestamp_offset, 4))
}

/// The record `push_point` writes: `stride` zero bytes with x, y and z at
/// their offsets, then each optional field the point and the format both
/// have at its offset, in the order intensity, ring, timestamp.
pub open spec fn encode_point(f: PointFormat, p: RawPoint) -> Seq<u8> {
    let r0 = Seq::new(f.stride as nat, |i: int| 0u8);
    let r1 = put(
        put(put(r0, f.x_offset as int, le_bytes(p.x)), f.y_offset as int, le_bytes(p.y)),
        f.z_offset as int,
        le_bytes(p.z),
    );
    let r2 = match (f.intensity_offset, p.intensity) {
        (Some(o), Some(v)) => put(r1, o as int, le_bytes(v)),
        _ => r1,
    };
    let r3 = match (f.ring_offset, p.ring) {
        (Some(o), Some(v)) => put(r2, o as int, seq![v]),
        _ => r2,
    };
    match (f.timestamp_offset, p.timestamp) {
        (Some(o), Some(v)) => put(r3, o as int, le_bytes(v)),
        _ => r3,
    }
}

/// The point `get_point` reads from record `index` of `bytes`: each field the
/// format names, at its offset.
pub open spec fn decode_point(bytes: Seq<u8>, f: PointFormat, index: int) -> RawPoint {
    let base = index * f.stride;
    RawPoint {
        x: read_u32_at(bytes, base + f.x_offset),
        y: read_u32_at(bytes, base + f.y_offset),
        z: read_u32_at(bytes, base + f.z_offset),
        intensity: match f.intensity_offset {
            Some(o) => Some(read_u32_at(bytes, base + o)),
            None => None,
        },
        ring: match f.ring_offset {
            Some(o) => Some(bytes[base + o]),
            None => None,
        },
        timestamp: match f.timestamp_offset {
            Some(o) => Some(read_u32_at(bytes, base + o)),
            None => None,
        },
    }
}

/// Point cloud buffer: `num_points` records of `stride` bytes.
pub struct LidarBuffer {
    buffer: ZeroCopyBuffer<u8>,
    num_points: usize,
    point_format: PointFormat,
}

impl LidarBuffer {
    /// The bytes written so far.
    pub closed spec fn data(&self) -> Seq<u8> {
        self.buffer.initialized()
    }

    /// The bytes the buffer can hold.
    pub closed spec fn capacity(&self) -> nat {
        self.buffer.capacity()
    }

    /// The number of points recorded.
    pub closed spec fn count(&self) -> nat {
        self.num_points as nat
    }

    /// The point layout.
    pub closed spec fn layout(&self) -> PointFormat {
        self.point_format
    }

    /// The underlying buffer's written bytes fit within its capacity.
    pub closed spec fn wf(&self) -> bool {
        self.buffer.wf()
    }

    /// The written bytes are exactly the recorded points.
    pub open spec fn packed(&self) -> bool {
        self.data().len() == self.count() * self.layout().stride
    }

    /// Create a new point cloud buffer with room for `num_points` points.
    pub fn new(num_points: usize, format: PointFormat) -> (b: Self)
        requires
            format.stride * num_points <= usize::MAX,
        ensures
            b.wf(),
            b.data() == Seq::<u8>::empty(),
            b.count() == 0,
            b.capacity() == format.stride * num_points,
            b.layout() == format,
    {
        let total_bytes = format.size_for_points(num_points);
        let buffer = ZeroCopyBuffer::new(total_bytes);
        LidarBuffer { buffer, num_points: 0, point_format: format }
    }

    /// Create a point cloud from the raw bytes of `num_points` records.
    pub fn from_bytes(data: Vec<u8>, num_points: usize, format: PointFormat) -> (b: Self)
        requires
            format.stride * num_points <= usize::MAX,
            data@.len() == format.stride * num_points,
        ensures
            b.wf(),
            b.data() == data@,
            b.count() == num_points,
            b.capacity() == data@.len(),
            b.layout() == format,
    {
        let buffer = ZeroCopyBuffer::from_vec(data);
        LidarBuffer { buffer, num_points, point_format: format }
    }

    /// Create from an existing zero-copy buffer with room for `num_points` records.
    pub fn from_buffer(buffer: ZeroCopyBuffer<u8>, num_points: usize, format: PointFormat) -> (b:
        Self)
        requires
            format.stride * num_points <= usize::MAX,
            buffer.capacity() == format.stride * num_points,
        ensures
            b.wf() == buffer.wf(),
            b.data() == buffer.initialized(),
            b.count() == num_points,
            b.capacity() == buffer.capacity(),
            b.layout() == format,
    {
        LidarBuffer { buffer, num_points, point_format: format }
    }

    /// Get a borrowed view of the point cloud as byte slice.
    pub fn bytes(&self) -> (v: BorrowedBuffer<'_, u8>)
        ensures
            v@ == self.data(),
    {
        BorrowedBuffer::new(self.buffer.initialized_slice())
    }

    /// Whether the written bytes are exactly the recorded points.
    pub fn is_packed(&self) -> (b: bool)
        ensures
            b == self.packed(),
    {
        let written = self.buffer.initialized_len();
        match self.num_points.checked_mul(self.point_format.stride) {
            Some(n) => n == written,
            None => false,
        }
    }

    /// Get the number of points.
    pub fn num_points(&self) -> (n: usize)
        ensures
            n == self.count(),
    {
        self.num_points
    }

    /// Get the point format.
    pub fn format(&self) -> (f: &PointFormat)
        ensures
            *f == self.layout(),
    {
        &self.point_format
    }

    /// Read the point with the given index.
    pub fn get_point(&self, index: usize) -> (p: RawPoint)
        requires
            index < self.count(),
            self.packed(),
            fields_fit(self.layout()),
        ensures
            p == decode_point(self.data(), self.layout(), index as int),
    {
        let bytes = self.buffer.initialized_slice();
        let len = bytes.len();
        let f = self.point_format;
        proof {
            assert((index + 1) * f.stride <= self.num_points * f.stride) by (nonlinear_arith)
                requires
                    index + 1 <= self.num_points,
            ;
            assert((index + 1) * f.stride == index * f.stride + f.stride) by (nonlinear_arith);
        }
        let base = index * f.stride;
        let x = read_u32(bytes, base + f.x_offset);
        let y = read_u32(bytes, base + f.y_offset);
        let z = read_u32(bytes, base + f.z_offset);
        let intensity = match f.intensity_offset {
            Some(o) => Some(read_u32(bytes, base + o)),
            None => None,
        };
        let ring = match f.ring_offset {
            Some(o) => Some(bytes[base + o]),
            None => None,
        };
        let timestamp = match f.timestamp_offset {
            Some(o) => Some(read_u32(bytes, base + o)),
            None => None,
        };
        RawPoint { x, y, z, intensity, ring, timestamp }
    }

    /// Add a point to the buffer.
    ///
    /// Returns `Ok(())` on success or `Err(point)` if the buffer is full.
    #[verifier::rlimit(60)]
    pub fn push_point(&mut self, point: RawPoint) -> (res: Result<(), RawPoint>)
        requires
            old(self).packed(),
            fields_fit(old(self).layout()),
        ensures
            old(self).wf() ==> final(self).wf(),
            final(self).packed(),
            final(self).layout() == old(self).layout(),
            final(self).capacity() == old(self).capacity(),
            old(self).count() < old(self).capacity() / (old(self).layout().stride as nat) ==> res
                is Ok && final(self).count() == old(self).count() + 1 && final(self).data() == old(
                self,
            ).data() + encode_point(old(self).layout(), point),
            old(self).count() >= old(self).capacity() / (old(self).layout().stride as nat) ==> res
                == Err::<(), RawPoint>(point) && final(self).count() == old(self).count()
                && final(self).data() == old(self).data(),
            forall|i: int|
                0 <= i < old(self).count() ==> #[trigger] decode_point(
                    final(self).data(),
                    final(self).layout(),
                    i,
                ) == decode_point(old(self).data(), old(self).layout(), i),
            res is Ok && fields_disjoint(old(self).layout()) ==> {
                let q = decode_point(final(self).data(), final(self).layout(), old(self).count() as int);
                &&& q.x == point.x && q.y == point.y && q.z == point.z
                &&& point_fits_format(old(self).layout(), point) ==> q == point
            },
    {
        proof {
            lemma_pushed_reads(old(self).data(), old(self).layout(), point, old(self).count());
        }
        let stride = self.point_format.stride;
        if self.num_points >= self.buffer.total_len() / stride {
            return Err(point);
        }
        let record = encode_record(&self.point_format, &point);
        proof {
            let cap = self.buffer.capacity() as int;
            let n = self.num_points as int;
            let s = stride as int;
            assert((n + 1) * s <= cap) by (nonlinear_arith)
                requires
                    n < cap / s,
                    s > 0,
                    cap >= 0,
            ;
            assert((n + 1) * s == n * s + s) by (nonlinear_arith);
        }
        let r = self.buffer.extend_from_slice(record.as_slice());
        let n0 = self.num_points;
        self.num_points = n0 + 1;
        proof {
            let n1 = self.num_points as int;
            assert(n1 * (stride as int) == (n0 as int) * (stride as int) + stride) by (nonlinear_arith)
                requires
                    n1 == n0 + 1,
            ;
        }
        Ok(())
    }
}

/// The 32-bit value stored little-endian at `off`.
fn read_u32(bytes: &[u8], off: usize) -> (v: u32)
    requires
        off + 4 <= bytes@.len(),
    ensures
        v == read_u32_at(bytes@, off as int),
{
    let b0 = bytes[off];
    let b1 = bytes[off + 1];
    let b2 = bytes[off + 2];
    let b3 = bytes[off + 3];
    let v = (b0 as u32) | ((b1 as u32) << 8u32) | ((b2 as u32) << 16u32) | ((b3 as u32) << 24u32);
    proof {
        assert(v == le_value(b0, b1, b2, b3)) by (bit_vector)
            requires
                v == (b0 as u32) | ((b1 as u32) << 8u32) | ((b2 as u32) << 16u32) | ((b3 as u32)
                    << 24u32),
        ;
    }
    v
}

/// Writes `v` little-endian at `off`.
fn write_u32(rec: &mut Vec<u8>, off: usize, v: u32)
    requires
        off + 4 <= old(rec)@.len(),
    ensures
        final(rec)@ == put(old(rec)@, off as int, le_bytes(v)),
{
    let len = rec.len();
    let b0 = (v & 0xff) as u8;
    let b1 = ((v >> 8u32) & 0xff) as u8;
    let b2 = ((v >> 16u32) & 0xff) as u8;
    let b3 = ((v >> 24u32) & 0xff) as u8;
    proof {
        assert(b0 == (v % 256) as u8 && b1 == ((v / 256) % 256) as u8 && b2 == ((v / 65536) % 256)
            as u8 && b3 == ((v / 16777216) % 256) as u8) by (bit_vector)
            requires
                b0 == (v & 0xff) as u8,
                b1 == ((v >> 8u32) & 0xff) as u8,
                b2 == ((v >> 16u32) & 0xff) as u8,
                b3 == ((v >> 24u32) & 0xff) as u8,
        ;
    }
    rec.set(off, b0);
    rec.set(off + 1, b1);
    rec.set(off + 2, b2);
    rec.set(off + 3, b3);
    proof {
        assert(rec@ =~= put(old(rec)@, off as int, le_bytes(v)));
    }
}

/// The record of one point in the given format.
fn encode_record(f: &PointFormat, p: &RawPoint) -> (rec: Vec<u8>)
    requires
        fields_fit(*f),
    ensures
        rec@ == encode_point(*f, *p),
{
    let mut rec: Vec<u8> = Vec::new();
    let mut i: usize = 0;
    while i < f.stride
        invariant
            i <= f.stride,
            rec@.len() == i,
            forall|k: int| 0 <= k < i ==> rec@[k] == 0u8,
        decreases f.stride - i,
    {
        rec.push(0u8);
        i += 1;
    }
    assert(rec@ =~= Seq::new(f.stride as nat, |i: int| 0u8));
    write_u32(&mut rec, f.x_offset, p.x);
    write_u32(&mut rec, f.y_offset, p.y);
    write_u32(&mut rec, f.z_offset, p.z);
    match (f.intensity_offset, p.intensity) {
        (Some(o), Some(v)) => {
            write_u32(&mut rec, o, v);
        },
        _ => {},
    }
    match (f.ring_offset, p.ring) {
        (Some(o), Some(v)) => {
            let ghost before = rec@;
            rec.set(o, v);
            assert(rec@ =~= put(before, o as int, seq![v]));
        },
        _ => {},
    }
    match (f.timestamp_offset, p.timestamp) {
        (Some(o), Some(v)) => {
            write_u32(&mut rec, o, v);
        },
        _ => {},
    }
    rec
}

/// The point carries exactly the optional fields the format has.
pub open spec fn point_fits_format(f: PointFormat, p: RawPoint) -> bool {
    &&& (p.intensity is Some) == (f.intensity_offset is Some)
    &&& (p.ring is Some) == (f.ring_offset is Some)
    &&& (p.timestamp is Some) == (f.timestamp_offset is Some)
}

proof fn lemma_put(s: Seq<u8>, off: int, b: Seq<u8>)
    requires
        0 <= off,
        off + b.len() <= s.len(),
    ensures
        put(s, off, b).len() == s.len(),
        forall|i: int|
            0 <= i < s.len() ==> #[trigger] put(s, off, b)[i] == if off <= i < off + b.len() {
                b[i - off]
            } else {
                s[i]
            },
{
    let r = put(s, off, b);
    assert forall|i: int| 0 <= i < s.len() implies #[trigger] r[i] == if off <= i < off + b.len() {
        b[i - off]
    } else {
        s[i]
    } by {
        if i < off {
        } else if i < off + b.len() {
        } else {
        }
    }
}

proof fn lemma_le_roundtrip(v: u32)
    ensures
        le_value(le_bytes(v)[0], le_bytes(v)[1], le_bytes(v)[2], le_bytes(v)[3]) == v,
{
    let b = le_bytes(v);
    assert(le_value((v % 256) as u8, ((v / 256) % 256) as u8, ((v / 65536) % 256) as u8, ((v
        / 16777216) % 256) as u8) == v) by (nonlinear_arith);
}

/// Bytes `off ..` of `s` are `b`.
pub open spec fn span_is(s: Seq<u8>, off: int, b: Seq<u8>) -> bool {
    &&& 0 <= off
    &&& off + b.len() <= s.len()
    &&& forall|k: int| 0 <= k < b.len() ==> #[trigger] s[off + k] == b[k]
}

proof fn lemma_put_self(s: Seq<u8>, off: int, b: Seq<u8>)
    requires
        0 <= off,
        off + b.len() <= s.len(),
    ensures
        span_is(put(s, off, b), off, b),
        put(s, off, b).len() == s.len(),
{
    lemma_put(s, off, b);
    assert forall|k: int| 0 <= k < b.len() implies #[trigger] put(s, off, b)[off + k] == b[k] by {
        assert(put(s, off, b)[off + k] == b[off + k - off]);
    }
}

proof fn lemma_put_other(s: Seq<u8>, off: int, b: Seq<u8>, o2: int, b2: Seq<u8>)
    requires
        0 <= off,
        off + b.len() <= s.len(),
        span_is(s, o2, b2),
        apart(off, b.len() as int, o2, b2.len() as int),
    ensures
        span_is(put(s, off, b), o2, b2),
{
    lemma_put(s, off, b);
    assert forall|k: int| 0 <= k < b2.len() implies #[trigger] put(s, off, b)[o2 + k] == b2[k] by {
        assert(s[o2 + k] == b2[k]);
    }
}

/// The spans of a record: x, y, z, and each optional field present in both
/// the point and the format, hold their values.
#[verifier::rlimit(60)]
proof fn lemma_encode_spans(f: PointFormat, p: RawPoint)
    requires
        fields_fit(f),
        fields_disjoint(f),
    ensures
        encode_point(f, p).len() == f.stride,
        span_is(encode_point(f, p), f.x_offset as int, le_bytes(p.x)),
        span_is(encode_point(f, p), f.y_offset as int, le_bytes(p.y)),
        span_is(encode_point(f, p), f.z_offset as int, le_bytes(p.z)),
        f.intensity_offset matches Some(o) ==> (p.intensity matches Some(v) ==> span_is(
            encode_point(f, p),
            o as int,
            le_bytes(v),
        )),
        f.ring_offset matches Some(o) ==> (p.ring matches Some(v) ==> span_is(
            encode_point(f, p),
            o as int,
            seq![v],
        )),
        f.timestamp_offset matches Some(o) ==> (p.timestamp matches Some(v) ==> span_is(
            encode_point(f, p),
            o as int,
            le_bytes(v),
        )),
{
    let x = f.x_offset as int;
    let y = f.y_offset as int;
    let z = f.z_offset as int;
    let bx = le_bytes(p.x);
    let by = le_bytes(p.y);
    let bz = le_bytes(p.z);
    let r0 = Seq::new(f.stride as nat, |i: int| 0u8);
    let ra = put(r0, x, bx);
    let rb = put(ra, y, by);
    let r1 = put(rb, z, bz);
    lemma_put_self(r0, x, bx);
    lemma_put_self(ra, y, by);
    lemma_put_other(ra, y, by, x, bx);
    lemma_put_self(rb, z, bz);
    lemma_put_other(rb, z, bz, x, bx);
    lemma_put_other(rb, z, bz, y, by);
    let r2 = match (f.intensity_offset, p.intensity) {
        (Some(o), Some(v)) => put(r1, o as int, le_bytes(v)),
        _ => r1,
    };
    if let (Some(o), Some(v)) = (f.intensity_offset, p.intensity) {
        let o = o as int;
        lemma_put_self(r1, o, le_bytes(v));
        lemma_put_other(r1, o, le_bytes(v), x, bx);
        lemma_put_other(r1, o, le_bytes(v), y, by);
        lemma_put_other(r1, o, le_bytes(v), z, bz);
    }
    let r3 = match (f.ring_offset, p.ring) {
        (Some(o), Some(v)) => put(r2, o as int, seq![v]),
        _ => r2,
    };
    if let (Some(o), Some(v)) = (f.ring_offset, p.ring) {
        let o = o as int;
        lemma_put_self(r2, o, seq![v]);
        lemma_put_other(r2, o, seq![v], x, bx);
        lemma_put_other(r2, o, seq![v], y, by);
        lemma_put_other(r2, o, seq![v], z, bz);
        if let (Some(oi), Some(vi)) = (f.intensity_offset, p.intensity) {
            lemma_put_other(r2, o, seq![v], oi as int, le_bytes(vi));
        }
    }
    if let (Some(o), Some(v)) = (f.timestamp_offset, p.timestamp) {
        let o = o as int;
        lemma_put_self(r3, o, le_bytes(v));
        lemma_put_other(r3, o, le_bytes(v), x, bx);
        lemma_put_other(r3, o, le_bytes(v), y, by);
        lemma_put_other(r3, o, le_bytes(v), z, bz);
        if let (Some(oi), Some(vi)) = (f.intensity_offset, p.intensity) {
            lemma_put_other(r3, o, le_bytes(v), oi as int, le_bytes(vi));
        }
        if let (Some(orr), Some(vr)) = (f.ring_offset, p.ring) {
            lemma_put_other(r3, o, le_bytes(v), orr as int, seq![vr]);
        }
    }
}

/// Reading a little-endian value from a span written with it gives it back.
proof fn lemma_read_span(s: Seq<u8>, off: int, v: u32)
    requires
        span_is(s, off, le_bytes(v)),
    ensures
        read_u32_at(s, off) == v,
{
    assert(s[off + 0] == le_bytes(v)[0]);
    assert(s[off + 1] == le_bytes(v)[1]);
    assert(s[off + 2] == le_bytes(v)[2]);
    assert(s[off + 3] == le_bytes(v)[3]);
    lemma_le_roundtrip(v);
}

/// A span of a record keeps its bytes after the record is appended to
/// `prefix`.
proof fn lemma_span_shift(prefix: Seq<u8>, rec: Seq<u8>, off: int, b: Seq<u8>)
    requires
        span_is(rec, off, b),
    ensures
        span_is(prefix + rec, prefix.len() + off, b),
{
    assert forall|k: int| 0 <= k < b.len() implies #[trigger] (prefix + rec)[prefix.len() + off + k]
        == b[k] by {
        assert(rec[off + k] == b[k]);
    }
}

/// Reading back a pushed point: for any layout whose fields fit the stride
/// and do not overlap, the record `push_point` appends after `n` records
/// reads back with the point's x, y and z, and with the whole point when the
/// point carries exactly the format's optional fields.
pub proof fn lemma_read_back_pushed(prefix: Seq<u8>, f: PointFormat, p: RawPoint, n: nat)
    requires
        prefix.len() == n * f.stride,
        fields_fit(f),
        fields_disjoint(f),
    ensures
        decode_point(prefix + encode_point(f, p), f, n as int).x == p.x,
        decode_point(prefix + encode_point(f, p), f, n as int).y == p.y,
        decode_point(prefix + encode_point(f, p), f, n as int).z == p.z,
        point_fits_format(f, p) ==> decode_point(prefix + encode_point(f, p), f, n as int) == p,
{
    let rec = encode_point(f, p);
    let s = prefix + rec;
    let base = prefix.len() as int;
    assert(n * f.stride == base);
    lemma_encode_spans(f, p);
    lemma_span_shift(prefix, rec, f.x_offset as int, le_bytes(p.x));
    lemma_span_shift(prefix, rec, f.y_offset as int, le_bytes(p.y));
    lemma_span_shift(prefix, rec, f.z_offset as int, le_bytes(p.z));
    lemma_read_span(s, base + f.x_offset, p.x);
    lemma_read_span(s, base + f.y_offset, p.y);
    lemma_read_span(s, base + f.z_offset, p.z);
    if point_fits_format(f, p) {
        if let (Some(o), Some(v)) = (f.intensity_offset, p.intensity) {
            lemma_span_shift(prefix, rec, o as int, le_bytes(v));
            lemma_read_span(s, base + o, v);
        }
        if let (Some(o), Some(v)) = (f.ring_offset, p.ring) {
            lemma_span_shift(prefix, rec, o as int, seq![v]);
            assert(s[base + o + 0] == seq![v][0]);
        }
        if let (Some(o), Some(v)) = (f.timestamp_offset, p.timestamp) {
            lemma_span_shift(prefix, rec, o as int, le_bytes(v));
            lemma_read_span(s, base + o, v);
        }
    }
}

/// What reading the records gives after one is appended for `p`.
proof fn lemma_pushed_reads(data: Seq<u8>, f: PointFormat, p: RawPoint, n: nat)
    requires
        data.len() == n * f.stride,
        fields_fit(f),
    ensures
        forall|i: int|
            0 <= i < n ==> #[trigger] decode_point(data + encode_point(f, p), f, i) == decode_point(
                data,
                f,
                i,
            ),
        fields_disjoint(f) ==> {
            let q = decode_point(data + encode_point(f, p), f, n as int);
            &&& q.x == p.x && q.y == p.y && q.z == p.z
            &&& point_fits_format(f, p) ==> q == p
        },
{
    assert forall|i: int| 0 <= i < n implies #[trigger] decode_point(data + encode_point(f, p), f, i)
        == decode_point(data, f, i) by {
        lemma_push_keeps_earlier(data, encode_point(f, p), f, n, i);
    }
    if fields_disjoint(f) {
        lemma_read_back_pushed(data, f, p, n);
    }
}

/// Appending a record leaves every earlier point as it read before.
pub proof fn lemma_push_keeps_earlier(prefix: Seq<u8>, rec: Seq<u8>, f: PointFormat, n: nat, i: int)
    requires
        prefix.len() == n * f.stride,
        fields_fit(f),
        0 <= i < n,
    ensures
        decode_point(prefix + rec, f, i) == decode_point(prefix, f, i),
{
    let s = prefix + rec;
    let base = i * f.stride;
    assert((i + 1) * f.stride <= n * f.stride) by (nonlinear_arith)
        requires
            i + 1 <= n,
    ;
    assert((i + 1) * f.stride == i * f.stride + f.stride) by (nonlinear_arith);
    assert(0 <= i * f.stride) by (nonlinear_arith)
        requires
            0 <= i,
    ;
    assert forall|j: int| 0 <= j < prefix.len() implies #[trigger] s[j] == prefix[j] by {}
}

} // verus!
