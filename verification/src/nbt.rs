//! Encoder for Minecraft's Named Binary Tag format (big-endian) and the
//! zlib compression that Anvil chunks are stored with.

use vstd::prelude::*;
use vstd::string::StringSliceAdditionalSpecFns;

verus! {

/// Two big-endian bytes of `v`.
pub open spec fn be16_bytes(v: u16) -> Seq<u8> {
    seq![(v >> 8u16) as u8, v as u8]
}

/// Four big-endian bytes of `v`.
pub open spec fn be32_bytes(v: u32) -> Seq<u8> {
    seq![(v >> 24u32) as u8, (v >> 16u32) as u8, (v >> 8u32) as u8, v as u8]
}

/// Eight big-endian bytes of `v`.
pub open spec fn be64_bytes(v: u64) -> Seq<u8> {
    seq![
        (v >> 56u64) as u8, (v >> 48u64) as u8, (v >> 40u64) as u8, (v >> 32u64) as u8,
        (v >> 24u64) as u8, (v >> 16u64) as u8, (v >> 8u64) as u8, v as u8,
    ]
}

/// Tag id byte, the name's length as a big-endian `u16` (taken modulo 2^16) and the name's bytes.
pub open spec fn tag_header_bytes(tag: u8, name: Seq<u8>) -> Seq<u8> {
    seq![tag] + be16_bytes(name.len() as u16) + name
}

/// A `TAG_Byte` named `name` holding `v`.
pub open spec fn byte_tag(name: Seq<u8>, v: i8) -> Seq<u8> {
    tag_header_bytes(1, name) + seq![v as u8]
}

/// A `TAG_Short` named `name` holding `v`.
pub open spec fn short_tag(name: Seq<u8>, v: i16) -> Seq<u8> {
    tag_header_bytes(2, name) + be16_bytes(v as u16)
}

/// A `TAG_Int` named `name` holding `v`.
pub open spec fn int_tag(name: Seq<u8>, v: i32) -> Seq<u8> {
    tag_header_bytes(3, name) + be32_bytes(v as u32)
}

/// A `TAG_Long` named `name` holding `v`.
pub open spec fn long_tag(name: Seq<u8>, v: i64) -> Seq<u8> {
    tag_header_bytes(4, name) + be64_bytes(v as u64)
}

/// A `TAG_String` named `name` holding the UTF-8 bytes `v`, length-prefixed as a `u16` (modulo 2^16).
pub open spec fn string_tag(name: Seq<u8>, v: Seq<u8>) -> Seq<u8> {
    tag_header_bytes(8, name) + be16_bytes(v.len() as u16) + v
}

/// A `TAG_Byte_Array` named `name` holding `data`, length-prefixed as a `u32` (modulo 2^32).
pub open spec fn byte_array_tag(name: Seq<u8>, data: Seq<u8>) -> Seq<u8> {
    tag_header_bytes(7, name) + be32_bytes(data.len() as u32) + data
}

/// The big-endian encodings of `data`'s elements, one after another.
pub open spec fn be32_all(data: Seq<i32>) -> Seq<u8>
    decreases data.len(),
{
    if data.len() == 0 {
        Seq::empty()
    } else {
        be32_all(data.drop_last()) + be32_bytes(data.last() as u32)
    }
}

/// A `TAG_Int_Array` named `name` holding `data`, length-prefixed as a `u32` (modulo 2^32).
pub open spec fn int_array_tag(name: Seq<u8>, data: Seq<i32>) -> Seq<u8> {
    tag_header_bytes(11, name) + be32_bytes(data.len() as u32) + be32_all(data)
}

/// The opening of a `TAG_Compound` named `name`.
pub open spec fn compound_open(name: Seq<u8>) -> Seq<u8> {
    tag_header_bytes(10, name)
}

/// The `TAG_End` byte that closes a compound.
pub open spec fn compound_close() -> Seq<u8> {
    seq![0u8]
}

/// The header of a `TAG_List` named `name` whose elements have tag `elem_tag` and whose
/// declared length is `len`.
pub open spec fn list_open(name: Seq<u8>, elem_tag: u8, len: i32) -> Seq<u8> {
    tag_header_bytes(9, name) + seq![elem_tag] + be32_bytes(len as u32)
}

/// A growable NBT byte buffer; each writer appends one tag's encoding.
pub struct NbtBuf(pub Vec<u8>);

impl View for NbtBuf {
    type V = Seq<u8>;

    open spec fn view(&self) -> Seq<u8> {
        self.0@
    }
}

impl NbtBuf {
    pub fn new() -> (buf: Self)
        ensures
            buf@ == Seq::<u8>::empty(),
    {
        NbtBuf(Vec::new())
    }

    fn u8(&mut self, v: u8)
        ensures
            final(self)@ == old(self)@ + seq![v],
    {
        self.0.push(v);
    }

    fn be16(&mut self, v: u16)
        ensures
            final(self)@ == old(self)@ + be16_bytes(v),
    {
        self.0.push((v >> 8u16) as u8);
        self.0.push(v as u8);
    }

    fn be32(&mut self, v: u32)
        ensures
            final(self)@ == old(self)@ + be32_bytes(v),
    {
        self.0.push((v >> 24u32) as u8);
        self.0.push((v >> 16u32) as u8);
        self.0.push((v >> 8u32) as u8);
        self.0.push(v as u8);
    }

    fn be64(&mut self, v: u64)
        ensures
            final(self)@ == old(self)@ + be64_bytes(v),
    {
        self.0.push((v >> 56u64) as u8);
        self.0.push((v >> 48u64) as u8);
        self.0.push((v >> 40u64) as u8);
        self.0.push((v >> 32u64) as u8);
        self.0.push((v >> 24u64) as u8);
        self.0.push((v >> 16u64) as u8);
        self.0.push((v >> 8u64) as u8);
        self.0.push(v as u8);
    }

    fn tag_header(&mut self, tag: u8, name: &str)
        ensures
            final(self)@ == old(self)@ + tag_header_bytes(tag, name.spec_bytes()),
    {
        self.u8(tag);
        let bytes = name.as_bytes();
        self.be16(bytes.len() as u16);
        self.0.extend_from_slice(bytes);
    }

    pub fn byte(&mut self, name: &str, v: i8)
        ensures
            final(self)@ == old(self)@ + byte_tag(name.spec_bytes(), v),
    {
        self.tag_header(1, name);
        self.u8(v as u8);
    }

    pub fn short(&mut self, name: &str, v: i16)
        ensures
            final(self)@ == old(self)@ + short_tag(name.spec_bytes(), v),
    {
        self.tag_header(2, name);
        self.be16(v as u16);
    }

    pub fn int32(&mut self, name: &str, v: i32)
        ensures
            final(self)@ == old(self)@ + int_tag(name.spec_bytes(), v),
    {
        self.tag_header(3, name);
        self.be32(v as u32);
    }

    pub fn long(&mut self, name: &str, v: i64)
        ensures
            final(self)@ == old(self)@ + long_tag(name.spec_bytes(), v),
    {
        self.tag_header(4, name);
        self.be64(v as u64);
    }

    pub fn string(&mut self, name: &str, v: &str)
        ensures
            final(self)@ == old(self)@ + string_tag(name.spec_bytes(), v.spec_bytes()),
    {
        self.tag_header(8, name);
        let bytes = v.as_bytes();
        self.be16(bytes.len() as u16);
        self.0.extend_from_slice(bytes);
    }

    pub fn byte_array(&mut self, name: &str, data: &[u8])
        ensures
            final(self)@ == old(self)@ + byte_array_tag(name.spec_bytes(), data@),
    {
        self.tag_header(7, name);
        self.be32(data.len() as u32);
        self.0.extend_from_slice(data);
    }

    pub fn int_array(&mut self, name: &str, data: &[i32])
        ensures
            final(self)@ == old(self)@ + int_array_tag(name.spec_bytes(), data@),
    {
        self.tag_header(11, name);
        self.be32(data.len() as u32);
        let ghost start = self@;
        let mut i: usize = 0;
        while i < data.len()
            invariant
                i <= data@.len(),
                self@ == start + be32_all(data@.subrange(0, i as int)),
            decreases data@.len() - i,
        {
            self.be32(data[i] as u32);
            assert(data@.subrange(0, i + 1).drop_last() == data@.subrange(0, i as int));
            i = i + 1;
        }
        assert(data@.subrange(0, data@.len() as int) == data@);
    }

    pub fn begin_compound(&mut self, name: &str)
        ensures
            final(self)@ == old(self)@ + compound_open(name.spec_bytes()),
    {
        self.tag_header(10, name);
    }

    pub fn end_compound(&mut self)
        ensures
            final(self)@ == old(self)@ + compound_close(),
    {
        self.u8(0);
    }

    pub fn begin_list(&mut self, name: &str, elem_tag: u8, len: i32)
        ensures
            final(self)@ == old(self)@ + list_open(name.spec_bytes(), elem_tag, len),
    {
        self.tag_header(9, name);
        self.u8(elem_tag);
        self.be32(len as u32);
    }

    /// Elements of a compound list carry no header of their own.
    pub fn begin_list_compound_element(&mut self)
        ensures
            final(self)@ == old(self)@,
    {
    }

    pub fn end_list_compound_element(&mut self)
        ensures
            final(self)@ == old(self)@ + compound_close(),
    {
        self.u8(0);
    }
}

/// What `flate2`'s zlib encoder, set to `Compression::best()`, emits for `data`: a zlib
/// stream whose bytes depend on `data` alone (the encoder sets no time stamp or other
/// varying field).
pub uninterp spec fn zlib_best(data: Seq<u8>) -> Seq<u8>;

/// Runs `flate2::write::ZlibEncoder` at `Compression::best()` over an in-memory `Vec`.
/// Trusted: the output is `zlib_best` of the input. Writing into a `Vec` cannot fail, so
/// neither `write_all` nor `finish` returns an error on any input.
#[verifier::external_body]
fn deflate_zlib(data: &[u8]) -> (out: Vec<u8>)
    ensures
        out@ == zlib_best(data@),
{
    let mut enc = flate2::write::ZlibEncoder::new(Vec::new(), flate2::Compression::best());
    std::io::Write::write_all(&mut enc, data).unwrap();
    enc.finish().unwrap()
}

/// zlib-compresses `data` at the best compression level.
pub fn zlib_compress(data: &[u8]) -> (out: Vec<u8>)
    ensures
        out@ == zlib_best(data@),
{
    deflate_zlib(data)
}

} // verus!
