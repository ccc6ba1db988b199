//! Chunks: dense voxel arrays, their byte encoding, and the compressed
//! representation.
//!
//! A chunk holds exactly one voxel per cell of the store's chunk shape. It is
//! live in exactly one of two forms: a decompressed dense array, or a
//! compressed byte blob produced by the Snappy codec. The codec is a black
//! box; the store relies only on it being a deterministic, lossless inverse
//! pair, which is what the trusted wrappers below state.

use vstd::prelude::*;

use crate::TypedVoxel;
use crate::geom::ChunkShape;

verus! {

/// A data-integrity failure of the compressed representation: a blob the
/// codec cannot decode. The store's invariant keeps this from ever arising
/// on its own chunks.
#[derive(Clone, Copy, PartialEq, Eq, Structural, Debug)]
pub struct CodecError;

/// The bytes the Snappy codec produces for a given input. Deterministic in
/// the input; nothing else about the byte format is assumed.
pub uninterp spec fn snappy_compressed(b: Seq<u8>) -> Seq<u8>;

/// Relies on `snap::raw::Encoder::compress_vec`: deterministic compression
/// of the input bytes. It fails only when `32 + len + len / 6` exceeds
/// `2^32 - 1` (its `max_compress_len` then reports the input as too big),
/// which the precondition rules out with a wide margin.
#[verifier::external_body]
fn compress_bytes(b: &Vec<u8>) -> (r: Vec<u8>)
    requires
        b@.len() <= 0x1000_0000,
    ensures
        r@ == snappy_compressed(b@),
{
    match snap::raw::Encoder::new().compress_vec(b.as_slice()) {
        Ok(v) => v,
        Err(_) => Vec::new(),
    }
}

/// Relies on `snap::raw::Decoder::decompress_vec`: decompressing the output
/// of `compress_vec` yields the original bytes (the codec is lossless), and
/// anything undecodable is reported as an error.
#[verifier::external_body]
fn decompress_bytes(b: &Vec<u8>) -> (r: Result<Vec<u8>, CodecError>)
    ensures
        forall|orig: Seq<u8>|
            orig.len() <= 0x1000_0000 && b@ == snappy_compressed(orig) ==> r is Ok
                && r->Ok_0@ == orig,
{
    match snap::raw::Decoder::new().decompress_vec(b.as_slice()) {
        Ok(v) => Ok(v),
        Err(_) => Err(CodecError),
    }
}

/// The byte encoding of a voxel sequence: one byte per voxel, its type index.
pub open spec fn bytes_of(s: Seq<TypedVoxel>) -> Seq<u8> {
    Seq::new(s.len(), |i: int| s[i].type_index)
}

/// The voxel sequence a byte sequence encodes.
pub open spec fn voxels_of(b: Seq<u8>) -> Seq<TypedVoxel> {
    Seq::new(b.len(), |i: int| TypedVoxel { type_index: b[i] })
}

/// Byte encoding and decoding are inverse.
pub proof fn lemma_bytes_round_trip(s: Seq<TypedVoxel>)
    ensures
        voxels_of(bytes_of(s)) == s,
{
    assert(voxels_of(bytes_of(s)) =~= s);
}

/// A dense array holding one voxel per cell of a chunk.
pub struct ChunkArray {
    pub data: Vec<TypedVoxel>,
}

impl ChunkArray {
    /// Whether this array has exactly the chunk volume of shape `s`.
    pub open spec fn sized_for(self, s: ChunkShape) -> bool {
        self.data@.len() == s.volume()
    }

    /// Whether every voxel equals the default voxel.
    pub open spec fn all_default(self) -> bool {
        forall|i: int| 0 <= i < self.data@.len() ==> self.data@[i].is_default()
    }

    /// Copies the array voxel by voxel.
    pub fn duplicate(&self) -> (r: ChunkArray)
        ensures
            r.data@ == self.data@,
    {
        let n = self.data.len();
        let mut out: Vec<TypedVoxel> = Vec::new();
        let mut i: usize = 0;
        while i < n
            invariant
                n == self.data@.len(),
                i <= n,
                out@ =~= self.data@.take(i as int),
            decreases n - i,
        {
            out.push(self.data[i]);
            i += 1;
        }
        proof {
            assert(out@ =~= self.data@);
        }
        ChunkArray { data: out }
    }
}

/// Builds a chunk-sized array filled with the default voxel: the content of
/// any chunk the store does not hold.
pub fn default_array(shape: &ChunkShape) -> (r: ChunkArray)
    requires
        shape.wf(),
    ensures
        r.sized_for(*shape),
        r.all_default(),
        forall|i: int| 0 <= i < r.data@.len() ==> r.data@[i] == TypedVoxel::default_spec(),
{
    let n = shape.volume_exec();
    let mut data: Vec<TypedVoxel> = Vec::new();
    let mut i: usize = 0;
    while i < n
        invariant
            i <= n,
            data@.len() == i,
            forall|j: int| 0 <= j < i ==> data@[j] == TypedVoxel::default_spec(),
        decreases n - i,
    {
        data.push(TypedVoxel { type_index: 0 });
        i += 1;
    }
    ChunkArray { data }
}

/// One chunk of the store: its dense array, or the codec's blob for it.
/// Exactly one representation is live at a time; the ghost content of a
/// compressed chunk records what the blob decodes to.
pub enum ChunkRepr {
    Decompressed(ChunkArray),
    Compressed(Vec<u8>, Ghost<Seq<TypedVoxel>>),
}

impl ChunkRepr {
    /// The voxels this chunk holds, whichever representation is live.
    pub open spec fn content(self) -> Seq<TypedVoxel> {
        match self {
            ChunkRepr::Decompressed(a) => a.data@,
            ChunkRepr::Compressed(_, g) => g@,
        }
    }

    /// Whether the chunk is in decompressed form.
    pub open spec fn is_decompressed(self) -> bool {
        self is Decompressed
    }

    /// Internal consistency against shape `s`: content has chunk volume, and
    /// a compressed blob is the codec's encoding of that content.
    pub open spec fn inv(self, s: ChunkShape) -> bool {
        self.content().len() == s.volume() && match self {
            ChunkRepr::Decompressed(_) => true,
            ChunkRepr::Compressed(b, g) => b@ == snappy_compressed(bytes_of(g@)),
        }
    }

    /// Compresses a dense array into blob form with the same content.
    pub fn compress(a: ChunkArray, shape: &ChunkShape) -> (r: ChunkRepr)
        requires
            shape.wf(),
            a.sized_for(*shape),
        ensures
            r.inv(*shape),
            !r.is_decompressed(),
            r.content() == a.data@,
    {
        proof {
            crate::geom::lemma_volume_bounds(*shape);
        }
        let bytes = voxels_to_bytes(&a);
        let blob = compress_bytes(&bytes);
        ChunkRepr::Compressed(blob, Ghost(a.data@))
    }

    /// Decompresses this chunk into a fresh dense array with the same
    /// content. A decompressed chunk is copied as is.
    pub fn to_array(&self, shape: &ChunkShape) -> (r: ChunkArray)
        requires
            shape.wf(),
            self.inv(*shape),
        ensures
            r.data@ == self.content(),
            r.sized_for(*shape),
    {
        match self {
            ChunkRepr::Decompressed(a) => a.duplicate(),
            ChunkRepr::Compressed(blob, g) => {
                proof {
                    crate::geom::lemma_volume_bounds(*shape);
                    assert(bytes_of(g@).len() == g@.len());
                }
                match decompress_bytes(blob) {
                    Ok(bytes) => {
                        proof {
                            lemma_bytes_round_trip(g@);
                        }
                        bytes_to_voxels(&bytes)
                    },
                    Err(_) => {
                        proof {
                            assert(false);
                        }
                        ChunkArray { data: Vec::new() }
                    },
                }
            },
        }
    }

    /// Whether every voxel of this chunk equals the default voxel,
    /// decompressing as needed to look.
    pub fn is_all_default(&self, shape: &ChunkShape) -> (r: bool)
        requires
            shape.wf(),
            self.inv(*shape),
        ensures
            r == all_default_seq(self.content()),
    {
        let a = self.to_array(shape);
        let n = a.data.len();
        let mut i: usize = 0;
        while i < n
            invariant
                n == a.data@.len(),
                a.data@ == self.content(),
                i <= n,
                forall|j: int| 0 <= j < i ==> a.data@[j].is_default(),
            decreases n - i,
        {
            if a.data[i].type_index != 0 {
                proof {
                    assert(!a.data@[i as int].is_default());
                }
                return false;
            }
            i += 1;
        }
        true
    }
}

/// Compression is a function of the content alone: two compressed chunks
/// holding the same voxels carry the identical blob. Together with
/// [`ChunkRepr::to_array`], this is the codec round trip: decompressing
/// reproduces the voxels exactly, and recompressing a decompressed copy
/// reproduces the blob exactly.
pub proof fn lemma_compress_deterministic(a: ChunkRepr, b: ChunkRepr, s: ChunkShape)
    requires
        a.inv(s),
        b.inv(s),
        !a.is_decompressed(),
        !b.is_decompressed(),
        a.content() == b.content(),
    ensures
        a->Compressed_0@ == b->Compressed_0@,
{
}

/// Whether every voxel of `s` is the default voxel.
pub open spec fn all_default_seq(s: Seq<TypedVoxel>) -> bool {
    forall|i: int| 0 <= i < s.len() ==> s[i].is_default()
}

/// Encodes an array as bytes, one per voxel.
fn voxels_to_bytes(a: &ChunkArray) -> (r: Vec<u8>)
    ensures
        r@ == bytes_of(a.data@),
{
    let n = a.data.len();
    let mut out: Vec<u8> = Vec::new();
    let mut i: usize = 0;
    while i < n
        invariant
            n == a.data@.len(),
            i <= n,
            out@.len() == i,
            forall|j: int| 0 <= j < i ==> out@[j] == a.data@[j].type_index,
        decreases n - i,
    {
        out.push(a.data[i].type_index);
        i += 1;
    }
    proof {
        assert(out@ =~= bytes_of(a.data@));
    }
    out
}

/// Decodes bytes back into an array, one voxel per byte.
fn bytes_to_voxels(b: &Vec<u8>) -> (r: ChunkArray)
    ensures
        r.data@ == voxels_of(b@),
{
    let n = b.len();
    let mut out: Vec<TypedVoxel> = Vec::new();
    let mut i: usize = 0;
    while i < n
        invariant
            n == b@.len(),
            i <= n,
            out@.len() == i,
            forall|j: int| 0 <= j < i ==> out@[j] == (TypedVoxel { type_index: b@[j] }),
        decreases n - i,
    {
        out.push(TypedVoxel { type_index: b[i] });
        i += 1;
    }
    proof {
        assert(out@ =~= voxels_of(b@));
    }
    ChunkArray { data: out }
}

} // verus!
