//! Sparse and full content hashing.
//!
//! The full hash is the BLAKE3 digest of the whole content. The sparse hash
//! is a cheap pre-filter: for content longer than one window it digests three
//! windows of the content (head, middle, tail) together with the length,
//! using XXH3; for shorter content it is the full hash.

use vstd::prelude::*;
use vstd::bytes::{spec_u128_to_le_bytes, spec_u64_to_le_bytes, u128_to_le_bytes, u64_to_le_bytes};
use vstd::slice::slice_subrange;
use crate::types;

verus! {

/// Length of one sampling window: 64 KiB.
pub const WINDOW: u64 = 65536;

/// Number of bytes handed to the full hasher at a time: 1 MiB.
pub const CHUNK: usize = 1048576;

/// `blake3::Hasher`, the incremental hash state of the `blake3` crate, as
/// a type whose inside is not looked into.
#[verifier::external_type_specification]
#[verifier::external_body]
pub struct ExHasher(blake3::Hasher);

/// The bytes a `blake3::Hasher` has been given through `update` since it
/// was made.
pub uninterp spec fn absorbed(hasher: blake3::Hasher) -> Seq<u8>;

/// Whether a `blake3::Hasher` computes the regular hash function from the
/// start of its input: it was made by `Hasher::new`, not for a key or a
/// derivation context, and was never given an input offset.
pub uninterp spec fn is_plain(hasher: blake3::Hasher) -> bool;

/// The 32-byte BLAKE3 digest of an input, as `blake3::Hasher::finalize`
/// returns it for a plain hasher that has absorbed exactly that input.
pub uninterp spec fn strong_digest(input: Seq<u8>) -> Seq<u8>;

/// The 128-bit XXH3 digest of an input, as `xxhash_rust::xxh3::xxh3_128`
/// returns it.
pub uninterp spec fn fast_digest(input: Seq<u8>) -> u128;

/// `blake3::Hasher::new`: a plain hasher that has absorbed nothing yet.
#[verifier::external_body]
fn hasher_new() -> (hasher: blake3::Hasher)
    ensures
        is_plain(hasher),
        absorbed(hasher) == Seq::<u8>::empty(),
{
    blake3::Hasher::new()
}

/// `blake3::Hasher::update`: appends `input` to what the hasher has
/// absorbed and leaves its mode alone. It is only called on plain hashers:
/// the one assertion in `update` concerns hashers that were given an input
/// offset, so on a plain hasher the call returns without unwinding, for any
/// input that can be fed to it in practice (BLAKE3 takes up to 2^64 bytes).
#[verifier::external_body]
fn hasher_update(hasher: &mut blake3::Hasher, input: &[u8])
    requires
        is_plain(*old(hasher)),
    ensures
        is_plain(*final(hasher)),
        absorbed(*final(hasher)) == absorbed(*old(hasher)) + input@,
    no_unwind
{
    hasher.update(input);
}

/// `blake3::Hasher::finalize` followed by `Hash::as_bytes`: the digest of
/// everything absorbed so far, which for a plain hasher is what
/// `blake3::hash` gives for the same input. The hasher itself is not
/// changed. The one assertion in `finalize` concerns hashers that were
/// given an input offset, which plain hashers were not.
#[verifier::external_body]
fn hasher_finalize(hasher: &blake3::Hasher) -> (digest: [u8; 32])
    requires
        is_plain(*hasher),
    ensures
        digest@ == strong_digest(absorbed(*hasher)),
{
    *hasher.finalize().as_bytes()
}

/// `xxhash_rust::xxh3::xxh3_128`: the unseeded 128-bit XXH3 digest, a
/// function of the input bytes alone.
pub assume_specification[ xxhash_rust::xxh3::xxh3_128 ](input: &[u8]) -> (digest: u128)
    ensures
        digest == fast_digest(input@),
;

/// An incremental full hasher: content is absorbed piece by piece, in
/// order, and the digest of everything absorbed can be taken at any time.
pub struct ContentHasher {
    inner: blake3::Hasher,
}

impl View for ContentHasher {
    type V = Seq<u8>;

    /// Everything absorbed so far.
    closed spec fn view(&self) -> Seq<u8> {
        absorbed(self.inner)
    }
}

impl ContentHasher {
    #[verifier::type_invariant]
    spec fn plain(self) -> bool {
        is_plain(self.inner)
    }

    /// A hasher that has absorbed nothing.
    pub fn new() -> (hasher: ContentHasher)
        ensures
            hasher@ == Seq::<u8>::empty(),
    {
        ContentHasher { inner: hasher_new() }
    }

    /// Absorbs the next piece of content.
    pub fn absorb(&mut self, piece: &[u8])
        ensures
            final(self)@ == old(self)@ + piece@,
    {
        proof {
            use_type_invariant(&*self);
        }
        hasher_update(&mut self.inner, piece);
    }

    /// The full hash of everything absorbed so far.
    pub fn finish(&self) -> (hash: types::Hash)
        ensures
            hash@ == strong_digest(self@),
    {
        proof {
            use_type_invariant(self);
        }
        types::Hash::from_bytes(hasher_finalize(&self.inner))
    }
}

/// The full hash of a content held in memory, fed to the hasher in pieces of
/// at most [`CHUNK`] bytes.
pub fn full_hash(content: &[u8]) -> (hash: types::Hash)
    ensures
        hash@ == strong_digest(content@),
{
    let mut hasher = ContentHasher::new();
    let mut done: usize = 0;
    while done < content.len()
        invariant
            done <= content.len(),
            hasher@ == content@.subrange(0, done as int),
        decreases content.len() - done,
    {
        let left = content.len() - done;
        let take = if left < CHUNK { left } else { CHUNK };
        let piece = slice_subrange(content, done, done + take);
        hasher.absorb(piece);
        assert(content@.subrange(0, done as int) + content@.subrange(done as int, done + take)
            =~= content@.subrange(0, done + take));
        done += take;
    }
    assert(content@.subrange(0, done as int) =~= content@);
    hasher.finish()
}

/// A byte range of a file: `len` bytes starting at `offset`.
#[derive(Clone, Copy, Debug, PartialEq, Eq, Structural)]
pub struct Window {
    pub offset: u64,
    pub len: u64,
}

/// Which bytes of a file the sparse hash reads.
#[derive(Clone, Copy, Debug, PartialEq, Eq, Structural)]
pub enum SparsePlan {
    /// The file fits in one window: the whole file is read once and the
    /// sparse hash is the full hash.
    Whole,
    /// Three windows of [`WINDOW`] bytes each are read.
    Sampled { head: Window, middle: Window, tail: Window },
}

/// Start of the middle window: half the size, rounded down to a multiple
/// of the window length.
pub open spec fn middle_offset(size: u64) -> u64 {
    (size / 2 / WINDOW * WINDOW) as u64
}

/// The sampling plan for a file of the given size.
pub open spec fn plan_for(size: u64) -> SparsePlan {
    if size <= WINDOW {
        SparsePlan::Whole
    } else {
        SparsePlan::Sampled {
            head: Window { offset: 0, len: WINDOW },
            middle: Window { offset: middle_offset(size), len: WINDOW },
            tail: Window { offset: (size - WINDOW) as u64, len: WINDOW },
        }
    }
}

/// The bytes of `content` that a window covers.
pub open spec fn window_of(content: Seq<u8>, window: Window) -> Seq<u8> {
    content.subrange(window.offset as int, window.offset + window.len)
}

/// A 128-bit digest in the 32-byte hash representation: its sixteen bytes,
/// least significant first, followed by sixteen zero bytes.
pub open spec fn widen(digest: u128) -> Seq<u8> {
    spec_u128_to_le_bytes(digest) + Seq::new(16, |i: int| 0u8)
}

/// The sparse hash of three windows read from a file of `size` bytes: the
/// fast digest of the windows, in order, followed by the size as eight
/// little-endian bytes.
pub open spec fn sampled_digest(
    size: u64,
    head: Seq<u8>,
    middle: Seq<u8>,
    tail: Seq<u8>,
) -> Seq<u8> {
    widen(fast_digest(head + middle + tail + spec_u64_to_le_bytes(size)))
}

/// The sparse hash of a content.
pub open spec fn sparse_digest(content: Seq<u8>) -> Seq<u8> {
    match plan_for(content.len() as u64) {
        SparsePlan::Whole => strong_digest(content),
        SparsePlan::Sampled { head, middle, tail } => sampled_digest(
            content.len() as u64,
            window_of(content, head),
            window_of(content, middle),
            window_of(content, tail),
        ),
    }
}

/// Computes the sampling plan for a file of the given size.
pub fn sparse_plan(size: u64) -> (plan: SparsePlan)
    ensures
        plan == plan_for(size),
{
    if size <= WINDOW {
        SparsePlan::Whole
    } else {
        SparsePlan::Sampled {
            head: Window { offset: 0, len: WINDOW },
            middle: Window { offset: size / 2 / WINDOW * WINDOW, len: WINDOW },
            tail: Window { offset: size - WINDOW, len: WINDOW },
        }
    }
}

/// Every window of a sampling plan lies inside the file it was planned for,
/// and the tail window ends with the file's last byte.
pub proof fn lemma_windows_in_bounds(size: u64)
    ensures
        match plan_for(size) {
            SparsePlan::Whole => size <= WINDOW,
            SparsePlan::Sampled { head, middle, tail } => {
                &&& size > WINDOW
                &&& head.offset == 0
                &&& head.offset + head.len <= size
                &&& middle.offset + middle.len <= size
                &&& tail.offset + tail.len == size
            },
        },
{
}

fn widen_digest(digest: u128) -> (bytes: [u8; 32])
    ensures
        bytes@ == widen(digest),
{
    let low = u128_to_le_bytes(digest);
    let mut bytes = [0u8;32];
    let mut i: usize = 0;
    while i < 16
        invariant
            i <= 16,
            low@ == spec_u128_to_le_bytes(digest),
            low@.len() == 16,
            forall|j: int| 0 <= j < i ==> bytes@[j] == low@[j],
            forall|j: int| i <= j < 32 ==> bytes@[j] == 0u8,
        decreases 16 - i,
    {
        bytes[i] = low[i];
        i += 1;
    }
    assert(bytes@ =~= widen(digest));
    bytes
}

/// The sparse hash of a file longer than one window, from the three windows
/// that its sampling plan names.
pub fn sparse_hash_sampled(size: u64, head: &[u8], middle: &[u8], tail: &[u8]) -> (hash: types::Hash)
    ensures
        hash@ == sampled_digest(size, head@, middle@, tail@),
{
    let mut input: Vec<u8> = Vec::new();
    input.extend_from_slice(head);
    input.extend_from_slice(middle);
    input.extend_from_slice(tail);
    let framing = u64_to_le_bytes(size);
    input.extend_from_slice(framing.as_slice());
    assert(input@ =~= head@ + middle@ + tail@ + spec_u64_to_le_bytes(size));
    let digest = xxhash_rust::xxh3::xxh3_128(input.as_slice());
    types::Hash::from_bytes(widen_digest(digest))
}

/// The sparse hash of a content held in memory.
pub fn sparse_hash(content: &[u8]) -> (hash: types::Hash)
    ensures
        hash@ == sparse_digest(content@),
{
    let size = content.len() as u64;
    match sparse_plan(size) {
        SparsePlan::Whole => full_hash(content),
        SparsePlan::Sampled { head, middle, tail } => {
            proof {
                lemma_windows_in_bounds(size);
            }
            let head_bytes = slice_subrange(content, head.offset as usize, (head.offset + head.len) as usize);
            let middle_bytes = slice_subrange(
                content,
                middle.offset as usize,
                (middle.offset + middle.len) as usize,
            );
            let tail_bytes = slice_subrange(content, tail.offset as usize, (tail.offset + tail.len) as usize);
            sparse_hash_sampled(size, head_bytes, middle_bytes, tail_bytes)
        },
    }
}

/// For content of at most one window, the sparse hash and the full hash are
/// the same value.
pub proof fn lemma_sparse_is_full_for_small(content: Seq<u8>)
    requires
        content.len() <= WINDOW,
    ensures
        sparse_digest(content) == strong_digest(content),
{
}

} // verus!
