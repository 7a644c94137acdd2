//! The frame payload held by a cache entry, and the error type shared by the
//! cache operations.
//!
//! Pixel data is materialized lazily: an entry starts out with the bytes it
//! will expose still pending, and `ensure_data` forces them into place.
//! Materialization is fallible; a frame whose decode went wrong keeps failing
//! without disturbing the rest of the cache.

use vstd::prelude::*;

verus! {

/// Why a cache operation failed.
#[derive(Clone, Copy, Debug, PartialEq, Eq, Structural)]
pub enum CacheError {
    /// Materializing the frame's pixel data failed.
    HydrationFailure,
    /// The pixel data was requested before a successful hydration.
    NotHydrated,
}

/// A frame's pixel data, materialized lazily.
pub enum Frame {
    /// Hydration has not run yet; it will materialize these bytes.
    Deferred(Vec<u8>),
    /// The bytes are materialized and ready to be read.
    Ready(Vec<u8>),
    /// Hydration fails for this frame.
    Broken,
}

/// The mathematical model of a frame.
#[verifier::ext_equal]
pub ghost struct FrameModel {
    /// Whether hydration succeeds on this frame.
    pub hydratable: bool,
    /// The bytes a successful hydration exposes (empty when none can succeed).
    pub bytes: Seq<u8>,
    /// Whether the bytes are materialized right now.
    pub ready: bool,
}

impl FrameModel {
    /// The model of this frame after a successful hydration.
    pub open spec fn hydrated(self) -> FrameModel {
        FrameModel { hydratable: self.hydratable, bytes: self.bytes, ready: true }
    }
}

impl View for Frame {
    type V = FrameModel;

    open spec fn view(&self) -> FrameModel {
        match self {
            Frame::Deferred(b) => FrameModel { hydratable: true, bytes: b@, ready: false },
            Frame::Ready(b) => FrameModel { hydratable: true, bytes: b@, ready: true },
            Frame::Broken => FrameModel { hydratable: false, bytes: Seq::empty(), ready: false },
        }
    }
}

impl Frame {
    /// A frame whose bytes are decoded on first use.
    pub fn deferred(bytes: Vec<u8>) -> (r: Frame)
        ensures
            r@ == (FrameModel { hydratable: true, bytes: bytes@, ready: false }),
    {
        Frame::Deferred(bytes)
    }

    /// A frame whose bytes are already materialized.
    pub fn ready(bytes: Vec<u8>) -> (r: Frame)
        ensures
            r@ == (FrameModel { hydratable: true, bytes: bytes@, ready: true }),
    {
        Frame::Ready(bytes)
    }

    /// A frame whose hydration fails.
    pub fn broken() -> (r: Frame)
        ensures
            r@ == (FrameModel { hydratable: false, bytes: Seq::<u8>::empty(), ready: false }),
    {
        Frame::Broken
    }

    /// Materialize the pixel data if it is not already present; idempotent.
    pub fn ensure_data(&mut self) -> (r: Result<(), CacheError>)
        ensures
            old(self)@.hydratable ==> r == Ok::<(), CacheError>(())
                && final(self)@ == old(self)@.hydrated(),
            !old(self)@.hydratable ==> r == Err::<(), CacheError>(CacheError::HydrationFailure)
                && final(self)@ == old(self)@,
    {
        let mut taken = Frame::Broken;
        core::mem::swap(self, &mut taken);
        match taken {
            Frame::Deferred(b) => {
                *self = Frame::Ready(b);
                Ok(())
            }
            Frame::Ready(b) => {
                *self = Frame::Ready(b);
                Ok(())
            }
            Frame::Broken => Err(CacheError::HydrationFailure),
        }
    }

    /// Read the materialized pixel data; fails if hydration has not succeeded.
    pub fn get_data(&self) -> (r: Result<Vec<u8>, CacheError>)
        ensures
            self@.ready ==> (r matches Ok(d) && d@ == self@.bytes),
            !self@.ready ==> r == Err::<Vec<u8>, CacheError>(CacheError::NotHydrated),
    {
        match self {
            Frame::Ready(b) => Ok(copy_bytes(b)),
            Frame::Deferred(_) => Err(CacheError::NotHydrated),
            Frame::Broken => Err(CacheError::NotHydrated),
        }
    }
}

/// A byte-for-byte copy of a buffer.
fn copy_bytes(b: &Vec<u8>) -> (r: Vec<u8>)
    ensures
        r@ == b@,
{
    let mut out: Vec<u8> = Vec::new();
    let mut k: usize = 0;
    while k < b.len()
        invariant
            k <= b.len(),
            out@ == b@.subrange(0, k as int),
        decreases b.len() - k,
    {
        out.push(b[k]);
        k = k + 1;
        proof {
            assert(out@ =~= b@.subrange(0, k as int));
        }
    }
    proof {
        assert(out@ =~= b@);
    }
    out
}

} // verus!
