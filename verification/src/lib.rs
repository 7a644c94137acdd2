//! A nearest-timestamp cache for decoded video frames.
//!
//! A rendering pipeline that samples video at arbitrary timestamps keeps the
//! frames it has already decoded in a [`cache::FrameCache`] and asks it, for a
//! requested time and a tolerance, whether a held frame is close enough to
//! reuse.  The cache offers an exact-match scan, an approximate match bounded
//! by the tolerance, and a fast path for monotone sequential playback.

pub mod cache;
pub mod frame;
pub mod ids;
pub mod laws;
