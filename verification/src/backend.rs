//! The vocabulary between the browser model and a request engine.

use vstd::prelude::*;
use crate::events::StateEvent;

verus! {

/// Names one cancellable request, or one family of them. The engine that
/// issued the flag records whether it has been set.
#[derive(Clone, Copy, Debug, PartialEq, Eq, Structural)]
pub struct CancelFlag {
    pub id: u64,
}

/// What the browser model asks of a request engine.
///
/// An engine queues the requests, performs them in the background and
/// collects the events they give rise to until the model takes them.
pub trait Backend {
    /// The engine's bookkeeping is consistent. Every method asks for this
    /// and keeps it.
    spec fn valid(&self) -> bool;

    /// Takes all pending events and leaves none behind.
    fn take_events(&mut self) -> (events: Vec<StateEvent>)
        requires
            old(self).valid(),
        ensures
            final(self).valid(),
    ;

    /// Requests the list of buckets.
    fn list_buckets(&mut self)
        requires
            old(self).valid(),
        ensures
            final(self).valid(),
    ;

    /// Requests the objects under a prefix; `continuation_token` is empty for
    /// the first page.
    fn list_objects(
        &mut self,
        bucket: &str,
        prefix: &str,
        continuation_token: &str,
        cancel_flag: Option<CancelFlag>,
    )
        requires
            old(self).valid(),
        ensures
            final(self).valid(),
    ;

    /// Requests the first `max_bytes` bytes of an object, or all of it.
    /// A cancellable request replaces the previous hover request.
    fn get_object(
        &mut self,
        bucket: &str,
        key: &str,
        max_bytes: Option<usize>,
        low_priority: bool,
        cancellable: bool,
    )
        requires
            old(self).valid(),
        ensures
            final(self).valid(),
    ;

    /// Requests one byte range of an object.
    fn get_object_range(
        &mut self,
        bucket: &str,
        key: &str,
        start_byte: usize,
        end_byte: usize,
        cancel_flag: Option<CancelFlag>,
    )
        requires
            old(self).valid(),
        ensures
            final(self).valid(),
    ;

    /// Requests an object from `start_byte` on, to be delivered in chunks.
    fn get_object_streaming(
        &mut self,
        bucket: &str,
        key: &str,
        start_byte: usize,
        total_size: usize,
        cancel_flag: Option<CancelFlag>,
    )
        requires
            old(self).valid(),
        ensures
            final(self).valid(),
    ;

    /// Drops every request that has not been started.
    fn cancel_all(&mut self)
        requires
            old(self).valid(),
        ensures
            final(self).valid(),
    ;

    /// Queues a background listing of a folder.
    fn list_objects_prefetch(&mut self, bucket: &str, prefix: &str, cancellable: bool)
        requires
            old(self).valid(),
        ensures
            final(self).valid(),
    ;

    /// Moves a pending listing to the front of the foreground queue. Returns
    /// whether one is pending there afterwards.
    fn prioritize_request(&mut self, bucket: &str, prefix: &str) -> (found: bool)
        requires
            old(self).valid(),
        ensures
            final(self).valid(),
    ;

    /// Whether a listing of this folder is pending.
    fn has_pending_request(&self, bucket: &str, prefix: &str) -> bool
        requires
            self.valid(),
    ;

    /// Whether a fetch of this object is pending.
    fn has_pending_object_request(&self, bucket: &str, key: &str) -> bool
        requires
            self.valid(),
    ;

    /// Moves a pending object fetch to the front of the foreground queue.
    fn prioritize_object_request(&mut self, bucket: &str, key: &str) -> (found: bool)
        requires
            old(self).valid(),
        ensures
            final(self).valid(),
    ;
}

} // verus!
