//! The infallible face of the transforms: a transform that hands back what
//! it decoded and swallows a failure, which callers ask about afterwards.

use vstd::prelude::*;
use crate::preview::{gzip_finish, gzip_process, GzipTransform, Transform};
use crate::text::bytes_of;

verus! {

/// A transform from raw bytes to decoded bytes.
pub trait StreamTransform {
    /// Takes in a chunk of raw bytes and returns what it newly decoded.
    fn transform(&mut self, data: &[u8]) -> Vec<u8>;

    /// Returns what is left to decode at the end of the input.
    fn flush(&mut self) -> Vec<u8>;
}

/// The transform that passes its input through.
#[derive(Debug)]
pub struct PassThroughTransform;

impl StreamTransform for PassThroughTransform {
    fn transform(&mut self, data: &[u8]) -> (r: Vec<u8>)
        ensures
            r@ == data@,
    {
        bytes_of(data)
    }

    fn flush(&mut self) -> (r: Vec<u8>)
        ensures
            r@ == Seq::<u8>::empty(),
    {
        Vec::new()
    }
}

impl StreamTransform for GzipTransform {
    /// Returns the bytes newly decompressed; none where the stream fails,
    /// which `has_error` reports from then on.
    fn transform(&mut self, data: &[u8]) -> (r: Vec<u8>)
        ensures
            final(self)@ == gzip_process(old(self)@, data@).0,
            r@ == match gzip_process(old(self)@, data@).1 {
                Ok(bytes) => bytes,
                Err(_) => Seq::empty(),
            },
    {
        let mut out: Vec<u8> = Vec::new();
        match self.process(data, &mut out) {
            Ok(()) => {
                proof {
                    assert(Seq::<u8>::empty() + out@ =~= out@);
                    match gzip_process(old(self)@, data@).1 {
                        Ok(bytes) => {
                            assert(Seq::<u8>::empty() + bytes =~= bytes);
                        },
                        Err(_) => {},
                    }
                }
                out
            },
            Err(_) => Vec::new(),
        }
    }

    fn flush(&mut self) -> (r: Vec<u8>)
        ensures
            final(self)@ == gzip_finish(old(self)@).0,
            r@ == match gzip_finish(old(self)@).1 {
                Ok(bytes) => bytes,
                Err(_) => Seq::empty(),
            },
    {
        let mut out: Vec<u8> = Vec::new();
        match self.finish(&mut out) {
            Ok(()) => {
                proof {
                    match gzip_finish(old(self)@).1 {
                        Ok(bytes) => {
                            assert(Seq::<u8>::empty() + bytes =~= bytes);
                        },
                        Err(_) => {},
                    }
                }
                out
            },
            Err(_) => Vec::new(),
        }
    }
}

} // verus!
