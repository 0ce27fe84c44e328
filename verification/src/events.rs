//! Events that flow from the request engine to the browser model, and the
//! listing entries they carry.

use vstd::prelude::*;
use crate::text::{decimal, push_decimal, push_text};

verus! {

/// A bucket as returned by a bucket listing.
#[derive(Debug)]
pub struct S3Bucket {
    pub name: String,
    pub creation_date: String,
}

/// The mathematical value of an [`S3Bucket`].
pub ghost struct S3BucketView {
    pub name: Seq<char>,
    pub creation_date: Seq<char>,
}

impl View for S3Bucket {
    type V = S3BucketView;

    open spec fn view(&self) -> S3BucketView {
        S3BucketView { name: self.name@, creation_date: self.creation_date@ }
    }
}

impl DeepView for S3Bucket {
    type V = S3BucketView;

    open spec fn deep_view(&self) -> S3BucketView {
        self@
    }
}

impl Clone for S3Bucket {
    fn clone(&self) -> (r: Self)
        ensures
            r@ == self@,
    {
        S3Bucket { name: self.name.clone(), creation_date: self.creation_date.clone() }
    }
}

/// One entry of a folder listing: a file, or a sub-folder (common prefix).
#[derive(Debug)]
pub struct S3Object {
    pub key: String,
    pub display_name: String,
    pub size: i64,
    pub last_modified: String,
    pub is_folder: bool,
}

/// The mathematical value of an [`S3Object`].
pub ghost struct S3ObjectView {
    pub key: Seq<char>,
    pub display_name: Seq<char>,
    pub size: int,
    pub last_modified: Seq<char>,
    pub is_folder: bool,
}

impl View for S3Object {
    type V = S3ObjectView;

    open spec fn view(&self) -> S3ObjectView {
        S3ObjectView {
            key: self.key@,
            display_name: self.display_name@,
            size: self.size as int,
            last_modified: self.last_modified@,
            is_folder: self.is_folder,
        }
    }
}

impl DeepView for S3Object {
    type V = S3ObjectView;

    open spec fn deep_view(&self) -> S3ObjectView {
        self@
    }
}

impl Clone for S3Object {
    fn clone(&self) -> (r: Self)
        ensures
            r@ == self@,
    {
        S3Object {
            key: self.key.clone(),
            display_name: self.display_name.clone(),
            size: self.size,
            last_modified: self.last_modified.clone(),
            is_folder: self.is_folder,
        }
    }
}

/// A state change reported by the request engine. Every event carries its
/// full address (bucket, prefix or key, start byte), so that it can be routed
/// without other context.
#[derive(Debug)]
pub enum StateEvent {
    BucketsLoaded { buckets: Vec<S3Bucket> },
    BucketsLoadError { error_message: String },
    ObjectsLoaded {
        bucket: String,
        prefix: String,
        continuation_token: String,
        objects: Vec<S3Object>,
        next_continuation_token: String,
        is_truncated: bool,
    },
    ObjectsLoadError { bucket: String, prefix: String, error_message: String },
    ObjectContentLoaded { bucket: String, key: String, content: Vec<u8> },
    ObjectContentLoadError { bucket: String, key: String, error_message: String },
    ObjectRangeLoaded {
        bucket: String,
        key: String,
        start_byte: usize,
        total_size: usize,
        data: Vec<u8>,
    },
    ObjectRangeLoadError { bucket: String, key: String, start_byte: usize, error_message: String },
}

/// The mathematical value of a [`StateEvent`].
pub ghost enum StateEventView {
    BucketsLoaded { buckets: Seq<S3BucketView> },
    BucketsLoadError { error_message: Seq<char> },
    ObjectsLoaded {
        bucket: Seq<char>,
        prefix: Seq<char>,
        continuation_token: Seq<char>,
        objects: Seq<S3ObjectView>,
        next_continuation_token: Seq<char>,
        is_truncated: bool,
    },
    ObjectsLoadError { bucket: Seq<char>, prefix: Seq<char>, error_message: Seq<char> },
    ObjectContentLoaded { bucket: Seq<char>, key: Seq<char>, content: Seq<u8> },
    ObjectContentLoadError { bucket: Seq<char>, key: Seq<char>, error_message: Seq<char> },
    ObjectRangeLoaded {
        bucket: Seq<char>,
        key: Seq<char>,
        start_byte: nat,
        total_size: nat,
        data: Seq<u8>,
    },
    ObjectRangeLoadError {
        bucket: Seq<char>,
        key: Seq<char>,
        start_byte: nat,
        error_message: Seq<char>,
    },
}

impl View for StateEvent {
    type V = StateEventView;

    open spec fn view(&self) -> StateEventView {
        match self {
            StateEvent::BucketsLoaded { buckets } => StateEventView::BucketsLoaded {
                buckets: buckets.deep_view(),
            },
            StateEvent::BucketsLoadError { error_message } => StateEventView::BucketsLoadError {
                error_message: error_message@,
            },
            StateEvent::ObjectsLoaded {
                bucket,
                prefix,
                continuation_token,
                objects,
                next_continuation_token,
                is_truncated,
            } => StateEventView::ObjectsLoaded {
                bucket: bucket@,
                prefix: prefix@,
                continuation_token: continuation_token@,
                objects: objects.deep_view(),
                next_continuation_token: next_continuation_token@,
                is_truncated: *is_truncated,
            },
            StateEvent::ObjectsLoadError { bucket, prefix, error_message } => {
                StateEventView::ObjectsLoadError {
                    bucket: bucket@,
                    prefix: prefix@,
                    error_message: error_message@,
                }
            },
            StateEvent::ObjectContentLoaded { bucket, key, content } => {
                StateEventView::ObjectContentLoaded { bucket: bucket@, key: key@, content: content@ }
            },
            StateEvent::ObjectContentLoadError { bucket, key, error_message } => {
                StateEventView::ObjectContentLoadError {
                    bucket: bucket@,
                    key: key@,
                    error_message: error_message@,
                }
            },
            StateEvent::ObjectRangeLoaded { bucket, key, start_byte, total_size, data } => {
                StateEventView::ObjectRangeLoaded {
                    bucket: bucket@,
                    key: key@,
                    start_byte: *start_byte as nat,
                    total_size: *total_size as nat,
                    data: data@,
                }
            },
            StateEvent::ObjectRangeLoadError { bucket, key, start_byte, error_message } => {
                StateEventView::ObjectRangeLoadError {
                    bucket: bucket@,
                    key: key@,
                    start_byte: *start_byte as nat,
                    error_message: error_message@,
                }
            },
        }
    }
}

impl DeepView for StateEvent {
    type V = StateEventView;

    open spec fn deep_view(&self) -> StateEventView {
        self@
    }
}

/// The word for a truth value.
pub open spec fn bool_text(b: bool) -> Seq<char> {
    if b {
        "true"@
    } else {
        "false"@
    }
}

/// A one-line description of an event, for logs: its kind, its address and
/// the size of what it carries.
pub open spec fn description(event: StateEventView) -> Seq<char> {
    match event {
        StateEventView::BucketsLoaded { buckets } => "BucketsLoaded(count="@ + decimal(
            buckets.len(),
        ) + ")"@,
        StateEventView::BucketsLoadError { error_message } => "BucketsLoadError("@ + error_message
            + ")"@,
        StateEventView::ObjectsLoaded { bucket, prefix, objects, is_truncated, .. } => {
            "ObjectsLoaded(bucket="@ + bucket + ", prefix="@ + prefix + ", count="@ + decimal(
                objects.len(),
            ) + ", truncated="@ + bool_text(is_truncated) + ")"@
        },
        StateEventView::ObjectsLoadError { bucket, prefix, error_message } => {
            "ObjectsLoadError(bucket="@ + bucket + ", prefix="@ + prefix + ", "@ + error_message
                + ")"@
        },
        StateEventView::ObjectContentLoaded { bucket, key, content } => {
            "ObjectContentLoaded(bucket="@ + bucket + ", key="@ + key + ", size="@ + decimal(
                content.len(),
            ) + ")"@
        },
        StateEventView::ObjectContentLoadError { bucket, key, error_message } => {
            "ObjectContentLoadError(bucket="@ + bucket + ", key="@ + key + ", "@ + error_message
                + ")"@
        },
        StateEventView::ObjectRangeLoaded { bucket, key, start_byte, total_size, data } => {
            "ObjectRangeLoaded(bucket="@ + bucket + ", key="@ + key + ", offset="@ + decimal(
                start_byte,
            ) + ", size="@ + decimal(data.len()) + ", total="@ + decimal(total_size) + ")"@
        },
        StateEventView::ObjectRangeLoadError { bucket, key, start_byte, error_message } => {
            "ObjectRangeLoadError(bucket="@ + bucket + ", key="@ + key + ", offset="@ + decimal(
                start_byte,
            ) + ", "@ + error_message + ")"@
        },
    }
}

impl StateEvent {
    /// Describes the event in one line.
    pub fn describe(&self) -> (r: String)
        ensures
            r@ == description(self@),
    {
        let mut out = String::new();
        match self {
            StateEvent::BucketsLoaded { buckets } => {
                push_text(&mut out, "BucketsLoaded(count=");
                push_decimal(&mut out, buckets.len() as u64);
                push_text(&mut out, ")");
                proof {
                    assert(out@ =~= description(self@));
                }
            },
            StateEvent::BucketsLoadError { error_message } => {
                push_text(&mut out, "BucketsLoadError(");
                push_text(&mut out, error_message.as_str());
                push_text(&mut out, ")");
                proof {
                    assert(out@ =~= description(self@));
                }
            },
            StateEvent::ObjectsLoaded { bucket, prefix, objects, is_truncated, .. } => {
                push_text(&mut out, "ObjectsLoaded(bucket=");
                push_text(&mut out, bucket.as_str());
                push_text(&mut out, ", prefix=");
                push_text(&mut out, prefix.as_str());
                push_text(&mut out, ", count=");
                push_decimal(&mut out, objects.len() as u64);
                push_text(&mut out, ", truncated=");
                if *is_truncated {
                    push_text(&mut out, "true");
                } else {
                    push_text(&mut out, "false");
                }
                push_text(&mut out, ")");
                proof {
                    assert(out@ =~= description(self@));
                }
            },
            StateEvent::ObjectsLoadError { bucket, prefix, error_message } => {
                push_text(&mut out, "ObjectsLoadError(bucket=");
                push_text(&mut out, bucket.as_str());
                push_text(&mut out, ", prefix=");
                push_text(&mut out, prefix.as_str());
                push_text(&mut out, ", ");
                push_text(&mut out, error_message.as_str());
                push_text(&mut out, ")");
                proof {
                    assert(out@ =~= description(self@));
                }
            },
            StateEvent::ObjectContentLoaded { bucket, key, content } => {
                push_text(&mut out, "ObjectContentLoaded(bucket=");
                push_text(&mut out, bucket.as_str());
                push_text(&mut out, ", key=");
                push_text(&mut out, key.as_str());
                push_text(&mut out, ", size=");
                push_decimal(&mut out, content.len() as u64);
                push_text(&mut out, ")");
                proof {
                    assert(out@ =~= description(self@));
                }
            },
            StateEvent::ObjectContentLoadError { bucket, key, error_message } => {
                push_text(&mut out, "ObjectContentLoadError(bucket=");
                push_text(&mut out, bucket.as_str());
                push_text(&mut out, ", key=");
                push_text(&mut out, key.as_str());
                push_text(&mut out, ", ");
                push_text(&mut out, error_message.as_str());
                push_text(&mut out, ")");
                proof {
                    assert(out@ =~= description(self@));
                }
            },
            StateEvent::ObjectRangeLoaded { bucket, key, start_byte, total_size, data } => {
                push_text(&mut out, "ObjectRangeLoaded(bucket=");
                push_text(&mut out, bucket.as_str());
                push_text(&mut out, ", key=");
                push_text(&mut out, key.as_str());
                push_text(&mut out, ", offset=");
                push_decimal(&mut out, *start_byte as u64);
                push_text(&mut out, ", size=");
                push_decimal(&mut out, data.len() as u64);
                push_text(&mut out, ", total=");
                push_decimal(&mut out, *total_size as u64);
                push_text(&mut out, ")");
                proof {
                    assert(out@ =~= description(self@));
                }
            },
            StateEvent::ObjectRangeLoadError { bucket, key, start_byte, error_message } => {
                push_text(&mut out, "ObjectRangeLoadError(bucket=");
                push_text(&mut out, bucket.as_str());
                push_text(&mut out, ", key=");
                push_text(&mut out, key.as_str());
                push_text(&mut out, ", offset=");
                push_decimal(&mut out, *start_byte as u64);
                push_text(&mut out, ", ");
                push_text(&mut out, error_message.as_str());
                push_text(&mut out, ")");
                proof {
                    assert(out@ =~= description(self@));
                }
            },
        }
        out
    }
}

/// Pushing an element extends the deep view by that element's view.
pub proof fn lemma_deep_view_push<T: DeepView>(old_v: Seq<T>, new_v: Seq<T>, x: T)
    requires
        new_v == old_v.push(x),
    ensures
        Seq::new(new_v.len(), |i: int| new_v[i].deep_view()) == Seq::new(
            old_v.len(),
            |i: int| old_v[i].deep_view(),
        ).push(x.deep_view()),
{
    assert(Seq::new(new_v.len(), |i: int| new_v[i].deep_view()) =~= Seq::new(
        old_v.len(),
        |i: int| old_v[i].deep_view(),
    ).push(x.deep_view()));
}

/// The deep view of a subrange is the subrange of the deep view.
pub proof fn lemma_deep_view_subrange<T: DeepView>(s: Seq<T>, a: int, b: int)
    requires
        0 <= a <= b <= s.len(),
    ensures
        Seq::new(s.subrange(a, b).len(), |i: int| s.subrange(a, b)[i].deep_view()) == Seq::new(
            s.len(),
            |i: int| s[i].deep_view(),
        ).subrange(a, b),
{
    assert(Seq::new(s.subrange(a, b).len(), |i: int| s.subrange(a, b)[i].deep_view()) =~= Seq::new(
        s.len(),
        |i: int| s[i].deep_view(),
    ).subrange(a, b));
}

} // verus!
