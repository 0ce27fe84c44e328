//! The cache of previews: at most a fixed number of entries, of which the
//! one accessed longest ago gives way, but never the selected one.

use vstd::prelude::*;
use crate::preview::{
    append_as, append_with, quiet, transform_finish, transform_process, zstd_step, AppendOutcome,
    AppendResult, Decoded, PreviewState, StatusView, StreamingFilePreview, TransformStep,
};
use crate::text::{str_equals, text_of};

verus! {

/// The number of previews kept.
pub const MAX_PREVIEWS: usize = 50;

/// The preview of one object in the cache.
pub struct PreviewEntry {
    /// The number of the preview, which names its scratch file.
    pub id: u64,
    pub bucket: String,
    pub key: String,
    /// The streaming preview; none for an object that cannot be previewed.
    pub preview: Option<StreamingFilePreview>,
    /// The tick of the cache's clock at which the entry was last accessed.
    pub last_accessed: u64,
    /// Whether the object is of a kind that cannot be previewed.
    pub unsupported: bool,
}

/// The mathematical value of a [`PreviewEntry`].
pub ghost struct PreviewEntryView {
    pub id: u64,
    pub bucket: Seq<char>,
    pub key: Seq<char>,
    pub preview: Option<PreviewState>,
    pub last_accessed: u64,
    pub unsupported: bool,
}

impl View for PreviewEntry {
    type V = PreviewEntryView;

    open spec fn view(&self) -> PreviewEntryView {
        PreviewEntryView {
            id: self.id,
            bucket: self.bucket@,
            key: self.key@,
            preview: match self.preview {
                Some(p) => Some(p@),
                None => None,
            },
            last_accessed: self.last_accessed,
            unsupported: self.unsupported,
        }
    }
}

impl DeepView for PreviewEntry {
    type V = PreviewEntryView;

    open spec fn deep_view(&self) -> PreviewEntryView {
        self@
    }
}

impl PreviewEntry {
    /// The entry is consistent: it has a preview exactly when the object can
    /// be previewed, and the preview is of this object and consistent.
    pub open spec fn wf(&self) -> bool {
        match self.preview {
            Some(p) => !self.unsupported && p.wf() && p.spec_bucket() == self.bucket@
                && p.spec_key() == self.key@,
            None => self.unsupported,
        }
    }
}

/// The state of a preview whose first range has arrived.
pub open spec fn prefetch_ready(p: PreviewState) -> PreviewState {
    PreviewState {
        status: if p.status is Prefetching {
            StatusView::PrefetchReady
        } else {
            p.status
        },
        ..p
    }
}

/// A preview's step on `taken` bytes that have arrived and claim to begin
/// at `offset`, where the transform made `processed` of them and `finished`
/// of the end of the input. The bytes of a first range are taken only by a
/// preview that is empty, and end its first range.
pub open spec fn fed_with(
    p: PreviewState,
    taken: nat,
    offset: nat,
    first_range: bool,
    processed: TransformStep,
    finished: TransformStep,
) -> (PreviewState, AppendResult) {
    let step = if first_range && p.source_bytes != 0 {
        (p, AppendResult::Rejected)
    } else {
        append_with(p, taken, offset, processed, finished)
    };
    (
        if first_range {
            prefetch_ready(step.0)
        } else {
            step.0
        },
        step.1,
    )
}

/// A preview's step on bytes that have arrived and claim to begin at
/// `offset`. Where the preview decodes zstd, `decoded` tells what the decoder
/// made of the bytes; otherwise it is not looked at.
pub open spec fn fed_as(
    p: PreviewState,
    data: Seq<u8>,
    offset: nat,
    first_range: bool,
    decoded: Decoded,
) -> (PreviewState, AppendResult) {
    if p.transform is Zstd {
        fed_with(
            p,
            data.len(),
            offset,
            first_range,
            zstd_step(decoded.first),
            zstd_step(decoded.last),
        )
    } else {
        fed_step(p, data, offset, first_range)
    }
}

/// A preview's step on bytes that have arrived and claim to begin at
/// `offset`, for a transform whose steps are known: all but zstd.
pub open spec fn fed_step(p: PreviewState, data: Seq<u8>, offset: nat, first_range: bool) -> (
    PreviewState,
    AppendResult,
) {
    let processed = transform_process(p.transform, data);
    fed_with(p, data.len(), offset, first_range, processed, transform_finish(processed.0))
}

impl PreviewEntry {
    /// Feeds bytes that have arrived to the preview of the entry. Returns the
    /// offset at which what the preview hands out is to be written, and the
    /// outcome; nothing for an entry without preview.
    pub fn feed(&mut self, data: &[u8], offset: usize, first_range: bool) -> (r: Option<
        (usize, AppendOutcome),
    >)
        requires
            old(self).wf(),
        ensures
            final(self).wf(),
            final(self).id == old(self).id,
            final(self).bucket == old(self).bucket,
            final(self).key == old(self).key,
            final(self).last_accessed == old(self).last_accessed,
            final(self).unsupported == old(self).unsupported,
            match old(self)@.preview {
                None => r is None && final(self)@ == old(self)@,
                Some(p) => r matches Some((at, outcome)) && final(self)@.preview matches Some(q)
                    && {
                    &&& at == p.content.len()
                    &&& q.transform is Zstd <==> p.transform is Zstd
                    &&& !(p.transform is Zstd) ==> (q, outcome@) == fed_step(
                        p,
                        data@,
                        offset as nat,
                        first_range,
                    )
                    &&& exists|decoded: Decoded|
                        (q, outcome@) == #[trigger] fed_as(
                            p,
                            data@,
                            offset as nat,
                            first_range,
                            decoded,
                        )
                },
            },
    {
        match &mut self.preview {
            Some(p) => {
                let ghost start = p@;
                let at = p.bytes_written();
                let skip = first_range && p.source_bytes() != 0;
                let result = if skip {
                    AppendOutcome::Rejected
                } else {
                    p.append_chunk(data, offset)
                };
                let ghost appended = p@;
                if first_range {
                    p.set_prefetch_ready();
                }
                proof {
                    let decoded = if skip {
                        quiet()
                    } else {
                        choose|decoded: Decoded|
                            (appended, result@) == #[trigger] append_as(
                                start,
                                data@,
                                offset as nat,
                                decoded,
                            )
                    };
                    assert((p@, result@) == fed_as(
                        start,
                        data@,
                        offset as nat,
                        first_range,
                        decoded,
                    ));
                }
                Some((at, result))
            },
            None => None,
        }
    }
}

impl PreviewEntryView {
    /// Whether the entry is the preview of the given object.
    pub open spec fn is_for(self, bucket: Seq<char>, key: Seq<char>) -> bool {
        self.bucket == bucket && self.key == key
    }
}

/// The cache of previews with its clock and the number of the next preview.
pub struct PreviewCache {
    pub entries: Vec<PreviewEntry>,
    pub clock: u64,
    pub next_id: u64,
}

/// The mathematical value of a [`PreviewCache`].
pub ghost struct PreviewCacheView {
    pub entries: Seq<PreviewEntryView>,
    pub clock: u64,
    pub next_id: u64,
}

impl View for PreviewCache {
    type V = PreviewCacheView;

    open spec fn view(&self) -> PreviewCacheView {
        PreviewCacheView {
            entries: self.entries.deep_view(),
            clock: self.clock,
            next_id: self.next_id,
        }
    }
}

/// The index of the first of the first `upto` entries that is the preview
/// of the given object.
pub open spec fn entry_index(
    entries: Seq<PreviewEntryView>,
    bucket: Seq<char>,
    key: Seq<char>,
    from: int,
) -> Option<int>
    decreases entries.len() - from,
{
    if from < 0 || from >= entries.len() {
        None
    } else if entries[from].is_for(bucket, key) {
        Some(from)
    } else {
        entry_index(entries, bucket, key, from + 1)
    }
}

/// `entry_index` returns the first matching index, and `None` exactly when
/// no entry matches.
pub proof fn lemma_entry_index(
    entries: Seq<PreviewEntryView>,
    bucket: Seq<char>,
    key: Seq<char>,
    from: int,
)
    requires
        0 <= from,
    ensures
        match entry_index(entries, bucket, key, from) {
            Some(i) => from <= i < entries.len() && entries[i].is_for(bucket, key) && forall|
                j: int,
            | from <= j < i ==> !entries[j].is_for(bucket, key),
            None => forall|j: int| from <= j < entries.len() ==> !entries[j].is_for(bucket, key),
        },
    decreases entries.len() - from,
{
    if from < entries.len() && !entries[from].is_for(bucket, key) {
        lemma_entry_index(entries, bucket, key, from + 1);
    }
}

/// Among the first `upto` entries, the index of the one that was accessed
/// longest ago and is not the preview of the selected object; the first of
/// them where several were accessed at the same tick.
pub open spec fn oldest_unselected(
    entries: Seq<PreviewEntryView>,
    bucket: Seq<char>,
    key: Seq<char>,
    upto: int,
) -> Option<int>
    decreases upto,
{
    if upto <= 0 {
        None
    } else {
        let before = oldest_unselected(entries, bucket, key, upto - 1);
        if entries[upto - 1].is_for(bucket, key) {
            before
        } else {
            match before {
                None => Some(upto - 1),
                Some(p) => if entries[upto - 1].last_accessed < entries[p].last_accessed {
                    Some(upto - 1)
                } else {
                    Some(p)
                },
            }
        }
    }
}

/// The entry that gives way is never the selected one, and no entry that is
/// not selected was accessed before it.
pub proof fn lemma_oldest_unselected(
    entries: Seq<PreviewEntryView>,
    bucket: Seq<char>,
    key: Seq<char>,
    upto: int,
)
    requires
        0 <= upto <= entries.len(),
    ensures
        match oldest_unselected(entries, bucket, key, upto) {
            Some(i) => {
                &&& 0 <= i < upto
                &&& !entries[i].is_for(bucket, key)
                &&& forall|j: int|
                    0 <= j < upto && !entries[j].is_for(bucket, key) ==> entries[i].last_accessed
                        <= entries[j].last_accessed
            },
            None => forall|j: int| 0 <= j < upto ==> entries[j].is_for(bucket, key),
        },
    decreases upto,
{
    if upto > 0 {
        lemma_oldest_unselected(entries, bucket, key, upto - 1);
    }
}

impl PreviewCacheView {
    /// No two entries are previews of the same object.
    pub open spec fn distinct(self) -> bool {
        forall|i: int, j: int|
            0 <= i < self.entries.len() && 0 <= j < self.entries.len() && i != j ==> !(
            self.entries[i].bucket == self.entries[j].bucket && self.entries[i].key
                == self.entries[j].key)
    }

    /// The tick that the next access gets.
    pub open spec fn next_tick(self) -> u64 {
        if self.clock < u64::MAX {
            (self.clock + 1) as u64
        } else {
            self.clock
        }
    }

    /// The cache after entry `i` has been accessed.
    pub open spec fn touched(self, i: int) -> PreviewCacheView {
        PreviewCacheView {
            entries: self.entries.update(
                i,
                PreviewEntryView { last_accessed: self.next_tick(), ..self.entries[i] },
            ),
            clock: self.next_tick(),
            ..self
        }
    }

    /// The cache with the entry that gives way removed, where it holds more
    /// entries than it keeps.
    pub open spec fn evicted(self, bucket: Seq<char>, key: Seq<char>) -> PreviewCacheView {
        if self.entries.len() > MAX_PREVIEWS {
            match oldest_unselected(self.entries, bucket, key, self.entries.len() as int) {
                Some(i) => PreviewCacheView { entries: self.entries.remove(i), ..self },
                None => self,
            }
        } else {
            self
        }
    }

    /// The numbers of the previews that an eviction removes.
    pub open spec fn evicted_ids(self, bucket: Seq<char>, key: Seq<char>) -> Seq<u64> {
        if self.entries.len() > MAX_PREVIEWS {
            match oldest_unselected(self.entries, bucket, key, self.entries.len() as int) {
                Some(i) => seq![self.entries[i].id],
                None => Seq::empty(),
            }
        } else {
            Seq::empty()
        }
    }

    /// The cache with a new entry for the given object, accessed now, before
    /// any eviction.
    pub open spec fn with_entry(
        self,
        bucket: Seq<char>,
        key: Seq<char>,
        preview: Option<PreviewState>,
    ) -> PreviewCacheView {
        PreviewCacheView {
            entries: self.entries.push(
                PreviewEntryView {
                    id: self.next_id,
                    bucket,
                    key,
                    preview,
                    last_accessed: self.next_tick(),
                    unsupported: preview is None,
                },
            ),
            clock: self.next_tick(),
            next_id: if self.next_id < u64::MAX {
                (self.next_id + 1) as u64
            } else {
                self.next_id
            },
        }
    }

    /// The cache without its previews: the clock and the number of the next
    /// preview stay.
    pub open spec fn cleared(self) -> PreviewCacheView {
        PreviewCacheView { entries: Seq::empty(), ..self }
    }

    /// The numbers of all previews, the latest entry first.
    pub open spec fn all_ids(self) -> Seq<u64> {
        Seq::new(self.entries.len(), |i: int| self.entries[self.entries.len() - 1 - i].id)
    }
}

/// Adding a preview keeps the cache within its bound and never removes the
/// preview of the selected object: an entry of the selected object that was
/// in the cache is still in it, and so is the new entry where it is the
/// selected one.
pub proof fn lemma_cache_keeps_bound_and_selection(
    cache: PreviewCacheView,
    bucket: Seq<char>,
    key: Seq<char>,
    preview: Option<PreviewState>,
    selected_bucket: Seq<char>,
    selected_key: Seq<char>,
)
    requires
        cache.entries.len() <= MAX_PREVIEWS,
        cache.distinct(),
        entry_index(cache.entries, bucket, key, 0) is None,
    ensures
        ({
            let grown = cache.with_entry(bucket, key, preview);
            let after = grown.evicted(selected_bucket, selected_key);
            &&& after.entries.len() <= MAX_PREVIEWS
            &&& forall|i: int|
                0 <= i < grown.entries.len() && (#[trigger] grown.entries[i]).is_for(
                    selected_bucket,
                    selected_key,
                ) ==> after.entries.contains(grown.entries[i])
            &&& forall|i: int|
                0 <= i < after.entries.len() ==> grown.entries.contains(
                    #[trigger] after.entries[i],
                )
        }),
{
    let grown = cache.with_entry(bucket, key, preview);
    let after = grown.evicted(selected_bucket, selected_key);
    lemma_entry_index(cache.entries, bucket, key, 0);
    lemma_oldest_unselected(
        grown.entries,
        selected_bucket,
        selected_key,
        grown.entries.len() as int,
    );
    if grown.entries.len() > MAX_PREVIEWS {
        match oldest_unselected(
            grown.entries,
            selected_bucket,
            selected_key,
            grown.entries.len() as int,
        ) {
            Some(gone) => {
                assert forall|i: int|
                    0 <= i < grown.entries.len() && (#[trigger] grown.entries[i]).is_for(
                        selected_bucket,
                        selected_key,
                    ) implies after.entries.contains(grown.entries[i]) by {
                    let j = if i < gone {
                        i
                    } else {
                        i - 1
                    };
                    assert(after.entries[j] == grown.entries[i]);
                }
                assert forall|i: int| 0 <= i < after.entries.len() implies grown.entries.contains(
                    #[trigger] after.entries[i],
                ) by {
                    let j = if i < gone {
                        i
                    } else {
                        i + 1
                    };
                    assert(grown.entries[j] == after.entries[i]);
                }
            },
            None => {
                assert(grown.entries[0].is_for(selected_bucket, selected_key));
                assert(grown.entries[1].is_for(selected_bucket, selected_key));
                assert(cache.entries[0] == grown.entries[0]);
                assert(cache.entries[1] == grown.entries[1]);
                assert(false);
            },
        }
    } else {
        assert forall|i: int|
            0 <= i < grown.entries.len() && (#[trigger] grown.entries[i]).is_for(
                selected_bucket,
                selected_key,
            ) implies after.entries.contains(grown.entries[i]) by {
            assert(after.entries[i] == grown.entries[i]);
        }
        assert forall|i: int| 0 <= i < after.entries.len() implies grown.entries.contains(
            #[trigger] after.entries[i],
        ) by {
            assert(grown.entries[i] == after.entries[i]);
        }
    }
}

impl PreviewCache {
    /// The cache is consistent: its entries are consistent and of distinct
    /// objects, and it holds no more of them than it keeps.
    pub open spec fn wf(&self) -> bool {
        &&& self.entries@.len() <= MAX_PREVIEWS
        &&& self@.distinct()
        &&& forall|i: int| 0 <= i < self.entries@.len() ==> (#[trigger] self.entries@[i]).wf()
    }

    /// An empty cache.
    pub fn new() -> (r: Self)
        ensures
            r.wf(),
            r@ == (PreviewCacheView { entries: Seq::empty(), clock: 0, next_id: 0 }),
    {
        let r = PreviewCache { entries: Vec::new(), clock: 0, next_id: 0 };
        proof {
            assert(r.entries.deep_view() =~= Seq::<PreviewEntryView>::empty());
        }
        r
    }

    /// Finds the preview of the given object.
    pub fn find(&self, bucket: &str, key: &str) -> (r: Option<usize>)
        ensures
            match r {
                Some(i) => entry_index(self@.entries, bucket@, key@, 0) == Some(i as int) && i
                    < self.entries@.len() && self.entries@[i as int]@.is_for(bucket@, key@),
                None => entry_index(self@.entries, bucket@, key@, 0) is None,
            },
    {
        let mut i: usize = 0;
        while i < self.entries.len()
            invariant
                i <= self.entries@.len(),
                entry_index(self@.entries, bucket@, key@, 0) == entry_index(
                    self@.entries,
                    bucket@,
                    key@,
                    i as int,
                ),
            decreases self.entries@.len() - i,
        {
            proof {
                assert(self@.entries[i as int] == self.entries@[i as int]@);
            }
            if str_equals(self.entries[i].bucket.as_str(), bucket) && str_equals(
                self.entries[i].key.as_str(),
                key,
            ) {
                return Some(i);
            }
            i += 1;
        }
        None
    }

    /// Advances the clock and returns the new tick.
    fn tick(&mut self) -> (t: u64)
        ensures
            t == old(self)@.next_tick(),
            final(self).clock == t,
            final(self).entries == old(self).entries,
            final(self).next_id == old(self).next_id,
    {
        if self.clock < u64::MAX {
            self.clock = self.clock + 1;
        }
        self.clock
    }

    /// Marks entry `i` as accessed now.
    pub fn touch(&mut self, i: usize)
        requires
            old(self).wf(),
            i < old(self).entries@.len(),
        ensures
            final(self).wf(),
            final(self)@ == old(self)@.touched(i as int),
    {
        let t = self.tick();
        self.entries[i].last_accessed = t;
        proof {
            assert(self@.entries =~= old(self)@.touched(i as int).entries);
            assert forall|k: int| 0 <= k < self.entries@.len() implies (#[trigger] self.entries@[k]).wf() by {
                assert(old(self).entries@[k].wf());
            }
        }
    }

    /// Finds the entry that gives way: the one accessed longest ago that is
    /// not the preview of the selected object.
    fn find_oldest(&self, bucket: &str, key: &str) -> (r: Option<usize>)
        ensures
            match r {
                Some(i) => oldest_unselected(
                    self@.entries,
                    bucket@,
                    key@,
                    self.entries@.len() as int,
                ) == Some(i as int) && i < self.entries@.len(),
                None => oldest_unselected(
                    self@.entries,
                    bucket@,
                    key@,
                    self.entries@.len() as int,
                ) is None,
            },
    {
        let mut best: Option<usize> = None;
        let mut i: usize = 0;
        while i < self.entries.len()
            invariant
                i <= self.entries@.len(),
                match best {
                    Some(b) => oldest_unselected(self@.entries, bucket@, key@, i as int) == Some(
                        b as int,
                    ) && b < i,
                    None => oldest_unselected(self@.entries, bucket@, key@, i as int) is None,
                },
            decreases self.entries@.len() - i,
        {
            proof {
                assert(self@.entries[i as int] == self.entries@[i as int]@);
            }
            let selected = str_equals(self.entries[i].bucket.as_str(), bucket) && str_equals(
                self.entries[i].key.as_str(),
                key,
            );
            if !selected {
                match best {
                    None => {
                        best = Some(i);
                    },
                    Some(b) => {
                        proof {
                            assert(self@.entries[b as int] == self.entries@[b as int]@);
                        }
                        if self.entries[i].last_accessed < self.entries[b].last_accessed {
                            best = Some(i);
                        }
                    },
                }
            }
            i += 1;
        }
        best
    }

    /// Adds an entry for an object that has none, accessed now, and makes
    /// room for it: where the cache then holds more entries than it keeps,
    /// the one accessed longest ago gives way, but never the preview of the
    /// selected object. Returns the numbers of the previews removed.
    pub fn insert_entry(
        &mut self,
        bucket: &str,
        key: &str,
        preview: Option<StreamingFilePreview>,
        selected_bucket: &str,
        selected_key: &str,
    ) -> (removed: Vec<u64>)
        requires
            old(self).wf(),
            entry_index(old(self)@.entries, bucket@, key@, 0) is None,
            preview matches Some(p) ==> p.wf() && p.spec_bucket() == bucket@ && p.spec_key()
                == key@,
        ensures
            final(self).wf(),
            final(self)@ == old(self)@.with_entry(
                bucket@,
                key@,
                match preview {
                    Some(p) => Some(p@),
                    None => None,
                },
            ).evicted(selected_bucket@, selected_key@),
            removed@ == old(self)@.with_entry(
                bucket@,
                key@,
                match preview {
                    Some(p) => Some(p@),
                    None => None,
                },
            ).evicted_ids(selected_bucket@, selected_key@),
    {
        let t = self.tick();
        let id = self.next_id;
        if self.next_id < u64::MAX {
            self.next_id = self.next_id + 1;
        }
        let unsupported = preview.is_none();
        let entry = PreviewEntry {
            id,
            bucket: text_of(bucket),
            key: text_of(key),
            preview,
            last_accessed: t,
            unsupported,
        };
        proof {
            crate::events::lemma_deep_view_push(self.entries@, self.entries@.push(entry), entry);
            lemma_entry_index(old(self)@.entries, bucket@, key@, 0);
        }
        self.entries.push(entry);
        let ghost grown = self@;
        proof {
            assert forall|i: int, j: int|
                0 <= i < grown.entries.len() && 0 <= j < grown.entries.len() && i != j implies !(
            grown.entries[i].bucket == grown.entries[j].bucket && grown.entries[i].key
                == grown.entries[j].key) by {
                if i < old(self)@.entries.len() && j < old(self)@.entries.len() {
                    assert(old(self)@.entries[i] == grown.entries[i]);
                    assert(old(self)@.entries[j] == grown.entries[j]);
                } else if i < old(self)@.entries.len() {
                    assert(old(self)@.entries[i] == grown.entries[i]);
                    assert(!old(self)@.entries[i].is_for(bucket@, key@));
                } else {
                    assert(old(self)@.entries[j] == grown.entries[j]);
                    assert(!old(self)@.entries[j].is_for(bucket@, key@));
                }
            }
        }
        let mut removed: Vec<u64> = Vec::new();
        if self.entries.len() > MAX_PREVIEWS {
            proof {
                lemma_oldest_unselected(
                    grown.entries,
                    selected_bucket@,
                    selected_key@,
                    grown.entries.len() as int,
                );
            }
            match self.find_oldest(selected_bucket, selected_key) {
                Some(i) => {
                    let gone = self.entries.remove(i);
                    removed.push(gone.id);
                    proof {
                        assert(self@.entries =~= grown.entries.remove(i as int));
                        assert(gone@ == grown.entries[i as int]);
                    }
                },
                None => {
                    proof {
                        assert(grown.entries[0].is_for(selected_bucket@, selected_key@));
                        assert(grown.entries[1].is_for(selected_bucket@, selected_key@));
                        assert(false);
                    }
                },
            }
        }
        proof {
            assert(self@.distinct()) by {
                let now = self@.entries;
                assert forall|i: int, j: int| 0 <= i < now.len() && 0 <= j < now.len() && i != j implies !(
                now[i].bucket == now[j].bucket && now[i].key == now[j].key) by {
                    if now.len() == grown.entries.len() {
                    } else {
                        let gone = oldest_unselected(
                            grown.entries,
                            selected_bucket@,
                            selected_key@,
                            grown.entries.len() as int,
                        ).unwrap();
                        let gi = if i < gone {
                            i
                        } else {
                            i + 1
                        };
                        let gj = if j < gone {
                            j
                        } else {
                            j + 1
                        };
                        assert(now[i] == grown.entries[gi]);
                        assert(now[j] == grown.entries[gj]);
                    }
                }
            }
            assert forall|k: int| 0 <= k < self.entries@.len() implies (#[trigger] self.entries@[k]).wf() by {
                if self.entries@.len() == old(self).entries@.len() + 1 {
                    if k < old(self).entries@.len() {
                        assert(self.entries@[k] == old(self).entries@[k]);
                    }
                } else {
                    let gone = oldest_unselected(
                        grown.entries,
                        selected_bucket@,
                        selected_key@,
                        grown.entries.len() as int,
                    ).unwrap();
                    let g = if k < gone {
                        k
                    } else {
                        k + 1
                    };
                    if g < old(self).entries@.len() {
                        assert(self.entries@[k] == old(self).entries@[g]);
                    }
                }
            }
        }
        removed
    }

    /// Drops every entry. Returns the numbers of the previews removed, the
    /// latest entry first.
    pub fn clear(&mut self) -> (removed: Vec<u64>)
        requires
            old(self).wf(),
        ensures
            final(self).wf(),
            final(self)@ == old(self)@.cleared(),
            removed@ == old(self)@.all_ids(),
    {
        let mut removed: Vec<u64> = Vec::new();
        let mut all: Vec<PreviewEntry> = Vec::new();
        std::mem::swap(&mut all, &mut self.entries);
        let ghost before = old(self)@.entries;
        let n = all.len();
        let mut i: usize = n;
        while i > 0
            invariant
                i <= n,
                n == before.len(),
                before == old(self).entries.deep_view(),
                all@ == old(self).entries@.take(i as int),
                self.clock == old(self).clock,
                self.next_id == old(self).next_id,
                self.entries@.len() == 0,
                removed@ == old(self)@.all_ids().take(n - i),
            decreases i,
        {
            i -= 1;
            let entry = all.pop();
            match entry {
                Some(e) => {
                    proof {
                        assert(e == old(self).entries@[i as int]);
                        assert(e@ == before[i as int]);
                        assert(all@ =~= old(self).entries@.take(i as int));
                        assert(old(self)@.all_ids().take(n - i) =~= old(self)@.all_ids().take(
                            n - i - 1,
                        ).push(e.id));
                    }
                    removed.push(e.id);
                },
                None => {},
            }
        }
        proof {
            assert(self.entries.deep_view() =~= Seq::<PreviewEntryView>::empty());
            assert(old(self)@.all_ids().take(n as int) =~= old(self)@.all_ids());
        }
        removed
    }
}

} // verus!
