//! The browser model: the state behind the user interface, the commands that
//! change it, and the application of the engine's events.
//!
//! Every command takes the engine as an argument and leaves its requests in
//! the engine's queues. What has to be done to scratch files is collected as
//! actions for the caller to perform.

use vstd::prelude::*;
use crate::assoc::{
    assoc_map, lemma_assoc_absent, lemma_assoc_empty, lemma_assoc_get, lemma_assoc_push,
    lemma_assoc_update,
};
use crate::aws::credentials::{AWSProfile, AWSProfileView};
use crate::aws::s3_backend::{first_target, S3Backend, S3BackendView, WorkItemView};
use crate::backend::CancelFlag;
use crate::events::{
    lemma_deep_view_push, S3Bucket, S3BucketView, S3Object, S3ObjectView, StateEvent,
    StateEventView,
};
use crate::frecency::{record_visit, recorded, top_frecent, top_paths};
use crate::model::{
    is_preview_supported, make_node_key, merge_objects, merged_objects, node_key, parse_s3_path,
    preview_supported, s3_path_parts, FolderNode, FolderNodeView,
};
use crate::preview::{
    compression_of, initial_transform, quiet, AppendOutcome, AppendResult, Compression, Decoded,
    PreviewState, StatusView, StreamingFilePreview, StreamingStatus, PREFETCH_BYTES,
};
use crate::preview_cache::{
    entry_index, fed_as, lemma_entry_index, PreviewCache, PreviewCacheView, PreviewEntry,
    PreviewEntryView, MAX_PREVIEWS,
};
use crate::settings::{
    AppSettings, AppSettingsView, PathEntry, PathEntryView, ProfilePaths, ProfilePathsView,
};
use crate::text::{
    position_of, push_text, rfind_char, rfind_char_in, str_equals, string_of, text_of,
};

verus! {

/// Something to be done to the scratch file of a preview.
#[derive(Debug)]
pub enum ModelAction {
    /// Create the scratch file of the preview, empty.
    CreateScratch { preview_id: u64 },
    /// Write `data` at `offset` of the scratch file of the preview.
    WriteScratch { preview_id: u64, offset: usize, data: Vec<u8> },
    /// Delete the scratch file of the preview.
    DeleteScratch { preview_id: u64 },
}

/// The mathematical value of a [`ModelAction`].
pub ghost enum ModelActionView {
    CreateScratch { preview_id: u64 },
    WriteScratch { preview_id: u64, offset: usize, data: Seq<u8> },
    DeleteScratch { preview_id: u64 },
}

impl View for ModelAction {
    type V = ModelActionView;

    open spec fn view(&self) -> ModelActionView {
        match self {
            ModelAction::CreateScratch { preview_id } => ModelActionView::CreateScratch {
                preview_id: *preview_id,
            },
            ModelAction::WriteScratch { preview_id, offset, data } => {
                ModelActionView::WriteScratch {
                    preview_id: *preview_id,
                    offset: *offset,
                    data: data@,
                }
            },
            ModelAction::DeleteScratch { preview_id } => ModelActionView::DeleteScratch {
                preview_id: *preview_id,
            },
        }
    }
}

impl DeepView for ModelAction {
    type V = ModelActionView;

    open spec fn deep_view(&self) -> ModelActionView {
        self@
    }
}

/// The state behind the user interface.
pub struct BrowserModel {
    pub settings: AppSettings,
    profiles: Vec<AWSProfile>,
    selected_profile_idx: usize,
    buckets: Vec<S3Bucket>,
    buckets_loading: bool,
    buckets_error: String,
    node_keys: Vec<String>,
    nodes: Vec<FolderNode>,
    current_bucket: String,
    current_prefix: String,
    selected_bucket: String,
    selected_key: String,
    selected_file_size: i64,
    preview_loading: bool,
    preview_supported: bool,
    preview_error: String,
    streaming_cancel_flag: Option<CancelFlag>,
    streaming_enabled: bool,
    previews: PreviewCache,
    last_hovered_file: String,
    last_hovered_folder: String,
    pagination_cancel_flag: Option<CancelFlag>,
    actions: Vec<ModelAction>,
}

/// The mathematical value of a [`BrowserModel`].
pub ghost struct ModelView {
    pub settings: AppSettingsView,
    pub profiles: Seq<AWSProfileView>,
    pub selected_profile_idx: usize,
    pub buckets: Seq<S3BucketView>,
    pub buckets_loading: bool,
    pub buckets_error: Seq<char>,
    /// The folder nodes by their keys.
    pub nodes: Map<Seq<char>, FolderNodeView>,
    pub current_bucket: Seq<char>,
    pub current_prefix: Seq<char>,
    pub selected_bucket: Seq<char>,
    pub selected_key: Seq<char>,
    pub selected_file_size: i64,
    pub preview_loading: bool,
    pub preview_supported: bool,
    pub preview_error: Seq<char>,
    pub streaming_cancel_flag: Option<CancelFlag>,
    pub streaming_enabled: bool,
    pub previews: PreviewCacheView,
    pub last_hovered_file: Seq<char>,
    pub last_hovered_folder: Seq<char>,
    pub pagination_cancel_flag: Option<CancelFlag>,
    /// The actions that the caller has not taken yet.
    pub actions: Seq<ModelActionView>,
}

impl View for BrowserModel {
    type V = ModelView;

    closed spec fn view(&self) -> ModelView {
        ModelView {
            settings: self.settings@,
            profiles: self.profiles.deep_view(),
            selected_profile_idx: self.selected_profile_idx,
            buckets: self.buckets.deep_view(),
            buckets_loading: self.buckets_loading,
            buckets_error: self.buckets_error@,
            nodes: assoc_map(self.node_keys.deep_view(), self.nodes.deep_view()),
            current_bucket: self.current_bucket@,
            current_prefix: self.current_prefix@,
            selected_bucket: self.selected_bucket@,
            selected_key: self.selected_key@,
            selected_file_size: self.selected_file_size,
            preview_loading: self.preview_loading,
            preview_supported: self.preview_supported,
            preview_error: self.preview_error@,
            streaming_cancel_flag: self.streaming_cancel_flag,
            streaming_enabled: self.streaming_enabled,
            previews: self.previews@,
            last_hovered_file: self.last_hovered_file@,
            last_hovered_folder: self.last_hovered_folder@,
            pagination_cancel_flag: self.pagination_cancel_flag,
            actions: self.actions.deep_view(),
        }
    }
}

/// The model together with the engine it talks to.
pub ghost struct World {
    pub m: ModelView,
    pub b: S3BackendView,
}

impl ModelView {
    /// The model before anything has happened.
    pub open spec fn initial() -> ModelView {
        ModelView {
            settings: AppSettingsView {
                profile: Seq::empty(),
                bucket: Seq::empty(),
                prefix: Seq::empty(),
                frecent_paths: Seq::empty(),
            },
            profiles: Seq::empty(),
            selected_profile_idx: 0,
            buckets: Seq::empty(),
            buckets_loading: false,
            buckets_error: Seq::empty(),
            nodes: Map::empty(),
            current_bucket: Seq::empty(),
            current_prefix: Seq::empty(),
            selected_bucket: Seq::empty(),
            selected_key: Seq::empty(),
            selected_file_size: 0,
            preview_loading: false,
            preview_supported: false,
            preview_error: Seq::empty(),
            streaming_cancel_flag: None,
            streaming_enabled: false,
            previews: PreviewCacheView { entries: Seq::empty(), clock: 0, next_id: 0 },
            last_hovered_file: Seq::empty(),
            last_hovered_folder: Seq::empty(),
            pagination_cancel_flag: None,
            actions: Seq::empty(),
        }
    }

    /// The node of a folder, as it is or as it is created on first reference.
    pub open spec fn node_or_new(self, bucket: Seq<char>, prefix: Seq<char>) -> FolderNodeView {
        if self.nodes.dom().contains(node_key(bucket, prefix)) {
            self.nodes[node_key(bucket, prefix)]
        } else {
            FolderNodeView::empty(bucket, prefix)
        }
    }

    /// The model with `node` as the node of the folder.
    pub open spec fn with_node(self, bucket: Seq<char>, prefix: Seq<char>, node: FolderNodeView)
        -> ModelView {
        ModelView { nodes: self.nodes.insert(node_key(bucket, prefix), node), ..self }
    }

    /// The model with the loading flag of the node under `key` cleared, where
    /// there is such a node.
    pub open spec fn with_loading_cleared(self, key: Seq<char>) -> ModelView {
        if self.nodes.dom().contains(key) {
            ModelView {
                nodes: self.nodes.insert(
                    key,
                    FolderNodeView { loading: false, ..self.nodes[key] },
                ),
                ..self
            }
        } else {
            self
        }
    }
}

impl World {
    /// The world after the streaming download has been cancelled: its flag
    /// is set and forgotten.
    pub open spec fn cancel_streaming_download(self) -> World {
        World {
            m: ModelView { streaming_cancel_flag: None, streaming_enabled: false, ..self.m },
            b: match self.m.streaming_cancel_flag {
                Some(flag) => self.b.cancel(flag),
                None => self.b,
            },
        }
    }

    /// The world after the selection has been cleared.
    pub open spec fn clear_selection(self) -> World {
        let w = self.cancel_streaming_download();
        World {
            m: ModelView {
                selected_bucket: Seq::empty(),
                selected_key: Seq::empty(),
                selected_file_size: 0,
                preview_error: Seq::empty(),
                preview_loading: false,
                preview_supported: false,
                ..w.m
            },
            b: w.b,
        }
    }

    /// The world after the current path has been set. On a change of path,
    /// the pagination of the path left behind is cancelled, a fresh flag is
    /// issued for the pagination of the new path, and the folder left behind
    /// no longer counts as loading.
    pub open spec fn set_current_path(self, bucket: Seq<char>, prefix: Seq<char>) -> World {
        let changed = bucket != self.m.current_bucket || prefix != self.m.current_prefix;
        let left = if changed {
            match self.m.pagination_cancel_flag {
                Some(flag) => World {
                    m: self.m.with_loading_cleared(
                        node_key(self.m.current_bucket, self.m.current_prefix),
                    ),
                    b: self.b.cancel(flag),
                },
                None => self,
            }
        } else {
            self
        };
        World {
            m: ModelView {
                current_bucket: bucket,
                current_prefix: prefix,
                pagination_cancel_flag: if changed {
                    Some(left.b.fresh_flag())
                } else {
                    left.m.pagination_cancel_flag
                },
                ..left.m
            },
            b: if changed {
                left.b.issue_flag()
            } else {
                left.b
            },
        }
    }

    /// The world after a folder has been asked for. A folder that is loaded
    /// stays as it is; a prefetch of it that is pending is promoted; else its
    /// listing is requested anew.
    pub open spec fn load_folder(self, bucket: Seq<char>, prefix: Seq<char>) -> World {
        let node = self.m.node_or_new(bucket, prefix);
        if node.loaded {
            World { m: self.m.with_node(bucket, prefix, node), b: self.b }
        } else {
            let boosted = self.b.boost(false, bucket, prefix);
            if first_target(boosted.high, false, bucket, prefix, 0) is Some {
                World {
                    m: self.m.with_node(bucket, prefix, FolderNodeView { loading: true, ..node }),
                    b: boosted,
                }
            } else {
                World {
                    m: self.m.with_node(
                        bucket,
                        prefix,
                        FolderNodeView {
                            objects: Seq::empty(),
                            error: Seq::empty(),
                            loading: true,
                            ..node
                        },
                    ),
                    b: boosted.enqueue_high(
                        WorkItemView::ListObjects {
                            bucket,
                            prefix,
                            continuation_token: Seq::empty(),
                            cancel_flag: None,
                        },
                    ),
                }
            }
        }
    }

    /// The world after the next page of a folder has been asked for: it is
    /// requested where the folder is partly listed and not loading.
    pub open spec fn load_more(self, bucket: Seq<char>, prefix: Seq<char>) -> World {
        let key = node_key(bucket, prefix);
        if self.m.nodes.dom().contains(key) && self.m.nodes[key].loaded
            && self.m.nodes[key].is_truncated && !self.m.nodes[key].loading {
            let node = self.m.nodes[key];
            World {
                m: self.m.with_node(bucket, prefix, FolderNodeView { loading: true, ..node }),
                b: self.b.enqueue_high(
                    WorkItemView::ListObjects {
                        bucket,
                        prefix,
                        continuation_token: node.next_continuation_token,
                        cancel_flag: self.m.pagination_cancel_flag,
                    },
                ),
            }
        } else {
            self
        }
    }

    /// The world after a bucket has been added by hand, where no bucket of
    /// that name is known.
    pub open spec fn add_manual_bucket(self, name: Seq<char>) -> World {
        if exists|i: int| 0 <= i < self.m.buckets.len() && (#[trigger] self.m.buckets[i]).name
            == name {
            self
        } else {
            World {
                m: ModelView {
                    buckets: self.m.buckets.push(
                        S3BucketView { name, creation_date: "(manually added)"@ },
                    ),
                    ..self.m
                },
                b: self.b,
            }
        }
    }
}

/// The number of sub-folders that are prefetched when a folder is shown.
pub const MAX_PREFETCH: usize = 20;

/// The index of the first record at or after `from` that holds the recent
/// paths of the profile.
pub open spec fn profile_index(paths: Seq<ProfilePathsView>, name: Seq<char>, from: int) -> Option<
    int,
>
    decreases paths.len() - from,
{
    if from < 0 || from >= paths.len() {
        None
    } else if paths[from].profile == name {
        Some(from)
    } else {
        profile_index(paths, name, from + 1)
    }
}

/// The recent paths of all profiles after a visit of `path` at time `now`
/// under the profile `name`, which gets a record where it has none.
pub open spec fn paths_recorded(
    paths: Seq<ProfilePathsView>,
    name: Seq<char>,
    path: Seq<char>,
    now: i64,
) -> Seq<ProfilePathsView> {
    match profile_index(paths, name, 0) {
        Some(i) => paths.update(
            i,
            ProfilePathsView { entries: recorded(paths[i].entries, path, now), ..paths[i] },
        ),
        None => paths.push(
            ProfilePathsView { profile: name, entries: recorded(Seq::empty(), path, now) },
        ),
    }
}

/// The URL of a folder: `s3://`, the bucket, a slash and the prefix.
pub open spec fn s3_url(bucket: Seq<char>, prefix: Seq<char>) -> Seq<char> {
    "s3://"@ + bucket + seq!['/'] + prefix
}

/// The prefix of the folder above: the prefix without its last segment;
/// empty for a folder at the top of its bucket.
pub open spec fn parent_prefix(prefix: Seq<char>) -> Seq<char> {
    let trimmed = if prefix.len() > 0 && prefix.last() == '/' {
        prefix.drop_last()
    } else {
        prefix
    };
    match rfind_char(trimmed, '/') {
        Some(pos) => trimmed.take(pos + 1),
        None => Seq::empty(),
    }
}

/// The action that creates the scratch file of the preview with the given
/// number, where an entry has a preview.
pub open spec fn create_actions(preview_id: u64, has_preview: bool) -> Seq<ModelActionView> {
    if has_preview {
        seq![ModelActionView::CreateScratch { preview_id }]
    } else {
        Seq::empty()
    }
}

/// The delete actions for the previews with the given numbers.
pub open spec fn delete_actions(ids: Seq<u64>) -> Seq<ModelActionView> {
    Seq::new(ids.len(), |i: int| ModelActionView::DeleteScratch { preview_id: ids[i] })
}

impl World {
    /// The world after the sub-folders among `objects` from index `from` on
    /// have been prefetched: each gets a background listing, unless it is
    /// loaded, loading or pending, until `MAX_PREFETCH` have been requested.
    pub open spec fn prefetch_from(
        self,
        bucket: Seq<char>,
        objects: Seq<S3ObjectView>,
        from: int,
        count: nat,
    ) -> World
        decreases objects.len() - from,
    {
        if from < 0 || from >= objects.len() {
            self
        } else if !objects[from].is_folder {
            self.prefetch_from(bucket, objects, from + 1, count)
        } else if count >= MAX_PREFETCH {
            self
        } else {
            let key = node_key(bucket, objects[from].key);
            if self.m.nodes.dom().contains(key) && (self.m.nodes[key].loaded
                || self.m.nodes[key].loading) {
                self.prefetch_from(bucket, objects, from + 1, count)
            } else if self.b.pending(false, bucket, objects[from].key) {
                self.prefetch_from(bucket, objects, from + 1, count)
            } else {
                (World {
                    m: self.m,
                    b: self.b.enqueue_low(
                        WorkItemView::ListObjects {
                            bucket,
                            prefix: objects[from].key,
                            continuation_token: Seq::empty(),
                            cancel_flag: None,
                        },
                    ),
                }).prefetch_from(bucket, objects, from + 1, count + 1)
            }
        }
    }

    /// The world after the folder under the pointer has been prefetched. A
    /// folder that is loaded or loading, or was hovered last, is left alone;
    /// else the folder hovered before no longer counts as loading, and this
    /// one gets a cancellable background listing.
    pub open spec fn prefetch_folder(self, bucket: Seq<char>, prefix: Seq<char>) -> World {
        let key = node_key(bucket, prefix);
        if self.m.nodes.dom().contains(key) && (self.m.nodes[key].loaded
            || self.m.nodes[key].loading) {
            self
        } else if self.m.last_hovered_folder == key {
            self
        } else {
            let old_key = self.m.last_hovered_folder;
            let reset = if self.m.nodes.dom().contains(old_key) && self.m.nodes[old_key].loading
                && !self.m.nodes[old_key].loaded {
                self.m.with_loading_cleared(old_key)
            } else {
                self.m
            };
            let node = reset.node_or_new(bucket, prefix);
            World {
                m: ModelView {
                    last_hovered_folder: key,
                    ..reset.with_node(bucket, prefix, FolderNodeView { loading: true, ..node })
                },
                b: self.b.hover_step(false, true).enqueue_low(
                    WorkItemView::ListObjects {
                        bucket,
                        prefix,
                        continuation_token: Seq::empty(),
                        cancel_flag: self.b.hover_flag(false, true),
                    },
                ),
            }
        }
    }

    /// The world after a visit of `path` at time `now` has been recorded
    /// under the selected profile. Nothing is recorded for the root, and
    /// nothing without a named profile.
    pub open spec fn record_recent_path(self, path: Seq<char>, now: i64) -> World {
        if path.len() == 0 || path == "s3://"@ {
            self
        } else if self.m.selected_profile_idx >= self.m.profiles.len() {
            self
        } else if self.m.profiles[self.m.selected_profile_idx as int].name.len() == 0 {
            self
        } else {
            World {
                m: ModelView {
                    settings: AppSettingsView {
                        frecent_paths: paths_recorded(
                            self.m.settings.frecent_paths,
                            self.m.profiles[self.m.selected_profile_idx as int].name,
                            path,
                            now,
                        ),
                        ..self.m.settings
                    },
                    ..self.m
                },
                b: self.b,
            }
        }
    }

    /// The paths that rank highest at time `now` under the selected profile.
    pub open spec fn top_frecent_paths(self, count: int, now: i64) -> Seq<Seq<char>> {
        if self.m.selected_profile_idx >= self.m.profiles.len() {
            Seq::empty()
        } else {
            match profile_index(
                self.m.settings.frecent_paths,
                self.m.profiles[self.m.selected_profile_idx as int].name,
                0,
            ) {
                Some(i) => top_paths(self.m.settings.frecent_paths[i].entries, now, count),
                None => Seq::empty(),
            }
        }
    }

    /// The world after a folder has been entered at time `now`: the
    /// selection is cleared, the folder becomes the current path and is asked
    /// for, and the visit is recorded; where the folder is loaded already,
    /// its sub-folders are prefetched and its pagination is resumed.
    pub open spec fn navigate_into(self, bucket: Seq<char>, prefix: Seq<char>, now: i64) -> World {
        let asked = self.clear_selection().set_current_path(bucket, prefix).load_folder(
            bucket,
            prefix,
        );
        let recorded = if bucket.len() > 0 {
            asked.record_recent_path(s3_url(bucket, prefix), now)
        } else {
            asked
        };
        let key = node_key(bucket, prefix);
        if recorded.m.nodes.dom().contains(key) && recorded.m.nodes[key].loaded {
            let node = recorded.m.nodes[key];
            let prefetched = recorded.prefetch_from(bucket, node.objects, 0, 0);
            if node.is_truncated && !node.loading {
                prefetched.load_more(bucket, prefix)
            } else {
                prefetched
            }
        } else {
            recorded
        }
    }

    /// The world after the root has been entered.
    pub open spec fn navigate_to_root(self) -> World {
        self.clear_selection().set_current_path(Seq::empty(), Seq::empty())
    }

    /// The world after an S3 path has been entered at time `now`: the root
    /// for a path without bucket; else the bucket is made known and the
    /// folder is entered.
    pub open spec fn navigate_to(self, s3_path: Seq<char>, now: i64) -> World {
        let (bucket, prefix) = s3_path_parts(s3_path);
        if bucket.len() == 0 {
            self.navigate_to_root()
        } else {
            self.add_manual_bucket(bucket).navigate_into(bucket, prefix, now)
        }
    }

    /// The world after the folder above the current one has been entered at
    /// time `now`: nothing changes at the root; from the top of a bucket the
    /// root is entered.
    pub open spec fn navigate_up(self, now: i64) -> World {
        if self.m.current_bucket.len() == 0 {
            self
        } else if self.m.current_prefix.len() == 0 {
            self.navigate_to_root()
        } else {
            self.navigate_into(self.m.current_bucket, parent_prefix(self.m.current_prefix), now)
        }
    }

    /// The world after a refresh: buckets, folder nodes and all previews are
    /// forgotten, and the scratch files of the previews are to be deleted;
    /// the pagination is cancelled; and the buckets are requested anew.
    pub open spec fn refresh(self) -> World {
        World {
            m: ModelView {
                buckets: Seq::empty(),
                buckets_error: Seq::empty(),
                buckets_loading: true,
                nodes: Map::empty(),
                previews: self.m.previews.cleared(),
                actions: self.m.actions + delete_actions(self.m.previews.all_ids()),
                last_hovered_file: Seq::empty(),
                last_hovered_folder: Seq::empty(),
                pagination_cancel_flag: None,
                ..self.m
            },
            b: match self.m.pagination_cancel_flag {
                Some(flag) => self.b.cancel(flag),
                None => self.b,
            }.enqueue_high(WorkItemView::ListBuckets),
        }
    }

    /// The world after another profile has been selected: the current path
    /// is left, and everything is refreshed. Nothing changes for the
    /// selected profile and for an index that names no profile.
    pub open spec fn select_profile(self, index: usize) -> World {
        if index >= self.m.profiles.len() || index == self.m.selected_profile_idx {
            self
        } else {
            (World {
                m: ModelView {
                    selected_profile_idx: index,
                    current_bucket: Seq::empty(),
                    current_prefix: Seq::empty(),
                    ..self.m
                },
                b: self.b,
            }).refresh()
        }
    }
}

impl BrowserModel {
    /// The model is consistent: each folder has one node, and the cache of
    /// previews is consistent.
    pub closed spec fn wf(&self) -> bool {
        &&& self.node_keys@.len() == self.nodes@.len()
        &&& self.node_keys.deep_view().no_duplicates()
        &&& self.previews.wf()
    }

    /// Creates a model in which nothing has happened.
    pub fn new() -> (r: Self)
        ensures
            r.wf(),
            r@ == ModelView::initial(),
    {
        let r = BrowserModel {
            settings: AppSettings::default(),
            profiles: Vec::new(),
            selected_profile_idx: 0,
            buckets: Vec::new(),
            buckets_loading: false,
            buckets_error: String::new(),
            node_keys: Vec::new(),
            nodes: Vec::new(),
            current_bucket: String::new(),
            current_prefix: String::new(),
            selected_bucket: String::new(),
            selected_key: String::new(),
            selected_file_size: 0,
            preview_loading: false,
            preview_supported: false,
            preview_error: String::new(),
            streaming_cancel_flag: None,
            streaming_enabled: false,
            previews: PreviewCache::new(),
            last_hovered_file: String::new(),
            last_hovered_folder: String::new(),
            pagination_cancel_flag: None,
            actions: Vec::new(),
        };
        proof {
            lemma_assoc_empty::<Seq<char>, FolderNodeView>();
            assert(r.node_keys.deep_view() =~= Seq::<Seq<char>>::empty());
            assert(r.nodes.deep_view() =~= Seq::<FolderNodeView>::empty());
            assert(r.profiles.deep_view() =~= Seq::<AWSProfileView>::empty());
            assert(r.buckets.deep_view() =~= Seq::<S3BucketView>::empty());
            assert(r.actions.deep_view() =~= Seq::<ModelActionView>::empty());
        }
        r
    }

    /// Finds the node of a folder.
    fn find_node(&self, bucket: &str, prefix: &str) -> (r: Option<usize>)
        requires
            self.wf(),
        ensures
            match r {
                Some(i) => {
                    &&& i < self.nodes@.len()
                    &&& self.node_keys@[i as int]@ == node_key(bucket@, prefix@)
                    &&& self@.nodes.dom().contains(node_key(bucket@, prefix@))
                    &&& self@.nodes[node_key(bucket@, prefix@)] == self.nodes@[i as int]@
                },
                None => !self@.nodes.dom().contains(node_key(bucket@, prefix@)),
            },
    {
        let key = make_node_key(bucket, prefix);
        self.find_node_by_key(key.as_str())
    }

    /// Finds the node under a key.
    fn find_node_by_key(&self, key: &str) -> (r: Option<usize>)
        requires
            self.wf(),
        ensures
            match r {
                Some(i) => {
                    &&& i < self.nodes@.len()
                    &&& self.node_keys@[i as int]@ == key@
                    &&& self@.nodes.dom().contains(key@)
                    &&& self@.nodes[key@] == self.nodes@[i as int]@
                },
                None => !self@.nodes.dom().contains(key@),
            },
    {
        let r = position_of(&self.node_keys, key);
        proof {
            match r {
                Some(i) => {
                    lemma_assoc_get(self.node_keys.deep_view(), self.nodes.deep_view(), i as int);
                },
                None => {
                    lemma_assoc_absent(self.node_keys.deep_view(), self.nodes.deep_view(), key@);
                },
            }
        }
        r
    }

    /// Returns the index of the node of a folder, which is created where the
    /// folder has none.
    fn get_or_create_node(&mut self, bucket: &str, prefix: &str) -> (i: usize)
        requires
            old(self).wf(),
        ensures
            final(self).wf(),
            i < final(self).nodes@.len(),
            final(self).node_keys@[i as int]@ == node_key(bucket@, prefix@),
            final(self).nodes@[i as int]@ == old(self)@.node_or_new(bucket@, prefix@),
            final(self)@ == old(self)@.with_node(
                bucket@,
                prefix@,
                old(self)@.node_or_new(bucket@, prefix@),
            ),
    {
        match self.find_node(bucket, prefix) {
            Some(i) => {
                proof {
                    assert(self@.nodes =~= self@.nodes.insert(
                        node_key(bucket@, prefix@),
                        self@.nodes[node_key(bucket@, prefix@)],
                    ));
                }
                i
            },
            None => {
                let key = make_node_key(bucket, prefix);
                let node = FolderNode::new(text_of(bucket), text_of(prefix));
                let ghost keys = self.node_keys.deep_view();
                let ghost values = self.nodes.deep_view();
                proof {
                    assert(!keys.contains(key@)) by {
                        if keys.contains(key@) {
                            let j = choose|j: int| 0 <= j < keys.len() && keys[j] == key@;
                            lemma_assoc_get(keys, values, j);
                        }
                    }
                    lemma_assoc_push(keys, values, key@, node@);
                    lemma_deep_view_push(self.node_keys@, self.node_keys@.push(key), key);
                    lemma_deep_view_push(self.nodes@, self.nodes@.push(node), node);
                }
                self.node_keys.push(key);
                self.nodes.push(node);
                self.nodes.len() - 1
            },
        }
    }

    /// The nodes stay consistent, and the map is updated, when the node at
    /// index `i` takes a new value.
    proof fn lemma_node_updated(old_model: &BrowserModel, new_model: &BrowserModel, i: int)
        requires
            old_model.wf(),
            0 <= i < old_model.nodes@.len(),
            new_model.node_keys == old_model.node_keys,
            new_model.nodes@.len() == old_model.nodes@.len(),
            forall|j: int|
                0 <= j < old_model.nodes@.len() && j != i ==> new_model.nodes@[j]
                    == old_model.nodes@[j],
        ensures
            assoc_map(new_model.node_keys.deep_view(), new_model.nodes.deep_view()) == assoc_map(
                old_model.node_keys.deep_view(),
                old_model.nodes.deep_view(),
            ).insert(old_model.node_keys@[i]@, new_model.nodes@[i]@),
    {
        lemma_assoc_update(
            old_model.node_keys.deep_view(),
            old_model.nodes.deep_view(),
            i,
            new_model.nodes@[i]@,
        );
        assert(new_model.nodes.deep_view() =~= old_model.nodes.deep_view().update(
            i,
            new_model.nodes@[i]@,
        ));
    }

    /// Cancels the streaming download: sets its flag and forgets it.
    fn cancel_streaming_download(&mut self, backend: &mut S3Backend)
        requires
            old(self).wf(),
            old(backend).wf(),
        ensures
            final(self).wf(),
            final(backend).wf(),
            (World { m: final(self)@, b: final(backend)@ }) == (World {
                m: old(self)@,
                b: old(backend)@,
            }).cancel_streaming_download(),
    {
        match self.streaming_cancel_flag {
            Some(flag) => {
                backend.cancel(flag);
            },
            None => {},
        }
        self.streaming_cancel_flag = None;
        self.streaming_enabled = false;
    }

    /// Clears the selection and cancels the streaming download of the
    /// selected object.
    pub fn clear_selection(&mut self, backend: &mut S3Backend)
        requires
            old(self).wf(),
            old(backend).wf(),
        ensures
            final(self).wf(),
            final(backend).wf(),
            (World { m: final(self)@, b: final(backend)@ }) == (World {
                m: old(self)@,
                b: old(backend)@,
            }).clear_selection(),
    {
        self.cancel_streaming_download(backend);
        self.selected_bucket = String::new();
        self.selected_key = String::new();
        self.selected_file_size = 0;
        self.preview_error = String::new();
        self.preview_loading = false;
        self.preview_supported = false;
    }

    /// Sets the current path.
    pub fn set_current_path(&mut self, backend: &mut S3Backend, bucket: &str, prefix: &str)
        requires
            old(self).wf(),
            old(backend).wf(),
        ensures
            final(self).wf(),
            final(backend).wf(),
            (World { m: final(self)@, b: final(backend)@ }) == (World {
                m: old(self)@,
                b: old(backend)@,
            }).set_current_path(bucket@, prefix@),
    {
        let changed = !str_equals(bucket, self.current_bucket.as_str()) || !str_equals(
            prefix,
            self.current_prefix.as_str(),
        );
        if changed {
            match self.pagination_cancel_flag {
                Some(flag) => {
                    backend.cancel(flag);
                    match self.find_node(self.current_bucket.as_str(), self.current_prefix.as_str()) {
                        Some(i) => {
                            let ghost before = *self;
                            self.nodes[i].loading = false;
                            proof {
                                BrowserModel::lemma_node_updated(&before, self, i as int);
                            }
                        },
                        None => {},
                    }
                },
                None => {},
            }
            self.pagination_cancel_flag = Some(backend.new_cancel_flag());
        }
        self.current_bucket = text_of(bucket);
        self.current_prefix = text_of(prefix);
    }

    /// Asks for a folder: promotes a pending prefetch of it, or requests its
    /// listing, unless it is loaded.
    pub fn load_folder(&mut self, backend: &mut S3Backend, bucket: &str, prefix: &str)
        requires
            old(self).wf(),
            old(backend).wf(),
        ensures
            final(self).wf(),
            final(backend).wf(),
            (World { m: final(self)@, b: final(backend)@ }) == (World {
                m: old(self)@,
                b: old(backend)@,
            }).load_folder(bucket@, prefix@),
    {
        let i = self.get_or_create_node(bucket, prefix);
        if self.nodes[i].loaded {
            return ;
        }
        let ghost created = *self;
        let ghost node = self.nodes@[i as int]@;
        if backend.prioritize_request(bucket, prefix) {
            self.nodes[i].loading = true;
            proof {
                BrowserModel::lemma_node_updated(&created, self, i as int);
                assert(self@.nodes =~= old(self)@.nodes.insert(
                    node_key(bucket@, prefix@),
                    FolderNodeView { loading: true, ..node },
                ));
            }
            return ;
        }
        self.nodes[i].objects = Vec::new();
        self.nodes[i].error = String::new();
        self.nodes[i].loading = true;
        proof {
            BrowserModel::lemma_node_updated(&created, self, i as int);
            assert(self.nodes@[i as int].objects.deep_view() =~= Seq::<S3ObjectView>::empty());
            assert(self@.nodes =~= old(self)@.nodes.insert(
                node_key(bucket@, prefix@),
                FolderNodeView {
                    objects: Seq::empty(),
                    error: Seq::empty(),
                    loading: true,
                    ..node
                },
            ));
        }
        backend.list_objects(bucket, prefix, "", None);
        proof {
            reveal_strlit("");
            assert(""@ =~= Seq::<char>::empty());
        }
    }

    /// Asks for the next page of a folder that is partly listed and not
    /// loading.
    pub fn load_more(&mut self, backend: &mut S3Backend, bucket: &str, prefix: &str)
        requires
            old(self).wf(),
            old(backend).wf(),
        ensures
            final(self).wf(),
            final(backend).wf(),
            (World { m: final(self)@, b: final(backend)@ }) == (World {
                m: old(self)@,
                b: old(backend)@,
            }).load_more(bucket@, prefix@),
    {
        let i = match self.find_node(bucket, prefix) {
            Some(i) => i,
            None => {
                return ;
            },
        };
        if !self.nodes[i].loaded || !self.nodes[i].is_truncated || self.nodes[i].loading {
            return ;
        }
        let token = self.nodes[i].next_continuation_token.clone();
        let ghost before = *self;
        self.nodes[i].loading = true;
        proof {
            BrowserModel::lemma_node_updated(&before, self, i as int);
        }
        backend.list_objects(bucket, prefix, token.as_str(), self.pagination_cancel_flag);
    }

    /// Adds a bucket by hand, unless a bucket of that name is known.
    pub fn add_manual_bucket(&mut self, backend: &S3Backend, bucket_name: &str)
        requires
            old(self).wf(),
        ensures
            final(self).wf(),
            (World { m: final(self)@, b: backend@ }) == (World {
                m: old(self)@,
                b: backend@,
            }).add_manual_bucket(bucket_name@),
    {
        let mut i: usize = 0;
        while i < self.buckets.len()
            invariant
                i <= self.buckets@.len(),
                *self == *old(self),
                self.wf(),
                forall|j: int| 0 <= j < i ==> self.buckets@[j]@.name != bucket_name@,
            decreases self.buckets@.len() - i,
        {
            if str_equals(self.buckets[i].name.as_str(), bucket_name) {
                proof {
                    assert(self@.buckets[i as int].name == bucket_name@);
                }
                return ;
            }
            i += 1;
        }
        proof {
            assert forall|j: int| 0 <= j < self@.buckets.len() implies (
            #[trigger] self@.buckets[j]).name != bucket_name@ by {
                assert(self@.buckets[j] == self.buckets@[j]@);
            }
        }
        let bucket = S3Bucket {
            name: text_of(bucket_name),
            creation_date: text_of("(manually added)"),
        };
        proof {
            lemma_deep_view_push(self.buckets@, self.buckets@.push(bucket), bucket);
        }
        self.buckets.push(bucket);
    }
}

/// The size listed for the file `key` among the objects from index `from`
/// on, or zero where it is not listed.
pub open spec fn first_file_size(objects: Seq<S3ObjectView>, key: Seq<char>, from: int) -> i64
    decreases objects.len() - from,
{
    if from < 0 || from >= objects.len() {
        0
    } else if !objects[from].is_folder && objects[from].key == key {
        objects[from].size as i64
    } else {
        first_file_size(objects, key, from + 1)
    }
}

/// A listed size as a count of bytes: zero for a negative size.
pub open spec fn size_as_usize(size: i64) -> usize {
    if size < 0 {
        0
    } else if size > usize::MAX {
        usize::MAX
    } else {
        size as usize
    }
}

/// The state of a preview of which nothing has arrived.
pub open spec fn new_preview(total: usize, compression: Compression, status: StatusView)
    -> PreviewState {
    PreviewState {
        content: Seq::empty(),
        source_bytes: 0,
        total_source_size: total as nat,
        status,
        transform: initial_transform(compression),
    }
}

/// The state of a preview that has been failed with `message`, unless it had
/// failed before.
pub open spec fn failed_preview(p: PreviewState, message: Seq<char>) -> PreviewState {
    PreviewState {
        status: if p.status is Error {
            p.status
        } else {
            StatusView::Error(message)
        },
        ..p
    }
}

impl ModelView {
    /// The size listed for the file `key` in the current folder.
    pub open spec fn listed_size(self, key: Seq<char>) -> i64 {
        let current = node_key(self.current_bucket, self.current_prefix);
        if self.nodes.dom().contains(current) {
            first_file_size(self.nodes[current].objects, key, 0)
        } else {
            0
        }
    }

    /// Whether the object is the selected one.
    pub open spec fn is_selected(self, bucket: Seq<char>, key: Seq<char>) -> bool {
        self.selected_bucket == bucket && self.selected_key == key
    }

    /// The model with a new entry for the object in the cache of previews.
    /// A preview gets its scratch file with it: the file is to be created.
    /// The entry that gives way to the new one, never the selected one, is
    /// removed, and its scratch file is to be deleted.
    pub open spec fn with_new_entry(
        self,
        bucket: Seq<char>,
        key: Seq<char>,
        preview: Option<PreviewState>,
    ) -> ModelView {
        let grown = self.previews.with_entry(bucket, key, preview);
        ModelView {
            previews: grown.evicted(self.selected_bucket, self.selected_key),
            actions: self.actions + create_actions(self.previews.next_id, preview is Some)
                + delete_actions(grown.evicted_ids(self.selected_bucket, self.selected_key)),
            ..self
        }
    }

    /// The model with entry `i` of the cache holding the preview `p` and
    /// accessed now.
    pub open spec fn with_preview(self, i: int, p: PreviewState) -> ModelView {
        ModelView {
            previews: (PreviewCacheView {
                entries: self.previews.entries.update(
                    i,
                    PreviewEntryView { preview: Some(p), ..self.previews.entries[i] },
                ),
                ..self.previews
            }).touched(i),
            ..self
        }
    }

    /// No preview in the cache is of a zstd object.
    pub open spec fn no_zstd(self) -> bool {
        forall|i: int|
            0 <= i < self.previews.entries.len() ==> match (
            #[trigger] self.previews.entries[i]).preview {
                Some(p) => !(p.transform is Zstd),
                None => true,
            }
    }
}

impl World {
    /// The world after a file has been selected. `failure` is the message
    /// with which a preview could not be set up, which happens for zstd
    /// objects only.
    ///
    /// The selected file is touched where it is selected again and is in the
    /// cache. Else the streaming download of the file selected before is
    /// cancelled. A file
    /// that cannot be previewed gets a marker in the cache. A preview that is
    /// cached is reused, and a prefetch of it that is pending is promoted. A
    /// file without preview gets one, and the whole object is requested as a
    /// stream.
    pub open spec fn select_file(self, bucket: Seq<char>, key: Seq<char>, failure: Option<Seq<char>>)
        -> World {
        if self.m.is_selected(bucket, key) && entry_index(self.m.previews.entries, bucket, key, 0)
            is Some {
            World {
                m: ModelView {
                    previews: self.m.previews.touched(
                        entry_index(self.m.previews.entries, bucket, key, 0)->0,
                    ),
                    ..self.m
                },
                b: self.b,
            }
        } else {
            let w = self.cancel_streaming_download();
            let size = w.m.listed_size(key);
            let supported = preview_supported(key);
            let m1 = ModelView {
                selected_bucket: bucket,
                selected_key: key,
                preview_error: Seq::empty(),
                preview_supported: supported,
                selected_file_size: size,
                ..w.m
            };
            match entry_index(m1.previews.entries, bucket, key, 0) {
                Some(i) => {
                    let touched = m1.previews.touched(i);
                    let waiting = supported && match m1.previews.entries[i].preview {
                        Some(p) => p.status is Prefetching,
                        None => false,
                    };
                    World {
                        m: ModelView { previews: touched, preview_loading: waiting, ..m1 },
                        b: if waiting {
                            w.b.boost(true, bucket, key)
                        } else {
                            w.b
                        },
                    }
                },
                None => if !supported {
                    World {
                        m: ModelView { preview_loading: false, ..m1 }.with_new_entry(
                            bucket,
                            key,
                            None,
                        ),
                        b: w.b,
                    }
                } else {
                    match failure {
                        Some(message) => World {
                            m: ModelView { preview_loading: false, preview_error: message, ..m1 },
                            b: w.b,
                        },
                        None => {
                            let total = size_as_usize(size);
                            let flag = w.b.fresh_flag();
                            World {
                                m: ModelView {
                                    preview_loading: true,
                                    streaming_cancel_flag: Some(flag),
                                    streaming_enabled: true,
                                    ..m1
                                }.with_new_entry(
                                    bucket,
                                    key,
                                    Some(
                                        new_preview(
                                            total,
                                            compression_of(key),
                                            StatusView::Downloading,
                                        ),
                                    ),
                                ),
                                b: w.b.issue_flag().enqueue_high(
                                    WorkItemView::GetObjectStreaming {
                                        bucket,
                                        key,
                                        start_byte: 0,
                                        total_size: total,
                                        cancel_flag: Some(flag),
                                    },
                                ),
                            }
                        },
                    }
                },
            }
        }
    }

    /// The world after the file under the pointer has been prefetched.
    /// `failure` is as for [`World::select_file`].
    ///
    /// Nothing happens for a file that cannot be previewed, has a preview, is
    /// selected, or was hovered last. Else the file gets a preview, and its
    /// first range is requested in the background, cancellably.
    pub open spec fn prefetch_file_preview(
        self,
        bucket: Seq<char>,
        key: Seq<char>,
        failure: Option<Seq<char>>,
    ) -> World {
        if !preview_supported(key) || entry_index(self.m.previews.entries, bucket, key, 0)
            is Some || self.m.is_selected(bucket, key) || self.m.last_hovered_file == node_key(
            bucket,
            key,
        ) {
            self
        } else {
            let m1 = ModelView { last_hovered_file: node_key(bucket, key), ..self.m };
            match failure {
                Some(_) => World { m: m1, b: self.b },
                None => World {
                    m: m1.with_new_entry(
                        bucket,
                        key,
                        Some(
                            new_preview(
                                size_as_usize(self.m.listed_size(key)),
                                compression_of(key),
                                StatusView::Prefetching,
                            ),
                        ),
                    ),
                    b: self.b.hover_step(true, true).enqueue_low(
                        WorkItemView::GetObject {
                            bucket,
                            key,
                            max_bytes: Some(PREFETCH_BYTES as usize),
                            cancel_flag: self.b.hover_flag(true, true),
                        },
                    ),
                },
            }
        }
    }

    /// The world after the rest of the selected object has been asked for.
    /// This has an effect only where the first range of the preview has
    /// arrived: then the rest is requested as a stream from the first byte
    /// that is missing.
    pub open spec fn continue_download(self) -> World {
        match entry_index(
            self.m.previews.entries,
            self.m.selected_bucket,
            self.m.selected_key,
            0,
        ) {
            Some(i) => match self.m.previews.entries[i].preview {
                Some(p) => if p.status is PrefetchReady {
                    let w = self.cancel_streaming_download();
                    let flag = w.b.fresh_flag();
                    World {
                        m: ModelView {
                            streaming_cancel_flag: Some(flag),
                            streaming_enabled: true,
                            ..w.m.with_preview(
                                i,
                                PreviewState { status: StatusView::Downloading, ..p },
                            )
                        },
                        b: w.b.issue_flag().enqueue_high(
                            WorkItemView::GetObjectStreaming {
                                bucket: self.m.selected_bucket,
                                key: self.m.selected_key,
                                start_byte: p.source_bytes as usize,
                                total_size: p.total_source_size as usize,
                                cancel_flag: Some(flag),
                            },
                        ),
                    }
                } else {
                    self
                },
                None => self,
            },
            None => self,
        }
    }

    /// The world after bytes of an object have arrived that claim to begin
    /// at `offset`, for previews whose transforms are known: all but zstd.
    pub open spec fn bytes_loaded(
        self,
        bucket: Seq<char>,
        key: Seq<char>,
        data: Seq<u8>,
        offset: nat,
        first_range: bool,
    ) -> World {
        self.bytes_loaded_as(bucket, key, data, offset, first_range, quiet())
    }

    /// The world after bytes of an object have arrived that claim to begin
    /// at `offset`. They are fed to the object's preview, where it has one in
    /// the cache, and what the preview hands out is to be written to its
    /// scratch file; `first_range` tells that these are the bytes of a
    /// prefetch, which are taken only by a preview that is empty and which
    /// end its first range. For the selected object, loading is over, and a
    /// failure of the preview is shown. Where the preview decodes zstd,
    /// `decoded` tells what the decoder made of the bytes.
    pub open spec fn bytes_loaded_as(
        self,
        bucket: Seq<char>,
        key: Seq<char>,
        data: Seq<u8>,
        offset: nat,
        first_range: bool,
        decoded: Decoded,
    ) -> World {
        let selected = self.m.is_selected(bucket, key);
        let shown = if selected {
            ModelView {
                preview_loading: false,
                preview_error: if first_range {
                    Seq::empty()
                } else {
                    self.m.preview_error
                },
                ..self.m
            }
        } else {
            self.m
        };
        match entry_index(self.m.previews.entries, bucket, key, 0) {
            None => World { m: shown, b: self.b },
            Some(i) => match self.m.previews.entries[i].preview {
                None => World {
                    m: ModelView { previews: shown.previews.touched(i), ..shown },
                    b: self.b,
                },
                Some(p) => {
                    let step = fed_as(p, data, offset, first_range, decoded);
                    let with_preview = shown.with_preview(i, step.0);
                    World {
                        m: match step.1 {
                            AppendResult::Written(bytes) => ModelView {
                                actions: shown.actions.push(
                                    ModelActionView::WriteScratch {
                                        preview_id: self.m.previews.entries[i].id,
                                        offset: p.content.len() as usize,
                                        data: bytes,
                                    },
                                ),
                                ..with_preview
                            },
                            AppendResult::Failed(message) => if selected {
                                ModelView { preview_error: message, ..with_preview }
                            } else {
                                with_preview
                            },
                            AppendResult::Rejected => with_preview,
                        },
                        b: self.b,
                    }
                },
            },
        }
    }

    /// The world after the fetch of an object has failed: its preview, where
    /// it has one in the cache, fails for good; for the selected object,
    /// loading is over and the failure is shown.
    pub open spec fn preview_failed(self, bucket: Seq<char>, key: Seq<char>, message: Seq<char>)
        -> World {
        let shown = if self.m.is_selected(bucket, key) {
            ModelView { preview_loading: false, preview_error: message, ..self.m }
        } else {
            self.m
        };
        match entry_index(self.m.previews.entries, bucket, key, 0) {
            None => World { m: shown, b: self.b },
            Some(i) => match self.m.previews.entries[i].preview {
                None => World { m: shown, b: self.b },
                Some(p) => World {
                    m: ModelView {
                        previews: PreviewCacheView {
                            entries: shown.previews.entries.update(
                                i,
                                PreviewEntryView {
                                    preview: Some(failed_preview(p, message)),
                                    ..shown.previews.entries[i]
                                },
                            ),
                            ..shown.previews
                        },
                        ..shown
                    },
                    b: self.b,
                },
            },
        }
    }

    /// The world after a page of a listing has arrived: it is merged into
    /// the node of its folder, which counts as loaded. For the current
    /// folder, the next page is asked for where the listing is truncated, and
    /// after the first page the sub-folders are prefetched.
    pub open spec fn objects_loaded(
        self,
        bucket: Seq<char>,
        prefix: Seq<char>,
        continuation_token: Seq<char>,
        objects: Seq<S3ObjectView>,
        next_continuation_token: Seq<char>,
        is_truncated: bool,
    ) -> World {
        let node = self.m.node_or_new(bucket, prefix);
        let loaded = World {
            m: self.m.with_node(
                bucket,
                prefix,
                FolderNodeView {
                    objects: merged_objects(node.objects, objects, continuation_token),
                    next_continuation_token,
                    is_truncated,
                    loading: false,
                    loaded: true,
                    error: Seq::empty(),
                    ..node
                },
            ),
            b: self.b,
        };
        if bucket == self.m.current_bucket && prefix == self.m.current_prefix {
            let more = if is_truncated {
                loaded.load_more(bucket, prefix)
            } else {
                loaded
            };
            if continuation_token.len() == 0 {
                more.prefetch_from(bucket, more.m.nodes[node_key(bucket, prefix)].objects, 0, 0)
            } else {
                more
            }
        } else {
            loaded
        }
    }

    /// The world after an event of the engine has been applied, for
    /// previews whose transforms are known: all but zstd.
    pub open spec fn apply_event(self, event: StateEventView) -> World {
        self.apply_event_as(event, quiet())
    }

    /// The world after an event of the engine has been applied. Where the
    /// event brings bytes for a preview that decodes zstd, `decoded` tells
    /// what the decoder made of them.
    pub open spec fn apply_event_as(self, event: StateEventView, decoded: Decoded) -> World {
        match event {
            StateEventView::BucketsLoaded { buckets } => World {
                m: ModelView {
                    buckets,
                    buckets_loading: false,
                    buckets_error: Seq::empty(),
                    ..self.m
                },
                b: self.b,
            },
            StateEventView::BucketsLoadError { error_message } => World {
                m: ModelView { buckets_loading: false, buckets_error: error_message, ..self.m },
                b: self.b,
            },
            StateEventView::ObjectsLoaded {
                bucket,
                prefix,
                continuation_token,
                objects,
                next_continuation_token,
                is_truncated,
            } => self.objects_loaded(
                bucket,
                prefix,
                continuation_token,
                objects,
                next_continuation_token,
                is_truncated,
            ),
            StateEventView::ObjectsLoadError { bucket, prefix, error_message } => World {
                m: self.m.with_node(
                    bucket,
                    prefix,
                    FolderNodeView {
                        loading: false,
                        error: error_message,
                        ..self.m.node_or_new(bucket, prefix)
                    },
                ),
                b: self.b,
            },
            StateEventView::ObjectContentLoaded { bucket, key, content } => self.bytes_loaded_as(
                bucket,
                key,
                content,
                0,
                true,
                decoded,
            ),
            StateEventView::ObjectContentLoadError { bucket, key, error_message } => {
                self.preview_failed(bucket, key, error_message)
            },
            StateEventView::ObjectRangeLoaded { bucket, key, start_byte, total_size, data } => {
                self.bytes_loaded_as(bucket, key, data, start_byte, false, decoded)
            },
            StateEventView::ObjectRangeLoadError { bucket, key, start_byte, error_message } => {
                self.preview_failed(bucket, key, error_message)
            },
        }
    }

    /// The world with the engine's pending events taken out.
    pub open spec fn drained(self) -> World {
        World { m: self.m, b: S3BackendView { events: Seq::empty(), ..self.b } }
    }

    /// The world after the first `upto` events have been applied in order,
    /// for previews whose transforms are known: all but zstd.
    pub open spec fn apply_events(self, events: Seq<StateEventView>, upto: int) -> World
        decreases upto,
    {
        if upto <= 0 || upto > events.len() {
            self
        } else {
            self.apply_events(events, upto - 1).apply_event(events[upto - 1])
        }
    }

    /// The world after the first `upto` events have been applied in order,
    /// where `decoded` tells for each event what a zstd decoder made of its
    /// bytes.
    pub open spec fn apply_events_as(
        self,
        events: Seq<StateEventView>,
        decoded: Seq<Decoded>,
        upto: int,
    ) -> World
        decreases upto,
    {
        if upto <= 0 || upto > events.len() || upto > decoded.len() {
            self
        } else {
            self.apply_events_as(events, decoded, upto - 1).apply_event_as(
                events[upto - 1],
                decoded[upto - 1],
            )
        }
    }
}

impl BrowserModel {
    /// Queues the delete actions for the previews with the given numbers.
    fn push_delete_actions(&mut self, ids: &Vec<u64>)
        requires
            old(self).wf(),
        ensures
            final(self).wf(),
            final(self)@ == (ModelView {
                actions: old(self)@.actions + delete_actions(ids@),
                ..old(self)@
            }),
    {
        let mut i: usize = 0;
        proof {
            assert(self@.actions + delete_actions(ids@.take(0)) =~= self@.actions);
        }
        while i < ids.len()
            invariant
                i <= ids@.len(),
                self.wf(),
                self@ == (ModelView {
                    actions: old(self)@.actions + delete_actions(ids@.take(i as int)),
                    ..old(self)@
                }),
            decreases ids@.len() - i,
        {
            let action = ModelAction::DeleteScratch { preview_id: ids[i] };
            proof {
                lemma_deep_view_push(self.actions@, self.actions@.push(action), action);
                assert((old(self)@.actions + delete_actions(ids@.take(i as int))).push(action@)
                    =~= old(self)@.actions + delete_actions(ids@.take(i + 1)));
            }
            self.actions.push(action);
            i += 1;
        }
        proof {
            assert(ids@.take(i as int) =~= ids@);
        }
    }

    /// Takes the actions that are waiting to be performed, oldest first.
    pub fn take_actions(&mut self) -> (r: Vec<ModelAction>)
        requires
            old(self).wf(),
        ensures
            final(self).wf(),
            r.deep_view() == old(self)@.actions,
            final(self)@ == (ModelView { actions: Seq::empty(), ..old(self)@ }),
    {
        let mut taken: Vec<ModelAction> = Vec::new();
        std::mem::swap(&mut taken, &mut self.actions);
        proof {
            assert(self.actions.deep_view() =~= Seq::<ModelActionView>::empty());
        }
        taken
    }

    /// Prefetches the sub-folders of the folder whose node stands at index
    /// `node`.
    fn trigger_prefetch(&self, backend: &mut S3Backend, bucket: &str, node: usize)
        requires
            self.wf(),
            old(backend).wf(),
            node < self.nodes@.len(),
        ensures
            final(backend).wf(),
            (World { m: self@, b: final(backend)@ }) == (World {
                m: self@,
                b: old(backend)@,
            }).prefetch_from(bucket@, self.nodes@[node as int]@.objects, 0, 0),
    {
        let n = self.nodes[node].objects.len();
        let ghost objects = self.nodes@[node as int]@.objects;
        let ghost start = World { m: self@, b: backend@ };
        let mut count: usize = 0;
        let mut i: usize = 0;
        while i < n
            invariant
                i <= n,
                self.wf(),
                backend.wf(),
                node < self.nodes@.len(),
                n == self.nodes@[node as int].objects@.len(),
                objects == self.nodes@[node as int]@.objects,
                count <= MAX_PREFETCH,
                count <= i,
                (World { m: self@, b: backend@ }).prefetch_from(
                    bucket@,
                    objects,
                    i as int,
                    count as nat,
                ) == start.prefetch_from(bucket@, objects, 0, 0),
            ensures
                (World { m: self@, b: backend@ }) == start.prefetch_from(bucket@, objects, 0, 0),
            decreases n - i,
        {
            proof {
                assert(objects[i as int] == self.nodes@[node as int].objects@[i as int]@);
            }
            if self.nodes[node].objects[i].is_folder {
                if count >= MAX_PREFETCH {
                    break;
                }
                let key = self.nodes[node].objects[i].key.as_str();
                let known = match self.find_node(bucket, key) {
                    Some(j) => self.nodes[j].loaded || self.nodes[j].loading,
                    None => false,
                };
                if !known && !backend.has_pending_request(bucket, key) {
                    backend.list_objects_prefetch(bucket, key, false);
                    count += 1;
                }
            }
            i += 1;
        }
    }

    /// Prefetches the folder under the pointer.
    pub fn prefetch_folder(&mut self, backend: &mut S3Backend, bucket: &str, prefix: &str)
        requires
            old(self).wf(),
            old(backend).wf(),
        ensures
            final(self).wf(),
            final(backend).wf(),
            (World { m: final(self)@, b: final(backend)@ }) == (World {
                m: old(self)@,
                b: old(backend)@,
            }).prefetch_folder(bucket@, prefix@),
    {
        match self.find_node(bucket, prefix) {
            Some(i) => {
                if self.nodes[i].loaded || self.nodes[i].loading {
                    return ;
                }
            },
            None => {},
        }
        let folder_key = make_node_key(bucket, prefix);
        if str_equals(self.last_hovered_folder.as_str(), folder_key.as_str()) {
            return ;
        }
        match self.find_node_by_key(self.last_hovered_folder.as_str()) {
            Some(j) => {
                if self.nodes[j].loading && !self.nodes[j].loaded {
                    let ghost before = *self;
                    self.nodes[j].loading = false;
                    proof {
                        BrowserModel::lemma_node_updated(&before, self, j as int);
                    }
                }
            },
            None => {},
        }
        let ghost reset = self@;
        let i = self.get_or_create_node(bucket, prefix);
        let ghost created = *self;
        let ghost node = self.nodes@[i as int]@;
        self.nodes[i].loading = true;
        proof {
            BrowserModel::lemma_node_updated(&created, self, i as int);
            assert(self@.nodes =~= reset.nodes.insert(
                node_key(bucket@, prefix@),
                FolderNodeView { loading: true, ..node },
            ));
        }
        self.last_hovered_folder = folder_key;
        backend.list_objects_prefetch(bucket, prefix, true);
    }

    /// Finds the record of the recent paths of a profile.
    fn find_profile_paths(&self, name: &str) -> (r: Option<usize>)
        ensures
            match r {
                Some(i) => profile_index(self@.settings.frecent_paths, name@, 0) == Some(i as int)
                    && i < self.settings.frecent_paths@.len(),
                None => profile_index(self@.settings.frecent_paths, name@, 0) is None,
            },
    {
        let mut i: usize = 0;
        while i < self.settings.frecent_paths.len()
            invariant
                i <= self.settings.frecent_paths@.len(),
                profile_index(self@.settings.frecent_paths, name@, 0) == profile_index(
                    self@.settings.frecent_paths,
                    name@,
                    i as int,
                ),
            decreases self.settings.frecent_paths@.len() - i,
        {
            proof {
                assert(self@.settings.frecent_paths[i as int]
                    == self.settings.frecent_paths@[i as int]@);
            }
            if str_equals(self.settings.frecent_paths[i].profile.as_str(), name) {
                return Some(i);
            }
            i += 1;
        }
        None
    }

    /// Records a visit of `path` at time `now` under the selected profile.
    pub fn record_recent_path(&mut self, backend: &S3Backend, path: &str, now: i64)
        requires
            old(self).wf(),
        ensures
            final(self).wf(),
            (World { m: final(self)@, b: backend@ }) == (World {
                m: old(self)@,
                b: backend@,
            }).record_recent_path(path@, now),
    {
        if path.is_empty() || str_equals(path, "s3://") {
            return ;
        }
        if self.selected_profile_idx >= self.profiles.len() {
            return ;
        }
        proof {
            assert(self@.profiles[self.selected_profile_idx as int]
                == self.profiles@[self.selected_profile_idx as int]@);
        }
        let name = self.profiles[self.selected_profile_idx].name.clone();
        if name.as_str().is_empty() {
            return ;
        }
        let ghost paths = self@.settings.frecent_paths;
        match self.find_profile_paths(name.as_str()) {
            Some(i) => {
                proof {
                    assert(paths[i as int] == self.settings.frecent_paths@[i as int]@);
                }
                record_visit(&mut self.settings.frecent_paths[i].entries, path, now);
                proof {
                    assert(self@.settings.frecent_paths =~= paths.update(
                        i as int,
                        ProfilePathsView {
                            entries: recorded(paths[i as int].entries, path@, now),
                            ..paths[i as int]
                        },
                    ));
                }
            },
            None => {
                let mut entries: Vec<PathEntry> = Vec::new();
                proof {
                    assert(entries.deep_view() =~= Seq::<PathEntryView>::empty());
                }
                record_visit(&mut entries, path, now);
                let record = ProfilePaths { profile: name, entries };
                proof {
                    lemma_deep_view_push(
                        self.settings.frecent_paths@,
                        self.settings.frecent_paths@.push(record),
                        record,
                    );
                }
                self.settings.frecent_paths.push(record);
            },
        }
    }

    /// Returns the `count` paths that rank highest at time `now` under the
    /// selected profile, best first.
    pub fn top_frecent_paths(&self, backend: &S3Backend, count: usize, now: i64) -> (r: Vec<String>)
        ensures
            r.deep_view() == (World { m: self@, b: backend@ }).top_frecent_paths(
                count as int,
                now,
            ),
    {
        if self.selected_profile_idx >= self.profiles.len() {
            let r: Vec<String> = Vec::new();
            assert(r.deep_view() =~= Seq::<Seq<char>>::empty());
            return r;
        }
        proof {
            assert(self@.profiles[self.selected_profile_idx as int]
                == self.profiles@[self.selected_profile_idx as int]@);
        }
        match self.find_profile_paths(self.profiles[self.selected_profile_idx].name.as_str()) {
            Some(i) => {
                proof {
                    assert(self@.settings.frecent_paths[i as int]
                        == self.settings.frecent_paths@[i as int]@);
                }
                top_frecent(&self.settings.frecent_paths[i].entries, now, count)
            },
            None => {
                let r: Vec<String> = Vec::new();
                assert(r.deep_view() =~= Seq::<Seq<char>>::empty());
                r
            },
        }
    }

    /// Enters a folder at time `now`.
    pub fn navigate_into(&mut self, backend: &mut S3Backend, bucket: &str, prefix: &str, now: i64)
        requires
            old(self).wf(),
            old(backend).wf(),
        ensures
            final(self).wf(),
            final(backend).wf(),
            (World { m: final(self)@, b: final(backend)@ }) == (World {
                m: old(self)@,
                b: old(backend)@,
            }).navigate_into(bucket@, prefix@, now),
    {
        self.clear_selection(backend);
        self.set_current_path(backend, bucket, prefix);
        self.load_folder(backend, bucket, prefix);
        if !bucket.is_empty() {
            let mut path = String::new();
            push_text(&mut path, "s3://");
            push_text(&mut path, bucket);
            path.push('/');
            push_text(&mut path, prefix);
            proof {
                assert(path@ =~= s3_url(bucket@, prefix@));
            }
            self.record_recent_path(backend, path.as_str(), now);
        }
        match self.find_node(bucket, prefix) {
            Some(i) => {
                if self.nodes[i].loaded {
                    let is_truncated = self.nodes[i].is_truncated;
                    let loading = self.nodes[i].loading;
                    self.trigger_prefetch(backend, bucket, i);
                    if is_truncated && !loading {
                        self.load_more(backend, bucket, prefix);
                    }
                }
            },
            None => {},
        }
    }

    /// Enters the folder that an S3 path names, at time `now`.
    pub fn navigate_to(&mut self, backend: &mut S3Backend, s3_path: &str, now: i64)
        requires
            old(self).wf(),
            old(backend).wf(),
        ensures
            final(self).wf(),
            final(backend).wf(),
            (World { m: final(self)@, b: final(backend)@ }) == (World {
                m: old(self)@,
                b: old(backend)@,
            }).navigate_to(s3_path@, now),
    {
        let (bucket, prefix) = match parse_s3_path(s3_path) {
            Some(parts) => parts,
            None => {
                return ;
            },
        };
        if bucket.as_str().is_empty() {
            self.clear_selection(backend);
            proof {
                reveal_strlit("");
                assert(""@ =~= Seq::<char>::empty());
            }
            self.set_current_path(backend, "", "");
            return ;
        }
        self.add_manual_bucket(backend, bucket.as_str());
        self.navigate_into(backend, bucket.as_str(), prefix.as_str(), now);
    }

    /// Enters the folder above the current one, at time `now`.
    pub fn navigate_up(&mut self, backend: &mut S3Backend, now: i64)
        requires
            old(self).wf(),
            old(backend).wf(),
        ensures
            final(self).wf(),
            final(backend).wf(),
            (World { m: final(self)@, b: final(backend)@ }) == (World {
                m: old(self)@,
                b: old(backend)@,
            }).navigate_up(now),
    {
        if self.current_bucket.as_str().is_empty() {
            return ;
        }
        if self.current_prefix.as_str().is_empty() {
            self.clear_selection(backend);
            proof {
                reveal_strlit("");
                assert(""@ =~= Seq::<char>::empty());
            }
            self.set_current_path(backend, "", "");
            return ;
        }
        let p = crate::text::chars_of(self.current_prefix.as_str());
        let n = p.len();
        let end: usize = if n > 0 && p[n - 1] == '/' {
            n - 1
        } else {
            n
        };
        proof {
            let trimmed = p@.subrange(0, end as int);
            if end == n {
                assert(trimmed == p@);
            } else {
                assert(trimmed == p@.drop_last());
            }
            crate::text::lemma_rfind_char_prefix(p@, '/', end as int);
            assert(p@.take(end as int) == trimmed);
        }
        let new_prefix = match rfind_char_in(p.as_slice(), '/', end) {
            Some(pos) => {
                proof {
                    assert(p@.subrange(0, end as int).take(pos + 1) == p@.subrange(0, pos + 1));
                }
                string_of(p.as_slice(), 0, pos + 1)
            },
            None => String::new(),
        };
        let bucket = self.current_bucket.clone();
        self.navigate_into(backend, bucket.as_str(), new_prefix.as_str(), now);
    }

    /// Forgets buckets, folders and all previews and requests the buckets
    /// anew.
    pub fn refresh(&mut self, backend: &mut S3Backend)
        requires
            old(self).wf(),
            old(backend).wf(),
        ensures
            final(self).wf(),
            final(backend).wf(),
            (World { m: final(self)@, b: final(backend)@ }) == (World {
                m: old(self)@,
                b: old(backend)@,
            }).refresh(),
    {
        self.buckets = Vec::new();
        self.buckets_error = String::new();
        self.buckets_loading = true;
        self.node_keys = Vec::new();
        self.nodes = Vec::new();
        proof {
            lemma_assoc_empty::<Seq<char>, FolderNodeView>();
            assert(self.node_keys.deep_view() =~= Seq::<Seq<char>>::empty());
            assert(self.nodes.deep_view() =~= Seq::<FolderNodeView>::empty());
            assert(self.buckets.deep_view() =~= Seq::<S3BucketView>::empty());
        }
        let removed = self.previews.clear();
        self.push_delete_actions(&removed);
        self.last_hovered_file = String::new();
        self.last_hovered_folder = String::new();
        match self.pagination_cancel_flag {
            Some(flag) => {
                backend.cancel(flag);
            },
            None => {},
        }
        self.pagination_cancel_flag = None;
        backend.list_buckets();
    }

    /// Selects another profile and refreshes everything.
    pub fn select_profile(&mut self, backend: &mut S3Backend, index: usize)
        requires
            old(self).wf(),
            old(backend).wf(),
        ensures
            final(self).wf(),
            final(backend).wf(),
            (World { m: final(self)@, b: final(backend)@ }) == (World {
                m: old(self)@,
                b: old(backend)@,
            }).select_profile(index),
    {
        if index >= self.profiles.len() || index == self.selected_profile_idx {
            return ;
        }
        self.selected_profile_idx = index;
        self.current_bucket = String::new();
        self.current_prefix = String::new();
        self.refresh(backend);
    }

    /// Takes over the profiles that were loaded, and selects the first of
    /// them with the wanted name, or else the first.
    pub fn set_profiles(&mut self, profiles: Vec<AWSProfile>, wanted: &str)
        requires
            old(self).wf(),
        ensures
            final(self).wf(),
            final(self)@ == (ModelView {
                profiles: profiles.deep_view(),
                selected_profile_idx: preferred_index(profiles.deep_view(), wanted@, 0),
                ..old(self)@
            }),
    {
        let mut found: usize = 0;
        let mut i: usize = 0;
        while i < profiles.len()
            invariant_except_break
                found == 0,
                preferred_index(profiles.deep_view(), wanted@, 0) == preferred_index(
                    profiles.deep_view(),
                    wanted@,
                    i as int,
                ),
            invariant
                i <= profiles@.len(),
            ensures
                found == preferred_index(profiles.deep_view(), wanted@, 0),
            decreases profiles@.len() - i,
        {
            proof {
                assert(profiles.deep_view()[i as int] == profiles@[i as int]@);
            }
            if str_equals(profiles[i].name.as_str(), wanted) {
                found = i;
                break;
            }
            i += 1;
        }
        self.profiles = profiles;
        self.selected_profile_idx = found;
    }
}

/// The index of the first profile at or after `from` with the wanted name,
/// or zero where there is none.
pub open spec fn preferred_index(profiles: Seq<AWSProfileView>, wanted: Seq<char>, from: int)
    -> usize
    decreases profiles.len() - from,
{
    if from < 0 || from >= profiles.len() {
        0
    } else if profiles[from].name == wanted {
        from as usize
    } else {
        preferred_index(profiles, wanted, from + 1)
    }
}

/// What feeding a preview came to; a chunk that no preview took counts as
/// rejected.
spec fn fed_result(outcome: Option<(usize, AppendOutcome)>) -> AppendResult {
    match outcome {
        Some(pair) => pair.1@,
        None => AppendResult::Rejected,
    }
}

/// The world after the first `upto` events depends on what the decoder made
/// of those events only.
proof fn lemma_events_applied(
    w: World,
    events: Seq<StateEventView>,
    one: Seq<Decoded>,
    other: Seq<Decoded>,
    upto: int,
)
    requires
        0 <= upto <= one.len(),
        upto <= other.len(),
        forall|i: int| 0 <= i < upto ==> one[i] == other[i],
    ensures
        w.apply_events_as(events, one, upto) == w.apply_events_as(events, other, upto),
    decreases upto,
{
    if 0 < upto <= events.len() {
        lemma_events_applied(w, events, one, other, upto - 1);
    }
}

/// Where no preview in the cache is of a zstd object, what a zstd decoder
/// would have made of an event's bytes makes no difference.
pub proof fn lemma_known_transforms(w: World, event: StateEventView, decoded: Decoded)
    requires
        w.m.no_zstd(),
    ensures
        w.apply_event_as(event, decoded) == w.apply_event(event),
{
    match event {
        StateEventView::ObjectContentLoaded { bucket, key, content } => {
            lemma_entry_index(w.m.previews.entries, bucket, key, 0);
        },
        StateEventView::ObjectRangeLoaded { bucket, key, start_byte, total_size, data } => {
            lemma_entry_index(w.m.previews.entries, bucket, key, 0);
        },
        _ => {},
    }
}

/// Applying an event never turns a preview into one of a zstd object.
pub proof fn lemma_event_keeps_no_zstd(w: World, event: StateEventView)
    requires
        w.m.no_zstd(),
    ensures
        w.apply_event(event).m.no_zstd(),
{
    match event {
        StateEventView::ObjectsLoaded {
            bucket,
            prefix,
            continuation_token,
            objects,
            next_continuation_token,
            is_truncated,
        } => {
            let node = w.m.node_or_new(bucket, prefix);
            let loaded = World {
                m: w.m.with_node(
                    bucket,
                    prefix,
                    FolderNodeView {
                        objects: merged_objects(node.objects, objects, continuation_token),
                        next_continuation_token,
                        is_truncated,
                        loading: false,
                        loaded: true,
                        error: Seq::empty(),
                        ..node
                    },
                ),
                b: w.b,
            };
            let more = if is_truncated {
                loaded.load_more(bucket, prefix)
            } else {
                loaded
            };
            lemma_prefetch_keeps_model(
                more,
                bucket,
                more.m.nodes[node_key(bucket, prefix)].objects,
                0,
                0,
            );
        },
        StateEventView::ObjectContentLoaded { bucket, key, content } => {
            lemma_bytes_keep_no_zstd(w, bucket, key, content, 0, true);
        },
        StateEventView::ObjectRangeLoaded { bucket, key, start_byte, total_size, data } => {
            lemma_bytes_keep_no_zstd(w, bucket, key, data, start_byte, false);
        },
        StateEventView::ObjectContentLoadError { bucket, key, error_message } => {
            lemma_failure_keeps_no_zstd(w, bucket, key, error_message);
        },
        StateEventView::ObjectRangeLoadError { bucket, key, start_byte, error_message } => {
            lemma_failure_keeps_no_zstd(w, bucket, key, error_message);
        },
        _ => {},
    }
}

/// Prefetching changes the engine only.
pub proof fn lemma_prefetch_keeps_model(
    w: World,
    bucket: Seq<char>,
    objects: Seq<S3ObjectView>,
    from: int,
    count: nat,
)
    ensures
        w.prefetch_from(bucket, objects, from, count).m == w.m,
    decreases objects.len() - from,
{
    if 0 <= from < objects.len() {
        if !objects[from].is_folder {
            lemma_prefetch_keeps_model(w, bucket, objects, from + 1, count);
        } else if count >= MAX_PREFETCH {
        } else {
            let key = node_key(bucket, objects[from].key);
            if w.m.nodes.dom().contains(key) && (w.m.nodes[key].loaded || w.m.nodes[key].loading) {
                lemma_prefetch_keeps_model(w, bucket, objects, from + 1, count);
            } else if w.b.pending(false, bucket, objects[from].key) {
                lemma_prefetch_keeps_model(w, bucket, objects, from + 1, count);
            } else {
                lemma_prefetch_keeps_model(
                    World {
                        m: w.m,
                        b: w.b.enqueue_low(
                            WorkItemView::ListObjects {
                                bucket,
                                prefix: objects[from].key,
                                continuation_token: Seq::empty(),
                                cancel_flag: None,
                            },
                        ),
                    },
                    bucket,
                    objects,
                    from + 1,
                    count + 1,
                );
            }
        }
    }
}

/// Bytes that arrive never turn a preview into one of a zstd object.
proof fn lemma_bytes_keep_no_zstd(
    w: World,
    bucket: Seq<char>,
    key: Seq<char>,
    data: Seq<u8>,
    offset: nat,
    first_range: bool,
)
    requires
        w.m.no_zstd(),
    ensures
        w.bytes_loaded(bucket, key, data, offset, first_range).m.no_zstd(),
{
    let after = w.bytes_loaded(bucket, key, data, offset, first_range).m;
    lemma_entry_index(w.m.previews.entries, bucket, key, 0);
    assert forall|k: int| 0 <= k < after.previews.entries.len() implies match (
    #[trigger] after.previews.entries[k]).preview {
        Some(p) => !(p.transform is Zstd),
        None => true,
    } by {
        assert(after.previews.entries.len() == w.m.previews.entries.len());
        let before = w.m.previews.entries[k];
        match entry_index(w.m.previews.entries, bucket, key, 0) {
            Some(i) => {
                if k != i {
                    assert(after.previews.entries[k] == before);
                }
            },
            None => {},
        }
    }
}

/// A failed fetch never turns a preview into one of a zstd object.
proof fn lemma_failure_keeps_no_zstd(
    w: World,
    bucket: Seq<char>,
    key: Seq<char>,
    message: Seq<char>,
)
    requires
        w.m.no_zstd(),
    ensures
        w.preview_failed(bucket, key, message).m.no_zstd(),
{
    let after = w.preview_failed(bucket, key, message).m;
    lemma_entry_index(w.m.previews.entries, bucket, key, 0);
    assert forall|k: int| 0 <= k < after.previews.entries.len() implies match (
    #[trigger] after.previews.entries[k]).preview {
        Some(p) => !(p.transform is Zstd),
        None => true,
    } by {
        let before = w.m.previews.entries[k];
        match entry_index(w.m.previews.entries, bucket, key, 0) {
            Some(i) => {
                if k != i {
                    assert(after.previews.entries[k] == before);
                }
            },
            None => {},
        }
    }
}

impl BrowserModel {
    /// Returns the size listed for the file `key` in the current folder.
    fn listed_size(&self, key: &str) -> (r: i64)
        requires
            self.wf(),
        ensures
            r == self@.listed_size(key@),
    {
        match self.find_node(self.current_bucket.as_str(), self.current_prefix.as_str()) {
            Some(n) => {
                let objects = &self.nodes[n].objects;
                let ghost views = self.nodes@[n as int]@.objects;
                let mut i: usize = 0;
                while i < objects.len()
                    invariant
                        i <= objects@.len(),
                        views == objects.deep_view(),
                        self@.listed_size(key@) == first_file_size(views, key@, 0),
                        first_file_size(views, key@, 0) == first_file_size(views, key@, i as int),
                    decreases objects@.len() - i,
                {
                    proof {
                        assert(views[i as int] == objects@[i as int]@);
                    }
                    if !objects[i].is_folder && str_equals(objects[i].key.as_str(), key) {
                        return objects[i].size;
                    }
                    i += 1;
                }
                0
            },
            None => 0,
        }
    }

    /// Sets up the preview of an object of `total` bytes.
    fn create_preview(bucket: &str, key: &str, total: usize, downloading: bool) -> (r: Result<
        StreamingFilePreview,
        String,
    >)
        ensures
            compression_of(key@) != Compression::Zstd ==> r is Ok,
            r matches Ok(p) ==> {
                &&& p.wf()
                &&& p.spec_bucket() == bucket@
                &&& p.spec_key() == key@
                &&& p@ == new_preview(
                    total,
                    compression_of(key@),
                    if downloading {
                        StatusView::Downloading
                    } else {
                        StatusView::Prefetching
                    },
                )
            },
    {
        let compression = Compression::from_filename(key);
        match StreamingFilePreview::new(text_of(bucket), text_of(key), total, compression) {
            Ok(p) => {
                let mut p = p;
                if downloading {
                    p.set_downloading();
                }
                Ok(p)
            },
            Err(message) => Err(message),
        }
    }

    /// Adds an entry for an object to the cache of previews, and queues the
    /// creation of the scratch file of its preview and the deletion of the
    /// scratch file of the entry that gives way.
    fn add_entry(&mut self, bucket: &str, key: &str, preview: Option<StreamingFilePreview>)
        requires
            old(self).wf(),
            entry_index(old(self)@.previews.entries, bucket@, key@, 0) is None,
            preview matches Some(p) ==> p.wf() && p.spec_bucket() == bucket@ && p.spec_key()
                == key@,
        ensures
            final(self).wf(),
            final(self)@ == old(self)@.with_new_entry(
                bucket@,
                key@,
                match preview {
                    Some(p) => Some(p@),
                    None => None,
                },
            ),
    {
        let ghost before = self@.actions;
        let has_preview = match &preview {
            Some(_) => true,
            None => false,
        };
        if has_preview {
            self.push_action(ModelAction::CreateScratch { preview_id: self.previews.next_id });
        }
        proof {
            assert(self@.actions =~= before + create_actions(
                self.previews.next_id,
                has_preview,
            ));
        }
        let removed = self.previews.insert_entry(
            bucket,
            key,
            preview,
            self.selected_bucket.as_str(),
            self.selected_key.as_str(),
        );
        self.push_delete_actions(&removed);
    }

    /// Converts a listed size to a count of bytes.
    fn size_to_usize(size: i64) -> (r: usize)
        ensures
            r == size_as_usize(size),
    {
        if size < 0 {
            0
        } else if size as u64 > usize::MAX as u64 {
            usize::MAX
        } else {
            size as usize
        }
    }

    /// Selects a file for preview.
    ///
    /// The result is the one that [`World::select_file`] describes for some
    /// outcome of setting up the preview; setting it up fails for zstd
    /// objects only.
    pub fn select_file(&mut self, backend: &mut S3Backend, bucket: &str, key: &str)
        requires
            old(self).wf(),
            old(backend).wf(),
        ensures
            final(self).wf(),
            final(backend).wf(),
            exists|failure: Option<Seq<char>>|
                (failure is Some ==> compression_of(key@) == Compression::Zstd) && #[trigger] (World {
                    m: old(self)@,
                    b: old(backend)@,
                }).select_file(bucket@, key@, failure) == (World {
                    m: final(self)@,
                    b: final(backend)@,
                }),
    {
        let ghost start = World { m: self@, b: backend@ };
        if str_equals(self.selected_bucket.as_str(), bucket) && str_equals(
            self.selected_key.as_str(),
            key,
        ) {
            match self.previews.find(bucket, key) {
                Some(i) => {
                    self.previews.touch(i);
                    proof {
                        assert(start.select_file(bucket@, key@, None) == (World {
                            m: self@,
                            b: backend@,
                        }));
                    }
                    return ;
                },
                None => {},
            }
        }
        self.cancel_streaming_download(backend);
        let size = self.listed_size(key);
        let supported = is_preview_supported(key);
        self.selected_bucket = text_of(bucket);
        self.selected_key = text_of(key);
        self.preview_error = String::new();
        self.preview_supported = supported;
        self.selected_file_size = size;
        match self.previews.find(bucket, key) {
            Some(i) => {
                proof {
                    assert(self@.previews.entries[i as int] == self.previews.entries@[i as int]@);
                    assert(self.previews.entries@[i as int].wf());
                }
                let prefetching = match &self.previews.entries[i].preview {
                    Some(p) => match p.status() {
                        StreamingStatus::Prefetching => true,
                        _ => false,
                    },
                    None => false,
                };
                let waiting = supported && prefetching;
                self.previews.touch(i);
                self.preview_loading = waiting;
                if waiting {
                    backend.prioritize_object_request(bucket, key);
                }
                proof {
                    assert(start.select_file(bucket@, key@, None) == (World {
                        m: self@,
                        b: backend@,
                    }));
                }
            },
            None => {
                if !supported {
                    self.preview_loading = false;
                    self.add_entry(bucket, key, None);
                    proof {
                        assert(start.select_file(bucket@, key@, None) == (World {
                            m: self@,
                            b: backend@,
                        }));
                    }
                    return ;
                }
                let total = BrowserModel::size_to_usize(size);
                match BrowserModel::create_preview(bucket, key, total, true) {
                    Err(message) => {
                        self.preview_loading = false;
                        proof {
                            assert(start.select_file(bucket@, key@, Some(message@)) == (World {
                                m: (ModelView { preview_error: message@, ..self@ }),
                                b: backend@,
                            }));
                        }
                        self.preview_error = message;
                    },
                    Ok(preview) => {
                        let flag = backend.new_cancel_flag();
                        self.preview_loading = true;
                        self.streaming_cancel_flag = Some(flag);
                        self.streaming_enabled = true;
                        self.add_entry(bucket, key, Some(preview));
                        backend.get_object_streaming(bucket, key, 0, total, Some(flag));
                        proof {
                            assert(start.select_file(bucket@, key@, None) == (World {
                                m: self@,
                                b: backend@,
                            }));
                        }
                    },
                }
            },
        }
    }

    /// Prefetches the preview of the file under the pointer.
    ///
    /// The result is the one that [`World::prefetch_file_preview`] describes
    /// for some outcome of setting up the preview.
    pub fn prefetch_file_preview(&mut self, backend: &mut S3Backend, bucket: &str, key: &str)
        requires
            old(self).wf(),
            old(backend).wf(),
        ensures
            final(self).wf(),
            final(backend).wf(),
            exists|failure: Option<Seq<char>>|
                (failure is Some ==> compression_of(key@) == Compression::Zstd) && #[trigger] (World {
                    m: old(self)@,
                    b: old(backend)@,
                }).prefetch_file_preview(bucket@, key@, failure) == (World {
                    m: final(self)@,
                    b: final(backend)@,
                }),
    {
        let ghost start = World { m: self@, b: backend@ };
        let cache_key = make_node_key(bucket, key);
        let selected = str_equals(self.selected_bucket.as_str(), bucket) && str_equals(
            self.selected_key.as_str(),
            key,
        );
        if !is_preview_supported(key) || self.previews.find(bucket, key).is_some() || selected
            || str_equals(self.last_hovered_file.as_str(), cache_key.as_str()) {
            proof {
                assert(start.prefetch_file_preview(bucket@, key@, None) == start);
            }
            return ;
        }
        let total = BrowserModel::size_to_usize(self.listed_size(key));
        self.last_hovered_file = cache_key;
        match BrowserModel::create_preview(bucket, key, total, false) {
            Err(message) => {
                proof {
                    assert(start.prefetch_file_preview(bucket@, key@, Some(message@)) == (World {
                        m: self@,
                        b: backend@,
                    }));
                }
            },
            Ok(preview) => {
                self.add_entry(bucket, key, Some(preview));
                backend.get_object(bucket, key, Some(PREFETCH_BYTES as usize), true, true);
                proof {
                    assert(start.prefetch_file_preview(bucket@, key@, None) == (World {
                        m: self@,
                        b: backend@,
                    }));
                }
            },
        }
    }

    /// The cache stays consistent when the preview of entry `i` changes and
    /// stays a consistent preview of the same object.
    proof fn lemma_preview_updated(before: &BrowserModel, after: &BrowserModel, i: int)
        requires
            before.wf(),
            0 <= i < before.previews.entries@.len(),
            after.previews.entries@.len() == before.previews.entries@.len(),
            after.node_keys == before.node_keys,
            after.nodes == before.nodes,
            forall|j: int|
                0 <= j < before.previews.entries@.len() && j != i
                    ==> after.previews.entries@[j] == before.previews.entries@[j],
            after.previews.entries@[i].bucket == before.previews.entries@[i].bucket,
            after.previews.entries@[i].key == before.previews.entries@[i].key,
            after.previews.entries@[i].wf(),
        ensures
            after.wf(),
    {
        assert forall|a: int, b: int|
            0 <= a < after.previews@.entries.len() && 0 <= b < after.previews@.entries.len() && a
                != b implies !(after.previews@.entries[a].bucket
            == after.previews@.entries[b].bucket && after.previews@.entries[a].key
            == after.previews@.entries[b].key) by {
            assert(after.previews@.entries[a].bucket == before.previews@.entries[a].bucket);
            assert(after.previews@.entries[a].key == before.previews@.entries[a].key);
            assert(after.previews@.entries[b].bucket == before.previews@.entries[b].bucket);
            assert(after.previews@.entries[b].key == before.previews@.entries[b].key);
        }
        assert forall|k: int| 0 <= k < after.previews.entries@.len() implies (
        #[trigger] after.previews.entries@[k]).wf() by {
            if k != i {
                assert(before.previews.entries@[k].wf());
            }
        }
    }

    /// Asks for the rest of the selected object, where the first range of
    /// its preview has arrived.
    pub fn continue_download(&mut self, backend: &mut S3Backend)
        requires
            old(self).wf(),
            old(backend).wf(),
        ensures
            final(self).wf(),
            final(backend).wf(),
            (World { m: final(self)@, b: final(backend)@ }) == (World {
                m: old(self)@,
                b: old(backend)@,
            }).continue_download(),
    {
        let i = match self.previews.find(
            self.selected_bucket.as_str(),
            self.selected_key.as_str(),
        ) {
            Some(i) => i,
            None => {
                return ;
            },
        };
        proof {
            assert(self@.previews.entries[i as int] == self.previews.entries@[i as int]@);
            assert(self.previews.entries@[i as int].wf());
        }
        let ready = match &self.previews.entries[i].preview {
            Some(p) => match p.status() {
                StreamingStatus::PrefetchReady => true,
                _ => false,
            },
            None => false,
        };
        if !ready {
            return ;
        }
        self.cancel_streaming_download(backend);
        let flag = backend.new_cancel_flag();
        self.streaming_cancel_flag = Some(flag);
        self.streaming_enabled = true;
        let ghost before = *self;
        let mut start_byte: usize = 0;
        let mut total: usize = 0;
        match &mut self.previews.entries[i].preview {
            Some(p) => {
                p.set_downloading();
                start_byte = p.source_bytes();
                total = p.total_source_bytes();
            },
            None => {},
        }
        proof {
            BrowserModel::lemma_preview_updated(&before, self, i as int);
        }
        self.previews.touch(i);
        let bucket = self.selected_bucket.clone();
        let key = self.selected_key.clone();
        backend.get_object_streaming(bucket.as_str(), key.as_str(), start_byte, total, Some(flag));
        proof {
            let p = old(self)@.previews.entries[i as int].preview.unwrap();
            assert(self@.previews.entries =~= (old(self)@.with_preview(
                i as int,
                PreviewState { status: StatusView::Downloading, ..p },
            )).previews.entries);
        }
    }

    /// Queues an action.
    fn push_action(&mut self, action: ModelAction)
        requires
            old(self).wf(),
        ensures
            final(self).wf(),
            final(self)@ == (ModelView {
                actions: old(self)@.actions.push(action@),
                ..old(self)@
            }),
    {
        proof {
            lemma_deep_view_push(self.actions@, self.actions@.push(action), action);
        }
        self.actions.push(action);
    }

    /// Feeds bytes that have arrived to the preview of entry `i` of the
    /// cache, which counts as accessed.
    fn feed_entry(&mut self, i: usize, data: &[u8], offset: usize, first_range: bool) -> (r: Option<
        (usize, AppendOutcome),
    >)
        requires
            old(self).wf(),
            i < old(self)@.previews.entries.len(),
        ensures
            final(self).wf(),
            final(self)@ == (ModelView { previews: final(self)@.previews, ..old(self)@ }),
            match old(self)@.previews.entries[i as int].preview {
                None => r is None && final(self)@.previews == old(self)@.previews.touched(
                    i as int,
                ),
                Some(p) => r matches Some((at, outcome)) && at == p.content.len() && exists|
                    decoded: Decoded,
                |
                    {
                        let step = #[trigger] fed_as(
                            p,
                            data@,
                            offset as nat,
                            first_range,
                            decoded,
                        );
                        outcome@ == step.1 && final(self)@.previews == old(self)@.with_preview(
                            i as int,
                            step.0,
                        ).previews
                    },
            },
    {
        proof {
            assert(self@.previews.entries[i as int] == self.previews.entries@[i as int]@);
            assert(self.previews.entries@[i as int].wf());
        }
        let ghost before = *self;
        let outcome = self.previews.entries[i].feed(data, offset, first_range);
        proof {
            BrowserModel::lemma_preview_updated(&before, self, i as int);
        }
        let ghost fed = self.previews@;
        self.previews.touch(i);
        proof {
            match old(self)@.previews.entries[i as int].preview {
                None => {
                    assert(fed.entries =~= old(self)@.previews.entries);
                },
                Some(p) => {
                    let q = fed.entries[i as int].preview->0;
                    let result = fed_result(outcome);
                    let decoded = choose|decoded: Decoded|
                        (q, result) == #[trigger] fed_as(
                            p,
                            data@,
                            offset as nat,
                            first_range,
                            decoded,
                        );
                    assert(fed.entries =~= old(self)@.previews.entries.update(
                        i as int,
                        PreviewEntryView {
                            preview: Some(q),
                            ..old(self)@.previews.entries[i as int]
                        },
                    ));
                    assert(self@.previews == old(self)@.with_preview(
                        i as int,
                        fed_as(p, data@, offset as nat, first_range, decoded).0,
                    ).previews);
                },
            }
        }
        outcome
    }

    /// Marks the loading of the selected object's preview as over.
    fn show_loaded(&mut self, clear_error: bool)
        requires
            old(self).wf(),
        ensures
            final(self).wf(),
            final(self)@ == (ModelView {
                preview_loading: false,
                preview_error: if clear_error {
                    Seq::empty()
                } else {
                    old(self)@.preview_error
                },
                ..old(self)@
            }),
    {
        self.preview_loading = false;
        if clear_error {
            self.preview_error = String::new();
        }
    }

    /// Shows a failure of the selected object's preview.
    fn show_error(&mut self, message: String)
        requires
            old(self).wf(),
        ensures
            final(self).wf(),
            final(self)@ == (ModelView { preview_error: message@, ..old(self)@ }),
    {
        self.preview_error = message;
    }

    /// Feeds bytes that have arrived to the preview of their object.
    fn feed_preview(
        &mut self,
        backend: &S3Backend,
        bucket: &str,
        key: &str,
        data: &[u8],
        offset: usize,
        first_range: bool,
    )
        requires
            old(self).wf(),
        ensures
            final(self).wf(),
            exists|decoded: Decoded|
                (World { m: final(self)@, b: backend@ }) == #[trigger] (World {
                    m: old(self)@,
                    b: backend@,
                }).bytes_loaded_as(bucket@, key@, data@, offset as nat, first_range, decoded),
    {
        let ghost start = World { m: self@, b: backend@ };
        let selected = str_equals(self.selected_bucket.as_str(), bucket) && str_equals(
            self.selected_key.as_str(),
            key,
        );
        if selected {
            self.show_loaded(first_range);
        }
        let i = match self.previews.find(bucket, key) {
            Some(i) => i,
            None => {
                proof {
                    assert((World { m: self@, b: backend@ }) == start.bytes_loaded_as(
                        bucket@,
                        key@,
                        data@,
                        offset as nat,
                        first_range,
                        quiet(),
                    ));
                }
                return ;
            },
        };
        let id = self.previews.entries[i].id;
        proof {
            assert(self@.previews.entries[i as int] == self.previews.entries@[i as int]@);
        }
        let ghost shown = self@;
        let outcome = self.feed_entry(i, data, offset, first_range);
        let ghost result = fed_result(outcome);
        let ghost decoded = match shown.previews.entries[i as int].preview {
            Some(p) => choose|decoded: Decoded|
                {
                    let step = #[trigger] fed_as(p, data@, offset as nat, first_range, decoded);
                    result == step.1 && self@.previews == shown.with_preview(
                        i as int,
                        step.0,
                    ).previews
                },
            None => quiet(),
        };
        match outcome {
            Some((at, AppendOutcome::Written(bytes))) => {
                self.push_action(
                    ModelAction::WriteScratch { preview_id: id, offset: at, data: bytes },
                );
            },
            Some((_, AppendOutcome::Failed(message))) => {
                if selected {
                    self.show_error(message);
                }
            },
            _ => {},
        }
        proof {
            assert((World { m: self@, b: backend@ }) == start.bytes_loaded_as(
                bucket@,
                key@,
                data@,
                offset as nat,
                first_range,
                decoded,
            ));
        }
    }

    /// Fails the preview of an object whose fetch has failed.
    fn fail_preview(&mut self, backend: &S3Backend, bucket: &str, key: &str, message: String)
        requires
            old(self).wf(),
        ensures
            final(self).wf(),
            (World { m: final(self)@, b: backend@ }) == (World {
                m: old(self)@,
                b: backend@,
            }).preview_failed(bucket@, key@, message@),
    {
        let selected = str_equals(self.selected_bucket.as_str(), bucket) && str_equals(
            self.selected_key.as_str(),
            key,
        );
        if selected {
            self.preview_loading = false;
            self.preview_error = message.clone();
        }
        let i = match self.previews.find(bucket, key) {
            Some(i) => i,
            None => {
                return ;
            },
        };
        proof {
            assert(self@.previews.entries[i as int] == self.previews.entries@[i as int]@);
            assert(self.previews.entries@[i as int].wf());
        }
        let ghost before = *self;
        match &mut self.previews.entries[i].preview {
            Some(p) => {
                p.fail(message);
            },
            None => {},
        }
        proof {
            BrowserModel::lemma_preview_updated(&before, self, i as int);
            let spec_world = (World { m: old(self)@, b: backend@ }).preview_failed(
                bucket@,
                key@,
                message@,
            );
            assert(self@.previews.entries =~= spec_world.m.previews.entries);
        }
    }

    /// Takes a page of a listing into the node of its folder.
    fn apply_objects_loaded(
        &mut self,
        backend: &mut S3Backend,
        bucket: String,
        prefix: String,
        continuation_token: String,
        objects: Vec<S3Object>,
        next_continuation_token: String,
        is_truncated: bool,
    )
        requires
            old(self).wf(),
            old(backend).wf(),
        ensures
            final(self).wf(),
            final(backend).wf(),
            (World { m: final(self)@, b: final(backend)@ }) == (World {
                m: old(self)@,
                b: old(backend)@,
            }).objects_loaded(
                bucket@,
                prefix@,
                continuation_token@,
                objects.deep_view(),
                next_continuation_token@,
                is_truncated,
            ),
    {
        let current = str_equals(bucket.as_str(), self.current_bucket.as_str()) && str_equals(
            prefix.as_str(),
            self.current_prefix.as_str(),
        );
        let i = self.get_or_create_node(bucket.as_str(), prefix.as_str());
        let ghost created = *self;
        let ghost node = self.nodes@[i as int]@;
        let first_page = continuation_token.as_str().is_empty();
        merge_objects(&mut self.nodes[i].objects, objects, continuation_token.as_str());
        self.nodes[i].next_continuation_token = next_continuation_token;
        self.nodes[i].is_truncated = is_truncated;
        self.nodes[i].loading = false;
        self.nodes[i].loaded = true;
        self.nodes[i].error = String::new();
        proof {
            BrowserModel::lemma_node_updated(&created, self, i as int);
            assert(self@.nodes =~= old(self)@.nodes.insert(
                node_key(bucket@, prefix@),
                FolderNodeView {
                    objects: merged_objects(
                        node.objects,
                        objects.deep_view(),
                        continuation_token@,
                    ),
                    next_continuation_token: next_continuation_token@,
                    is_truncated,
                    loading: false,
                    loaded: true,
                    error: Seq::empty(),
                    ..node
                },
            ));
        }
        if current {
            if is_truncated {
                self.load_more(backend, bucket.as_str(), prefix.as_str());
            }
            if first_page {
                match self.find_node(bucket.as_str(), prefix.as_str()) {
                    Some(n) => {
                        self.trigger_prefetch(backend, bucket.as_str(), n);
                    },
                    None => {
                        proof {
                            assert(false);
                        }
                    },
                }
            }
        }
    }

    /// Records the failure of a listing in the node of its folder.
    fn apply_objects_error(
        &mut self,
        backend: &S3Backend,
        bucket: String,
        prefix: String,
        error_message: String,
    )
        requires
            old(self).wf(),
        ensures
            final(self).wf(),
            (World { m: final(self)@, b: backend@ }) == (World {
                m: old(self)@,
                b: backend@,
            }).apply_event(
                (StateEventView::ObjectsLoadError {
                    bucket: bucket@,
                    prefix: prefix@,
                    error_message: error_message@,
                }),
            ),
    {
        let i = self.get_or_create_node(bucket.as_str(), prefix.as_str());
        let ghost created = *self;
        let ghost node = self.nodes@[i as int]@;
        self.nodes[i].loading = false;
        self.nodes[i].error = error_message;
        proof {
            BrowserModel::lemma_node_updated(&created, self, i as int);
            assert(self@.nodes =~= old(self)@.nodes.insert(
                node_key(bucket@, prefix@),
                FolderNodeView { loading: false, error: error_message@, ..node },
            ));
        }
    }

    /// Applies one event of the engine.
    pub fn apply_event(&mut self, backend: &mut S3Backend, event: StateEvent)
        requires
            old(self).wf(),
            old(backend).wf(),
        ensures
            final(self).wf(),
            final(backend).wf(),
            exists|decoded: Decoded|
                (World { m: final(self)@, b: final(backend)@ }) == #[trigger] (World {
                    m: old(self)@,
                    b: old(backend)@,
                }).apply_event_as(event@, decoded),
            old(self)@.no_zstd() ==> (World { m: final(self)@, b: final(backend)@ }) == (World {
                m: old(self)@,
                b: old(backend)@,
            }).apply_event(event@),
    {
        let ghost start = World { m: self@, b: backend@ };
        let ghost applied = event@;
        let ghost mut decoded = quiet();
        match event {
            StateEvent::BucketsLoaded { buckets } => {
                self.buckets = buckets;
                self.buckets_loading = false;
                self.buckets_error = String::new();
            },
            StateEvent::BucketsLoadError { error_message } => {
                self.buckets_loading = false;
                self.buckets_error = error_message;
            },
            StateEvent::ObjectsLoaded {
                bucket,
                prefix,
                continuation_token,
                objects,
                next_continuation_token,
                is_truncated,
            } => {
                self.apply_objects_loaded(
                    backend,
                    bucket,
                    prefix,
                    continuation_token,
                    objects,
                    next_continuation_token,
                    is_truncated,
                );
            },
            StateEvent::ObjectsLoadError { bucket, prefix, error_message } => {
                self.apply_objects_error(backend, bucket, prefix, error_message);
            },
            StateEvent::ObjectContentLoaded { bucket, key, content } => {
                self.feed_preview(backend, bucket.as_str(), key.as_str(), content.as_slice(), 0, true);
                proof {
                    decoded = choose|decoded: Decoded|
                        (World { m: self@, b: backend@ }) == #[trigger] start.bytes_loaded_as(
                            bucket@,
                            key@,
                            content@,
                            0,
                            true,
                            decoded,
                        );
                }
            },
            StateEvent::ObjectContentLoadError { bucket, key, error_message } => {
                self.fail_preview(backend, bucket.as_str(), key.as_str(), error_message);
            },
            StateEvent::ObjectRangeLoaded { bucket, key, start_byte, total_size, data } => {
                self.feed_preview(
                    backend,
                    bucket.as_str(),
                    key.as_str(),
                    data.as_slice(),
                    start_byte,
                    false,
                );
                proof {
                    decoded = choose|decoded: Decoded|
                        (World { m: self@, b: backend@ }) == #[trigger] start.bytes_loaded_as(
                            bucket@,
                            key@,
                            data@,
                            start_byte as nat,
                            false,
                            decoded,
                        );
                }
            },
            StateEvent::ObjectRangeLoadError { bucket, key, start_byte, error_message } => {
                self.fail_preview(backend, bucket.as_str(), key.as_str(), error_message);
            },
        }
        proof {
            assert((World { m: self@, b: backend@ }) == start.apply_event_as(applied, decoded));
            if start.m.no_zstd() {
                lemma_known_transforms(start, applied, decoded);
            }
        }
    }

    /// Takes the pending events from the engine and applies them in order.
    /// Returns whether there were any.
    pub fn process_events(&mut self, backend: &mut S3Backend) -> (any: bool)
        requires
            old(self).wf(),
            old(backend).wf(),
        ensures
            final(self).wf(),
            final(backend).wf(),
            any == (old(backend)@.events.len() > 0),
            exists|decoded: Seq<Decoded>|
                decoded.len() == old(backend)@.events.len() && (World {
                    m: final(self)@,
                    b: final(backend)@,
                }) == #[trigger] (World {
                    m: old(self)@,
                    b: old(backend)@,
                }).drained().apply_events_as(
                    old(backend)@.events,
                    decoded,
                    old(backend)@.events.len() as int,
                ),
            old(self)@.no_zstd() ==> (World { m: final(self)@, b: final(backend)@ }) == (World {
                m: old(self)@,
                b: old(backend)@,
            }).drained().apply_events(old(backend)@.events, old(backend)@.events.len() as int),
    {
        let mut events = backend.take_events();
        let any = events.len() > 0;
        let ghost all = events.deep_view();
        let ghost start = World { m: self@, b: backend@ };
        let ghost mut done: int = 0;
        let ghost mut decoded: Seq<Decoded> = Seq::empty();
        while events.len() > 0
            invariant
                self.wf(),
                backend.wf(),
                0 <= done <= all.len(),
                events.deep_view() == all.skip(done),
                decoded.len() == done,
                (World { m: self@, b: backend@ }) == start.apply_events_as(all, decoded, done),
                start.m.no_zstd() ==> self@.no_zstd() && (World { m: self@, b: backend@ })
                    == start.apply_events(all, done),
            decreases events@.len(),
        {
            let ghost remaining = events@;
            let ghost before = World { m: self@, b: backend@ };
            proof {
                assert(all.skip(done).len() == events@.len());
            }
            let event = events.remove(0);
            proof {
                assert(event@ == all.skip(done)[0]);
                assert(events@ =~= remaining.subrange(1, remaining.len() as int));
                crate::events::lemma_deep_view_subrange(remaining, 1, remaining.len() as int);
                assert(all.skip(done).subrange(1, remaining.len() as int) =~= all.skip(done + 1));
                if start.m.no_zstd() {
                    lemma_event_keeps_no_zstd(before, event@);
                }
            }
            self.apply_event(backend, event);
            proof {
                let next = choose|next: Decoded|
                    (World { m: self@, b: backend@ }) == #[trigger] before.apply_event_as(
                        all[done],
                        next,
                    );
                lemma_events_applied(start, all, decoded, decoded.push(next), done);
                decoded = decoded.push(next);
                done = done + 1;
            }
        }
        proof {
            assert(all.skip(done).len() == 0);
        }
        any
    }
}

impl BrowserModel {
    /// Whether the current path is the root, above all buckets.
    pub fn is_at_root(&self) -> (r: bool)
        ensures
            r == (self@.current_bucket.len() == 0),
    {
        self.current_bucket.as_str().is_empty()
    }

    /// Whether a file is selected.
    pub fn has_selection(&self) -> (r: bool)
        ensures
            r == (self@.selected_key.len() > 0),
    {
        !self.selected_key.as_str().is_empty()
    }

    /// Returns the bucket of the selected file.
    pub fn selected_bucket(&self) -> (r: &str)
        ensures
            r@ == self@.selected_bucket,
    {
        self.selected_bucket.as_str()
    }

    /// Returns the key of the selected file.
    pub fn selected_key(&self) -> (r: &str)
        ensures
            r@ == self@.selected_key,
    {
        self.selected_key.as_str()
    }

    /// Returns the size listed for the selected file.
    pub fn selected_file_size(&self) -> (r: i64)
        ensures
            r == self@.selected_file_size,
    {
        self.selected_file_size
    }

    /// Whether the preview of the selected file is being loaded.
    pub fn preview_loading(&self) -> (r: bool)
        ensures
            r == self@.preview_loading,
    {
        self.preview_loading
    }

    /// Whether the selected file is of a kind that can be previewed.
    pub fn preview_supported(&self) -> (r: bool)
        ensures
            r == self@.preview_supported,
    {
        self.preview_supported
    }

    /// Returns the failure of the selected file's preview; empty for none.
    pub fn preview_error(&self) -> (r: &str)
        ensures
            r@ == self@.preview_error,
    {
        self.preview_error.as_str()
    }

    /// Whether a streaming download of the selected file is under way.
    pub fn is_streaming_enabled(&self) -> (r: bool)
        ensures
            r == self@.streaming_enabled,
    {
        self.streaming_enabled
    }

    /// Returns the entry of the selected file in the cache of previews.
    pub fn selected_entry(&self) -> (r: Option<&PreviewEntry>)
        ensures
            match r {
                Some(entry) => entry_index(
                    self@.previews.entries,
                    self@.selected_bucket,
                    self@.selected_key,
                    0,
                ) matches Some(i) && entry@ == self@.previews.entries[i],
                None => entry_index(
                    self@.previews.entries,
                    self@.selected_bucket,
                    self@.selected_key,
                    0,
                ) is None,
            },
    {
        match self.previews.find(self.selected_bucket.as_str(), self.selected_key.as_str()) {
            Some(i) => {
                proof {
                    assert(self@.previews.entries[i as int] == self.previews.entries@[i as int]@);
                }
                Some(&self.previews.entries[i])
            },
            None => None,
        }
    }

    /// Returns the streaming preview of the selected file.
    pub fn streaming_preview(&self) -> (r: Option<&StreamingFilePreview>)
        ensures
            r matches Some(p) ==> entry_index(
                self@.previews.entries,
                self@.selected_bucket,
                self@.selected_key,
                0,
            ) matches Some(i) && self@.previews.entries[i].preview == Some(p@),
            r is None ==> match entry_index(
                self@.previews.entries,
                self@.selected_bucket,
                self@.selected_key,
                0,
            ) {
                Some(i) => self@.previews.entries[i].preview is None,
                None => true,
            },
    {
        match self.selected_entry() {
            Some(entry) => match &entry.preview {
                Some(p) => Some(p),
                None => None,
            },
            None => None,
        }
    }

    /// Whether the selected file has a streaming preview.
    pub fn has_streaming_preview(&self) -> (r: bool)
        ensures
            r == match entry_index(
                self@.previews.entries,
                self@.selected_bucket,
                self@.selected_key,
                0,
            ) {
                Some(i) => self@.previews.entries[i].preview is Some,
                None => false,
            },
    {
        self.streaming_preview().is_some()
    }

    /// Returns the number of previews in the cache.
    pub fn preview_count(&self) -> (r: usize)
        requires
            self.wf(),
        ensures
            r == self@.previews.entries.len(),
            r <= MAX_PREVIEWS,
    {
        self.previews.entries.len()
    }

    /// Returns the buckets that are known.
    pub fn buckets(&self) -> (r: &Vec<S3Bucket>)
        ensures
            r.deep_view() == self@.buckets,
    {
        &self.buckets
    }

    /// Whether the buckets are being listed.
    pub fn buckets_loading(&self) -> (r: bool)
        ensures
            r == self@.buckets_loading,
    {
        self.buckets_loading
    }

    /// Returns the failure of the bucket listing; empty for none.
    pub fn buckets_error(&self) -> (r: &str)
        ensures
            r@ == self@.buckets_error,
    {
        self.buckets_error.as_str()
    }

    /// Returns the node of a folder, where the folder has one.
    pub fn get_node(&self, bucket: &str, prefix: &str) -> (r: Option<&FolderNode>)
        requires
            self.wf(),
        ensures
            match r {
                Some(node) => self@.nodes.dom().contains(node_key(bucket@, prefix@))
                    && self@.nodes[node_key(bucket@, prefix@)] == node@,
                None => !self@.nodes.dom().contains(node_key(bucket@, prefix@)),
            },
    {
        match self.find_node(bucket, prefix) {
            Some(i) => Some(&self.nodes[i]),
            None => None,
        }
    }

    /// Builds the view of a folder's node anew where the number of its
    /// objects has changed: folders first, then files.
    pub fn rebuild_sorted_view(&mut self, bucket: &str, prefix: &str)
        requires
            old(self).wf(),
        ensures
            final(self).wf(),
            final(self)@ == if old(self)@.nodes.dom().contains(node_key(bucket@, prefix@)) {
                let node = old(self)@.nodes[node_key(bucket@, prefix@)];
                old(self)@.with_node(
                    bucket@,
                    prefix@,
                    if node.cached_objects_size == node.objects.len() {
                        node
                    } else {
                        node.with_sorted_view()
                    },
                )
            } else {
                old(self)@
            },
    {
        match self.find_node(bucket, prefix) {
            Some(i) => {
                let ghost before = *self;
                self.nodes[i].rebuild_sorted_view_if_needed();
                proof {
                    BrowserModel::lemma_node_updated(&before, self, i as int);
                }
            },
            None => {},
        }
    }

    /// Returns the bucket of the current path.
    pub fn current_bucket(&self) -> (r: &str)
        ensures
            r@ == self@.current_bucket,
    {
        self.current_bucket.as_str()
    }

    /// Returns the prefix of the current path.
    pub fn current_prefix(&self) -> (r: &str)
        ensures
            r@ == self@.current_prefix,
    {
        self.current_prefix.as_str()
    }

    /// Returns the index of the selected profile.
    pub fn selected_profile_index(&self) -> (r: usize)
        ensures
            r == self@.selected_profile_idx,
    {
        self.selected_profile_idx
    }

    /// Returns the profiles that are known.
    pub fn profiles(&self) -> (r: &Vec<AWSProfile>)
        ensures
            r.deep_view() == self@.profiles,
    {
        &self.profiles
    }

    /// Replaces the settings.
    pub fn set_settings(&mut self, settings: AppSettings)
        requires
            old(self).wf(),
        ensures
            final(self).wf(),
            final(self)@ == (ModelView { settings: settings@, ..old(self)@ }),
    {
        self.settings = settings;
    }
}

} // verus!
