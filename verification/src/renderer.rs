//! Which renderer shows the preview of an object.

use vstd::prelude::*;
use crate::events::lemma_deep_view_push;
use crate::model::{make_preview_cache_key, node_key};
use crate::text::{
    chars_of, ends_with, position_of, str_equals, text_of, to_lowercase, unicode_lowercase,
};

verus! {

/// The renderers of previews.
#[derive(Clone, Copy, PartialEq, Eq, Structural, Debug)]
pub enum RendererKind {
    /// One JSON document per line, shown line by line.
    Jsonl,
    /// An image.
    Image,
    /// Plain text: the renderer of last resort.
    Text,
}

/// Whether a lowercased key has the extension of a file of JSON lines, also
/// behind the extension of a compression.
pub open spec fn is_jsonl_name(lower: Seq<char>) -> bool {
    ||| ".jsonl"@.is_suffix_of(lower)
    ||| ".ndjson"@.is_suffix_of(lower)
    ||| ".jsonl.gz"@.is_suffix_of(lower)
    ||| ".jsonl.zst"@.is_suffix_of(lower)
    ||| ".jsonl.zstd"@.is_suffix_of(lower)
    ||| ".ndjson.gz"@.is_suffix_of(lower)
    ||| ".ndjson.zst"@.is_suffix_of(lower)
    ||| ".ndjson.zstd"@.is_suffix_of(lower)
}

/// Whether a lowercased key has the extension of an image.
pub open spec fn is_image_name(lower: Seq<char>) -> bool {
    ||| ".png"@.is_suffix_of(lower)
    ||| ".jpg"@.is_suffix_of(lower)
    ||| ".jpeg"@.is_suffix_of(lower)
    ||| ".gif"@.is_suffix_of(lower)
    ||| ".bmp"@.is_suffix_of(lower)
}

/// The renderer for a lowercased key: the first that can handle it, of JSON
/// lines, image and text. `jsonl_failed` tells that the object has been
/// found not to hold JSON lines.
pub open spec fn renderer_of(lower: Seq<char>, jsonl_failed: bool) -> RendererKind {
    if is_jsonl_name(lower) && !jsonl_failed {
        RendererKind::Jsonl
    } else if is_image_name(lower) {
        RendererKind::Image
    } else {
        RendererKind::Text
    }
}

/// Tests whether a lowercased key names a file of JSON lines.
pub fn jsonl_name(lower: &str) -> (r: bool)
    ensures
        r == is_jsonl_name(lower@),
{
    let l = chars_of(lower);
    let s = l.as_slice();
    ends_with(s, ".jsonl") || ends_with(s, ".ndjson") || ends_with(s, ".jsonl.gz") || ends_with(
        s,
        ".jsonl.zst",
    ) || ends_with(s, ".jsonl.zstd") || ends_with(s, ".ndjson.gz") || ends_with(s, ".ndjson.zst")
        || ends_with(s, ".ndjson.zstd")
}

/// Tests whether a lowercased key names an image.
pub fn image_name(lower: &str) -> (r: bool)
    ensures
        r == is_image_name(lower@),
{
    let l = chars_of(lower);
    let s = l.as_slice();
    ends_with(s, ".png") || ends_with(s, ".jpg") || ends_with(s, ".jpeg") || ends_with(s, ".gif")
        || ends_with(s, ".bmp")
}

/// Chooses the renderer for the preview of an object.
pub fn choose_renderer(key: &str, jsonl_failed: bool) -> (r: RendererKind)
    ensures
        r == renderer_of(unicode_lowercase(key@), jsonl_failed),
{
    let lower = to_lowercase(key);
    if jsonl_name(lower.as_str()) && !jsonl_failed {
        RendererKind::Jsonl
    } else if image_name(lower.as_str()) {
        RendererKind::Image
    } else {
        RendererKind::Text
    }
}

/// What every renderer of previews answers.
pub trait PreviewRenderer {
    /// Whether the renderer can show the object with this key.
    spec fn handles(&self, key: Seq<char>) -> bool;

    /// Whether the renderer has found that it cannot show this object after
    /// all, so that the next renderer is to be asked.
    spec fn gives_up(&self, bucket: Seq<char>, key: Seq<char>) -> bool;

    /// Tells whether the renderer can show the object with this key.
    fn can_handle(&self, key: &str) -> (r: bool)
        ensures
            r == self.handles(key@),
    ;

    /// Forgets the object that is shown. What the renderer has found out
    /// about objects stays.
    fn reset(&mut self)
        ensures
            forall|key: Seq<char>| final(self).handles(key) == old(self).handles(key),
            forall|bucket: Seq<char>, key: Seq<char>|
                final(self).gives_up(bucket, key) == old(self).gives_up(bucket, key),
    ;

    /// Tells whether the next renderer is to show this object.
    fn wants_fallback(&self, bucket: &str, key: &str) -> (r: bool)
        ensures
            r == self.gives_up(bucket@, key@),
    ;
}

/// Whether `text` is one JSON document, as `serde_json::from_str` reads it
/// into a `serde_json::Value`.
pub uninterp spec fn json_document(text: Seq<char>) -> bool;

/// Calls `serde_json::from_str` for a `serde_json::Value` and tells whether
/// it succeeded. The answer is named: it depends on the text alone.
#[verifier::external_body]
pub(crate) fn parses_as_json(text: &str) -> (r: bool)
    ensures
        r == json_document(text@),
{
    serde_json::from_str::<serde_json::Value>(text).is_ok()
}

/// Shows a file of JSON lines one line at a time. Remembers the objects
/// whose lines turned out not to be JSON.
pub struct JsonlPreviewRenderer {
    current_key: String,
    current_line: usize,
    not_jsonl: Vec<String>,
}

/// The mathematical value of a [`JsonlPreviewRenderer`].
pub ghost struct JsonlRendererView {
    /// The key of the object that is shown; empty for none.
    pub current_key: Seq<char>,
    /// The index of the line that is shown.
    pub current_line: nat,
    /// The objects found not to hold JSON lines, each as bucket, a slash and
    /// the key.
    pub not_jsonl: Seq<Seq<char>>,
}

impl View for JsonlPreviewRenderer {
    type V = JsonlRendererView;

    closed spec fn view(&self) -> JsonlRendererView {
        JsonlRendererView {
            current_key: self.current_key@,
            current_line: self.current_line as nat,
            not_jsonl: self.not_jsonl.deep_view(),
        }
    }
}

impl JsonlRendererView {
    /// The renderer with `key` as the object that is shown: another object
    /// than before is shown from its first line.
    pub open spec fn showing(self, key: Seq<char>) -> JsonlRendererView {
        if self.current_key == key {
            self
        } else {
            JsonlRendererView { current_key: key, current_line: 0, ..self }
        }
    }

    /// The renderer one line back, where there is one.
    pub open spec fn back(self) -> JsonlRendererView {
        if self.current_line > 0 {
            JsonlRendererView { current_line: (self.current_line - 1) as nat, ..self }
        } else {
            self
        }
    }

    /// The renderer one line on, where the object has another line.
    pub open spec fn forward(self, line_count: nat) -> JsonlRendererView {
        if self.current_line + 1 < line_count {
            JsonlRendererView { current_line: self.current_line + 1, ..self }
        } else {
            self
        }
    }

    /// The renderer after a line of an object has been looked at: where the
    /// line is no JSON, the object is remembered as not holding JSON lines.
    pub open spec fn noted(self, bucket: Seq<char>, key: Seq<char>, valid: bool)
        -> JsonlRendererView {
        if valid || self.not_jsonl.contains(node_key(bucket, key)) {
            self
        } else {
            JsonlRendererView { not_jsonl: self.not_jsonl.push(node_key(bucket, key)), ..self }
        }
    }
}

impl JsonlPreviewRenderer {
    /// A renderer that shows nothing and has found out nothing.
    pub fn new() -> (r: Self)
        ensures
            r@ == (JsonlRendererView {
                current_key: Seq::empty(),
                current_line: 0,
                not_jsonl: Seq::empty(),
            }),
    {
        let r = JsonlPreviewRenderer {
            current_key: String::new(),
            current_line: 0,
            not_jsonl: Vec::new(),
        };
        proof {
            assert(r.not_jsonl.deep_view() =~= Seq::<Seq<char>>::empty());
        }
        r
    }

    /// Tests whether a key names a file of JSON lines, in any case of
    /// letters.
    pub fn is_jsonl_extension(key: &str) -> (r: bool)
        ensures
            r == is_jsonl_name(unicode_lowercase(key@)),
    {
        jsonl_name(to_lowercase(key).as_str())
    }

    /// Returns the index of the line that is shown.
    pub fn current_line(&self) -> (r: usize)
        ensures
            r == self@.current_line,
    {
        self.current_line
    }

    /// Turns to the object with this key.
    pub fn show(&mut self, key: &str)
        ensures
            final(self)@ == old(self)@.showing(key@),
    {
        if !str_equals(self.current_key.as_str(), key) {
            self.current_key = text_of(key);
            self.current_line = 0;
        }
    }

    /// Goes one line back, where there is one.
    pub fn step_back(&mut self)
        ensures
            final(self)@ == old(self)@.back(),
    {
        if self.current_line > 0 {
            self.current_line = self.current_line - 1;
        }
    }

    /// Goes one line on, where the object has another line.
    pub fn step_forward(&mut self, line_count: usize)
        ensures
            final(self)@ == old(self)@.forward(line_count as nat),
    {
        if self.current_line < line_count && self.current_line + 1 < line_count {
            self.current_line = self.current_line + 1;
        }
    }

    /// Takes note of whether a line of an object was found to be JSON.
    pub fn note_line(&mut self, bucket: &str, key: &str, valid: bool)
        ensures
            final(self)@ == old(self)@.noted(bucket@, key@, valid),
    {
        if valid {
            return ;
        }
        let cache_key = make_preview_cache_key(bucket, key);
        proof {
            let known = self.not_jsonl.deep_view();
            assert(known.len() == self.not_jsonl@.len());
            assert forall|j: int| 0 <= j < known.len() implies known[j] == self.not_jsonl@[j]@ by {}
            if known.contains(cache_key@) {
                let j = choose|j: int| 0 <= j < known.len() && known[j] == cache_key@;
                assert(self.not_jsonl@[j]@ == cache_key@);
            }
        }
        match position_of(&self.not_jsonl, cache_key.as_str()) {
            Some(i) => {
                proof {
                    assert(self.not_jsonl.deep_view()[i as int] == cache_key@);
                }
            },
            None => {
                proof {
                    lemma_deep_view_push(
                        self.not_jsonl@,
                        self.not_jsonl@.push(cache_key),
                        cache_key,
                    );
                }
                self.not_jsonl.push(cache_key);
            },
        }
    }

    /// Looks at a line of an object: tells whether it is JSON, and takes
    /// note where it is not.
    pub fn check_line(&mut self, bucket: &str, key: &str, line: &str) -> (valid: bool)
        ensures
            valid == json_document(line@),
            final(self)@ == old(self)@.noted(bucket@, key@, valid),
    {
        let valid = parses_as_json(line);
        self.note_line(bucket, key, valid);
        valid
    }
}

impl PreviewRenderer for JsonlPreviewRenderer {
    open spec fn handles(&self, key: Seq<char>) -> bool {
        is_jsonl_name(unicode_lowercase(key))
    }

    open spec fn gives_up(&self, bucket: Seq<char>, key: Seq<char>) -> bool {
        self@.not_jsonl.contains(node_key(bucket, key))
    }

    fn can_handle(&self, key: &str) -> (r: bool) {
        JsonlPreviewRenderer::is_jsonl_extension(key)
    }

    fn reset(&mut self)
        ensures
            final(self)@ == (JsonlRendererView {
                current_key: Seq::empty(),
                current_line: 0,
                ..old(self)@
            }),
    {
        self.current_key = String::new();
        self.current_line = 0;
    }

    fn wants_fallback(&self, bucket: &str, key: &str) -> (r: bool) {
        let cache_key = make_preview_cache_key(bucket, key);
        proof {
            let known = self.not_jsonl.deep_view();
            assert(known.len() == self.not_jsonl@.len());
            assert forall|j: int| 0 <= j < known.len() implies known[j] == self.not_jsonl@[j]@ by {}
            if known.contains(cache_key@) {
                let j = choose|j: int| 0 <= j < known.len() && known[j] == cache_key@;
                assert(self.not_jsonl@[j]@ == cache_key@);
            }
        }
        match position_of(&self.not_jsonl, cache_key.as_str()) {
            Some(i) => {
                proof {
                    assert(self.not_jsonl.deep_view()[i as int] == cache_key@);
                }
                true
            },
            None => false,
        }
    }
}

/// Shows an image.
pub struct ImagePreviewRenderer {
    current_key: String,
}

impl View for ImagePreviewRenderer {
    type V = Seq<char>;

    /// The key of the object that is shown; empty for none.
    closed spec fn view(&self) -> Seq<char> {
        self.current_key@
    }
}

impl ImagePreviewRenderer {
    /// A renderer that shows nothing.
    pub fn new() -> (r: Self)
        ensures
            r@ == Seq::<char>::empty(),
    {
        ImagePreviewRenderer { current_key: String::new() }
    }

    /// Tests whether a key names an image, in any case of letters.
    pub fn is_image_extension(key: &str) -> (r: bool)
        ensures
            r == is_image_name(unicode_lowercase(key@)),
    {
        image_name(to_lowercase(key).as_str())
    }

    /// Turns to the object with this key.
    pub fn show(&mut self, key: &str)
        ensures
            final(self)@ == key@,
    {
        if !str_equals(self.current_key.as_str(), key) {
            self.current_key = text_of(key);
        }
    }
}

impl PreviewRenderer for ImagePreviewRenderer {
    open spec fn handles(&self, key: Seq<char>) -> bool {
        is_image_name(unicode_lowercase(key))
    }

    open spec fn gives_up(&self, bucket: Seq<char>, key: Seq<char>) -> bool {
        false
    }

    fn can_handle(&self, key: &str) -> (r: bool) {
        ImagePreviewRenderer::is_image_extension(key)
    }

    fn reset(&mut self)
        ensures
            final(self)@ == Seq::<char>::empty(),
    {
        self.current_key = String::new();
    }

    fn wants_fallback(&self, bucket: &str, key: &str) -> (r: bool) {
        false
    }
}

/// Shows any object as text: the renderer of last resort.
pub struct TextPreviewRenderer {
    current_key: String,
}

impl View for TextPreviewRenderer {
    type V = Seq<char>;

    /// The key of the object that is shown; empty for none.
    closed spec fn view(&self) -> Seq<char> {
        self.current_key@
    }
}

impl TextPreviewRenderer {
    /// A renderer that shows nothing.
    pub fn new() -> (r: Self)
        ensures
            r@ == Seq::<char>::empty(),
    {
        TextPreviewRenderer { current_key: String::new() }
    }

    /// Turns to the object with this key.
    pub fn show(&mut self, key: &str)
        ensures
            final(self)@ == key@,
    {
        if !str_equals(self.current_key.as_str(), key) {
            self.current_key = text_of(key);
        }
    }
}

impl PreviewRenderer for TextPreviewRenderer {
    open spec fn handles(&self, key: Seq<char>) -> bool {
        true
    }

    open spec fn gives_up(&self, bucket: Seq<char>, key: Seq<char>) -> bool {
        false
    }

    fn can_handle(&self, key: &str) -> (r: bool) {
        true
    }

    fn reset(&mut self)
        ensures
            final(self)@ == Seq::<char>::empty(),
    {
        self.current_key = String::new();
    }

    fn wants_fallback(&self, bucket: &str, key: &str) -> (r: bool) {
        false
    }
}

/// Picks among the three renderers the first that can show the object and
/// has not given up on it.
pub fn pick_renderer(
    jsonl: &JsonlPreviewRenderer,
    image: &ImagePreviewRenderer,
    text: &TextPreviewRenderer,
    bucket: &str,
    key: &str,
) -> (r: RendererKind)
    ensures
        r == renderer_of(unicode_lowercase(key@), jsonl.gives_up(bucket@, key@)),
{
    if jsonl.can_handle(key) && !jsonl.wants_fallback(bucket, key) {
        RendererKind::Jsonl
    } else if image.can_handle(key) && !image.wants_fallback(bucket, key) {
        RendererKind::Image
    } else {
        RendererKind::Text
    }
}

} // verus!
