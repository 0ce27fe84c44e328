//! Folder nodes and what goes with them: which objects can be previewed,
//! the sorted view of a folder, node keys, S3 paths, and the merging of the
//! pages of a listing.

use vstd::prelude::*;

use crate::events::{lemma_deep_view_push, S3Object, S3ObjectView};
use crate::text::{
    chars_of, find_char, find_char_from, lemma_find_char_from, lemma_rfind_char_prefix, occurs_at,
    push_text, rfind_char, rfind_char_in, starts_with_at, str_equals, string_of, to_lowercase,
    unicode_lowercase,
};

verus! {

/// Tests whether the characters of `a` are those of `lit`.
fn text_is(a: &[char], lit: &str) -> (r: bool)
    ensures
        r == (a@ == lit@),
{
    broadcast use vstd::string::group_string_axioms;

    let mut i: usize = 0;
    for c in it: lit.chars()
        invariant
            it.seq() == lit@,
            i == it.index(),
            i <= a@.len(),
            a@.take(i as int) == lit@.take(i as int),
    {
        if i >= a.len() || a[i] != c {
            proof {
                if i < a@.len() {
                    assert(a@[i as int] != lit@[i as int]);
                }
            }
            return false;
        }
        proof {
            assert(a@.take(i + 1) == a@.take(i as int).push(a@[i as int]));
            assert(lit@.take(i + 1) == lit@.take(i as int).push(lit@[i as int]));
        }
        i += 1;
    }
    proof {
        assert(lit@.take(i as int) == lit@);
        if i == a@.len() {
            assert(a@.take(i as int) == a@);
        }
    }
    i == a.len()
}

/// Extensions of the previewable kinds grouped as documents and markup.
pub open spec fn is_documents_and_markup_extension(ext: Seq<char>) -> bool {
    ||| ext == ".txt"@
    ||| ext == ".md"@
    ||| ext == ".markdown"@
    ||| ext == ".rst"@
    ||| ext == ".rtf"@
    ||| ext == ".tex"@
    ||| ext == ".log"@
    ||| ext == ".readme"@
    ||| ext == ".html"@
    ||| ext == ".htm"@
    ||| ext == ".xhtml"@
    ||| ext == ".xml"@
    ||| ext == ".svg"@
    ||| ext == ".css"@
    ||| ext == ".scss"@
    ||| ext == ".sass"@
    ||| ext == ".less"@
    ||| ext == ".json"@
    ||| ext == ".jsonl"@
    ||| ext == ".ndjson"@
    ||| ext == ".yaml"@
    ||| ext == ".yml"@
    ||| ext == ".toml"@
    ||| ext == ".csv"@
    ||| ext == ".tsv"@
    ||| ext == ".ini"@
    ||| ext == ".cfg"@
    ||| ext == ".conf"@
}

fn documents_and_markup_extension(ext: &[char]) -> (r: bool)
    ensures
        r == is_documents_and_markup_extension(ext@),
{
    text_is(ext, ".txt")
        || text_is(ext, ".md")
        || text_is(ext, ".markdown")
        || text_is(ext, ".rst")
        || text_is(ext, ".rtf")
        || text_is(ext, ".tex")
        || text_is(ext, ".log")
        || text_is(ext, ".readme")
        || text_is(ext, ".html")
        || text_is(ext, ".htm")
        || text_is(ext, ".xhtml")
        || text_is(ext, ".xml")
        || text_is(ext, ".svg")
        || text_is(ext, ".css")
        || text_is(ext, ".scss")
        || text_is(ext, ".sass")
        || text_is(ext, ".less")
        || text_is(ext, ".json")
        || text_is(ext, ".jsonl")
        || text_is(ext, ".ndjson")
        || text_is(ext, ".yaml")
        || text_is(ext, ".yml")
        || text_is(ext, ".toml")
        || text_is(ext, ".csv")
        || text_is(ext, ".tsv")
        || text_is(ext, ".ini")
        || text_is(ext, ".cfg")
        || text_is(ext, ".conf")
}

/// Extensions of the previewable kinds grouped as config and c family.
pub open spec fn is_config_and_c_family_extension(ext: Seq<char>) -> bool {
    ||| ext == ".properties"@
    ||| ext == ".env"@
    ||| ext == ".c"@
    ||| ext == ".h"@
    ||| ext == ".cpp"@
    ||| ext == ".hpp"@
    ||| ext == ".cc"@
    ||| ext == ".hh"@
    ||| ext == ".cxx"@
    ||| ext == ".hxx"@
    ||| ext == ".m"@
    ||| ext == ".mm"@
    ||| ext == ".java"@
    ||| ext == ".kt"@
    ||| ext == ".kts"@
    ||| ext == ".scala"@
    ||| ext == ".groovy"@
    ||| ext == ".gradle"@
    ||| ext == ".py"@
    ||| ext == ".pyw"@
    ||| ext == ".pyi"@
    ||| ext == ".js"@
    ||| ext == ".mjs"@
    ||| ext == ".cjs"@
    ||| ext == ".jsx"@
    ||| ext == ".ts"@
    ||| ext == ".tsx"@
    ||| ext == ".mts"@
}

fn config_and_c_family_extension(ext: &[char]) -> (r: bool)
    ensures
        r == is_config_and_c_family_extension(ext@),
{
    text_is(ext, ".properties")
        || text_is(ext, ".env")
        || text_is(ext, ".c")
        || text_is(ext, ".h")
        || text_is(ext, ".cpp")
        || text_is(ext, ".hpp")
        || text_is(ext, ".cc")
        || text_is(ext, ".hh")
        || text_is(ext, ".cxx")
        || text_is(ext, ".hxx")
        || text_is(ext, ".m")
        || text_is(ext, ".mm")
        || text_is(ext, ".java")
        || text_is(ext, ".kt")
        || text_is(ext, ".kts")
        || text_is(ext, ".scala")
        || text_is(ext, ".groovy")
        || text_is(ext, ".gradle")
        || text_is(ext, ".py")
        || text_is(ext, ".pyw")
        || text_is(ext, ".pyi")
        || text_is(ext, ".js")
        || text_is(ext, ".mjs")
        || text_is(ext, ".cjs")
        || text_is(ext, ".jsx")
        || text_is(ext, ".ts")
        || text_is(ext, ".tsx")
        || text_is(ext, ".mts")
}

/// Extensions of the previewable kinds grouped as scripting languages.
pub open spec fn is_scripting_languages_extension(ext: Seq<char>) -> bool {
    ||| ext == ".cts"@
    ||| ext == ".rb"@
    ||| ext == ".rake"@
    ||| ext == ".gemspec"@
    ||| ext == ".php"@
    ||| ext == ".phtml"@
    ||| ext == ".pl"@
    ||| ext == ".pm"@
    ||| ext == ".pod"@
    ||| ext == ".lua"@
    ||| ext == ".r"@
    ||| ext == ".rmd"@
    ||| ext == ".go"@
    ||| ext == ".rs"@
    ||| ext == ".swift"@
    ||| ext == ".zig"@
    ||| ext == ".nim"@
    ||| ext == ".v"@
    ||| ext == ".d"@
    ||| ext == ".hs"@
    ||| ext == ".lhs"@
    ||| ext == ".ml"@
    ||| ext == ".mli"@
    ||| ext == ".fs"@
    ||| ext == ".fsi"@
    ||| ext == ".fsx"@
    ||| ext == ".ex"@
    ||| ext == ".exs"@
}

fn scripting_languages_extension(ext: &[char]) -> (r: bool)
    ensures
        r == is_scripting_languages_extension(ext@),
{
    text_is(ext, ".cts")
        || text_is(ext, ".rb")
        || text_is(ext, ".rake")
        || text_is(ext, ".gemspec")
        || text_is(ext, ".php")
        || text_is(ext, ".phtml")
        || text_is(ext, ".pl")
        || text_is(ext, ".pm")
        || text_is(ext, ".pod")
        || text_is(ext, ".lua")
        || text_is(ext, ".r")
        || text_is(ext, ".rmd")
        || text_is(ext, ".go")
        || text_is(ext, ".rs")
        || text_is(ext, ".swift")
        || text_is(ext, ".zig")
        || text_is(ext, ".nim")
        || text_is(ext, ".v")
        || text_is(ext, ".d")
        || text_is(ext, ".hs")
        || text_is(ext, ".lhs")
        || text_is(ext, ".ml")
        || text_is(ext, ".mli")
        || text_is(ext, ".fs")
        || text_is(ext, ".fsi")
        || text_is(ext, ".fsx")
        || text_is(ext, ".ex")
        || text_is(ext, ".exs")
}

/// Extensions of the previewable kinds grouped as functional and shell.
pub open spec fn is_functional_and_shell_extension(ext: Seq<char>) -> bool {
    ||| ext == ".erl"@
    ||| ext == ".hrl"@
    ||| ext == ".clj"@
    ||| ext == ".cljs"@
    ||| ext == ".cljc"@
    ||| ext == ".edn"@
    ||| ext == ".lisp"@
    ||| ext == ".cl"@
    ||| ext == ".el"@
    ||| ext == ".scm"@
    ||| ext == ".ss"@
    ||| ext == ".sh"@
    ||| ext == ".bash"@
    ||| ext == ".zsh"@
    ||| ext == ".fish"@
    ||| ext == ".ksh"@
    ||| ext == ".csh"@
    ||| ext == ".tcsh"@
    ||| ext == ".ps1"@
    ||| ext == ".psm1"@
    ||| ext == ".psd1"@
    ||| ext == ".bat"@
    ||| ext == ".cmd"@
    ||| ext == ".sql"@
    ||| ext == ".mysql"@
    ||| ext == ".pgsql"@
    ||| ext == ".sqlite"@
    ||| ext == ".graphql"@
}

fn functional_and_shell_extension(ext: &[char]) -> (r: bool)
    ensures
        r == is_functional_and_shell_extension(ext@),
{
    text_is(ext, ".erl")
        || text_is(ext, ".hrl")
        || text_is(ext, ".clj")
        || text_is(ext, ".cljs")
        || text_is(ext, ".cljc")
        || text_is(ext, ".edn")
        || text_is(ext, ".lisp")
        || text_is(ext, ".cl")
        || text_is(ext, ".el")
        || text_is(ext, ".scm")
        || text_is(ext, ".ss")
        || text_is(ext, ".sh")
        || text_is(ext, ".bash")
        || text_is(ext, ".zsh")
        || text_is(ext, ".fish")
        || text_is(ext, ".ksh")
        || text_is(ext, ".csh")
        || text_is(ext, ".tcsh")
        || text_is(ext, ".ps1")
        || text_is(ext, ".psm1")
        || text_is(ext, ".psd1")
        || text_is(ext, ".bat")
        || text_is(ext, ".cmd")
        || text_is(ext, ".sql")
        || text_is(ext, ".mysql")
        || text_is(ext, ".pgsql")
        || text_is(ext, ".sqlite")
        || text_is(ext, ".graphql")
}

/// Extensions of the previewable kinds grouped as build and schema.
pub open spec fn is_build_and_schema_extension(ext: Seq<char>) -> bool {
    ||| ext == ".gql"@
    ||| ext == ".dockerfile"@
    ||| ext == ".tf"@
    ||| ext == ".tfvars"@
    ||| ext == ".hcl"@
    ||| ext == ".cmake"@
    ||| ext == ".make"@
    ||| ext == ".makefile"@
    ||| ext == ".mk"@
    ||| ext == ".ninja"@
    ||| ext == ".bazel"@
    ||| ext == ".bzl"@
    ||| ext == ".sbt"@
    ||| ext == ".gitignore"@
    ||| ext == ".gitattributes"@
    ||| ext == ".gitmodules"@
    ||| ext == ".editorconfig"@
    ||| ext == ".prettierrc"@
    ||| ext == ".eslintrc"@
    ||| ext == ".proto"@
    ||| ext == ".thrift"@
    ||| ext == ".avsc"@
    ||| ext == ".xsd"@
    ||| ext == ".dtd"@
    ||| ext == ".wsdl"@
    ||| ext == ".diff"@
    ||| ext == ".patch"@
    ||| ext == ".asm"@
}

fn build_and_schema_extension(ext: &[char]) -> (r: bool)
    ensures
        r == is_build_and_schema_extension(ext@),
{
    text_is(ext, ".gql")
        || text_is(ext, ".dockerfile")
        || text_is(ext, ".tf")
        || text_is(ext, ".tfvars")
        || text_is(ext, ".hcl")
        || text_is(ext, ".cmake")
        || text_is(ext, ".make")
        || text_is(ext, ".makefile")
        || text_is(ext, ".mk")
        || text_is(ext, ".ninja")
        || text_is(ext, ".bazel")
        || text_is(ext, ".bzl")
        || text_is(ext, ".sbt")
        || text_is(ext, ".gitignore")
        || text_is(ext, ".gitattributes")
        || text_is(ext, ".gitmodules")
        || text_is(ext, ".editorconfig")
        || text_is(ext, ".prettierrc")
        || text_is(ext, ".eslintrc")
        || text_is(ext, ".proto")
        || text_is(ext, ".thrift")
        || text_is(ext, ".avsc")
        || text_is(ext, ".xsd")
        || text_is(ext, ".dtd")
        || text_is(ext, ".wsdl")
        || text_is(ext, ".diff")
        || text_is(ext, ".patch")
        || text_is(ext, ".asm")
}

/// Extensions of the previewable kinds grouped as images and dotfiles.
pub open spec fn is_images_and_dotfiles_extension(ext: Seq<char>) -> bool {
    ||| ext == ".s"@
    ||| ext == ".png"@
    ||| ext == ".jpg"@
    ||| ext == ".jpeg"@
    ||| ext == ".gif"@
    ||| ext == ".bmp"@
    ||| ext == ".psd"@
    ||| ext == ".tga"@
    ||| ext == ".hdr"@
    ||| ext == ".pic"@
    ||| ext == ".pnm"@
    ||| ext == ".pgm"@
    ||| ext == ".ppm"@
    ||| ext == ".vim"@
    ||| ext == ".vimrc"@
    ||| ext == ".tmux"@
    ||| ext == ".zshrc"@
    ||| ext == ".bashrc"@
    ||| ext == ".profile"@
    ||| ext == ".htaccess"@
    ||| ext == ".nginx"@
    ||| ext == ".plist"@
    ||| ext == ".reg"@
}

fn images_and_dotfiles_extension(ext: &[char]) -> (r: bool)
    ensures
        r == is_images_and_dotfiles_extension(ext@),
{
    text_is(ext, ".s")
        || text_is(ext, ".png")
        || text_is(ext, ".jpg")
        || text_is(ext, ".jpeg")
        || text_is(ext, ".gif")
        || text_is(ext, ".bmp")
        || text_is(ext, ".psd")
        || text_is(ext, ".tga")
        || text_is(ext, ".hdr")
        || text_is(ext, ".pic")
        || text_is(ext, ".pnm")
        || text_is(ext, ".pgm")
        || text_is(ext, ".ppm")
        || text_is(ext, ".vim")
        || text_is(ext, ".vimrc")
        || text_is(ext, ".tmux")
        || text_is(ext, ".zshrc")
        || text_is(ext, ".bashrc")
        || text_is(ext, ".profile")
        || text_is(ext, ".htaccess")
        || text_is(ext, ".nginx")
        || text_is(ext, ".plist")
        || text_is(ext, ".reg")
}

/// The lowercase extensions (with their leading dot) whose files can be previewed.
pub open spec fn is_previewable_extension(ext: Seq<char>) -> bool {
    ||| is_documents_and_markup_extension(ext)
    ||| is_config_and_c_family_extension(ext)
    ||| is_scripting_languages_extension(ext)
    ||| is_functional_and_shell_extension(ext)
    ||| is_build_and_schema_extension(ext)
    ||| is_images_and_dotfiles_extension(ext)
}

/// Tests whether `ext`, a lowercase extension with its leading dot, is one of
/// the previewable extensions.
pub fn previewable_extension(ext: &str) -> (r: bool)
    ensures
        r == is_previewable_extension(ext@),
{
    let e = chars_of(ext);
    let x = e.as_slice();
    documents_and_markup_extension(x)
        || config_and_c_family_extension(x)
        || scripting_languages_extension(x)
        || functional_and_shell_extension(x)
        || build_and_schema_extension(x)
        || images_and_dotfiles_extension(x)
}

/// The lowercase extensions that mark a compressed file.
pub open spec fn is_compression_extension(ext: Seq<char>) -> bool {
    ||| ext == ".gz"@
    ||| ext == ".zst"@
    ||| ext == ".zstd"@
}

/// Whether a file can be previewed, told from its extensions in lowercase.
/// `ext` is its last extension, and `behind_stem` tells that something
/// stands before it in the key; `inner` is the extension before the last,
/// where there is one. The last extension decides, unless it marks
/// compression and stands behind a stem: then the one before it decides, and
/// a file without one cannot be previewed.
pub open spec fn extensions_supported(
    ext: Seq<char>,
    behind_stem: bool,
    inner: Option<Seq<char>>,
) -> bool {
    if is_compression_extension(ext) && behind_stem {
        match inner {
            Some(e) => is_previewable_extension(e),
            None => false,
        }
    } else {
        is_previewable_extension(ext)
    }
}

/// Decides from its extensions in lowercase whether a file can be previewed.
pub fn supported_by_extensions(ext: &str, behind_stem: bool, inner: Option<&str>) -> (r: bool)
    ensures
        r == extensions_supported(
            ext@,
            behind_stem,
            match inner {
                Some(e) => Some(e@),
                None => None,
            },
        ),
{
    let e = chars_of(ext);
    let compressed = text_is(e.as_slice(), ".gz") || text_is(e.as_slice(), ".zst") || text_is(
        e.as_slice(),
        ".zstd",
    );
    if compressed && behind_stem {
        match inner {
            Some(i) => previewable_extension(i),
            None => false,
        }
    } else {
        previewable_extension(ext)
    }
}

/// The extension before the last, in lowercase: what stands in the key from
/// the last dot before `dot` up to `dot`.
pub open spec fn inner_extension(key: Seq<char>, dot: int) -> Option<Seq<char>> {
    let stem = key.take(dot);
    match rfind_char(stem, '.') {
        Some(inner) => Some(unicode_lowercase(stem.skip(inner))),
        None => None,
    }
}

/// Whether a file with this key can be previewed: its extensions,
/// lowercased, say so. A key without a dot has no extension and cannot be
/// previewed.
pub open spec fn preview_supported(key: Seq<char>) -> bool {
    match rfind_char(key, '.') {
        None => false,
        Some(dot) => extensions_supported(
            unicode_lowercase(key.skip(dot)),
            dot > 0,
            inner_extension(key, dot),
        ),
    }
}

/// Decides whether the object with this key can be previewed.
pub fn is_preview_supported(key: &str) -> (r: bool)
    ensures
        r == preview_supported(key@),
{
    let k = chars_of(key);
    let n = k.len();
    let dot = match rfind_char_in(k.as_slice(), '.', n) {
        Some(p) => p,
        None => {
            return false;
        },
    };
    let tail = string_of(k.as_slice(), dot, n);
    let ext = to_lowercase(tail.as_str());
    proof {
        assert(k@.subrange(dot as int, n as int) == k@.skip(dot as int));
        lemma_rfind_char_prefix(k@, '.', dot as int);
    }
    match rfind_char_in(k.as_slice(), '.', dot) {
        Some(inner) => {
            let inner_tail = string_of(k.as_slice(), inner, dot);
            let inner_ext = to_lowercase(inner_tail.as_str());
            proof {
                assert(k@.subrange(inner as int, dot as int) == k@.take(dot as int).skip(
                    inner as int,
                ));
            }
            supported_by_extensions(ext.as_str(), dot > 0, Some(inner_ext.as_str()))
        },
        None => supported_by_extensions(ext.as_str(), dot > 0, None),
    }
}

/// The indices below `upto` of the objects that are folders (for `folders`
/// true) or files (for `folders` false), in increasing order.
pub open spec fn indices_of_kind(objects: Seq<S3ObjectView>, folders: bool, upto: int) -> Seq<
    usize,
>
    decreases upto,
{
    if upto <= 0 {
        Seq::empty()
    } else if objects[upto - 1].is_folder == folders {
        indices_of_kind(objects, folders, upto - 1).push((upto - 1) as usize)
    } else {
        indices_of_kind(objects, folders, upto - 1)
    }
}

/// The view in which a folder's entries are shown: the indices of its
/// folders, then the indices of its files, each in listing order.
pub open spec fn folders_first(objects: Seq<S3ObjectView>) -> Seq<usize> {
    indices_of_kind(objects, true, objects.len() as int) + indices_of_kind(
        objects,
        false,
        objects.len() as int,
    )
}

/// The number of folders among the objects.
pub open spec fn folder_count_of(objects: Seq<S3ObjectView>) -> nat {
    indices_of_kind(objects, true, objects.len() as int).len()
}

/// The indices of one kind are in range, increasing, and of that kind; every
/// index below `upto` of that kind is among them.
pub proof fn lemma_indices_of_kind(objects: Seq<S3ObjectView>, folders: bool, upto: int)
    requires
        0 <= upto <= objects.len() <= usize::MAX,
    ensures
        indices_of_kind(objects, folders, upto).len() <= upto,
        forall|k: int|
            0 <= k < indices_of_kind(objects, folders, upto).len() ==> {
                &&& (#[trigger] indices_of_kind(objects, folders, upto)[k]) < upto
                &&& objects[indices_of_kind(objects, folders, upto)[k] as int].is_folder
                    == folders
            },
        forall|j: int, k: int|
            0 <= j < k < indices_of_kind(objects, folders, upto).len() ==> indices_of_kind(
                objects,
                folders,
                upto,
            )[j] < indices_of_kind(objects, folders, upto)[k],
        forall|i: usize|
            i < upto && objects[i as int].is_folder == folders ==> indices_of_kind(
                objects,
                folders,
                upto,
            ).contains(i),
        indices_of_kind(objects, true, upto).len() + indices_of_kind(objects, false, upto).len()
            == upto,
    decreases upto,
{
    if upto > 0 {
        lemma_indices_of_kind(objects, folders, upto - 1);
        lemma_indices_of_kind(objects, !folders, upto - 1);
        let prev = indices_of_kind(objects, folders, upto - 1);
        let cur = indices_of_kind(objects, folders, upto);
        assert forall|i: usize| i < upto && objects[i as int].is_folder == folders implies cur.contains(
            i,
        ) by {
            if i < upto - 1 {
                assert(prev.contains(i));
                let k = choose|k: int| 0 <= k < prev.len() && prev[k] == i;
                assert(cur[k] == i);
            } else {
                assert(cur[cur.len() - 1] == i);
            }
        }
    }
}

/// In the view of a folder, the first `folder_count` indices refer to
/// folders and the rest to files, and the view is a permutation of the
/// indices of the objects: each index occurs in it exactly once.
pub proof fn lemma_sorted_view_partitions(objects: Seq<S3ObjectView>)
    requires
        objects.len() <= usize::MAX,
    ensures
        folders_first(objects).len() == objects.len(),
        folder_count_of(objects) <= objects.len(),
        forall|k: int|
            0 <= k < folder_count_of(objects) ==> (#[trigger] folders_first(objects)[k])
                < objects.len() && objects[folders_first(objects)[k] as int].is_folder,
        forall|k: int|
            folder_count_of(objects) <= k < objects.len() ==> (#[trigger] folders_first(
                objects,
            )[k]) < objects.len() && !objects[folders_first(objects)[k] as int].is_folder,
        folders_first(objects).no_duplicates(),
        forall|i: usize| i < objects.len() ==> folders_first(objects).contains(i),
{
    let n = objects.len() as int;
    lemma_indices_of_kind(objects, true, n);
    lemma_indices_of_kind(objects, false, n);
    let a = indices_of_kind(objects, true, n);
    let b = indices_of_kind(objects, false, n);
    let v = folders_first(objects);
    assert forall|j: int, k: int| 0 <= j < v.len() && 0 <= k < v.len() && j != k implies v[j]
        != v[k] by {
        if j < a.len() && k < a.len() {
            if j < k {
                assert(a[j] < a[k]);
            } else {
                assert(a[k] < a[j]);
            }
        } else if j >= a.len() && k >= a.len() {
            if j < k {
                assert(b[j - a.len()] < b[k - a.len()]);
            } else {
                assert(b[k - a.len()] < b[j - a.len()]);
            }
        } else if j < a.len() {
            assert(objects[a[j] as int].is_folder);
            assert(!objects[b[k - a.len()] as int].is_folder);
        } else {
            assert(objects[a[k] as int].is_folder);
            assert(!objects[b[j - a.len()] as int].is_folder);
        }
    }
    assert forall|i: usize| i < objects.len() implies v.contains(i) by {
        if objects[i as int].is_folder {
            assert(a.contains(i));
            let k = choose|k: int| 0 <= k < a.len() && a[k] == i;
            assert(v[k] == i);
        } else {
            assert(b.contains(i));
            let k = choose|k: int| 0 <= k < b.len() && b[k] == i;
            assert(v[a.len() + k] == i);
        }
    }
    assert forall|k: int| a.len() <= k < objects.len() implies (#[trigger] v[k]) < objects.len()
        && !objects[v[k] as int].is_folder by {
        assert(v[k] == b[k - a.len()]);
    }
    assert forall|k: int| 0 <= k < a.len() implies (#[trigger] v[k]) < objects.len()
        && objects[v[k] as int].is_folder by {
        assert(v[k] == a[k]);
    }
}

/// How far the listing of a folder has come.
#[derive(Clone, Copy, PartialEq, Eq, Structural, Debug)]
pub enum NodeStatus {
    /// Nothing has been listed.
    Empty,
    /// A page has been listed and more pages follow.
    Partial,
    /// Every page has been listed.
    Complete,
    /// The listing failed before any page arrived.
    Error,
}

/// The contents of one folder, as far as they have been listed.
#[derive(Debug)]
pub struct FolderNode {
    pub bucket: String,
    pub prefix: String,
    pub objects: Vec<S3Object>,
    pub next_continuation_token: String,
    pub is_truncated: bool,
    pub loading: bool,
    pub loaded: bool,
    pub error: String,
    /// Indices into `objects`: folders first, then files.
    pub sorted_view: Vec<usize>,
    /// How many of the first indices of `sorted_view` refer to folders.
    pub folder_count: usize,
    /// The number of objects that `sorted_view` was built for.
    pub cached_objects_size: usize,
}

/// The mathematical value of a [`FolderNode`].
pub ghost struct FolderNodeView {
    pub bucket: Seq<char>,
    pub prefix: Seq<char>,
    pub objects: Seq<S3ObjectView>,
    pub next_continuation_token: Seq<char>,
    pub is_truncated: bool,
    pub loading: bool,
    pub loaded: bool,
    pub error: Seq<char>,
    pub sorted_view: Seq<usize>,
    pub folder_count: usize,
    pub cached_objects_size: usize,
}

impl View for FolderNode {
    type V = FolderNodeView;

    open spec fn view(&self) -> FolderNodeView {
        FolderNodeView {
            bucket: self.bucket@,
            prefix: self.prefix@,
            objects: self.objects.deep_view(),
            next_continuation_token: self.next_continuation_token@,
            is_truncated: self.is_truncated,
            loading: self.loading,
            loaded: self.loaded,
            error: self.error@,
            sorted_view: self.sorted_view@,
            folder_count: self.folder_count,
            cached_objects_size: self.cached_objects_size,
        }
    }
}

impl DeepView for FolderNode {
    type V = FolderNodeView;

    open spec fn deep_view(&self) -> FolderNodeView {
        self@
    }
}

impl FolderNodeView {
    /// The node of a folder of which nothing is known yet.
    pub open spec fn empty(bucket: Seq<char>, prefix: Seq<char>) -> FolderNodeView {
        FolderNodeView {
            bucket,
            prefix,
            objects: Seq::empty(),
            next_continuation_token: Seq::empty(),
            is_truncated: false,
            loading: false,
            loaded: false,
            error: Seq::empty(),
            sorted_view: Seq::empty(),
            folder_count: 0,
            cached_objects_size: 0,
        }
    }

    /// The node with its view built for its objects: folders first.
    pub open spec fn with_sorted_view(self) -> FolderNodeView {
        FolderNodeView {
            sorted_view: folders_first(self.objects),
            folder_count: folder_count_of(self.objects) as usize,
            cached_objects_size: self.objects.len() as usize,
            ..self
        }
    }

    /// The view is the one built for the objects.
    pub open spec fn view_is_current(self) -> bool {
        &&& self.sorted_view == folders_first(self.objects)
        &&& self.folder_count == folder_count_of(self.objects)
        &&& self.cached_objects_size == self.objects.len()
    }

    /// How far the listing has come.
    pub open spec fn status(self) -> NodeStatus {
        if self.loaded {
            if self.is_truncated {
                NodeStatus::Partial
            } else {
                NodeStatus::Complete
            }
        } else if self.error.len() > 0 {
            NodeStatus::Error
        } else {
            NodeStatus::Empty
        }
    }
}

impl FolderNode {
    /// Creates the node of a folder of which nothing is known yet.
    pub fn new(bucket: String, prefix: String) -> (r: Self)
        ensures
            r@ == FolderNodeView::empty(bucket@, prefix@),
            r@.view_is_current(),
    {
        let r = FolderNode {
            bucket,
            prefix,
            objects: Vec::new(),
            next_continuation_token: String::new(),
            is_truncated: false,
            loading: false,
            loaded: false,
            error: String::new(),
            sorted_view: Vec::new(),
            folder_count: 0,
            cached_objects_size: 0,
        };
        proof {
            assert(r.objects.deep_view() =~= Seq::<S3ObjectView>::empty());
            assert(folders_first(r@.objects) =~= Seq::<usize>::empty());
        }
        r
    }

    /// Returns how far the listing has come.
    pub fn status(&self) -> (r: NodeStatus)
        ensures
            r == self@.status(),
    {
        if self.loaded {
            if self.is_truncated {
                NodeStatus::Partial
            } else {
                NodeStatus::Complete
            }
        } else if !self.error.as_str().is_empty() {
            NodeStatus::Error
        } else {
            NodeStatus::Empty
        }
    }

    /// Appends to `out` the indices of the objects of one kind.
    fn push_indices(objects: &Vec<S3Object>, folders: bool, out: &mut Vec<usize>)
        ensures
            final(out)@ == old(out)@ + indices_of_kind(
                objects.deep_view(),
                folders,
                objects@.len() as int,
            ),
    {
        let n = objects.len();
        let mut i: usize = 0;
        proof {
            assert(old(out)@ + indices_of_kind(objects.deep_view(), folders, 0) =~= old(out)@);
        }
        while i < n
            invariant
                i <= n,
                n == objects@.len(),
                out@ == old(out)@ + indices_of_kind(objects.deep_view(), folders, i as int),
            decreases n - i,
        {
            proof {
                assert(objects.deep_view()[i as int] == objects@[i as int]@);
            }
            if objects[i].is_folder == folders {
                out.push(i);
                proof {
                    assert(out@ =~= old(out)@ + indices_of_kind(
                        objects.deep_view(),
                        folders,
                        i + 1,
                    ));
                }
            }
            i += 1;
        }
    }

    /// Builds the view anew: the indices of the folders, then those of the
    /// files.
    pub fn rebuild_sorted_view(&mut self)
        ensures
            final(self)@ == old(self)@.with_sorted_view(),
            final(self)@.view_is_current(),
    {
        let mut view: Vec<usize> = Vec::new();
        FolderNode::push_indices(&self.objects, true, &mut view);
        let folder_count = view.len();
        proof {
            assert(view@ =~= indices_of_kind(
                self.objects.deep_view(),
                true,
                self.objects@.len() as int,
            ));
        }
        FolderNode::push_indices(&self.objects, false, &mut view);
        self.sorted_view = view;
        self.folder_count = folder_count;
        self.cached_objects_size = self.objects.len();
    }

    /// Builds the view anew where the number of objects has changed since it
    /// was built.
    pub fn rebuild_sorted_view_if_needed(&mut self)
        ensures
            final(self)@ == if old(self)@.cached_objects_size == old(self)@.objects.len() {
                old(self)@
            } else {
                old(self)@.with_sorted_view()
            },
    {
        if self.cached_objects_size == self.objects.len() {
            return ;
        }
        self.rebuild_sorted_view();
    }
}

/// The key under which the node of a folder is kept: bucket, a slash, and
/// the prefix.
pub open spec fn node_key(bucket: Seq<char>, prefix: Seq<char>) -> Seq<char> {
    bucket + seq!['/'] + prefix
}

/// Builds the key of a folder's node.
pub fn make_node_key(bucket: &str, prefix: &str) -> (r: String)
    ensures
        r@ == node_key(bucket@, prefix@),
{
    let mut key = String::new();
    push_text(&mut key, bucket);
    key.push('/');
    push_text(&mut key, prefix);
    proof {
        assert(key@ =~= node_key(bucket@, prefix@));
    }
    key
}

/// Builds the key of an object's preview: bucket, a slash, and the key.
pub fn make_preview_cache_key(bucket: &str, key: &str) -> (r: String)
    ensures
        r@ == node_key(bucket@, key@),
{
    make_node_key(bucket, key)
}

/// The index of the first character of `s` at or after `from` that is not a
/// slash.
pub open spec fn skip_slashes(s: Seq<char>, from: int) -> int
    decreases s.len() - from,
{
    if 0 <= from < s.len() && s[from] == '/' {
        skip_slashes(s, from + 1)
    } else {
        from
    }
}

/// The bucket and the prefix that an S3 path names. A leading `s3://` or
/// `s3:` and leading slashes do not count; the bucket ends at the first
/// slash, and the prefix is what follows it. Both are empty for the root.
pub open spec fn s3_path_parts(path: Seq<char>) -> (Seq<char>, Seq<char>) {
    let start = if occurs_at(path, "s3://"@, 0) {
        "s3://"@.len() as int
    } else if occurs_at(path, "s3:"@, 0) {
        "s3:"@.len() as int
    } else {
        0
    };
    let p = path.skip(skip_slashes(path, start));
    match find_char_from(p, '/', 0) {
        Some(i) => (p.take(i), p.skip(i + 1)),
        None => (p, Seq::empty()),
    }
}

/// Parses an S3 path into bucket and prefix. Every path parses.
pub fn parse_s3_path(path: &str) -> (r: Option<(String, String)>)
    ensures
        r matches Some(parts) && (parts.0@, parts.1@) == s3_path_parts(path@),
{
    let p = crate::text::chars_of(path);
    let n = p.len();
    let long = crate::text::chars_of("s3://");
    let short = crate::text::chars_of("s3:");
    let start: usize = if starts_with_at(p.as_slice(), 0, "s3://") {
        long.len()
    } else if starts_with_at(p.as_slice(), 0, "s3:") {
        short.len()
    } else {
        0
    };
    let mut from: usize = start;
    while from < n && p[from] == '/'
        invariant
            start <= from <= n,
            n == p@.len(),
            skip_slashes(p@, start as int) == skip_slashes(p@, from as int),
        decreases n - from,
    {
        from += 1;
    }
    let rest = vstd::slice::slice_subrange(p.as_slice(), from, n);
    proof {
        assert(rest@ == p@.skip(from as int));
        lemma_find_char_from(rest@, '/', 0);
    }
    match find_char(rest, '/', 0) {
        Some(i) => {
            proof {
                assert(rest@.take(i as int) == rest@.subrange(0, i as int));
                assert(rest@.skip(i + 1) == rest@.subrange(i + 1, rest@.len() as int));
            }
            Some((string_of(rest, 0, i), string_of(rest, i + 1, n - from)))
        },
        None => {
            proof {
                assert(rest@.subrange(0, rest@.len() as int) == rest@);
            }
            Some((string_of(rest, 0, n - from), String::new()))
        },
    }
}

/// Whether one of the objects has the given key.
pub open spec fn has_key(objects: Seq<S3ObjectView>, key: Seq<char>) -> bool {
    exists|i: int| 0 <= i < objects.len() && #[trigger] objects[i].key == key
}

/// The objects among the first `upto` of `page` whose keys none of
/// `existing` has, in order.
pub open spec fn new_objects(existing: Seq<S3ObjectView>, page: Seq<S3ObjectView>, upto: int) -> Seq<
    S3ObjectView,
>
    decreases upto,
{
    if upto <= 0 {
        Seq::empty()
    } else if has_key(existing, page[upto - 1].key) {
        new_objects(existing, page, upto - 1)
    } else {
        new_objects(existing, page, upto - 1).push(page[upto - 1])
    }
}

/// The objects of a folder after a page has arrived: the page itself where
/// it is the first (its continuation token is empty); else the objects so
/// far, and behind them the objects of the page whose keys are new.
pub open spec fn merged_objects(
    existing: Seq<S3ObjectView>,
    page: Seq<S3ObjectView>,
    continuation_token: Seq<char>,
) -> Seq<S3ObjectView> {
    if continuation_token.len() == 0 {
        page
    } else {
        existing + new_objects(existing, page, page.len() as int)
    }
}

/// Whether no two of the objects have the same key.
pub open spec fn distinct_keys(objects: Seq<S3ObjectView>) -> bool {
    forall|i: int, j: int|
        0 <= i < objects.len() && 0 <= j < objects.len() && i != j ==> objects[i].key
            != objects[j].key
}

/// Whether `object` is one of the first `upto` objects of `page`.
pub open spec fn among_first(page: Seq<S3ObjectView>, upto: int, object: S3ObjectView) -> bool {
    exists|m: int| 0 <= m < upto && #[trigger] page[m] == object
}

/// The new objects of a page are objects of the page, in its order, and
/// none of them has a key of an existing object; every object of the page
/// with a new key is among them.
pub proof fn lemma_new_objects(existing: Seq<S3ObjectView>, page: Seq<S3ObjectView>, upto: int)
    requires
        0 <= upto <= page.len(),
        distinct_keys(page),
    ensures
        distinct_keys(new_objects(existing, page, upto)),
        forall|k: int|
            0 <= k < new_objects(existing, page, upto).len() ==> {
                &&& !has_key(existing, (#[trigger] new_objects(existing, page, upto)[k]).key)
                &&& among_first(page, upto, new_objects(existing, page, upto)[k])
            },
        forall|m: int|
            0 <= m < upto && !has_key(existing, page[m].key) ==> has_key(
                new_objects(existing, page, upto),
                #[trigger] page[m].key,
            ),
    decreases upto,
{
    if upto > 0 {
        lemma_new_objects(existing, page, upto - 1);
        let prev = new_objects(existing, page, upto - 1);
        let cur = new_objects(existing, page, upto);
        if !has_key(existing, page[upto - 1].key) {
            assert forall|i: int, j: int| 0 <= i < cur.len() && 0 <= j < cur.len() && i != j implies cur[i].key
                != cur[j].key by {
                if i < prev.len() && j < prev.len() {
                } else if i < prev.len() {
                    let m = choose|m: int| 0 <= m < upto - 1 && #[trigger] page[m] == prev[i];
                    assert(page[m].key != page[upto - 1].key);
                } else {
                    let m = choose|m: int| 0 <= m < upto - 1 && #[trigger] page[m] == prev[j];
                    assert(page[m].key != page[upto - 1].key);
                }
            }
            assert forall|k: int| 0 <= k < cur.len() implies among_first(
                page,
                upto,
                #[trigger] cur[k],
            ) by {
                if k < prev.len() {
                    let m = choose|m: int| 0 <= m < upto - 1 && #[trigger] page[m] == prev[k];
                    assert(page[m] == cur[k]);
                } else {
                    assert(page[upto - 1] == cur[k]);
                }
            }
            assert forall|m: int| 0 <= m < upto && !has_key(existing, page[m].key) implies has_key(
                cur,
                #[trigger] page[m].key,
            ) by {
                if m < upto - 1 {
                    let k = choose|k: int| 0 <= k < prev.len() && prev[k].key == page[m].key;
                    assert(cur[k].key == page[m].key);
                } else {
                    assert(cur[cur.len() - 1].key == page[m].key);
                }
            }
        } else {
            assert forall|m: int| 0 <= m < upto && !has_key(existing, page[m].key) implies has_key(
                cur,
                #[trigger] page[m].key,
            ) by {
                assert(m < upto - 1);
            }
        }
    }
}

/// After a first page and a continuation page with overlapping keys, the
/// folder holds each key exactly once, and the first occurrence of each: the
/// objects of the first page stay where they are, and the continuation adds
/// only objects with keys that the first page lacks.
pub proof fn lemma_pagination_dedups(
    first: Seq<S3ObjectView>,
    second: Seq<S3ObjectView>,
    token: Seq<char>,
    before: Seq<S3ObjectView>,
)
    requires
        token.len() > 0,
        distinct_keys(first),
        distinct_keys(second),
    ensures
        ({
            let loaded = merged_objects(before, first, Seq::empty());
            let merged = merged_objects(loaded, second, token);
            &&& loaded == first
            &&& distinct_keys(merged)
            &&& first.is_prefix_of(merged)
            &&& forall|m: int|
                0 <= m < second.len() ==> has_key(merged, #[trigger] second[m].key)
            &&& forall|k: int|
                0 <= k < merged.len() ==> has_key(first, (#[trigger] merged[k]).key) || has_key(
                    second,
                    merged[k].key,
                )
        }),
{
    let fresh = new_objects(first, second, second.len() as int);
    let merged = first + fresh;
    lemma_new_objects(first, second, second.len() as int);
    assert forall|i: int, j: int| 0 <= i < merged.len() && 0 <= j < merged.len() && i != j implies merged[i].key
        != merged[j].key by {
        if i < first.len() && j < first.len() {
        } else if i >= first.len() && j >= first.len() {
            assert(fresh[i - first.len()].key != fresh[j - first.len()].key);
        } else if i < first.len() {
            assert(!has_key(first, fresh[j - first.len()].key));
        } else {
            assert(!has_key(first, fresh[i - first.len()].key));
        }
    }
    assert forall|m: int| 0 <= m < second.len() implies has_key(merged, #[trigger] second[m].key) by {
        if has_key(first, second[m].key) {
            let i = choose|i: int| 0 <= i < first.len() && first[i].key == second[m].key;
            assert(merged[i].key == second[m].key);
        } else {
            let k = choose|k: int| 0 <= k < fresh.len() && fresh[k].key == second[m].key;
            assert(merged[first.len() + k].key == second[m].key);
        }
    }
    assert forall|k: int| 0 <= k < merged.len() implies has_key(first, (#[trigger] merged[k]).key)
        || has_key(second, merged[k].key) by {
        if k < first.len() {
            assert(first[k].key == merged[k].key);
        } else {
            let m = choose|m: int| 0 <= m < second.len() && #[trigger] second[m] == fresh[k - first.len()];
            assert(second[m].key == merged[k].key);
        }
    }
}

/// Tests whether one of the first `count` objects has the given key.
fn holds_key(objects: &Vec<S3Object>, count: usize, key: &str) -> (r: bool)
    requires
        count <= objects@.len(),
    ensures
        r == has_key(objects.deep_view().take(count as int), key@),
{
    let mut i: usize = 0;
    while i < count
        invariant
            i <= count <= objects@.len(),
            forall|j: int| 0 <= j < i ==> objects@[j]@.key != key@,
        decreases count - i,
    {
        if str_equals(objects[i].key.as_str(), key) {
            proof {
                assert(objects.deep_view().take(count as int)[i as int].key == key@);
            }
            return true;
        }
        i += 1;
    }
    proof {
        let d = objects.deep_view().take(count as int);
        assert forall|j: int| 0 <= j < d.len() implies d[j].key != key@ by {
            assert(d[j] == objects@[j]@);
        }
    }
    false
}

/// Takes a page of a listing into the objects of a folder.
pub fn merge_objects(objects: &mut Vec<S3Object>, page: Vec<S3Object>, continuation_token: &str)
    ensures
        final(objects).deep_view() == merged_objects(
            old(objects).deep_view(),
            page.deep_view(),
            continuation_token@,
        ),
{
    if continuation_token.is_empty() {
        *objects = page;
        return ;
    }
    let existing = objects.len();
    let ghost before = objects.deep_view();
    let ghost incoming = page.deep_view();
    let mut page = page;
    let n = page.len();
    let mut i: usize = 0;
    proof {
        assert(before + new_objects(before, incoming, 0) =~= before);
    }
    while i < n
        invariant
            i <= n,
            n == page@.len(),
            page.deep_view() == incoming,
            existing == before.len(),
            existing <= objects@.len(),
            objects.deep_view() == before + new_objects(before, incoming, i as int),
        decreases n - i,
    {
        proof {
            assert(objects.deep_view().take(existing as int) =~= before);
            assert(incoming[i as int] == page@[i as int]@);
        }
        if !holds_key(objects, existing, page[i].key.as_str()) {
            let object = page[i].clone();
            proof {
                lemma_deep_view_push(objects@, objects@.push(object), object);
                assert((before + new_objects(before, incoming, i as int)).push(object@) =~= before
                    + new_objects(before, incoming, i + 1));
            }
            objects.push(object);
        }
        i += 1;
    }
}

} // verus!
