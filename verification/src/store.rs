//! The documents of a run: each manifest that was found, parsed, under its
//! path; and the text that a document is written out as.

use crate::document::{doc_view, parse_document, parsed, render, root_item, DocView};
use crate::error::{Error, Missing};
use crate::model::Node;
use toml_edit::Document;
use vstd::prelude::*;

verus! {

/// A manifest as it was found: its path, and its text where it could be read.
#[derive(Debug, Clone)]
pub struct Source {
    pub path: String,
    pub text: Option<String>,
}

/// A manifest of the run: its path and its document.
#[derive(Debug)]
pub struct ManifestFile {
    pub path: String,
    pub doc: Document,
}

/// A store in the picture: each path with what its document holds.
pub type Shown = Seq<(Seq<char>, DocView)>;

/// The source could be read and its text is a valid document.
pub open spec fn readable(source: Source) -> bool {
    source.text matches Some(text) && parsed(text@) is Some
}

/// How many sources at the front are readable.
pub open spec fn readable_count(sources: Seq<Source>) -> nat
    decreases sources.len(),
{
    if sources.len() == 0 {
        0
    } else if readable(sources.first()) {
        1 + readable_count(sources.drop_first())
    } else {
        0
    }
}

/// The place of the first entry with this path, or the length of the store
/// where it has none.
pub open spec fn slot(store: Shown, path: Seq<char>) -> nat
    decreases store.len(),
{
    if store.len() == 0 {
        0
    } else if store.first().0 == path {
        0
    } else {
        1 + slot(store.drop_first(), path)
    }
}

/// The store after a document was put in under a path: a path that is there
/// keeps its place and takes the new document, a new path goes to the end.
pub open spec fn put(store: Shown, path: Seq<char>, doc: DocView) -> Shown {
    if slot(store, path) < store.len() {
        store.update(slot(store, path) as int, (path, doc))
    } else {
        store.push((path, doc))
    }
}

/// The store that readable sources give, put in one after the other.
pub open spec fn stored(sources: Seq<Source>) -> Shown
    decreases sources.len(),
{
    if sources.len() == 0 {
        Seq::empty()
    } else {
        let last = sources.last();
        put(stored(sources.drop_last()), last.path@, parsed(last.text->0@)->0)
    }
}

/// The files of a store in the picture.
pub open spec fn shown(files: Seq<ManifestFile>) -> Shown {
    files.map_values(|f: ManifestFile| (f.path@, doc_view(f.doc)))
}

/// The root of every document of the store is a table.
pub open spec fn rooted(files: Seq<ManifestFile>) -> bool {
    forall|i: int| 0 <= i < files.len() ==> doc_view(#[trigger] files[i].doc).root is Block
}

/// No path stands twice in the store.
pub open spec fn distinct_paths(store: Shown) -> bool {
    forall|i: int, j: int|
        0 <= i < j < store.len() ==> (#[trigger] store[i]).0 != (#[trigger] store[j]).0
}

/// Where nothing before place `n` has the path, and place `n`, if there is
/// one, has it, the slot of the path is `n`.
proof fn lemma_slot(store: Shown, path: Seq<char>, n: int)
    requires
        0 <= n <= store.len(),
        forall|j: int| 0 <= j < n ==> (#[trigger] store[j]).0 != path,
        n < store.len() ==> store[n].0 == path,
    ensures
        slot(store, path) == n,
    decreases store.len(),
{
    if store.len() > 0 && n > 0 {
        lemma_slot(store.drop_first(), path, n - 1);
    }
}

/// The slot of a path is a place of that path, or the length.
proof fn lemma_slot_holds(store: Shown, path: Seq<char>)
    ensures
        slot(store, path) <= store.len(),
        slot(store, path) < store.len() ==> store[slot(store, path) as int].0 == path,
        forall|j: int| 0 <= j < slot(store, path) ==> (#[trigger] store[j]).0 != path,
    decreases store.len(),
{
    if store.len() > 0 && store.first().0 != path {
        let rest = store.drop_first();
        lemma_slot_holds(rest, path);
        assert forall|j: int| 0 <= j < slot(store, path) implies (#[trigger] store[j]).0
            != path by {
            if j > 0 {
                assert(store[j] == rest[j - 1]);
            }
        }
    }
}

/// Putting a document into a store of distinct paths leaves the paths
/// distinct.
proof fn lemma_put_distinct(store: Shown, path: Seq<char>, doc: DocView)
    requires
        distinct_paths(store),
    ensures
        distinct_paths(put(store, path, doc)),
{
    lemma_slot_holds(store, path);
}

/// Where the first `n` sources are readable, and the one after them, if
/// any, is not, `n` sources are counted.
proof fn lemma_readable_count(sources: Seq<Source>, n: int)
    requires
        0 <= n <= sources.len(),
        forall|j: int| 0 <= j < n ==> readable(#[trigger] sources[j]),
        n < sources.len() ==> !readable(sources[n]),
    ensures
        readable_count(sources) == n,
    decreases sources.len(),
{
    if sources.len() > 0 && n > 0 {
        lemma_readable_count(sources.drop_first(), n - 1);
    }
}

impl ManifestFile {
    /// Parses the text of the manifest at `path`.
    ///
    /// It fails with `Error::Parse` of the path exactly where the text is no
    /// valid document. The root of a parsed document is a table.
    pub fn parse(path: &str, text: &str) -> (r: Result<ManifestFile, Error>)
        ensures
            match parsed(text@) {
                Some(view) => {
                    &&& r matches Ok(file)
                    &&& file.path@ == path@
                    &&& doc_view(file.doc) == view
                    &&& view.root is Block
                },
                None => r matches Err(Error::Parse(p)) && p@ == path@,
            },
    {
        match parse_document(text) {
            Ok(doc) => Ok(ManifestFile { path: path.to_owned(), doc }),
            Err(_) => Err(Error::Parse(path.to_owned())),
        }
    }
}

/// The place of the first file with this path, or the number of files where
/// none has it.
fn position(files: &Vec<ManifestFile>, path: &String) -> (at: usize)
    ensures
        at == slot(shown(files@), path@),
        at <= files.len(),
{
    let mut at: usize = 0;
    while at < files.len()
        invariant
            at <= files.len(),
            forall|j: int| 0 <= j < at ==> (#[trigger] shown(files@)[j]).0 != path@,
        decreases files.len() - at,
    {
        if files[at].path == *path {
            proof {
                lemma_slot(shown(files@), path@, at as int);
            }
            return at;
        }
        at += 1;
    }
    proof {
        lemma_slot(shown(files@), path@, at as int);
    }
    at
}

/// Parses the manifests of a run and keeps each under its path.
///
/// The sources are taken in order. The first that could not be read ends
/// the run with `Error::Io` of its path, the first whose text is no valid
/// document with `Error::Parse` of its path, whichever comes first. Where a
/// path comes twice, the later document takes the place of the earlier one.
pub fn read_configs(sources: &Vec<Source>) -> (r: Result<Vec<ManifestFile>, Error>)
    ensures
        ({
            let n = readable_count(sources@);
            if n == sources.len() {
                &&& r matches Ok(files)
                &&& shown(files@) == stored(sources@)
                &&& distinct_paths(shown(files@))
                &&& rooted(files@)
            } else {
                match sources[n as int].text {
                    None => r matches Err(Error::Io(p)) && p@ == sources[n as int].path@,
                    Some(_) => r matches Err(Error::Parse(p)) && p@ == sources[n as int].path@,
                }
            }
        }),
{
    let mut files: Vec<ManifestFile> = Vec::new();
    let mut i: usize = 0;
    while i < sources.len()
        invariant
            i <= sources.len(),
            forall|j: int| 0 <= j < i ==> readable(#[trigger] sources[j]),
            shown(files@) == stored(sources@.take(i as int)),
            distinct_paths(shown(files@)),
            rooted(files@),
        decreases sources.len() - i,
    {
        let source = &sources[i];
        let text = match &source.text {
            Some(text) => text,
            None => {
                proof {
                    lemma_readable_count(sources@, i as int);
                }
                return Err(Error::Io(source.path.clone()));
            },
        };
        let doc = match parse_document(text.as_str()) {
            Ok(doc) => doc,
            Err(_) => {
                proof {
                    lemma_readable_count(sources@, i as int);
                }
                return Err(Error::Parse(source.path.clone()));
            },
        };
        let ghost before = shown(files@);
        let ghost view = doc_view(doc);
        proof {
            assert(sources@.take(i + 1).drop_last() =~= sources@.take(i as int));
            lemma_put_distinct(before, source.path@, view);
            lemma_slot_holds(before, source.path@);
        }
        let at = position(&files, &source.path);
        if at < files.len() {
            let file = &mut files[at];
            file.doc = doc;
            assert(shown(files@) =~= before.update(at as int, (source.path@, view)));
        } else {
            files.push(ManifestFile { path: source.path.clone(), doc });
        }
        i += 1;
    }
    proof {
        assert(sources@.take(sources.len() as int) =~= sources@);
        lemma_readable_count(sources@, sources.len() as int);
    }
    Ok(files)
}

/// The text of a document, as it is written out.
///
/// It fails with `Error::NotFound` where the root of the document is no
/// table; the root of a parsed document is one.
pub fn emit(doc: &Document) -> (r: Result<String, Error>)
    ensures
        match doc_view(*doc).root {
            Node::Block(_) => r matches Ok(text) && text@ == doc_view(*doc).text,
            _ => r == Err::<String, Error>(Error::NotFound(Missing::Root)),
        },
{
    match root_item(doc).as_table() {
        Some(_) => Ok(render(doc)),
        None => Err(Error::NotFound(Missing::Root)),
    }
}

} // verus!
