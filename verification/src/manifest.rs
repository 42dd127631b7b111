//! Theme manifests: the `manifest.hl` file of a theme directory.

use crate::path::{file_stem, path_stem};
use crate::text::{entries, entry_views, parse_entries, same_text, text_of, Entry};
use vstd::prelude::*;
use vstd::string::*;

verus! {

/// What the manifest of a theme says.
#[derive(Debug)]
pub struct Manifest {
    /// The name of the theme; where the manifest gives none, the stem of
    /// the theme directory's name.
    pub name: String,
    pub description: Option<String>,
    pub version: Option<String>,
    pub author: Option<String>,
    /// The directory, below the theme directory, that holds the cursors.
    pub cursors_directory: Option<String>,
}

/// A `Manifest` with its texts as sequences of characters.
pub struct ManifestView {
    pub name: Seq<char>,
    pub description: Option<Seq<char>>,
    pub version: Option<Seq<char>>,
    pub author: Option<Seq<char>>,
    pub cursors_directory: Option<Seq<char>>,
}

impl View for Manifest {
    type V = ManifestView;

    open spec fn view(&self) -> ManifestView {
        ManifestView {
            name: self.name@,
            description: text_of(self.description),
            version: text_of(self.version),
            author: text_of(self.author),
            cursors_directory: text_of(self.cursors_directory),
        }
    }
}

/// The value of the last entry with the identifier `ident`, if there is
/// one.
pub open spec fn last_value(es: Seq<(Seq<char>, Seq<char>)>, ident: Seq<char>) -> Option<
    Seq<char>,
>
    decreases es.len(),
{
    if es.len() == 0 {
        None
    } else if es.last().0 == ident {
        Some(es.last().1)
    } else {
        last_value(es.drop_last(), ident)
    }
}

/// What the entries of a manifest say. Each field is the value of the last
/// entry that sets it. Without a `name` entry the name is `fallback`, and
/// without that there is no manifest.
pub open spec fn manifest_of_entries(
    fallback: Option<Seq<char>>,
    es: Seq<(Seq<char>, Seq<char>)>,
) -> Option<ManifestView> {
    let name = match last_value(es, "name"@) {
        Some(name) => Some(name),
        None => fallback,
    };
    match name {
        None => None,
        Some(name) => Some(
            ManifestView {
                name,
                description: last_value(es, "description"@),
                version: last_value(es, "version"@),
                author: last_value(es, "author"@),
                cursors_directory: last_value(es, "cursors_directory"@),
            },
        ),
    }
}

/// What a manifest text says, with `fallback` as the name to use where the
/// text gives none.
pub open spec fn manifest_of(fallback: Option<Seq<char>>, text: Seq<char>) -> Option<
    ManifestView,
> {
    manifest_of_entries(fallback, entries(text))
}

/// A manifest, if there is one, with its texts as sequences of characters.
pub open spec fn manifest_view(m: Option<Manifest>) -> Option<ManifestView> {
    match m {
        Some(m) => Some(m@),
        None => None,
    }
}

/// The last value of an identifier, after one more entry.
pub proof fn lemma_last_value_push(
    es: Seq<(Seq<char>, Seq<char>)>,
    e: (Seq<char>, Seq<char>),
    ident: Seq<char>,
)
    ensures
        last_value(es.push(e), ident) == if e.0 == ident {
            Some(e.1)
        } else {
            last_value(es, ident)
        },
{
    assert(es.push(e).drop_last() =~= es);
}

/// The entry that `last_value` picks: the last with that identifier.
pub proof fn lemma_last_value_is(es: Seq<(Seq<char>, Seq<char>)>, ident: Seq<char>, i: int)
    requires
        0 <= i < es.len(),
        es[i].0 == ident,
        forall|j: int| i < j < es.len() ==> es[j].0 != ident,
    ensures
        last_value(es, ident) == Some(es[i].1),
    decreases es.len(),
{
    if es.last().0 == ident {
    } else {
        lemma_last_value_is(es.drop_last(), ident, i);
    }
}

/// Without an entry of that identifier there is no last value.
pub proof fn lemma_last_value_none(es: Seq<(Seq<char>, Seq<char>)>, ident: Seq<char>)
    requires
        forall|j: int| 0 <= j < es.len() ==> es[j].0 != ident,
    ensures
        last_value(es, ident) is None,
    decreases es.len(),
{
    if es.len() > 0 {
        lemma_last_value_none(es.drop_last(), ident);
    }
}

/// A manifest with a `name` line has the name that its last `name` line
/// gives, whatever the theme directory is called.
pub proof fn law_explicit_name(dir: Seq<char>, text: Seq<char>, i: int)
    requires
        0 <= i < entries(text).len(),
        entries(text)[i].0 == "name"@,
        forall|j: int| i < j < entries(text).len() ==> entries(text)[j].0 != "name"@,
    ensures
        manifest_of(path_stem(dir), text) is Some,
        manifest_of(path_stem(dir), text)->0.name == entries(text)[i].1,
{
    lemma_last_value_is(entries(text), "name"@, i);
}

/// A manifest without a `name` line has the stem of the theme directory's
/// name as its name, and a directory without a stem has no manifest then.
pub proof fn law_fallback_name(dir: Seq<char>, text: Seq<char>)
    requires
        forall|j: int| 0 <= j < entries(text).len() ==> entries(text)[j].0 != "name"@,
    ensures
        match path_stem(dir) {
            Some(stem) => manifest_of(path_stem(dir), text) is Some && manifest_of(
                path_stem(dir),
                text,
            )->0.name == stem,
            None => manifest_of(path_stem(dir), text) is None,
        },
{
    lemma_last_value_none(entries(text), "name"@);
}

impl Manifest {
    /// Reads a manifest from its text, with the name to use where the text
    /// gives none. Identifiers that the format does not know are passed
    /// over.
    pub fn parse(fallback: Option<String>, file: &str) -> (manifest: Option<Manifest>)
        ensures
            manifest_view(manifest) == manifest_of(text_of(fallback), file@),
    {
        let found = parse_entries(file);
        let ghost es = entries(file@);
        let mut name: Option<String> = None;
        let mut description: Option<String> = None;
        let mut version: Option<String> = None;
        let mut author: Option<String> = None;
        let mut cursors_directory: Option<String> = None;
        let mut i: usize = 0;
        assert(es.take(0) =~= Seq::<(Seq<char>, Seq<char>)>::empty());
        while i < found.len()
            invariant
                i <= found.len(),
                es == entries(file@),
                entry_views(found@) == es,
                text_of(name) == last_value(es.take(i as int), "name"@),
                text_of(description) == last_value(es.take(i as int), "description"@),
                text_of(version) == last_value(es.take(i as int), "version"@),
                text_of(author) == last_value(es.take(i as int), "author"@),
                text_of(cursors_directory) == last_value(
                    es.take(i as int),
                    "cursors_directory"@,
                ),
            decreases found.len() - i,
        {
            let entry: &Entry = &found[i];
            proof {
                assert(es.take(i + 1) =~= es.take(i as int).push(entry@));
                lemma_last_value_push(es.take(i as int), entry@, "name"@);
                lemma_last_value_push(es.take(i as int), entry@, "description"@);
                lemma_last_value_push(es.take(i as int), entry@, "version"@);
                lemma_last_value_push(es.take(i as int), entry@, "author"@);
                lemma_last_value_push(es.take(i as int), entry@, "cursors_directory"@);
            }
            let ident: &str = entry.ident.as_str();
            if same_text(ident, "name") {
                name = Some(entry.value.clone());
            }
            if same_text(ident, "description") {
                description = Some(entry.value.clone());
            }
            if same_text(ident, "author") {
                author = Some(entry.value.clone());
            }
            if same_text(ident, "version") {
                version = Some(entry.value.clone());
            }
            if same_text(ident, "cursors_directory") {
                cursors_directory = Some(entry.value.clone());
            }
            i += 1;
        }
        assert(es.take(i as int) =~= es);
        let name = match name {
            Some(name) => name,
            None => match fallback {
                Some(name) => name,
                None => {
                    return None;
                },
            },
        };
        Some(Manifest { name, description, version, author, cursors_directory })
    }

    /// Reads the manifest of the theme directory `dir` from its text. A
    /// manifest that gives no name is named after the directory: by the
    /// stem of the directory's name. Where the directory has no name
    /// either, there is no manifest.
    pub fn from_hyprlang(dir: &str, file: &str) -> (manifest: Option<Manifest>)
        ensures
            manifest_view(manifest) == manifest_of(path_stem(dir@), file@),
    {
        Manifest::parse(file_stem(dir), file)
    }
}

} // verus!
