//! Themes: finding one by name among candidate directories, loading its
//! cursors, and finding a cursor by one of its names.
//!
//! Nothing here touches the file system. The caller lists the candidate
//! directories in search order with what their manifests hold, says whether
//! the cursors directory exists, and hands over the files of that
//! directory.

use crate::cursor::{holds_images, is_container_path, load_of, Hyprcursor};
use crate::error::{Error, Failure};
use crate::manifest::{manifest_of, Manifest, ManifestView};
use crate::meta::{texts, MetaView};
use crate::path::{join, path_join, path_stem};
use crate::text::{same_text, text_of};
use vstd::prelude::*;
use vstd::string::*;

verus! {

/// The texts that an optional vector of strings holds.
pub open spec fn texts_of(v: Option<Vec<String>>) -> Option<Seq<Seq<char>>> {
    match v {
        Some(v) => Some(texts(v@)),
        None => None,
    }
}

/// The roots below which theme directories are looked for, in search
/// order. The roots of the user come first: `icons` in the data home,
/// which is `.local/share` at home unless it is given, then `.icons` at
/// home. The roots of the system follow: `icons` in each of the data
/// directories, in their order, or `/usr/share/icons` where none are
/// given.
pub open spec fn roots_of(
    home: Seq<char>,
    data_home: Option<Seq<char>>,
    data_dirs: Option<Seq<Seq<char>>>,
) -> Seq<Seq<char>> {
    let data_home = match data_home {
        Some(dir) => dir,
        None => path_join(home, ".local/share"@),
    };
    let user = seq![path_join(data_home, "icons"@), path_join(home, ".icons"@)];
    let system = match data_dirs {
        Some(dirs) => Seq::new(dirs.len(), |i: int| path_join(dirs[i], "icons"@)),
        None => seq!["/usr/share/icons"@],
    };
    user + system
}

/// The roots below which theme directories are looked for, in search
/// order, from the home directory, the data home if it is set, and the
/// data directories if they are set.
pub fn search_roots(home: &str, data_home: Option<String>, data_dirs: Option<Vec<String>>) -> (roots:
    Vec<String>)
    ensures
        texts(roots@) == roots_of(home@, text_of(data_home), texts_of(data_dirs)),
{
    let data_home = match data_home {
        Some(dir) => dir,
        None => join(home, ".local/share"),
    };
    let mut roots: Vec<String> = Vec::new();
    roots.push(join(data_home.as_str(), "icons"));
    roots.push(join(home, ".icons"));
    let ghost user = seq![roots@[0]@, roots@[1]@];
    assert(texts(roots@) =~= user);
    match data_dirs {
        Some(dirs) => {
            let ghost system = Seq::new(dirs@.len(), |i: int| path_join(dirs@[i]@, "icons"@));
            let mut i: usize = 0;
            while i < dirs.len()
                invariant
                    i <= dirs.len(),
                    system == Seq::new(dirs@.len(), |i: int| path_join(dirs@[i]@, "icons"@)),
                    texts(roots@) == user + system.take(i as int),
                decreases dirs.len() - i,
            {
                let ghost before = texts(roots@);
                roots.push(join(dirs[i].as_str(), "icons"));
                proof {
                    assert(texts(roots@) =~= before.push(system[i as int]));
                    assert(user + system.take(i + 1) =~= (user + system.take(i as int)).push(
                        system[i as int],
                    ));
                }
                i += 1;
            }
            proof {
                assert(system.take(i as int) =~= system);
                assert(system =~= Seq::new(
                    texts(dirs@).len(),
                    |i: int| path_join(texts(dirs@)[i], "icons"@),
                ));
            }
        },
        None => {
            let ghost before = texts(roots@);
            roots.push("/usr/share/icons".to_owned());
            proof {
                assert(texts(roots@) =~= before.push("/usr/share/icons"@));
                assert(user + seq!["/usr/share/icons"@] =~= user.push("/usr/share/icons"@));
            }
        },
    }
    roots
}

/// What was found where the manifest of a theme directory should be.
#[derive(Debug)]
pub enum ManifestFile {
    /// The text of `manifest.hl`.
    Hyprlang(String),
    /// There is no readable `manifest.hl`, but a `manifest.toml`.
    Toml,
    /// There is neither.
    Missing,
}

/// A directory that may hold a theme.
#[derive(Debug)]
pub struct Candidate {
    /// The path of the directory.
    pub dir: String,
    pub manifest: ManifestFile,
}

/// A file of a cursors directory.
#[derive(Debug)]
pub struct ContainerFile {
    /// The path of the file.
    pub path: String,
    /// What the file holds.
    pub bytes: Vec<u8>,
}

/// The manifest that a candidate's `manifest.hl` gives, if it has that
/// file and the file can be read as a manifest.
pub open spec fn candidate_manifest(c: Candidate) -> Option<ManifestView> {
    match c.manifest {
        ManifestFile::Hyprlang(text) => manifest_of(path_stem(c.dir@), text@),
        _ => None,
    }
}

/// Whether a candidate is the theme `name`: whether its manifest can be
/// read and gives that name.
pub open spec fn is_theme(name: Seq<char>, c: Candidate) -> bool {
    candidate_manifest(c) matches Some(m) && m.name == name
}

/// Whether a candidate ends the search without a theme: its manifest is
/// written in TOML.
pub open spec fn is_unsupported(c: Candidate) -> bool {
    c.manifest is Toml
}

/// Whether the search passes over a candidate: it is not the theme, and
/// its manifest, if it has one, is no TOML.
pub open spec fn is_passed_over(name: Seq<char>, c: Candidate) -> bool {
    !is_theme(name, c) && !is_unsupported(c)
}

/// A theme: what its manifest says of it, where its cursors are, and the
/// cursors themselves.
#[derive(Debug)]
pub struct HyprcursorTheme {
    pub name: String,
    pub description: Option<String>,
    pub version: Option<String>,
    pub author: Option<String>,
    /// The directory, below the theme directory, that holds the cursors.
    pub cursors_directory: String,
    /// The path of the cursors directory.
    pub path: String,
    /// The cursors, in the order in which they were loaded.
    pub cache: Vec<Hyprcursor>,
}

/// Whether a cursor answers to a name: whether the name is one of its
/// overrides, letter for letter.
pub open spec fn answers_to(cursor: Hyprcursor, name: Seq<char>) -> bool {
    exists|k: int|
        0 <= k < cursor.meta.overrides.len() && (#[trigger] cursor.meta.overrides[k])@ == name
}

/// What one file of a cursors directory gives: nothing where it is no
/// cursor container, else the metadata of its cursor or what went wrong.
pub open spec fn file_outcome(file: ContainerFile) -> Result<Option<MetaView>, Failure> {
    if !is_container_path(file.path@) {
        Ok(None)
    } else {
        match load_of(path_stem(file.path@)->0, file.path@, file.bytes@) {
            Ok(meta) => Ok(Some(meta)),
            Err(fault) => Err(fault),
        }
    }
}

/// What the files of a cursors directory give, taken in order: the
/// metadata of the cursors of all containers among them, or what went
/// wrong with the first file that something went wrong with.
pub open spec fn files_outcome(files: Seq<ContainerFile>) -> Result<Seq<MetaView>, Failure>
    decreases files.len(),
{
    if files.len() == 0 {
        Ok(Seq::empty())
    } else {
        match files_outcome(files.drop_last()) {
            Err(fault) => Err(fault),
            Ok(metas) => match file_outcome(files.last()) {
                Err(fault) => Err(fault),
                Ok(None) => Ok(metas),
                Ok(Some(meta)) => Ok(metas.push(meta)),
            },
        }
    }
}

/// Whether a cursor is the one that a file of a cursors directory holds.
pub open spec fn is_cursor_of(cursor: Hyprcursor, file: ContainerFile) -> bool {
    &&& is_container_path(file.path@)
    &&& load_of(path_stem(file.path@)->0, file.path@, file.bytes@) == Ok::<MetaView, Failure>(
        cursor.meta@,
    )
    &&& holds_images(cursor, file.bytes@)
    &&& cursor.is_sound()
}

/// Whether a cursor is the one that one of the first `count` files holds.
pub open spec fn comes_from(cursor: Hyprcursor, files: Seq<ContainerFile>, count: int) -> bool {
    exists|j: int| 0 <= j < count && j < files.len() && is_cursor_of(cursor, #[trigger] files[j])
}

/// The metadata of cursors, in order.
pub open spec fn cursor_metas(cursors: Seq<Hyprcursor>) -> Seq<MetaView> {
    Seq::new(cursors.len(), |i: int| cursors[i].meta@)
}

/// Whether a cursor answers to one of the names in `overrides`.
fn has_override(overrides: &Vec<String>, name: &str) -> (found: bool)
    ensures
        found == exists|k: int| 0 <= k < overrides.len() && (#[trigger] overrides[k])@ == name@,
{
    let mut k: usize = 0;
    while k < overrides.len()
        invariant
            k <= overrides.len(),
            forall|j: int| 0 <= j < k ==> (#[trigger] overrides[j])@ != name@,
        decreases overrides.len() - k,
    {
        if same_text(overrides[k].as_str(), name) {
            return true;
        }
        k += 1;
    }
    false
}

impl HyprcursorTheme {
    /// Finds the theme `name` among candidate directories, which stand in
    /// search order. The first candidate whose manifest can be read and
    /// gives that name is the theme; the result is its index and its
    /// manifest. Candidates without a manifest, with one that cannot be
    /// read, or with another name are passed over. A candidate whose
    /// manifest is written in TOML, met before the theme is found, ends
    /// the search as unsupported. Where the candidates run out, the theme
    /// is not found.
    pub fn find(name: &str, candidates: &Vec<Candidate>) -> (found: Result<
        (usize, Manifest),
        Error,
    >)
        ensures
            (forall|j: int|
                0 <= j < candidates.len() ==> is_passed_over(name@, #[trigger] candidates[j]))
                ==> (found matches Err(e) && e@ == Failure::ThemeNotFound),
            match found {
                Ok((i, manifest)) => {
                    &&& i < candidates.len()
                    &&& candidate_manifest(candidates[i as int]) == Some(manifest@)
                    &&& manifest.name@ == name@
                    &&& forall|j: int| 0 <= j < i ==> is_passed_over(name@, #[trigger] candidates[j])
                },
                Err(e) => {
                    ||| {
                        &&& e@ == Failure::ThemeNotFound
                        &&& forall|j: int|
                            0 <= j < candidates.len() ==> is_passed_over(
                                name@,
                                #[trigger] candidates[j],
                            )
                    }
                    ||| exists|i: int|
                        {
                            &&& 0 <= i < candidates.len()
                            &&& is_unsupported(#[trigger] candidates[i])
                            &&& e@ == Failure::Unsupported(candidates[i].dir@)
                            &&& forall|j: int|
                                0 <= j < i ==> is_passed_over(name@, #[trigger] candidates[j])
                        }
                },
            },
    {
        let mut i: usize = 0;
        while i < candidates.len()
            invariant
                i <= candidates.len(),
                forall|j: int| 0 <= j < i ==> is_passed_over(name@, #[trigger] candidates[j]),
            decreases candidates.len() - i,
        {
            let candidate: &Candidate = &candidates[i];
            match &candidate.manifest {
                ManifestFile::Hyprlang(text) => {
                    match Manifest::from_hyprlang(candidate.dir.as_str(), text.as_str()) {
                        Some(manifest) => {
                            if same_text(manifest.name.as_str(), name) {
                                return Ok((i, manifest));
                            }
                        },
                        None => {},
                    }
                },
                ManifestFile::Toml => {
                    return Err(Error::Unsupported(candidate.dir.clone()));
                },
                ManifestFile::Missing => {},
            }
            i += 1;
        }
        Err(Error::ThemeNotFound)
    }

    /// Makes the theme that the manifest of the theme directory `dir`
    /// describes, without cursors yet. A manifest that names no cursors
    /// directory is refused. The cursors directory is looked for below
    /// the theme directory, and `is_directory` is asked whether there is a
    /// directory at its path; a theme without one is refused.
    pub fn new<F: Fn(&str) -> bool>(manifest: Manifest, dir: &str, is_directory: F) -> (theme:
        Result<HyprcursorTheme, Error>)
        requires
            forall|path: &str| is_directory.requires((path,)),
        ensures
            match theme {
                Ok(t) => {
                    &&& manifest.cursors_directory == Some(t.cursors_directory)
                    &&& t.path@ == path_join(dir@, t.cursors_directory@)
                    &&& exists|path: &str|
                        path@ == t.path@ && is_directory.ensures((path,), true)
                    &&& t.name == manifest.name
                    &&& t.description == manifest.description
                    &&& t.version == manifest.version
                    &&& t.author == manifest.author
                    &&& t.cache@.len() == 0
                },
                Err(e) => match manifest.cursors_directory {
                    None => e@ == Failure::CursorsDirectoryNotSet,
                    Some(cursors) => {
                        &&& e@ == Failure::CursorsDirectoryDoesntExist(cursors@)
                        &&& exists|path: &str|
                            path@ == path_join(dir@, cursors@) && is_directory.ensures(
                                (path,),
                                false,
                            )
                    },
                },
            },
    {
        let cursors_directory = match manifest.cursors_directory {
            Some(cursors) => cursors,
            None => {
                return Err(Error::CursorsDirectoryNotSet);
            },
        };
        let path = join(dir, cursors_directory.as_str());
        let asked: &str = path.as_str();
        let found = is_directory(asked);
        assert(asked@ == path@ && is_directory.ensures((asked,), found));
        if !found {
            return Err(Error::CursorsDirectoryDoesntExist(cursors_directory));
        }
        Ok(
            HyprcursorTheme {
                name: manifest.name,
                description: manifest.description,
                version: manifest.version,
                author: manifest.author,
                cursors_directory,
                path,
                cache: Vec::new(),
            },
        )
    }

    /// Loads the cursors of a theme from the files of its cursors
    /// directory, in the order of the files, and adds them to those that
    /// the theme has. Files that are no cursor containers are passed
    /// over. The first container that cannot be loaded ends the loading
    /// with its error, and no theme is given then.
    pub fn load(self, files: Vec<ContainerFile>) -> (theme: Result<HyprcursorTheme, Error>)
        ensures
            match theme {
                Ok(t) => {
                    &&& t.cache@.len() >= self.cache@.len()
                    &&& t.cache@.take(self.cache@.len() as int) == self.cache@
                    &&& files_outcome(files@) == Ok::<Seq<MetaView>, Failure>(
                        cursor_metas(t.cache@.skip(self.cache@.len() as int)),
                    )
                    &&& forall|i: int|
                        self.cache@.len() <= i < t.cache@.len() ==> comes_from(
                            #[trigger] t.cache@[i],
                            files@,
                            files@.len() as int,
                        )
                    &&& t.name == self.name
                    &&& t.description == self.description
                    &&& t.version == self.version
                    &&& t.author == self.author
                    &&& t.cursors_directory == self.cursors_directory
                    &&& t.path == self.path
                },
                Err(e) => files_outcome(files@) == Err::<Seq<MetaView>, Failure>(e@),
            },
    {
        let mut theme = self;
        let ghost all = files@;
        let ghost kept = self.cache@.len() as int;
        proof {
            assert(theme.cache@.take(kept) =~= self.cache@);
            assert(cursor_metas(theme.cache@.skip(kept)) =~= Seq::<MetaView>::empty());
            assert(all.take(0) =~= Seq::<ContainerFile>::empty());
        }
        for file in it: files
            invariant
                it.seq() == all,
                kept == self.cache@.len(),
                theme.cache@.len() >= kept,
                theme.cache@.take(kept) == self.cache@,
                files_outcome(all.take(it.index() as int)) == Ok::<Seq<MetaView>, Failure>(
                    cursor_metas(theme.cache@.skip(kept)),
                ),
                forall|i: int|
                    kept <= i < theme.cache@.len() ==> comes_from(
                        #[trigger] theme.cache@[i],
                        all,
                        it.index() as int,
                    ),
                theme.name == self.name,
                theme.description == self.description,
                theme.version == self.version,
                theme.author == self.author,
                theme.cursors_directory == self.cursors_directory,
                theme.path == self.path,
        {
            proof {
                assert(all.take(it.index() + 1).drop_last() =~= all.take(it.index() as int));
                assert(all.take(it.index() + 1).last() == file);
            }
            let ghost before = theme.cache@;
            match Hyprcursor::load(file.path.as_str(), file.bytes) {
                Err(e) => {
                    proof {
                        lemma_files_outcome_fails(all, it.index() + 1);
                    }
                    return Err(e);
                },
                Ok(None) => {
                    assert forall|i: int| kept <= i < theme.cache@.len() implies comes_from(
                        #[trigger] theme.cache@[i],
                        all,
                        it.index() + 1,
                    ) by {
                        lemma_comes_from_more(theme.cache@[i], all, it.index() as int);
                    }
                },
                Ok(Some(cursor)) => {
                    theme.cache.push(cursor);
                    proof {
                        assert(theme.cache@.take(kept) =~= before.take(kept));
                        assert(cursor_metas(theme.cache@.skip(kept)) =~= cursor_metas(
                            before.skip(kept),
                        ).push(cursor.meta@));
                        assert(is_cursor_of(cursor, all[it.index() as int]));
                        assert forall|i: int| kept <= i < theme.cache@.len() implies comes_from(
                            #[trigger] theme.cache@[i],
                            all,
                            it.index() + 1,
                        ) by {
                            if i < before.len() {
                                assert(theme.cache@[i] == before[i]);
                                lemma_comes_from_more(before[i], all, it.index() as int);
                            }
                        }
                    }
                },
            }
        }
        assert(all.take(all.len() as int) =~= all);
        Ok(theme)
    }

    /// Finds a cursor by one of its names: the first cursor, in the order
    /// in which the cursors were loaded, that has the name among its
    /// overrides. A name that no cursor has gives nothing.
    pub fn load_cursor(&self, name: &str) -> (cursor: Option<&Hyprcursor>)
        ensures
            cursor is Some <==> exists|i: int|
                0 <= i < self.cache@.len() && answers_to(#[trigger] self.cache@[i], name@),
            match cursor {
                Some(c) => exists|i: int|
                    {
                        &&& 0 <= i < self.cache@.len()
                        &&& #[trigger] self.cache@[i] == *c
                        &&& answers_to(*c, name@)
                        &&& forall|j: int| 0 <= j < i ==> !answers_to(#[trigger] self.cache@[j], name@)
                    },
                None => forall|i: int|
                    0 <= i < self.cache@.len() ==> !answers_to(#[trigger] self.cache@[i], name@),
            },
    {
        let mut i: usize = 0;
        while i < self.cache.len()
            invariant
                i <= self.cache.len(),
                forall|j: int| 0 <= j < i ==> !answers_to(#[trigger] self.cache@[j], name@),
            decreases self.cache.len() - i,
        {
            if has_override(&self.cache[i].meta.overrides, name) {
                return Some(&self.cache[i]);
            }
            i += 1;
        }
        None
    }
}

/// A cursor that comes from the first files comes from the first files
/// and one more.
pub proof fn lemma_comes_from_more(cursor: Hyprcursor, files: Seq<ContainerFile>, count: int)
    requires
        comes_from(cursor, files, count),
    ensures
        comes_from(cursor, files, count + 1),
{
    let j = choose|j: int|
        0 <= j < count && j < files.len() && is_cursor_of(cursor, #[trigger] files[j]);
    assert(0 <= j < count + 1 && is_cursor_of(cursor, files[j]));
}

/// Once the files up to some point have failed, all files fail with the
/// same fault.
pub proof fn lemma_files_outcome_fails(files: Seq<ContainerFile>, k: int)
    requires
        0 <= k <= files.len(),
        files_outcome(files.take(k)) is Err,
    ensures
        files_outcome(files) == files_outcome(files.take(k)),
    decreases files.len() - k,
{
    if k == files.len() {
        assert(files.take(k) =~= files);
    } else {
        assert(files.drop_last().take(k) =~= files.take(k));
        lemma_files_outcome_fails(files.drop_last(), k);
    }
}

} // verus!
