//! The managed media store.
//!
//! `MediaStore` models the store's slice of the filesystem as data: the
//! media root, the set of category directories that exist, and the
//! managed files with their contents. Each operation carries the exact
//! contract the store offers — which inputs succeed, which error every
//! other input raises, and how the store's contents change. A host layer
//! replays the successful operations as real filesystem calls.

use vstd::prelude::*;

use crate::category::Category;
use crate::errors::StoreError;
use crate::paths::{basename_of, joined, basename, join_path, str_eq};

verus! {

/// One managed file: its category directory, its filename, and its bytes.
pub struct ManagedFile {
    pub category: String,
    pub name: String,
    pub content: Vec<u8>,
}

impl ManagedFile {
    /// The (category, filename) pair that identifies the file.
    pub open spec fn key(self) -> (Seq<char>, Seq<char>) {
        (self.category@, self.name@)
    }
}

/// The store's abstract state: what the managed directory tree holds.
#[verifier::ext_equal]
pub struct StoreView {
    /// The media root's absolute path.
    pub root: Seq<char>,
    /// Whether the root directory itself has been created.
    pub root_created: bool,
    /// The category directories that exist directly under the root.
    pub dirs: Set<Seq<char>>,
    /// The managed files, keyed by (category, filename), with their bytes.
    pub files: Map<(Seq<char>, Seq<char>), Seq<u8>>,
}

impl StoreView {
    /// Every managed file lies in a category directory that exists.
    pub open spec fn inv(self) -> bool {
        forall|k: (Seq<char>, Seq<char>)| self.files.contains_key(k) ==> self.dirs.contains(k.0)
    }

    /// The store after a successful import: the category directory exists
    /// (creating it also creates the root), and the file holds the
    /// imported bytes, overwriting any earlier file of the same name.
    pub open spec fn with_import(
        self,
        category: Seq<char>,
        name: Seq<char>,
        content: Seq<u8>,
    ) -> StoreView {
        StoreView {
            root: self.root,
            root_created: true,
            dirs: self.dirs.insert(category),
            files: self.files.insert((category, name), content),
        }
    }

    /// The store after a successful delete: exactly that file is gone.
    pub open spec fn without_file(self, category: Seq<char>, name: Seq<char>) -> StoreView {
        StoreView { files: self.files.remove((category, name)), ..self }
    }

    /// The store after the root directory has been ensured.
    pub open spec fn with_base_created(self) -> StoreView {
        StoreView { root_created: true, ..self }
    }
}

/// The set of names a sequence of directory entries denotes.
pub open spec fn dirs_set(dirs: Seq<String>) -> Set<Seq<char>>
    decreases dirs.len(),
{
    if dirs.len() == 0 {
        Set::empty()
    } else {
        dirs_set(dirs.drop_last()).insert(dirs.last()@)
    }
}

/// The map a sequence of managed files denotes; a later entry with the
/// same key shadows an earlier one.
pub open spec fn files_map(files: Seq<ManagedFile>) -> Map<(Seq<char>, Seq<char>), Seq<u8>>
    decreases files.len(),
{
    if files.len() == 0 {
        Map::empty()
    } else {
        files_map(files.drop_last()).insert(files.last().key(), files.last().content@)
    }
}

/// No two entries share a (category, filename) key.
pub open spec fn keys_distinct(files: Seq<ManagedFile>) -> bool {
    forall|i: int, j: int| 0 <= i < j < files.len() ==> files[i].key() != files[j].key()
}

/// Whether one of the first `upto` entries carries this key.
pub open spec fn has_entry_upto(
    files: Seq<ManagedFile>,
    upto: int,
    category: Seq<char>,
    name: Seq<char>,
) -> bool {
    exists|j: int| 0 <= j < upto && (#[trigger] files[j].key()) == (category, name)
}

/// Whether one of the listed strings reads as this name.
pub open spec fn lists_name(out: Seq<String>, name: Seq<char>) -> bool {
    exists|i: int| 0 <= i < out.len() && (#[trigger] out[i])@ == name
}

proof fn lemma_dirs_set_contains(dirs: Seq<String>, d: Seq<char>)
    ensures
        dirs_set(dirs).contains(d) <==> exists|i: int| 0 <= i < dirs.len() && dirs[i]@ == d,
    decreases dirs.len(),
{
    if dirs.len() > 0 {
        lemma_dirs_set_contains(dirs.drop_last(), d);
        if dirs.last()@ == d {
            assert(dirs[dirs.len() - 1]@ == d);
        } else if dirs_set(dirs.drop_last()).contains(d) {
            let i = choose|i: int| 0 <= i < dirs.drop_last().len() && dirs.drop_last()[i]@ == d;
            assert(dirs[i]@ == d);
        } else if exists|i: int| 0 <= i < dirs.len() && dirs[i]@ == d {
            let i = choose|i: int| 0 <= i < dirs.len() && dirs[i]@ == d;
            assert(i < dirs.len() - 1);
            assert(dirs.drop_last()[i]@ == d);
        }
    }
}

proof fn lemma_files_map_contains(files: Seq<ManagedFile>, k: (Seq<char>, Seq<char>))
    ensures
        files_map(files).contains_key(k) <==> exists|i: int|
            0 <= i < files.len() && files[i].key() == k,
    decreases files.len(),
{
    if files.len() > 0 {
        lemma_files_map_contains(files.drop_last(), k);
        if files.last().key() == k {
            assert(files[files.len() - 1].key() == k);
        } else if files_map(files.drop_last()).contains_key(k) {
            let i = choose|i: int|
                0 <= i < files.drop_last().len() && files.drop_last()[i].key() == k;
            assert(files[i].key() == k);
        } else if exists|i: int| 0 <= i < files.len() && files[i].key() == k {
            let i = choose|i: int| 0 <= i < files.len() && files[i].key() == k;
            assert(i < files.len() - 1);
            assert(files.drop_last()[i].key() == k);
        }
    }
}

proof fn lemma_keys_distinct_drop_last(files: Seq<ManagedFile>)
    requires
        keys_distinct(files),
        files.len() > 0,
    ensures
        keys_distinct(files.drop_last()),
{
    assert forall|a: int, b: int|
        0 <= a < b < files.drop_last().len() implies files.drop_last()[a].key() != files
        .drop_last()[b].key() by {
        assert(files.drop_last()[a] == files[a]);
        assert(files.drop_last()[b] == files[b]);
    }
}

proof fn lemma_files_map_at(files: Seq<ManagedFile>, i: int)
    requires
        keys_distinct(files),
        0 <= i < files.len(),
    ensures
        files_map(files).contains_key(files[i].key()),
        files_map(files)[files[i].key()] == files[i].content@,
    decreases files.len(),
{
    if i < files.len() - 1 {
        lemma_keys_distinct_drop_last(files);
        assert(files.drop_last()[i] == files[i]);
        lemma_files_map_at(files.drop_last(), i);
        assert(files[i].key() != files.last().key());
    }
}

proof fn lemma_files_map_remove(files: Seq<ManagedFile>, i: int)
    requires
        keys_distinct(files),
        0 <= i < files.len(),
    ensures
        files_map(files.remove(i)) == files_map(files).remove(files[i].key()),
    decreases files.len(),
{
    let k = files[i].key();
    if i == files.len() - 1 {
        assert(files.remove(i) =~= files.drop_last());
        lemma_files_map_contains(files.drop_last(), k);
        assert(forall|j: int|
            0 <= j < files.drop_last().len() ==> #[trigger] files.drop_last()[j] == files[j]);
        assert(!files_map(files.drop_last()).contains_key(k));
        assert(files_map(files.drop_last()).insert(k, files.last().content@).remove(k)
            =~= files_map(files.drop_last()));
    } else {
        lemma_keys_distinct_drop_last(files);
        assert(files.drop_last()[i] == files[i]);
        lemma_files_map_remove(files.drop_last(), i);
        let shorter = files.remove(i);
        files.remove_ensures(i);
        assert(shorter.last() == files.last());
        assert(shorter.drop_last() =~= files.drop_last().remove(i));
        assert(files_map(shorter) == files_map(files.drop_last().remove(i)).insert(
            files.last().key(),
            files.last().content@,
        ));
        assert(k != files.last().key());
        assert(files_map(files.drop_last()).remove(k).insert(
            files.last().key(),
            files.last().content@,
        ) =~= files_map(files.drop_last()).insert(
            files.last().key(),
            files.last().content@,
        ).remove(k));
    }
}

/// The media root: the host-supplied application data directory with the
/// fixed `media` segment appended.
pub open spec fn spec_media_root(app_data_dir: Seq<char>) -> Seq<char> {
    joined(app_data_dir, "media"@)
}

/// Derives the media root from what the host environment supplied, or
/// reports that the environment supplied nothing. Pure computation: the
/// directory is not created here.
pub fn resolve_root(app_data_dir: Option<&str>) -> (r: Result<String, StoreError>)
    ensures
        match r {
            Ok(p) => app_data_dir is Some && p@ == spec_media_root(app_data_dir->0@),
            Err(e) => app_data_dir is None && e is Environment,
        },
{
    match app_data_dir {
        Some(d) => Ok(join_path(d, "media")),
        None => Err(StoreError::Environment),
    }
}

/// The managed media store over one media root.
pub struct MediaStore {
    root: String,
    root_created: bool,
    dirs: Vec<String>,
    files: Vec<ManagedFile>,
}

impl View for MediaStore {
    type V = StoreView;

    closed spec fn view(&self) -> StoreView {
        StoreView {
            root: self.root@,
            root_created: self.root_created,
            dirs: dirs_set(self.dirs@),
            files: files_map(self.files@),
        }
    }
}

impl MediaStore {
    /// The store's internal representation is sound: no two entries share
    /// a key, and every file's category directory is recorded as existing.
    pub closed spec fn wf(self) -> bool {
        &&& keys_distinct(self.files@)
        &&& forall|i: int|
            0 <= i < self.files@.len() ==> dirs_set(self.dirs@).contains(
                #[trigger] self.files@[i].category@,
            )
    }

    /// A well-formed store satisfies the abstract invariant.
    pub proof fn lemma_wf_inv(&self)
        requires
            self.wf(),
        ensures
            self@.inv(),
    {
        assert forall|k: (Seq<char>, Seq<char>)| self@.files.contains_key(k) implies self@
            .dirs.contains(k.0) by {
            lemma_files_map_contains(self.files@, k);
            let i = choose|i: int| 0 <= i < self.files@.len() && self.files@[i].key() == k;
            assert(dirs_set(self.dirs@).contains(self.files@[i].category@));
        }
    }

    /// A fresh store over the given media root: no directory has been
    /// created yet and nothing is managed.
    pub fn new(root: String) -> (s: MediaStore)
        ensures
            s.wf(),
            s@.root == root@,
            s@.root_created == false,
            s@.dirs == Set::<Seq<char>>::empty(),
            s@.files == Map::<(Seq<char>, Seq<char>), Seq<u8>>::empty(),
    {
        MediaStore { root, root_created: false, dirs: Vec::new(), files: Vec::new() }
    }

    /// The index of the managed file with this key, if one exists.
    fn find_file(&self, category: &str, name: &str) -> (r: Option<usize>)
        ensures
            match r {
                Some(i) => i < self.files@.len() && self.files@[i as int].key() == (
                    category@,
                    name@,
                ),
                None => forall|j: int|
                    0 <= j < self.files@.len() ==> (#[trigger] self.files@[j].key()) != (
                        category@,
                        name@,
                    ),
            },
    {
        let mut idx: usize = 0;
        while idx < self.files.len()
            invariant
                idx <= self.files@.len(),
                forall|j: int|
                    0 <= j < idx ==> (#[trigger] self.files@[j].key()) != (category@, name@),
            decreases self.files@.len() - idx,
        {
            let entry = &self.files[idx];
            if str_eq(entry.category.as_str(), category) && str_eq(entry.name.as_str(), name) {
                return Some(idx);
            }
            idx = idx + 1;
        }
        None
    }

    /// Whether this key denotes a managed file.
    fn contains_file(&self, category: &str, name: &str) -> (r: bool)
        ensures
            r == self@.files.contains_key((category@, name@)),
    {
        proof {
            lemma_files_map_contains(self.files@, (category@, name@));
        }
        self.find_file(category, name).is_some()
    }

    /// Whether the category directory exists under the media root.
    pub fn has_category_dir(&self, name: &str) -> (r: bool)
        ensures
            r == self@.dirs.contains(name@),
    {
        proof {
            lemma_dirs_set_contains(self.dirs@, name@);
        }
        self.has_dir_exec(name)
    }

    /// Whether the category directory is recorded, over the raw vector.
    fn has_dir_exec(&self, name: &str) -> (r: bool)
        ensures
            r == exists|j: int| 0 <= j < self.dirs@.len() && (#[trigger] self.dirs@[j])@ == name@,
    {
        let mut idx: usize = 0;
        while idx < self.dirs.len()
            invariant
                idx <= self.dirs@.len(),
                forall|j: int| 0 <= j < idx ==> (#[trigger] self.dirs@[j])@ != name@,
            decreases self.dirs@.len() - idx,
        {
            if str_eq(self.dirs[idx].as_str(), name) {
                return true;
            }
            idx = idx + 1;
        }
        false
    }

    /// The bytes of the managed file at this key, if one exists.
    pub fn file_content(&self, category: &str, name: &str) -> (r: Option<&Vec<u8>>)
        requires
            self.wf(),
        ensures
            match r {
                Some(c) => self@.files.contains_key((category@, name@)) && c@ == self@.files[(
                    category@,
                    name@,
                )],
                None => !self@.files.contains_key((category@, name@)),
            },
    {
        proof {
            lemma_files_map_contains(self.files@, (category@, name@));
        }
        match self.find_file(category, name) {
            Some(i) => {
                proof {
                    lemma_files_map_at(self.files@, i as int);
                }
                Some(&self.files[i].content)
            },
            None => None,
        }
    }

    /// Ensures the media root itself exists and returns its absolute path.
    /// Idempotent, and safe before any category directory exists.
    pub fn resolve_base_path(&mut self) -> (r: String)
        requires
            old(self).wf(),
        ensures
            final(self).wf(),
            r@ == old(self)@.root,
            final(self)@ == old(self)@.with_base_created(),
    {
        self.root_created = true;
        proof {
            assert(self@ =~= old(self)@.with_base_created());
        }
        self.root.clone()
    }

    /// Copies a source file into the store.
    ///
    /// The category must come from the closed set, the source must exist,
    /// and its path must end in a usable filename; each check that fails
    /// raises its own error and leaves the store untouched. On success the
    /// category directory exists, the file holds the source's bytes —
    /// silently overwriting any earlier file of the same name — and the
    /// returned reference is the `category/filename` path relative to the
    /// media root. The source is only read, never changed.
    pub fn import_file(
        &mut self,
        source_path: &str,
        source_content: Option<&Vec<u8>>,
        category_name: &str,
    ) -> (r: Result<String, StoreError>)
        requires
            old(self).wf(),
        ensures
            final(self).wf(),
            match r {
                Ok(rel) => {
                    &&& Category::spec_parse(category_name@) is Some
                    &&& source_content is Some
                    &&& basename_of(source_path@) is Some
                    &&& rel@ == joined(category_name@, basename_of(source_path@)->0)
                    &&& final(self)@ == old(self)@.with_import(
                        category_name@,
                        basename_of(source_path@)->0,
                        source_content->0@,
                    )
                },
                Err(e) => {
                    &&& final(self)@ == old(self)@
                    &&& match e {
                        StoreError::InvalidCategory => Category::spec_parse(category_name@)
                            is None,
                        StoreError::SourceNotFound { path } => {
                            &&& Category::spec_parse(category_name@) is Some
                            &&& source_content is None
                            &&& path@ == source_path@
                        },
                        StoreError::InvalidFilename => {
                            &&& Category::spec_parse(category_name@) is Some
                            &&& source_content is Some
                            &&& basename_of(source_path@) is None
                        },
                        _ => false,
                    }
                },
            },
    {
        if Category::parse(category_name).is_none() {
            return Err(StoreError::InvalidCategory);
        }
        let content: &Vec<u8> = match source_content {
            Some(c) => c,
            None => {
                return Err(StoreError::SourceNotFound { path: source_path.to_owned() });
            },
        };
        let name: String = match basename(source_path) {
            Some(n) => n,
            None => {
                return Err(StoreError::InvalidFilename);
            },
        };
        self.ensure_dir(category_name);
        self.put_file(category_name, name.as_str(), content);
        proof {
            assert(self@ =~= old(self)@.with_import(category_name@, name@, content@));
        }
        Ok(join_path(category_name, name.as_str()))
    }

    /// Records the category directory as existing, as creating it on disk
    /// would; creating it also creates the root.
    fn ensure_dir(&mut self, category: &str)
        requires
            old(self).wf(),
        ensures
            final(self).wf(),
            final(self)@.root == old(self)@.root,
            final(self)@.root_created == true,
            final(self)@.dirs == old(self)@.dirs.insert(category@),
            final(self)@.files == old(self)@.files,
    {
        self.root_created = true;
        if !self.has_dir_exec(category) {
            let ghost before = self.dirs@;
            self.dirs.push(category.to_owned());
            proof {
                assert(self.dirs@.drop_last() =~= before);
                assert(dirs_set(self.dirs@) == dirs_set(before).insert(category@));
            }
        } else {
            proof {
                lemma_dirs_set_contains(self.dirs@, category@);
                assert(dirs_set(self.dirs@).insert(category@) =~= dirs_set(self.dirs@));
            }
        }
        proof {
            assert forall|i: int|
                0 <= i < self.files@.len() implies dirs_set(self.dirs@).contains(
                #[trigger] self.files@[i].category@,
            ) by {
                lemma_dirs_set_contains(self.dirs@, self.files@[i].category@);
                lemma_dirs_set_contains(old(self).dirs@, self.files@[i].category@);
            }
        }
    }

    /// Removes the entry at a known index.
    fn remove_entry(&mut self, i: usize)
        requires
            old(self).wf(),
            i < old(self).files@.len(),
        ensures
            final(self).wf(),
            final(self)@.root == old(self)@.root,
            final(self)@.root_created == old(self)@.root_created,
            final(self)@.dirs == old(self)@.dirs,
            final(self)@.files == old(self)@.files.remove(old(self).files@[i as int].key()),
    {
        proof {
            lemma_files_map_remove(self.files@, i as int);
            self.files@.remove_ensures(i as int);
        }
        let ghost before = self.files@;
        self.files.remove(i);
        proof {
            assert(keys_distinct(self.files@)) by {
                assert forall|a: int, b: int|
                    0 <= a < b < self.files@.len() implies self.files@[a].key() != self
                    .files@[b].key() by {
                    if b < i as int {
                        assert(self.files@[a] == before[a] && self.files@[b] == before[b]);
                    } else if a < i as int {
                        assert(self.files@[a] == before[a] && self.files@[b] == before[b + 1]);
                    } else {
                        assert(self.files@[a] == before[a + 1] && self.files@[b] == before[b
                            + 1]);
                    }
                }
            }
            assert forall|j: int|
                0 <= j < self.files@.len() implies dirs_set(self.dirs@).contains(
                #[trigger] self.files@[j].category@,
            ) by {
                if j < i as int {
                    assert(self.files@[j] == before[j]);
                } else {
                    assert(self.files@[j] == before[j + 1]);
                }
            }
        }
    }

    /// Stores the bytes under (category, name), replacing what was there.
    fn put_file(&mut self, category: &str, name: &str, content: &Vec<u8>)
        requires
            old(self).wf(),
            old(self)@.dirs.contains(category@),
        ensures
            final(self).wf(),
            final(self)@.root == old(self)@.root,
            final(self)@.root_created == old(self)@.root_created,
            final(self)@.dirs == old(self)@.dirs,
            final(self)@.files == old(self)@.files.insert((category@, name@), content@),
    {
        let ghost k = (category@, name@);
        match self.find_file(category, name) {
            Some(i) => {
                self.remove_entry(i);
            },
            None => {
                proof {
                    lemma_files_map_contains(self.files@, k);
                    assert(self@.files.remove(k) =~= self@.files);
                }
            },
        }
        proof {
            assert(self@.files == old(self)@.files.remove(k));
            lemma_files_map_contains(self.files@, k);
            assert(forall|j: int|
                0 <= j < self.files@.len() ==> (#[trigger] self.files@[j].key()) != k);
        }
        let ghost mid = self.files@;
        let entry = ManagedFile {
            category: category.to_owned(),
            name: name.to_owned(),
            content: clone_bytes(content),
        };
        self.files.push(entry);
        proof {
            assert(self.files@.drop_last() =~= mid);
            assert(self.files@.last().key() == k);
            assert(files_map(self.files@) == files_map(mid).insert(k, content@));
            assert(old(self)@.files.remove(k).insert(k, content@) =~= old(self)@.files.insert(
                k,
                content@,
            ));
            assert(keys_distinct(self.files@)) by {
                assert forall|a: int, b: int|
                    0 <= a < b < self.files@.len() implies self.files@[a].key() != self
                    .files@[b].key() by {
                    if b < mid.len() {
                        assert(self.files@[a] == mid[a] && self.files@[b] == mid[b]);
                    } else {
                        assert(self.files@[a] == mid[a]);
                        assert(self.files@[b].key() == k);
                    }
                }
            }
            assert forall|j: int|
                0 <= j < self.files@.len() implies dirs_set(self.dirs@).contains(
                #[trigger] self.files@[j].category@,
            ) by {
                if j < mid.len() {
                    assert(self.files@[j] == mid[j]);
                } else {
                    assert(self.files@[j].category@ == category@);
                    lemma_dirs_set_contains(self.dirs@, category@);
                }
            }
        }
    }

    /// Computes the absolute path of a managed file and verifies the file
    /// exists. The category here is any raw string: lookup of an already
    /// known relative path is unrestricted in category spelling.
    pub fn resolve_file_path(&self, category: &str, name: &str) -> (r: Result<
        String,
        StoreError,
    >)
        requires
            self.wf(),
        ensures
            match r {
                Ok(p) => {
                    &&& self@.files.contains_key((category@, name@))
                    &&& p@ == joined(joined(self@.root, category@), name@)
                },
                Err(e) => {
                    &&& !self@.files.contains_key((category@, name@))
                    &&& e matches StoreError::FileNotFound { category: c, name: n } && c@
                        == category@ && n@ == name@
                },
            },
    {
        if self.contains_file(category, name) {
            let dir = join_path(self.root.as_str(), category);
            Ok(join_path(dir.as_str(), name))
        } else {
            Err(
                StoreError::FileNotFound {
                    category: category.to_owned(),
                    name: name.to_owned(),
                },
            )
        }
    }

    /// Lists the filenames directly inside the category directory, in no
    /// promised order and without duplicates. A category that was never
    /// populated yields the empty list, not an error.
    pub fn list_files(&self, category: &str) -> (r: Vec<String>)
        requires
            self.wf(),
        ensures
            forall|i: int|
                0 <= i < r@.len() ==> self@.files.contains_key((category@, #[trigger] r@[i]@)),
            forall|n: Seq<char>|
                #[trigger] self@.files.contains_key((category@, n)) ==> lists_name(r@, n),
            forall|i: int, j: int| 0 <= i < j < r@.len() ==> r@[i]@ != r@[j]@,
    {
        let mut out: Vec<String> = Vec::new();
        let mut idx: usize = 0;
        while idx < self.files.len()
            invariant
                self.wf(),
                idx <= self.files@.len(),
                forall|i: int|
                    0 <= i < out@.len() ==> has_entry_upto(
                        self.files@,
                        idx as int,
                        category@,
                        (#[trigger] out@[i])@,
                    ),
                forall|j: int|
                    0 <= j < idx && (#[trigger] self.files@[j].category@) == category@
                        ==> lists_name(out@, self.files@[j].name@),
                forall|i: int, j: int| 0 <= i < j < out@.len() ==> out@[i]@ != out@[j]@,
            decreases self.files@.len() - idx,
        {
            let ghost prev_out = out@;
            let ghost prev_idx = idx as int;
            let entry = &self.files[idx];
            let matched = str_eq(entry.category.as_str(), category);
            if matched {
                proof {
                    assert(self.files@[prev_idx].key() == (category@, entry.name@));
                    assert forall|i: int| 0 <= i < out@.len() implies out@[i]@ != entry.name@ by {
                        let j = choose|j: int|
                            0 <= j < prev_idx && (#[trigger] self.files@[j].key()) == (
                                category@,
                                out@[i]@,
                            );
                        assert(self.files@[j].key() != self.files@[prev_idx].key());
                    }
                }
                out.push(entry.name.clone());
            }
            idx = idx + 1;
            proof {
                assert forall|i: int|
                    0 <= i < out@.len() implies has_entry_upto(
                    self.files@,
                    idx as int,
                    category@,
                    (#[trigger] out@[i])@,
                ) by {
                    if i < prev_out.len() {
                        assert(out@[i] == prev_out[i]);
                        assert(has_entry_upto(self.files@, prev_idx, category@, prev_out[i]@));
                        let j = choose|j: int|
                            0 <= j < prev_idx && (#[trigger] self.files@[j].key()) == (
                                category@,
                                prev_out[i]@,
                            );
                        assert(self.files@[j].key() == (category@, out@[i]@));
                    } else {
                        assert(out@[i] == self.files@[prev_idx].name);
                        assert(self.files@[prev_idx].key() == (category@, out@[i]@));
                    }
                }
                assert forall|j: int|
                    0 <= j < idx && (#[trigger] self.files@[j].category@) == category@
                    implies lists_name(out@, self.files@[j].name@) by {
                    if j < prev_idx {
                        assert(lists_name(prev_out, self.files@[j].name@));
                        let i = choose|i: int|
                            0 <= i < prev_out.len() && (#[trigger] prev_out[i])@ == self
                            .files@[j].name@;
                        assert(out@[i] == prev_out[i]);
                        assert(out@[i]@ == self.files@[j].name@);
                    } else {
                        assert(matched);
                        assert(out@[prev_out.len() as int] == self.files@[prev_idx].name);
                    }
                }
            }
        }
        proof {
            assert forall|i: int|
                0 <= i < out@.len() implies self@.files.contains_key(
                (category@, #[trigger] out@[i]@),
            ) by {
                assert(has_entry_upto(self.files@, self.files@.len() as int, category@, out@[i]@));
                let j = choose|j: int|
                    0 <= j < self.files@.len() && (#[trigger] self.files@[j].key()) == (
                        category@,
                        out@[i]@,
                    );
                lemma_files_map_contains(self.files@, (category@, out@[i]@));
            }
            assert forall|n: Seq<char>|
                #[trigger] self@.files.contains_key((category@, n)) implies lists_name(
                out@,
                n,
            ) by {
                lemma_files_map_contains(self.files@, (category@, n));
                let j = choose|j: int|
                    0 <= j < self.files@.len() && self.files@[j].key() == (category@, n);
                assert(self.files@[j].category@ == category@);
            }
        }
        out
    }

    /// Removes exactly the managed file at (category, name); removing a
    /// file that does not exist is an error and changes nothing.
    pub fn delete_file(&mut self, category: &str, name: &str) -> (r: Result<(), StoreError>)
        requires
            old(self).wf(),
        ensures
            final(self).wf(),
            match r {
                Ok(_) => {
                    &&& old(self)@.files.contains_key((category@, name@))
                    &&& final(self)@ == old(self)@.without_file(category@, name@)
                },
                Err(e) => {
                    &&& !old(self)@.files.contains_key((category@, name@))
                    &&& final(self)@ == old(self)@
                    &&& e matches StoreError::FileNotFound { category: c, name: n } && c@
                        == category@ && n@ == name@
                },
            },
    {
        proof {
            lemma_files_map_contains(self.files@, (category@, name@));
        }
        match self.find_file(category, name) {
            Some(i) => {
                self.remove_entry(i);
                proof {
                    assert(self@ =~= old(self)@.without_file(category@, name@));
                }
                Ok(())
            },
            None => {
                Err(
                    StoreError::FileNotFound {
                        category: category.to_owned(),
                        name: name.to_owned(),
                    },
                )
            },
        }
    }
}

/// A fresh vector holding the same bytes.
fn clone_bytes(v: &Vec<u8>) -> (r: Vec<u8>)
    ensures
        r@ == v@,
{
    let mut r: Vec<u8> = Vec::new();
    let mut idx: usize = 0;
    while idx < v.len()
        invariant
            idx <= v@.len(),
            r@ == v@.subrange(0, idx as int),
        decreases v@.len() - idx,
    {
        r.push(v[idx]);
        proof {
            assert(r@ =~= v@.subrange(0, idx as int + 1));
        }
        idx = idx + 1;
    }
    proof {
        assert(v@.subrange(0, v@.len() as int) =~= v@);
    }
    r
}

} // verus!
