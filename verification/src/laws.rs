//! The store's cross-operation guarantees, stated over `StoreView` — the
//! same abstract state the operations' contracts use — and proved once
//! for every store, every category and every file.

use vstd::prelude::*;

use crate::store::StoreView;

verus! {

/// A successful import makes the file resolvable: the imported entry is
/// present under its (category, filename) key and holds exactly the
/// source's bytes, so a lookup right after the import succeeds and finds
/// the source's content unchanged.
pub proof fn law_import_then_resolve(
    m: StoreView,
    category: Seq<char>,
    name: Seq<char>,
    content: Seq<u8>,
)
    ensures
        m.with_import(category, name, content).files.contains_key((category, name)),
        m.with_import(category, name, content).files[(category, name)] == content,
        m.with_import(category, name, content).dirs.contains(category),
{
}

/// Importing again under the same (category, filename) overwrites: the
/// store ends exactly as if only the second import had happened, and the
/// file holds the second source's bytes, not the first's.
pub proof fn law_reimport_overwrites(
    m: StoreView,
    category: Seq<char>,
    name: Seq<char>,
    first: Seq<u8>,
    second: Seq<u8>,
)
    ensures
        m.with_import(category, name, first).with_import(category, name, second)
            == m.with_import(category, name, second),
        m.with_import(category, name, first).with_import(category, name, second).files[(
            category,
            name,
        )] == second,
{
    let twice = m.with_import(category, name, first).with_import(category, name, second);
    let once = m.with_import(category, name, second);
    assert(twice.dirs =~= once.dirs);
    assert(twice.files =~= once.files);
    assert(twice =~= once);
}

/// After a successful delete the file is gone: a lookup of the same
/// (category, filename) no longer finds it. Every other file is untouched.
pub proof fn law_delete_then_resolve_fails(m: StoreView, category: Seq<char>, name: Seq<char>)
    ensures
        !m.without_file(category, name).files.contains_key((category, name)),
        forall|k: (Seq<char>, Seq<char>)|
            k != (category, name) ==> m.without_file(category, name).files.contains_key(k)
                == m.files.contains_key(k),
{
}

/// A category whose directory was never created holds no files at all,
/// so listing it yields the empty result rather than an error.
pub proof fn law_unpopulated_category_is_empty(m: StoreView, category: Seq<char>)
    requires
        m.inv(),
        !m.dirs.contains(category),
    ensures
        forall|name: Seq<char>| !m.files.contains_key((category, name)),
{
    assert forall|name: Seq<char>| !m.files.contains_key((category, name)) by {
        if m.files.contains_key((category, name)) {
            assert(m.dirs.contains(category));
        }
    }
}

/// Resolving the base path is idempotent and touches nothing else: it
/// returns the same root however often it runs, needs no category
/// directory to exist first, and leaves directories and files alone.
pub proof fn law_base_path_stable(m: StoreView)
    ensures
        m.with_base_created().root == m.root,
        m.with_base_created().dirs == m.dirs,
        m.with_base_created().files == m.files,
        m.with_base_created().with_base_created() == m.with_base_created(),
{
    assert(m.with_base_created().with_base_created() =~= m.with_base_created());
}

} // verus!
