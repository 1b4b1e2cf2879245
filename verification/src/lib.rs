//! A managed media store for a desktop application.
//!
//! The store keeps files under a single media root, partitioned into one
//! subdirectory per media category. This crate holds the store's logic:
//! how the root is derived, how categories and filenames are validated,
//! how paths are built, and what each operation guarantees about the
//! store's contents. A thin host layer binds these rules to the real
//! filesystem and surfaces the results to a UI.

use vstd::prelude::*;
use vstd::string::StringExecFns;

pub mod category;
pub mod errors;
pub mod laws;
pub mod paths;
pub mod store;

pub use category::Category;
pub use errors::StoreError;
pub use paths::{basename, join_path};
pub use store::{MediaStore, StoreView, resolve_root};

verus! {

/// The greeting the host UI shows to confirm the backend answers.
pub fn greet(name: &str) -> (r: String)
    ensures
        r@ == "Hello, "@ + name@ + "! You've been greeted from Rust!"@,
{
    let mut r = "Hello, ".to_owned();
    r.append(name);
    r.append("! You've been greeted from Rust!");
    r
}

} // verus!
