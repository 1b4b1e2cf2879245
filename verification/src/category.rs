//! The closed set of media categories.

use vstd::prelude::*;

verus! {

/// A media kind. Each category names exactly one subdirectory directly
/// under the media root; the set is fixed and import validates against it.
#[derive(Clone, Copy, PartialEq, Eq, Structural, Debug)]
pub enum Category {
    Image,
    Audio,
    Video,
}

impl Category {
    /// The directory name this category uses under the media root.
    pub open spec fn spec_name(self) -> Seq<char> {
        match self {
            Category::Image => "Image"@,
            Category::Audio => "Audio"@,
            Category::Video => "Video"@,
        }
    }

    /// Which category, if any, a raw name denotes.
    pub open spec fn spec_parse(s: Seq<char>) -> Option<Category> {
        if s == "Image"@ {
            Some(Category::Image)
        } else if s == "Audio"@ {
            Some(Category::Audio)
        } else if s == "Video"@ {
            Some(Category::Video)
        } else {
            None
        }
    }

    /// The directory name of this category.
    pub fn name(self) -> (r: &'static str)
        ensures
            r@ == self.spec_name(),
    {
        match self {
            Category::Image => "Image",
            Category::Audio => "Audio",
            Category::Video => "Video",
        }
    }

    /// Validates a raw category name against the closed set.
    pub fn parse(s: &str) -> (r: Option<Category>)
        ensures
            r == Self::spec_parse(s@),
    {
        if crate::paths::str_eq(s, "Image") {
            Some(Category::Image)
        } else if crate::paths::str_eq(s, "Audio") {
            Some(Category::Audio)
        } else if crate::paths::str_eq(s, "Video") {
            Some(Category::Video)
        } else {
            None
        }
    }
}

} // verus!
