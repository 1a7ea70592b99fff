//! Files copied into a project's `assets/` directory.
use vstd::prelude::*;

use crate::model::now_unix;

verus! {

/// A file of the project. The only strategy is "copy into
/// `<project>/assets/`"; `original_path` only records where it came from.
#[derive(Clone, Debug)]
pub struct AssetRef {
    /// The file name, relative to `assets/`.
    pub name: String,
    pub original_path: Option<String>,
    pub added_at_unix: u64,
    /// Pixel size of an image, used for the default aspect ratio on insert.
    pub width: u32,
    pub height: u32,
}

impl AssetRef {
    /// A new asset with no recorded origin, added now.
    pub fn new(name: &str, width: u32, height: u32) -> (r: Self)
        ensures
            r.name@ == name@,
            r.original_path is None,
            r.width == width,
            r.height == height,
    {
        AssetRef::new_at(name, width, height, now_unix())
    }

    /// A new asset with no recorded origin, added at Unix time `now`.
    pub fn new_at(name: &str, width: u32, height: u32, now: u64) -> (r: Self)
        ensures
            r.name@ == name@,
            r.original_path is None,
            r.added_at_unix == now,
            r.width == width,
            r.height == height,
    {
        AssetRef { name: name.to_owned(), original_path: None, added_at_unix: now, width, height }
    }
}

} // verus!
