//! The container images that a node holds.

use std::collections::HashSet;
use vstd::prelude::*;

verus! {

/// What a node holds of container images.
pub struct NodeImagesInfo {
    /// The repository tags of all images, each of the form
    /// registry/repository:tag. A tag is another name for an image.
    pub repo_tags: HashSet<String>,
    /// The layers of all images, each by the identifier of its change set.
    pub layers: HashSet<String>,
    /// What the images take on disk, in bytes.
    pub total_image_size: u64,
}

impl NodeImagesInfo {
    /// A node that holds no image.
    pub fn default() -> (info: NodeImagesInfo)
        ensures
            info.repo_tags@ == Set::<String>::empty(),
            info.layers@ == Set::<String>::empty(),
            info.total_image_size == 0,
    {
        NodeImagesInfo { repo_tags: HashSet::new(), layers: HashSet::new(), total_image_size: 0 }
    }

    pub fn new(repo_tags: HashSet<String>, layers: HashSet<String>, total_image_size: u64) -> (info:
        NodeImagesInfo)
        ensures
            info.repo_tags == repo_tags,
            info.layers == layers,
            info.total_image_size == total_image_size,
    {
        NodeImagesInfo { repo_tags, layers, total_image_size }
    }
}

} // verus!
