//! Names for pasted items and new folders. Copying, moving and creating are
//! file-system work done by the caller; these functions pick the names.
use vstd::prelude::*;

use crate::xdg::base::{path_join, path_join_spec};
use crate::xdg::clipboard::strings;
use crate::naming::{first_free, first_free_name, NameFamily};

verus! {

/// `dst_dir` joined (as `PathBuf::join` does) with `name`, or with
/// `name (copy)`, `name (copy 2)`, …: the first of these names that is not
/// among `taken`, the names already in `dst_dir`.
pub fn unique_destination(dst_dir: &str, name: &str, taken: &[String]) -> (r: String)
    requires
        taken@.len() < u64::MAX,
    ensures
        exists|n: Seq<char>|
            #[trigger] path_join_spec(dst_dir@, n) == r@ && first_free(NameFamily::Copy, name@, strings(taken@), n),
{
    let n = first_free_name(NameFamily::Copy, name, taken);
    path_join(dst_dir, n.as_str())
}

/// The path of the folder that creating a new folder in `parent` makes:
/// `parent/New Folder`, or `parent/New Folder 2`, … when taken.
pub fn new_folder_path(parent: &str, taken: &[String]) -> (r: String)
    requires
        taken@.len() < u64::MAX,
    ensures
        exists|n: Seq<char>|
            #[trigger] path_join_spec(parent@, n) == r@ && first_free(NameFamily::NewFolder, ""@, strings(taken@), n),
{
    let n = first_free_name(NameFamily::NewFolder, "", taken);
    path_join(parent, n.as_str())
}

} // verus!
