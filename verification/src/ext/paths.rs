//! Where a package's files are: under `<home>/vfs/<package>/pkg`.
//!
//! Paths are joined as on Unix. A component that begins with `/` replaces
//! what stands before it; any other is appended, behind a `/` unless what
//! stands before it is empty or ends in one.

use vstd::prelude::*;
use vstd::string::{StrSliceExecFns, StringExecFns};

verus! {

/// The separator of path components.
pub const SEPARATOR: char = '/';

/// The directory under the home directory that holds the packages.
pub const VFS: &'static str = "vfs";

/// The directory of a package that holds its files.
pub const PKG: &'static str = "pkg";

/// The directory of a package's files that holds its scripts.
pub const SCRIPTS: &'static str = "scripts";

/// Whether a path begins at the root.
pub open spec fn is_absolute(path: Seq<char>) -> bool {
    path.len() > 0 && path[0] == SEPARATOR
}

/// `base` extended by `component`.
pub open spec fn joined(base: Seq<char>, component: Seq<char>) -> Seq<char> {
    if is_absolute(component) {
        component
    } else if base.len() > 0 && base.last() != SEPARATOR {
        base + seq![SEPARATOR] + component
    } else {
        base + component
    }
}

/// The directory of a package's files.
pub open spec fn pkg_dir(home: Seq<char>, package_id: Seq<char>) -> Seq<char> {
    joined(joined(joined(home, VFS@), package_id), PKG@)
}

/// The path of a file in a package's `scripts` directory.
pub open spec fn full_path(home: Seq<char>, package_id: Seq<char>, path: Seq<char>) -> Seq<char> {
    joined(joined(pkg_dir(home, package_id), SCRIPTS@), path)
}

/// `base` extended by `component`.
pub fn join(base: &str, component: &str) -> (path: String)
    ensures
        path@ == joined(base@, component@),
{
    let component_len: usize = component.unicode_len();
    if component_len > 0 && component.get_char(0) == SEPARATOR {
        return String::from_str(component);
    }
    let base_len: usize = base.unicode_len();
    let mut path: String = String::from_str(base);
    if base_len > 0 && base.get_char(base_len - 1) != SEPARATOR {
        proof {
            reveal_strlit("/");
        }
        path.append("/");
    }
    path.append(component);
    path
}

/// The directory of a package's files: `<home>/vfs/<package>/pkg`.
pub fn make_pkg_dir(home: &str, package_id: &str) -> (path: String)
    ensures
        path@ == pkg_dir(home@, package_id@),
{
    let vfs: String = join(home, VFS);
    let package: String = join(vfs.as_str(), package_id);
    join(package.as_str(), PKG)
}

/// The path of a file in a package's `scripts` directory:
/// `<home>/vfs/<package>/pkg/scripts/<path>`.
pub fn make_full_path(home: &str, package_id: &str, path: &str) -> (full: String)
    ensures
        full@ == full_path(home@, package_id@, path@),
{
    let pkg: String = make_pkg_dir(home, package_id);
    let scripts: String = join(pkg.as_str(), SCRIPTS);
    join(scripts.as_str(), path)
}

/// Where neither the package's name nor the file's path begins at the root,
/// the file lies under the home directory, in the package's `scripts`
/// directory.
pub proof fn lemma_relative_paths_stay_under_home(
    home: Seq<char>,
    package_id: Seq<char>,
    path: Seq<char>,
)
    requires
        home.len() > 0,
        home.last() != SEPARATOR,
        package_id.len() > 0,
        !is_absolute(package_id),
        package_id.last() != SEPARATOR,
        !is_absolute(path),
    ensures
        pkg_dir(home, package_id) == home + seq![SEPARATOR] + VFS@ + seq![SEPARATOR] + package_id
            + seq![SEPARATOR] + PKG@,
        full_path(home, package_id, path) == pkg_dir(home, package_id) + seq![SEPARATOR] + SCRIPTS@
            + seq![SEPARATOR] + path,
{
    reveal_strlit("vfs");
    reveal_strlit("pkg");
    reveal_strlit("scripts");
}

/// A file's path that begins at the root is taken as it is, whatever the
/// home directory and the package are.
pub proof fn lemma_absolute_path_replaces(home: Seq<char>, package_id: Seq<char>, path: Seq<char>)
    requires
        is_absolute(path),
    ensures
        full_path(home, package_id, path) == path,
{
}

} // verus!
