//! Where user-configured thresholds are kept.
//!
//! The settings file is TOML, in a directory that the caller knows. Reading and
//! writing it is the caller's part.

use vstd::prelude::*;

verus! {

broadcast use vstd::string::group_string_axioms;

/// A name that is a single component of a path on every platform, and that
/// names neither a directory itself nor the one above it.
pub open spec fn is_plain(name: Seq<char>) -> bool {
    &&& name.len() > 0
    &&& name != seq!['.']
    &&& name != seq!['.', '.']
    &&& forall|i: int| 0 <= i < name.len() ==> #[trigger] name[i] != '/' && name[i] != '\\' && name[i] != ':'
}

/// Whether `path` is `name` inside `dir`: the two joined, with a separator
/// between them where `dir` does not end in one already. A backslash at the end
/// of `dir` is a separator on some platforms only, and so is a colon the end of
/// a drive.
pub open spec fn stands_in(path: Seq<char>, dir: Seq<char>, name: Seq<char>) -> bool {
    let joined = path == dir + name;
    let slashed = path == dir + seq!['/'] + name;
    let backslashed = path == dir + seq!['\\'] + name;
    if dir.len() == 0 {
        path == name
    } else if dir.last() == '/' {
        joined
    } else if dir.last() == '\\' {
        joined || slashed
    } else if dir.last() == ':' {
        joined || slashed || backslashed
    } else {
        slashed || backslashed
    }
}

/// Whether a path begins with `\\?\`, the mark of a path that some platforms
/// take to pieces and put together again.
pub open spec fn is_verbatim(path: Seq<char>) -> bool {
    path.len() >= 4 && path[0] == '\\' && path[1] == '\\' && path[2] == '?' && path[3] == '\\'
}

/// Whether `path` ends in `name`.
pub open spec fn ends_in(path: Seq<char>, name: Seq<char>) -> bool {
    path.len() >= name.len() && path.skip(path.len() - name.len()) == name
}

/// `std::path::Path::join` on a directory and a relative path of one component,
/// which is neither `.` nor `..`: the directory, the platform's separator where
/// one is needed, and the name. Which separator that is depends on the platform
/// and is left open. So is how a verbatim directory is written anew, other than
/// that it stays verbatim and the name comes last.
#[verifier::external_body]
fn join(dir: &str, name: &str) -> (r: String)
    requires
        is_plain(name@),
    ensures
        ends_in(r@, name@),
        !is_verbatim(dir@) ==> stands_in(r@, dir@, name@),
        is_verbatim(dir@) ==> is_verbatim(r@),
{
    std::path::Path::new(dir).join(name).to_string_lossy().into_owned()
}

/// Path of the settings file within a directory.
pub fn settings_path(app_data_dir: &str) -> (r: String)
    ensures
        ends_in(r@, "settings.toml"@),
        !is_verbatim(app_data_dir@) ==> stands_in(r@, app_data_dir@, "settings.toml"@),
        is_verbatim(app_data_dir@) ==> is_verbatim(r@),
{
    proof {
        reveal_strlit("settings.toml");
        assert("settings.toml"@.len() == 13);
    }
    join(app_data_dir, "settings.toml")
}

/// A file stands in its directory behind a separator: behind the one that the
/// directory ends in, or behind one that is put there.
pub proof fn law_a_file_stands_behind_a_separator(path: Seq<char>, dir: Seq<char>, name: Seq<char>)
    requires
        stands_in(path, dir, name),
    ensures
        dir.len() == 0 ==> path == name,
        dir.len() > 0 ==> path.len() >= dir.len() + name.len() && path.take(dir.len() as int) == dir && path.skip(
            path.len() - name.len(),
        ) == name,
        dir.len() > 0 && dir.last() != ':' ==> path[path.len() - name.len() - 1] == '/' || path[path.len() - name.len()
            - 1] == '\\',
        path.len() <= dir.len() + name.len() + 1,
{
    if dir.len() > 0 {
        assert(path.take(dir.len() as int) =~= dir);
        assert(path.skip(path.len() - name.len()) =~= name);
    }
}

} // verus!
