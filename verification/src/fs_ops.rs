//! Where note files and folders go: name sanitizing (no `/`, no `..`, so a
//! note cannot leave its directory), the default `.md` extension, and the
//! messages for each failure. The file system work itself is done by the
//! caller with the paths computed here.

use vstd::prelude::*;

use crate::notes::{is_note_file, is_note_path};
use crate::paths::{
    join, join_spec, parent, path_extension, path_file_name, path_file_stem, path_parent,
    path_with_extension,
    with_extension,
};
use crate::text::{chars_of, contains, contains_spec, string_of, trim_chars, trim_spec};

verus! {

/// Why a note or folder operation was refused.
#[derive(Debug)]
pub enum FsError {
    /// The name is empty or only whitespace.
    EmptyName,
    /// The name (trimmed) holds `/` or `..`.
    BadName(String),
    /// A note already exists at the path.
    NoteExists(String),
    /// A folder already exists at the path.
    FolderExists(String),
    /// A file already exists at the rename target.
    TargetExists(String),
    /// The file system refused the operation; the text is its message.
    Io(String),
}

/// The message shown for `e`.
pub open spec fn fs_error_message(e: FsError) -> Seq<char> {
    match e {
        FsError::EmptyName => "name is empty"@,
        FsError::BadName(n) => "name '"@ + n@ + "' must not contain '/' or '..'"@,
        FsError::NoteExists(p) => "note already exists: "@ + p@,
        FsError::FolderExists(p) => "folder already exists: "@ + p@,
        FsError::TargetExists(p) => "target already exists: "@ + p@,
        FsError::Io(m) => m@,
    }
}

impl FsError {
    /// The message shown in the status line.
    pub fn message(&self) -> (m: String)
        ensures
            m@ == fs_error_message(*self),
    {
        match self {
            FsError::EmptyName => String::from_str("name is empty"),
            FsError::BadName(n) => {
                let mut m = String::from_str("name '");
                m.append(n.as_str());
                m.append("' must not contain '/' or '..'");
                m
            },
            FsError::NoteExists(p) => {
                let mut m = String::from_str("note already exists: ");
                m.append(p.as_str());
                m
            },
            FsError::FolderExists(p) => {
                let mut m = String::from_str("folder already exists: ");
                m.append(p.as_str());
                m
            },
            FsError::TargetExists(p) => {
                let mut m = String::from_str("target already exists: ");
                m.append(p.as_str());
                m
            },
            FsError::Io(m) => m.clone(),
        }
    }
}

/// Whether a trimmed name would leave its directory.
pub open spec fn escapes_dir(t: Seq<char>) -> bool {
    contains_spec(t, seq!['/']) || contains_spec(t, seq!['.', '.'])
}

/// The outcome of [`sanitize`]: the trimmed name when it is not empty and
/// holds neither `/` nor `..`.
pub open spec fn sanitize_spec(name: Seq<char>) -> Result<Seq<char>, ()> {
    let t = trim_spec(name);
    if t.len() == 0 || escapes_dir(t) {
        Err(())
    } else {
        Ok(t)
    }
}

/// Rejects empty names and any path traversal so notes stay under their
/// directory; returns the trimmed name.
pub fn sanitize(name: &str) -> (r: Result<String, FsError>)
    ensures
        r matches Ok(t) ==> sanitize_spec(name@) == Ok::<Seq<char>, ()>(t@),
        r is Err ==> sanitize_spec(name@) is Err,
        r matches Err(e) ==> (e matches FsError::EmptyName && trim_spec(name@).len() == 0) || (
        e matches FsError::BadName(n) && n@ == trim_spec(name@) && trim_spec(name@).len() > 0),
        trim_spec(name@).len() > 0 && !contains_spec(trim_spec(name@), seq!['/']) && !contains_spec(
            trim_spec(name@),
            seq!['.', '.'],
        ) ==> (r matches Ok(t) && t@ == trim_spec(name@)),
        r is Err ==> trim_spec(name@).len() == 0 || contains_spec(trim_spec(name@), seq!['/'])
            || contains_spec(trim_spec(name@), seq!['.', '.']),
{
    let t = trim_chars(&chars_of(name));
    if t.len() == 0 {
        return Err(FsError::EmptyName);
    }
    let slash = vec!['/'];
    let dots = vec!['.', '.'];
    assert(slash@ =~= seq!['/']);
    assert(dots@ =~= seq!['.', '.']);
    if contains(&t, &slash) || contains(&t, &dots) {
        return Err(FsError::BadName(string_of(t.as_slice())));
    }
    Ok(string_of(t.as_slice()))
}

/// `path` with a note extension: `.md` and `.txt` are kept, anything else
/// is replaced by (or gets) `.md`.
pub open spec fn ensure_note_ext_spec(path: Seq<char>) -> Seq<char> {
    if is_note_path(path) {
        path
    } else {
        path_with_extension(path, seq!['m', 'd'])
    }
}

/// Forces a note extension: keeps `.md`/`.txt`, otherwise defaults to `.md`.
///
/// For a path with a file name the result is a note in the same directory
/// with the same stem, and any other extension becomes exactly `md` (for a
/// path ending in its file name: the path up to the stem, then `.md`); a
/// note path comes back as it is; and the result is its own note path.
pub fn ensure_note_ext(path: &str) -> (r: String)
    ensures
        r@ == ensure_note_ext_spec(path@),
        is_note_path(path@) ==> r@ == path@,
        path_file_name(path@) is Some && !is_note_path(path@) ==> path_extension(r@) == Some(
            seq!['m', 'd'],
        ),
        path_file_name(path@) is Some && path_file_name(path@)->0.is_suffix_of(path@) && !is_note_path(
            path@,
        ) ==> r@ == path@.subrange(0, path@.len() - path_file_name(path@)->0.len()) + path_file_stem(
            path@,
        )->0 + seq!['.', 'm', 'd'],
        path_file_name(path@) is Some ==> is_note_path(r@) && path_parent(r@) == path_parent(path@)
            && path_file_stem(r@) == path_file_stem(path@),
        ensure_note_ext_spec(r@) == r@,
{
    if is_note_file(path) {
        String::from_str(path)
    } else {
        let md_chars = vec!['m', 'd'];
        assert(md_chars@ =~= seq!['m', 'd']);
        let md = string_of(md_chars.as_slice());
        with_extension(path, md.as_str())
    }
}

/// The path of a new note named `name` inside `dir`.
pub open spec fn note_path_spec(dir: Seq<char>, name: Seq<char>) -> Result<Seq<char>, ()> {
    match sanitize_spec(name) {
        Ok(t) => Ok(ensure_note_ext_spec(join_spec(dir, t))),
        Err(e) => Err(e),
    }
}

/// The path of a new folder named `name` inside `dir`.
pub open spec fn folder_path_spec(dir: Seq<char>, name: Seq<char>) -> Result<Seq<char>, ()> {
    match sanitize_spec(name) {
        Ok(t) => Ok(join_spec(dir, t)),
        Err(e) => Err(e),
    }
}

/// The directory a renamed note stays in: its parent, or `.` for a path
/// without one.
pub open spec fn rename_dir_spec(path: Seq<char>) -> Seq<char> {
    match path_parent(path) {
        Some(p) => p,
        None => seq!['.'],
    }
}

/// The path a note at `path` gets when renamed to `new_name`.
pub open spec fn rename_target_spec(path: Seq<char>, new_name: Seq<char>) -> Result<Seq<char>, ()> {
    note_path_spec(rename_dir_spec(path), new_name)
}

/// A sanitized name never starts with `/`.
proof fn lemma_sanitized_relative(t: Seq<char>)
    requires
        !contains_spec(t, seq!['/']),
    ensures
        t.len() == 0 || t[0] != '/',
{
    if t.len() > 0 && t[0] == '/' {
        assert(t.subrange(0, 1) =~= seq!['/']);
    }
}

/// The path for a new note named `name` (sanitized, `.md` added when no
/// note extension is given) inside `dir`.
pub fn note_path(dir: &str, name: &str) -> (r: Result<String, FsError>)
    ensures
        r matches Ok(p) ==> note_path_spec(dir@, name@) == Ok::<Seq<char>, ()>(p@),
        r is Err ==> note_path_spec(dir@, name@) is Err,
        r matches Err(e) ==> (e matches FsError::EmptyName && trim_spec(name@).len() == 0) || (
        e matches FsError::BadName(n) && n@ == trim_spec(name@) && trim_spec(name@).len() > 0),
{
    let t = sanitize(name)?;
    proof {
        lemma_sanitized_relative(t@);
    }
    let p = join(dir, t.as_str());
    Ok(ensure_note_ext(p.as_str()))
}

/// The path for a new folder named `name` (sanitized) inside `dir`.
pub fn folder_path(dir: &str, name: &str) -> (r: Result<String, FsError>)
    ensures
        r matches Ok(p) ==> folder_path_spec(dir@, name@) == Ok::<Seq<char>, ()>(p@),
        r is Err ==> folder_path_spec(dir@, name@) is Err,
        r matches Err(e) ==> (e matches FsError::EmptyName && trim_spec(name@).len() == 0) || (
        e matches FsError::BadName(n) && n@ == trim_spec(name@) && trim_spec(name@).len() > 0),
{
    let t = sanitize(name)?;
    proof {
        lemma_sanitized_relative(t@);
    }
    Ok(join(dir, t.as_str()))
}

/// The path `path` is renamed to for `new_name`: in the same directory,
/// sanitized, with a note extension.
pub fn rename_target(path: &str, new_name: &str) -> (r: Result<String, FsError>)
    ensures
        r matches Ok(p) ==> rename_target_spec(path@, new_name@) == Ok::<Seq<char>, ()>(p@),
        r is Err ==> rename_target_spec(path@, new_name@) is Err,
        r matches Err(e) ==> (e matches FsError::EmptyName && trim_spec(new_name@).len() == 0) || (
        e matches FsError::BadName(n) && n@ == trim_spec(new_name@) && trim_spec(new_name@).len()
            > 0),
{
    let dir = match parent(path) {
        Some(p) => p,
        None => {
            let dot = vec!['.'];
            assert(dot@ =~= seq!['.']);
            string_of(dot.as_slice())
        },
    };
    note_path(dir.as_str(), new_name)
}

/// A note created or renamed through these paths stays directly inside the
/// directory it was asked for: before the extension is settled, its path is
/// the directory joined with one name that holds neither `/` nor `..`; a
/// renamed note stays in the directory of the note it was.
pub proof fn law_note_stays_in_dir(dir: Seq<char>, name: Seq<char>, renamed: Seq<char>)
    requires
        sanitize_spec(name) is Ok,
    ensures
        ({
            let t = sanitize_spec(name)->Ok_0;
            &&& t.len() > 0
            &&& !contains_spec(t, seq!['/'])
            &&& !contains_spec(t, seq!['.', '.'])
            &&& note_path_spec(dir, name) == Ok::<Seq<char>, ()>(
                ensure_note_ext_spec(join_spec(dir, t)),
            )
            &&& folder_path_spec(dir, name) == Ok::<Seq<char>, ()>(join_spec(dir, t))
            &&& rename_target_spec(renamed, name) == Ok::<Seq<char>, ()>(
                ensure_note_ext_spec(join_spec(rename_dir_spec(renamed), t)),
            )
        }),
{
}

} // verus!

verus! {

/// Which names are taken: a name is accepted exactly when, trimmed, it is
/// not empty and holds neither `/` nor `..`; an accepted name is used
/// trimmed, joined onto the directory (for a note, with a note extension),
/// and every other name is refused.
pub proof fn law_name_rules(dir: Seq<char>, name: Seq<char>, renamed: Seq<char>)
    ensures
        ({
            let t = trim_spec(name);
            let ok = t.len() > 0 && !contains_spec(t, seq!['/']) && !contains_spec(t, seq!['.', '.']);
            &&& ok ==> note_path_spec(dir, name) == Ok::<Seq<char>, ()>(ensure_note_ext_spec(join_spec(dir, t)))
            &&& ok ==> folder_path_spec(dir, name) == Ok::<Seq<char>, ()>(join_spec(dir, t))
            &&& ok ==> rename_target_spec(renamed, name) == Ok::<Seq<char>, ()>(
                ensure_note_ext_spec(join_spec(rename_dir_spec(renamed), t)),
            )
            &&& !ok ==> note_path_spec(dir, name) is Err && folder_path_spec(dir, name) is Err
                && rename_target_spec(renamed, name) is Err
        }),
{
}

} // verus!
