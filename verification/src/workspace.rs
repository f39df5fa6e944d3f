//! The workspace browser: paths relative to a session's working directory,
//! the listing order, what may be deleted, opened or archived.
//!
//! The file system is read by the caller; these functions decide on what it
//! found (canonical paths, file types, sizes).
use vstd::prelude::*;
use crate::pathx::{comps, components, join, join_str, split, split_chars, under, views};
use crate::text::{
    chars_of, string_of, extend, extend_str, trim, trim_str, has_char, lowercase, to_lowercase,
    lex_order, lex_compare, str_eq, slice_of, eq_chars,
};

verus! {

/// The most entries a listing shows.
pub const LIST_CAP: usize = 2000;

/// The largest total size of the files in an archive: 256 MiB.
pub const ARCHIVE_MAX_UNCOMPRESSED: u64 = 268435456;

/// The most entries an archive holds.
pub const ARCHIVE_MAX_ENTRIES: usize = 8000;

/// The largest file that is opened or archived: 64 MiB.
pub const FILE_MAX_BYTES: u64 = 67108864;

/// One entry of a directory listing.
#[derive(Debug, Clone)]
pub struct WsEntry {
    pub name: String,
    pub path: String,
    pub dir: bool,
    pub size: u64,
    pub mtime: i64,
}

/// A directory listing.
#[derive(Debug, Clone)]
pub struct WsList {
    pub cwd: String,
    pub dir: String,
    pub abs: String,
    pub truncated: bool,
    pub entries: Vec<WsEntry>,
}

/// Why a workspace request was refused.
#[derive(Debug, Clone, Copy, PartialEq, Eq, Structural)]
pub enum WsError {
    InvalidPath,
    AbsoluteNotAllowed,
    PathRequired,
    OutsideCwd,
    NotADirectory,
    SymlinkNotAllowed,
    NotAFile,
    FileTooLarge,
    NotFileOrDir,
    InvalidZipPath,
    TooManyFiles,
    ArchiveTooLarge,
}

pub open spec fn trim_end_slashes(s: Seq<char>) -> Seq<char> {
    crate::files::trim_end_slashes(s)
}

/// A path relative to the working directory: trimmed, without trailing `/`;
/// a NUL or a leading `/` is refused.
pub open spec fn normalize_rel_spec(rel: Seq<char>) -> Result<Seq<char>, WsError> {
    let t = trim(rel);
    if t.contains('\0') {
        Err(WsError::InvalidPath)
    } else if t.len() > 0 && t[0] == '/' {
        Err(WsError::AbsoluteNotAllowed)
    } else {
        Ok(trim_end_slashes(t))
    }
}

pub open spec fn wres_view(r: Result<String, WsError>) -> Result<Seq<char>, WsError> {
    match r {
        Ok(s) => Ok(s@),
        Err(e) => Err(e),
    }
}

/// A path relative to the working directory.
pub fn normalize_rel(rel: &str) -> (r: Result<String, WsError>)
    ensures
        wres_view(r) == normalize_rel_spec(rel@),
{
    let t = trim_str(rel);
    if has_char(&t, '\0') {
        return Err(WsError::InvalidPath);
    }
    if t.len() > 0 && t[0] == '/' {
        return Err(WsError::AbsoluteNotAllowed);
    }
    let mut n = t.len();
    proof {
        assert(t@.take(n as int) =~= t@);
    }
    while n > 0 && t[n - 1] == '/'
        invariant
            n <= t@.len(),
            trim_end_slashes(t@) == trim_end_slashes(t@.take(n as int)),
        decreases n,
    {
        proof {
            assert(t@.take(n as int).drop_last() =~= t@.take(n - 1));
        }
        n -= 1;
    }
    proof {
        assert(t@.subrange(0, n as int) =~= t@.take(n as int));
        if n > 0 {
            assert(t@.take(n as int).last() == t@[n - 1]);
        }
    }
    let out = slice_of(&t, 0, n);
    Ok(string_of(&out))
}

/// What a workspace path points at before it is resolved: the working
/// directory itself, or a path joined to it.
pub enum WsTarget {
    Cwd,
    Joined(String),
}

/// What a relative path points at: the working directory for an empty path
/// or `.` (where that is allowed), else the path joined to it.
pub open spec fn target_spec(cwd: Seq<char>, rel: Seq<char>, allow_empty: bool) -> Result<Option<Seq<char>>, WsError> {
    match normalize_rel_spec(rel) {
        Err(e) => Err(e),
        Ok(n) => if n.len() == 0 || n == "."@ {
            if allow_empty {
                Ok(None)
            } else {
                Err(WsError::PathRequired)
            }
        } else {
            Ok(Some(join(cwd, n)))
        },
    }
}

/// What a relative path points at, before it is resolved.
pub fn workspace_target(cwd: &str, rel: &str, allow_empty: bool) -> (r: Result<WsTarget, WsError>)
    ensures
        match r {
            Ok(WsTarget::Cwd) => target_spec(cwd@, rel@, allow_empty) == Ok::<Option<Seq<char>>, WsError>(None),
            Ok(WsTarget::Joined(p)) => target_spec(cwd@, rel@, allow_empty) == Ok::<Option<Seq<char>>, WsError>(Some(p@)),
            Err(e) => target_spec(cwd@, rel@, allow_empty) == Err::<Option<Seq<char>>, WsError>(e),
        },
{
    let n = match normalize_rel(rel) {
        Ok(n) => n,
        Err(e) => {
            return Err(e);
        },
    };
    if n.as_str().is_empty() || str_eq(n.as_str(), ".") {
        if allow_empty {
            Ok(WsTarget::Cwd)
        } else {
            Err(WsError::PathRequired)
        }
    } else {
        Ok(WsTarget::Joined(join_str(cwd, n.as_str())))
    }
}

/// A resolved workspace path, accepted where it lies under the working
/// directory.
pub fn resolve_workspace_entry(cwd_canon: &str, target_canon: &str) -> (r: Result<String, WsError>)
    ensures
        under(target_canon@, cwd_canon@) ==> (r matches Ok(s) && s@ == target_canon@),
        !under(target_canon@, cwd_canon@) ==> r == Err::<String, WsError>(WsError::OutsideCwd),
{
    if crate::pathx::is_under(target_canon, cwd_canon) {
        Ok(target_canon.to_string())
    } else {
        Err(WsError::OutsideCwd)
    }
}

/// A resolved workspace directory: under the working directory, and a
/// directory.
pub fn resolve_workspace_dir(cwd_canon: &str, target_canon: &str, is_dir: bool) -> (r: Result<String, WsError>)
    ensures
        !under(target_canon@, cwd_canon@) ==> r == Err::<String, WsError>(WsError::OutsideCwd),
        under(target_canon@, cwd_canon@) && !is_dir ==> r == Err::<String, WsError>(
            WsError::NotADirectory,
        ),
        under(target_canon@, cwd_canon@) && is_dir ==> (r matches Ok(s) && s@ == target_canon@),
{
    match resolve_workspace_entry(cwd_canon, target_canon) {
        Ok(t) => if is_dir {
            Ok(t)
        } else {
            Err(WsError::NotADirectory)
        },
        Err(e) => Err(e),
    }
}

/// A workspace file that may be opened: not a symlink, a regular file, at
/// most `FILE_MAX_BYTES`; its path and length.
pub fn open_workspace_file(target: &str, is_symlink: bool, is_file: bool, len: u64) -> (r: Result<(String, u64), WsError>)
    ensures
        is_symlink ==> r == Err::<(String, u64), WsError>(WsError::SymlinkNotAllowed),
        !is_symlink && !is_file ==> r == Err::<(String, u64), WsError>(WsError::NotAFile),
        !is_symlink && is_file && len > FILE_MAX_BYTES ==> r == Err::<(String, u64), WsError>(
            WsError::FileTooLarge,
        ),
        !is_symlink && is_file && len <= FILE_MAX_BYTES ==> (r matches Ok((p, n)) && p@ == target@
            && n == len),
{
    if is_symlink {
        return Err(WsError::SymlinkNotAllowed);
    }
    if !is_file {
        return Err(WsError::NotAFile);
    }
    if len > FILE_MAX_BYTES {
        return Err(WsError::FileTooLarge);
    }
    Ok((target.to_string(), len))
}

pub open spec fn same_path(a: Seq<char>, b: Seq<char>) -> bool {
    crate::files::same_path(a, b)
}

fn same_path_exec(a: &str, b: &str) -> (r: bool)
    ensures
        r == same_path(a@, b@),
{
    crate::files::same_path_exec(a, b)
}

/// Why a workspace path may not be deleted, if it may not: the working
/// directory, a workspace root, `/`, or the home directory.
pub open spec fn delete_block_spec(target: Seq<char>, cwd: Seq<char>, roots: Seq<Seq<char>>, home: Option<Seq<char>>) -> Option<Seq<char>> {
    if same_path(target, cwd) {
        Some("cannot delete working directory"@)
    } else if exists|i: int| 0 <= i < roots.len() && same_path(#[trigger] roots[i], target) {
        Some("cannot delete workspace root"@)
    } else if same_path(target, "/"@) {
        Some("cannot delete home directory"@)
    } else if home matches Some(h) && same_path(target, h) {
        Some("cannot delete home directory"@)
    } else {
        None
    }
}

/// Why a workspace path may not be deleted, if it may not. `home` is the
/// resolved home directory, where it resolves.
pub fn delete_block_reason(target: &str, cwd: &str, roots: &[String], home: Option<&str>) -> (r: Option<&'static str>)
    ensures
        match r {
            Some(m) => delete_block_spec(target@, cwd@, roots@.map_values(|s: String| s@), crate::files::opt_str_view(home)) == Some(m@),
            None => delete_block_spec(target@, cwd@, roots@.map_values(|s: String| s@), crate::files::opt_str_view(home)) is None,
        },
{
    let ghost rv = roots@.map_values(|s: String| s@);
    if same_path_exec(target, cwd) {
        return Some("cannot delete working directory");
    }
    let mut i: usize = 0;
    while i < roots.len()
        invariant
            i <= roots@.len(),
            rv == roots@.map_values(|s: String| s@),
            !same_path(target@, cwd@),
            forall|k: int| 0 <= k < i ==> !same_path(#[trigger] rv[k], target@),
        decreases roots.len() - i,
    {
        assert(rv[i as int] == roots@[i as int]@);
        if same_path_exec(roots[i].as_str(), target) {
            assert(same_path(rv[i as int], target@));
            return Some("cannot delete workspace root");
        }
        i += 1;
    }
    if same_path_exec(target, "/") {
        return Some("cannot delete home directory");
    }
    match home {
        Some(h) => if same_path_exec(target, h) {
            return Some("cannot delete home directory");
        },
        None => {},
    }
    None
}

/// How a deletion goes: a symlink or a file is removed, a directory removed
/// with its contents, anything else refused.
#[derive(Debug, Clone, Copy, PartialEq, Eq, Structural)]
pub enum Removal {
    File,
    Tree,
}

/// How a workspace path is deleted, once nothing blocks it.
pub fn removal_kind(is_symlink: bool, is_file: bool, is_dir: bool) -> (r: Result<Removal, WsError>)
    ensures
        (is_symlink || is_file) ==> r == Ok::<Removal, WsError>(Removal::File),
        !(is_symlink || is_file) && is_dir ==> r == Ok::<Removal, WsError>(Removal::Tree),
        !(is_symlink || is_file || is_dir) ==> r == Err::<Removal, WsError>(WsError::NotFileOrDir),
{
    if is_symlink || is_file {
        Ok(Removal::File)
    } else if is_dir {
        Ok(Removal::Tree)
    } else {
        Err(WsError::NotFileOrDir)
    }
}

/// A listed entry's path relative to the working directory.
pub open spec fn entry_path_spec(dir_rel: Seq<char>, name: Seq<char>) -> Seq<char> {
    if dir_rel.len() == 0 {
        name
    } else {
        dir_rel + seq!['/'] + name
    }
}

/// A listed entry's path relative to the working directory.
pub fn entry_path(dir_rel: &str, name: &str) -> (r: String)
    ensures
        r@ == entry_path_spec(dir_rel@, name@),
{
    if dir_rel.is_empty() {
        return name.to_string();
    }
    let mut v = chars_of(dir_rel);
    v.push('/');
    extend_str(&mut v, name);
    string_of(&v)
}

/// The size a listing shows: 0 for directories and symlinks.
pub fn entry_size(dir: bool, is_symlink: bool, len: u64) -> (r: u64)
    ensures
        r == (if dir || is_symlink {
            0
        } else {
            len
        }),
{
    if dir || is_symlink {
        0
    } else {
        len
    }
}

pub open spec fn ws_view(e: WsEntry) -> (Seq<char>, Seq<char>, bool, u64, i64) {
    (e.name@, e.path@, e.dir, e.size, e.mtime)
}

pub open spec fn ws_views(v: Seq<WsEntry>) -> Seq<(Seq<char>, Seq<char>, bool, u64, i64)> {
    Seq::new(v.len(), |i: int| ws_view(v[i]))
}

/// Whether `x` is listed strictly before `y`: directories first, then by
/// lowercase name.
pub open spec fn listed_before(x: (Seq<char>, Seq<char>, bool, u64, i64), y: (Seq<char>, Seq<char>, bool, u64, i64)) -> bool {
    (x.2 && !y.2) || (x.2 == y.2 && lex_order(lowercase(x.0), lowercase(y.0)) < 0)
}

pub open spec fn list_pos(s: Seq<(Seq<char>, Seq<char>, bool, u64, i64)>, x: (Seq<char>, Seq<char>, bool, u64, i64)) -> int
    decreases s.len(),
{
    if s.len() == 0 {
        0
    } else if listed_before(x, s[0]) {
        0
    } else {
        1 + list_pos(s.drop_first(), x)
    }
}

/// A listing in order: directories first, then by lowercase name, equal
/// entries in the order read (a stable sort).
pub open spec fn list_sort(s: Seq<(Seq<char>, Seq<char>, bool, u64, i64)>) -> Seq<(Seq<char>, Seq<char>, bool, u64, i64)>
    decreases s.len(),
{
    if s.len() == 0 {
        Seq::empty()
    } else {
        let t = list_sort(s.drop_last());
        t.insert(list_pos(t, s.last()), s.last())
    }
}

fn copy_ws(e: &WsEntry) -> (r: WsEntry)
    ensures
        ws_view(r) == ws_view(*e),
{
    WsEntry { name: e.name.clone(), path: e.path.clone(), dir: e.dir, size: e.size, mtime: e.mtime }
}

/// A listing in order: directories first, then by lowercase name.
pub fn sort_ws_entries(v: &[WsEntry]) -> (r: Vec<WsEntry>)
    ensures
        ws_views(r@) == list_sort(ws_views(v@)),
{
    let ghost dv = ws_views(v@);
    let mut out: Vec<WsEntry> = Vec::new();
    let mut keys: Vec<Vec<char>> = Vec::new();
    let mut i: usize = 0;
    proof {
        assert(dv.take(0) =~= Seq::<(Seq<char>, Seq<char>, bool, u64, i64)>::empty());
        assert(ws_views(out@) =~= Seq::<(Seq<char>, Seq<char>, bool, u64, i64)>::empty());
    }
    while i < v.len()
        invariant
            i <= v@.len(),
            dv == ws_views(v@),
            ws_views(out@) == list_sort(dv.take(i as int)),
            keys@.len() == out@.len(),
            forall|k: int| 0 <= k < keys@.len() ==> (#[trigger] keys@[k])@ == lowercase(out@[k].name@),
        decreases v.len() - i,
    {
        proof {
            assert(dv.take(i + 1).drop_last() =~= dv.take(i as int));
            assert(dv.take(i + 1).last() == ws_view(v@[i as int]));
        }
        let lk = to_lowercase(v[i].name.as_str());
        let key = chars_of(lk.as_str());
        let ghost sv = ws_views(out@);
        let ghost x = ws_view(v@[i as int]);
        let xdir = v[i].dir;
        let mut j: usize = 0;
        proof {
            assert(sv.skip(0) =~= sv);
        }
        while j < out.len()
            invariant
                j <= out@.len(),
                sv == ws_views(out@),
                keys@.len() == out@.len(),
                forall|k: int| 0 <= k < keys@.len() ==> (#[trigger] keys@[k])@ == lowercase(out@[k].name@),
                key@ == lowercase(x.0),
                xdir == x.2,
                list_pos(sv, x) == j + list_pos(sv.skip(j as int), x),
                j == out@.len() ==> sv.skip(j as int) =~= Seq::<(Seq<char>, Seq<char>, bool, u64, i64)>::empty(),
            ensures
                j <= out@.len(),
                sv == ws_views(out@),
                list_pos(sv, x) == j,
            decreases out.len() - j,
        {
            proof {
                assert(sv.skip(j as int)[0] == sv[j as int]);
                assert(keys@[j as int]@ == lowercase(sv[j as int].0));
            }
            let odir = out[j].dir;
            if (xdir && !odir) || (xdir == odir && lex_compare(&key, &keys[j]) < 0) {
                break;
            }
            proof {
                assert(sv.skip(j as int).drop_first() =~= sv.skip(j + 1));
            }
            j += 1;
        }
        let d = copy_ws(&v[i]);
        out.insert(j, d);
        keys.insert(j, key);
        proof {
            assert(ws_views(out@) =~= sv.insert(j as int, x));
            assert forall|k: int| 0 <= k < keys@.len() implies (#[trigger] keys@[k])@ == lowercase(
                out@[k].name@,
            ) by {
                if k < j {
                } else if k == j {
                } else {
                }
            }
        }
        i += 1;
    }
    proof {
        assert(dv.take(v@.len() as int) =~= dv);
    }
    out
}

pub open spec fn valid_seg(s: Seq<char>) -> bool {
    s.len() > 0 && s != "."@ && s != ".."@
}

/// A path inside an archive: the relative path as it is, with `/` appended
/// for a directory; it must not be empty, absolute, hold a NUL, or have an
/// empty, `.` or `..` piece.
pub open spec fn zip_name_spec(rel: Seq<char>, is_dir: bool) -> Result<Seq<char>, WsError> {
    if rel.len() == 0 || rel[0] == '/' || rel.contains('\0') {
        Err(WsError::InvalidZipPath)
    } else if exists|i: int| 0 <= i < split(rel, '/').len() && !valid_seg(#[trigger] split(rel, '/')[i]) {
        Err(WsError::InvalidZipPath)
    } else if is_dir {
        Ok(rel + seq!['/'])
    } else {
        Ok(rel)
    }
}

/// A path inside an archive.
pub fn zip_name(rel: &str, is_dir: bool) -> (r: Result<String, WsError>)
    ensures
        wres_view(r) == zip_name_spec(rel@, is_dir),
{
    let v = chars_of(rel);
    if v.len() == 0 || v[0] == '/' || has_char(&v, '\0') {
        return Err(WsError::InvalidZipPath);
    }
    let segs = split_chars(&v, '/');
    let ghost sv = views(segs@);
    assert(sv == split(rel@, '/'));
    let mut i: usize = 0;
    while i < segs.len()
        invariant
            i <= segs@.len(),
            sv == views(segs@),
            sv == split(rel@, '/'),
            v@ == rel@,
            !(rel@.len() == 0 || rel@[0] == '/' || rel@.contains('\0')),
            forall|k: int| 0 <= k < i ==> valid_seg(#[trigger] sv[k]),
        decreases segs.len() - i,
    {
        let s = &segs[i];
        assert(sv[i as int] == s@);
        let bad = s.len() == 0 || (s.len() == 1 && s[0] == '.') || (s.len() == 2 && s[0] == '.' && s[1]
            == '.');
        proof {
            reveal_strlit(".");
            reveal_strlit("..");
            if s@ == "."@ {
                assert(s@.len() == 1);
            }
            if s@ == ".."@ {
                assert(s@.len() == 2);
            }
            if s.len() == 1 && s[0] == '.' {
                assert(s@ =~= "."@);
            }
            if s.len() == 2 && s[0] == '.' && s[1] == '.' {
                assert(s@ =~= ".."@);
            }
        }
        if bad {
            assert(!valid_seg(sv[i as int]));
            return Err(WsError::InvalidZipPath);
        }
        i += 1;
    }
    proof {
        assert(!exists|k: int| 0 <= k < split(rel@, '/').len() && !valid_seg(#[trigger] split(rel@, '/')[k]));
    }
    let mut out = v;
    if is_dir {
        out.push('/');
    }
    proof {
        assert(!(rel@.len() == 0 || rel@[0] == '/' || rel@.contains('\0')));
        if is_dir {
            assert(out@ =~= rel@ + seq!['/']);
            assert(zip_name_spec(rel@, is_dir) == Ok::<Seq<char>, WsError>(rel@ + seq!['/']));
        } else {
            assert(out@ =~= rel@);
        }
    }
    Ok(string_of(&out))
}

/// Directories left out of archives.
pub open spec fn archive_skip_spec(name: Seq<char>) -> bool {
    name == ".git"@ || name == "node_modules"@ || name == "target"@ || name == "__pycache__"@
}

/// Whether a directory is left out of archives.
pub fn archive_skip_dir(name: &str) -> (r: bool)
    ensures
        r == archive_skip_spec(name@),
{
    str_eq(name, ".git") || str_eq(name, "node_modules") || str_eq(name, "target") || str_eq(
        name,
        "__pycache__",
    )
}

/// A directory taken into an archive: one more entry, refused past
/// `ARCHIVE_MAX_ENTRIES`.
pub fn archive_admit_dir(entries: usize) -> (r: Result<usize, WsError>)
    requires
        entries <= ARCHIVE_MAX_ENTRIES,
    ensures
        entries + 1 > ARCHIVE_MAX_ENTRIES ==> r == Err::<usize, WsError>(WsError::TooManyFiles),
        entries + 1 <= ARCHIVE_MAX_ENTRIES ==> r == Ok::<usize, WsError>((entries + 1) as usize),
{
    let n = entries + 1;
    if n > ARCHIVE_MAX_ENTRIES {
        Err(WsError::TooManyFiles)
    } else {
        Ok(n)
    }
}

/// A file taken into an archive: refused if larger than `FILE_MAX_BYTES`,
/// then if the total (added without overflow) passes
/// `ARCHIVE_MAX_UNCOMPRESSED`, then past `ARCHIVE_MAX_ENTRIES`; otherwise the
/// new entry count and total.
pub fn archive_admit_file(entries: usize, total: u64, len: u64) -> (r: Result<(usize, u64), WsError>)
    requires
        entries <= ARCHIVE_MAX_ENTRIES,
    ensures
        len > FILE_MAX_BYTES ==> r == Err::<(usize, u64), WsError>(WsError::FileTooLarge),
        len <= FILE_MAX_BYTES && total + len > ARCHIVE_MAX_UNCOMPRESSED ==> r == Err::<(usize, u64), WsError>(
            WsError::ArchiveTooLarge,
        ),
        len <= FILE_MAX_BYTES && total + len <= ARCHIVE_MAX_UNCOMPRESSED && entries + 1
            > ARCHIVE_MAX_ENTRIES ==> r == Err::<(usize, u64), WsError>(WsError::TooManyFiles),
        len <= FILE_MAX_BYTES && total + len <= ARCHIVE_MAX_UNCOMPRESSED && entries + 1
            <= ARCHIVE_MAX_ENTRIES ==> r == Ok::<(usize, u64), WsError>(
            ((entries + 1) as usize, (total + len) as u64),
        ),
{
    if len > FILE_MAX_BYTES {
        return Err(WsError::FileTooLarge);
    }
    let t = total.saturating_add(len);
    if t > ARCHIVE_MAX_UNCOMPRESSED {
        return Err(WsError::ArchiveTooLarge);
    }
    let n = entries + 1;
    if n > ARCHIVE_MAX_ENTRIES {
        return Err(WsError::TooManyFiles);
    }
    Ok((n, t))
}

} // verus!
