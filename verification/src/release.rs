//! Release versions, tags and download locations.
use vstd::prelude::*;
use crate::numfmt::{all_digits, dec, dec_val, is_digit, u64_chars, parse_u64};
use crate::pathx::{split, split_chars, last_seg, rpos_char, views};
use crate::text::{
    chars_of, string_of, extend, extend_str, eq_str, trim, trim_chars, fpos, fpos_char, has_char,
    lower_ascii, lower_chars, ends_with, ends_with_str, lex_order, lex_compare, strip_trailing, strip_trailing_chars, is_ws,
    is_ascii_alnum, is_ascii_alphanumeric, slice_of,
};

verus! {

pub const DEFAULT_REPO: &'static str = "jjdufu/ggok";

/// Parsed `major.minor.patch` with optional pre-release suffix.
#[derive(Debug, Clone)]
pub struct Version {
    pub major: u64,
    pub minor: u64,
    pub patch: u64,
    pub pre: Option<String>,
}

/// Why a release string was refused.
#[derive(Debug, Clone, Copy, PartialEq, Eq, Structural)]
pub enum ReleaseError {
    EmptyRepo,
    RepoEndsWithGit,
    NotOwnerName,
    InvalidRepo,
    InvalidVersion,
    UnsupportedOs,
    UnsupportedArch,
    EmptyLatestUrl,
    NotReleaseTag,
    /// The checksum listed for the file is not 64 hexadecimal digits.
    InvalidSha256,
    /// No checksum is listed for the file.
    NoSha256,
    /// The file's SHA-256 is not the one listed.
    Sha256Mismatch,
}

pub type VersionView = (u64, u64, u64, Option<Seq<char>>);

pub open spec fn opt_view(o: Option<String>) -> Option<Seq<char>> {
    match o {
        Some(s) => Some(s@),
        None => None,
    }
}

impl Version {
    pub open spec fn view(self) -> VersionView {
        (self.major, self.minor, self.patch, opt_view(self.pre))
    }
}

/// `s` without one leading `v` or `V`.
pub open spec fn strip_v(s: Seq<char>) -> Seq<char> {
    if s.len() > 0 && (s[0] == 'v' || s[0] == 'V') {
        s.drop_first()
    } else {
        s
    }
}

/// One numeric segment: non-empty ASCII digits that fit in a `u64`.
pub open spec fn ver_num(seg: Seq<char>) -> Option<u64> {
    if seg.len() > 0 && all_digits(seg) && dec_val(seg) <= u64::MAX {
        Some(dec_val(seg) as u64)
    } else {
        None
    }
}

pub open spec fn split_pre(rest: Seq<char>) -> (Seq<char>, Option<Seq<char>>) {
    match fpos(rest, '-') {
        Some(i) => (rest.take(i), Some(rest.skip(i + 1))),
        None => (rest, None),
    }
}

/// What `parse_version` accepts, and the version it reads.
pub open spec fn parse_version_spec(raw: Seq<char>) -> Option<VersionView> {
    let rest = strip_v(trim(raw));
    if rest.len() == 0 || rest == "latest"@ || rest.contains('+') {
        None
    } else {
        let core = split_pre(rest).0;
        let pre = split_pre(rest).1;
        if pre matches Some(p) && p.len() == 0 {
            None
        } else {
            let segs = split(core, '.');
            if segs.len() == 3 && ver_num(segs[0]) is Some && ver_num(segs[1]) is Some && ver_num(
                segs[2],
            ) is Some {
                Some((ver_num(segs[0])->0, ver_num(segs[1])->0, ver_num(segs[2])->0, pre))
            } else {
                None
            }
        }
    }
}

/// The canonical text of a version.
pub open spec fn version_text(v: VersionView) -> Seq<char> {
    let core = dec(v.0 as nat) + seq!['.'] + dec(v.1 as nat) + seq!['.'] + dec(v.2 as nat);
    match v.3 {
        Some(p) => core + seq!['-'] + p,
        None => core,
    }
}

pub open spec fn num_order(a: u64, b: u64) -> int {
    if a < b {
        -1
    } else if a > b {
        1
    } else {
        0
    }
}

/// Version precedence: numbers first, then a release above any pre-release,
/// then pre-release text compared as strings (so `rc.10` < `rc.9`).
pub open spec fn version_order(a: VersionView, b: VersionView) -> int {
    if num_order(a.0, b.0) != 0 {
        num_order(a.0, b.0)
    } else if num_order(a.1, b.1) != 0 {
        num_order(a.1, b.1)
    } else if num_order(a.2, b.2) != 0 {
        num_order(a.2, b.2)
    } else {
        match (a.3, b.3) {
            (None, None) => 0,
            (None, Some(_)) => 1,
            (Some(_), None) => -1,
            (Some(l), Some(r)) => lex_order(l, r),
        }
    }
}

pub open spec fn is_newer_spec(latest: Seq<char>, current: Seq<char>) -> bool {
    match (parse_version_spec(latest), parse_version_spec(current)) {
        (Some(l), Some(c)) => !(l.3 is Some && c.3 is None) && version_order(l, c) > 0,
        _ => false,
    }
}

fn parse_ver_num(seg: &[char]) -> (r: Option<u64>)
    ensures
        r == ver_num(seg@),
{
    if seg.len() == 0 {
        return None;
    }
    let mut i: usize = 0;
    while i < seg.len()
        invariant
            i <= seg.len(),
            forall|k: int| 0 <= k < i ==> is_digit(seg@[k]),
        decreases seg.len() - i,
    {
        if !('0' <= seg[i] && seg[i] <= '9') {
            return None;
        }
        i += 1;
    }
    proof {
        assert(seg@.len() > 0 && seg@[0] != '+');
    }
    parse_u64(seg)
}

fn strip_one_v(s: &[char]) -> (r: Vec<char>)
    ensures
        r@ == strip_v(s@),
{
    if s.len() > 0 && (s[0] == 'v' || s[0] == 'V') {
        let r = slice_of(s, 1, s.len());
        proof {
            assert(r@ =~= s@.drop_first());
        }
        r
    } else {
        slice_of(s, 0, s.len())
    }
}

/// Parses `major.minor.patch` with an optional `-pre` suffix and one
/// optional leading `v`.
pub fn parse_version(raw: &str) -> (r: Result<Version, ReleaseError>)
    ensures
        match parse_version_spec(raw@) {
            Some(v) => r matches Ok(ver) && ver@ == v,
            None => r == Err::<Version, ReleaseError>(ReleaseError::InvalidVersion),
        },
{
    let rv = chars_of(raw);
    let t = trim_chars(&rv);
    let rest = strip_one_v(&t);
    if rest.len() == 0 || eq_str(&rest, "latest") || has_char(&rest, '+') {
        return Err(ReleaseError::InvalidVersion);
    }
    let (core, pre) = match fpos_char(&rest, '-') {
        Some(i) => {
            let c = slice_of(&rest, 0, i);
            let p = slice_of(&rest, i + 1, rest.len());
            proof {
                assert(c@ =~= rest@.take(i as int));
                assert(p@ =~= rest@.skip(i + 1));
            }
            (c, Some(p))
        },
        None => (slice_of(&rest, 0, rest.len()), None),
    };
    proof {
        assert(rest@.subrange(0, rest@.len() as int) == rest@);
    }
    let pre_string: Option<String> = match pre {
        Some(p) => {
            if p.len() == 0 {
                return Err(ReleaseError::InvalidVersion);
            }
            Some(string_of(&p))
        },
        None => None,
    };
    let segs = split_chars(&core, '.');
    proof {
        assert(views(segs@) == split(core@, '.'));
    }
    if segs.len() != 3 {
        return Err(ReleaseError::InvalidVersion);
    }
    proof {
        assert(views(segs@)[0] == segs@[0]@);
        assert(views(segs@)[1] == segs@[1]@);
        assert(views(segs@)[2] == segs@[2]@);
    }
    let major = match parse_ver_num(&segs[0]) {
        Some(n) => n,
        None => {
            return Err(ReleaseError::InvalidVersion);
        },
    };
    let minor = match parse_ver_num(&segs[1]) {
        Some(n) => n,
        None => {
            return Err(ReleaseError::InvalidVersion);
        },
    };
    let patch = match parse_ver_num(&segs[2]) {
        Some(n) => n,
        None => {
            return Err(ReleaseError::InvalidVersion);
        },
    };
    Ok(Version { major, minor, patch, pre: pre_string })
}

/// The canonical text of a version.
pub fn version_string(ver: &Version) -> (r: String)
    ensures
        r@ == version_text(ver@),
{
    let mut out = u64_chars(ver.major);
    out.push('.');
    let b = u64_chars(ver.minor);
    extend(&mut out, &b);
    out.push('.');
    let c = u64_chars(ver.patch);
    extend(&mut out, &c);
    match &ver.pre {
        Some(p) => {
            out.push('-');
            extend_str(&mut out, p.as_str());
        },
        None => {},
    }
    proof {
        let core = dec(ver.major as nat) + seq!['.'] + dec(ver.minor as nat) + seq!['.'] + dec(
            ver.patch as nat,
        );
        if ver.pre is Some {
            assert(out@ =~= core + seq!['-'] + ver.pre->0@);
        } else {
            assert(out@ =~= core);
        }
    }
    string_of(&out)
}

fn num_compare(a: u64, b: u64) -> (r: i8)
    ensures
        r as int == num_order(a, b),
{
    if a < b {
        -1
    } else if a > b {
        1
    } else {
        0
    }
}

impl Version {
    /// Three-way precedence: negative, zero or positive.
    pub fn precedence(&self, other: &Version) -> (r: i8)
        ensures
            r as int == version_order(self@, other@),
    {
        let a = num_compare(self.major, other.major);
        if a != 0 {
            return a;
        }
        let b = num_compare(self.minor, other.minor);
        if b != 0 {
            return b;
        }
        let c = num_compare(self.patch, other.patch);
        if c != 0 {
            return c;
        }
        match (&self.pre, &other.pre) {
            (None, None) => 0,
            (None, Some(_)) => 1,
            (Some(_), None) => -1,
            (Some(l), Some(r)) => {
                let lv = chars_of(l.as_str());
                let rv = chars_of(r.as_str());
                lex_compare(&lv, &rv)
            },
        }
    }
}

/// Whether `latest` should be treated as an update over `current`.
///
/// Pre-release `latest` is never an update when `current` is a stable tag.
pub fn is_newer(latest: &str, current: &str) -> (r: bool)
    ensures
        r == is_newer_spec(latest@, current@),
{
    let latest_v = match parse_version(latest) {
        Ok(v) => v,
        Err(_) => {
            return false;
        },
    };
    let current_v = match parse_version(current) {
        Ok(v) => v,
        Err(_) => {
            return false;
        },
    };
    if latest_v.pre.is_some() && current_v.pre.is_none() {
        return false;
    }
    latest_v.precedence(&current_v) > 0
}

pub proof fn lemma_version_order_antisym(a: VersionView, b: VersionView)
    ensures
        version_order(a, b) == -version_order(b, a),
        version_order(a, a) == 0,
{
    if let (Some(l), Some(r)) = (a.3, b.3) {
        crate::text::lemma_lex_order_antisym(l, r);
    }
    if let Some(l) = a.3 {
        crate::text::lemma_lex_order_antisym(l, l);
    }
}

/// No version string is newer than itself.
pub proof fn law_is_newer_irreflexive(s: Seq<char>)
    ensures
        !is_newer_spec(s, s),
{
    if let Some(v) = parse_version_spec(s) {
        lemma_version_order_antisym(v, v);
    }
}

/// A pre-release is never an update over a stable release, whatever their
/// numbers; between two stable releases, the one with the greater
/// `major.minor.patch` (compared number by number) is the update.
pub proof fn law_is_newer_prerelease_and_numbers(latest: Seq<char>, current: Seq<char>)
    ensures
        (parse_version_spec(latest) matches Some(l) && l.3 is Some) && (parse_version_spec(current) matches Some(
            c,
        ) && c.3 is None) ==> !is_newer_spec(latest, current),
        parse_version_spec(latest) is None || parse_version_spec(current) is None ==> !is_newer_spec(
            latest,
            current,
        ),
        (parse_version_spec(latest) matches Some(l) && parse_version_spec(current) matches Some(c) && l.3
            is None && c.3 is None) ==> (is_newer_spec(latest, current) <==> ({
            let l = parse_version_spec(latest).unwrap();
            let c = parse_version_spec(current).unwrap();
            l.0 > c.0 || (l.0 == c.0 && l.1 > c.1) || (l.0 == c.0 && l.1 == c.1 && l.2 > c.2)
        })),
{
}

/// If `a` is newer than `b`, then `b` is not newer than `a`.
pub proof fn law_is_newer_asymmetric(a: Seq<char>, b: Seq<char>)
    ensures
        is_newer_spec(a, b) ==> !is_newer_spec(b, a),
{
    if let (Some(x), Some(y)) = (parse_version_spec(a), parse_version_spec(b)) {
        lemma_version_order_antisym(x, y);
    }
}

proof fn lemma_split_no_sep(a: Seq<char>, c: char)
    requires
        !a.contains(c),
    ensures
        split(a, c) == seq![a],
    decreases a.len(),
{
    if a.len() > 0 {
        assert(!a.drop_last().contains(c)) by {
            if a.drop_last().contains(c) {
                let k = choose|k: int| 0 <= k < a.drop_last().len() && a.drop_last()[k] == c;
                assert(a[k] == c);
            }
        }
        lemma_split_no_sep(a.drop_last(), c);
        assert(a.last() != c) by {
            assert(a[a.len() - 1] == a.last());
        }
        assert(a.drop_last().push(a.last()) == a);
        assert(seq![a.drop_last()].update(0, a.drop_last().push(a.last())) =~= seq![a]);
    } else {
        assert(a =~= Seq::<char>::empty());
    }
}

proof fn lemma_split_sep(x: Seq<char>, y: Seq<char>, c: char)
    requires
        !y.contains(c),
    ensures
        split(x + seq![c] + y, c) == split(x, c).push(y),
    decreases y.len(),
{
    let s = x + seq![c] + y;
    if y.len() == 0 {
        assert(s.drop_last() =~= x);
        assert(s.last() == c);
        assert(y =~= Seq::<char>::empty());
    } else {
        let y2 = y.drop_last();
        assert(!y2.contains(c)) by {
            if y2.contains(c) {
                let k = choose|k: int| 0 <= k < y2.len() && y2[k] == c;
                assert(y[k] == c);
            }
        }
        lemma_split_sep(x, y2, c);
        assert(s.drop_last() =~= x + seq![c] + y2);
        assert(s.last() == y.last());
        assert(y.last() != c) by {
            assert(y[y.len() - 1] == y.last());
        }
        crate::pathx::lemma_split_nonempty(x, c);
        let p = split(x, c).push(y2);
        assert(y2.push(y.last()) =~= y);
        assert(p.last() == y2);
        assert(p.update(p.len() - 1, p.last().push(y.last())) =~= split(x, c).push(y));
    }
}

proof fn lemma_digits_plain(n: nat)
    ensures
        dec(n).len() >= 1,
        forall|i: int| 0 <= i < dec(n).len() ==> {
            let ch = #[trigger] dec(n)[i];
            is_digit(ch) && ch != '.' && ch != '-' && ch != '+' && !is_ws(ch) && ch != 'v' && ch
                != 'V'
        },
        !dec(n).contains('.'),
        !dec(n).contains('-'),
        !dec(n).contains('+'),
        ver_num(dec(n)) == Some(n as u64) || n > u64::MAX,
{
    crate::numfmt::lemma_dec_roundtrip(n);
}

/// The canonical text of a version reads back as that version, for every
/// version whose pre-release part is non-empty, has no `+` and does not end
/// in white space.
pub proof fn law_version_text_roundtrip(v: VersionView)
    requires
        v.3 matches Some(p) ==> (p.len() > 0 && !p.contains('+') && !is_ws(p.last())),
    ensures
        parse_version_spec(version_text(v)) == Some(v),
{
    let d0 = dec(v.0 as nat);
    let d1 = dec(v.1 as nat);
    let d2 = dec(v.2 as nat);
    lemma_digits_plain(v.0 as nat);
    lemma_digits_plain(v.1 as nat);
    lemma_digits_plain(v.2 as nat);
    let core = d0 + seq!['.'] + d1 + seq!['.'] + d2;
    let s = version_text(v);
    assert(!core.contains('-') && !core.contains('+')) by {
        assert forall|i: int| 0 <= i < core.len() implies core[i] != '-' && core[i] != '+' by {
            if i < d0.len() {
                assert(core[i] == d0[i]);
            } else if i == d0.len() {
            } else if i < d0.len() + 1 + d1.len() {
                assert(core[i] == d1[i - d0.len() - 1]);
            } else if i == d0.len() + 1 + d1.len() {
            } else {
                assert(core[i] == d2[i - d0.len() - 2 - d1.len()]);
            }
        }
    }
    // the text starts with a digit and ends with a digit or the last pre char
    assert(s[0] == d0[0]);
    assert(!is_ws(s[0]) && s[0] != 'v' && s[0] != 'V');
    let last_ok = !is_ws(s.last());
    if v.3 is Some {
        assert(s.last() == v.3->0.last());
    } else {
        assert(s.last() == d2.last());
        assert(d2.last() == d2[d2.len() - 1]);
    }
    assert(last_ok);
    assert(crate::text::trim_start(s) == s);
    assert(crate::text::trim_end(s) == s);
    assert(trim(s) == s);
    assert(strip_v(s) == s);
    reveal_strlit("latest");
    assert(s != "latest"@) by {
        assert("latest"@[0] == 'l');
    }
    assert(!s.contains('+')) by {
        if s.contains('+') {
            let k = choose|k: int| 0 <= k < s.len() && s[k] == '+';
            if k < core.len() {
                assert(core[k] == '+');
            } else {
                let p = v.3->0;
                assert(k > core.len());
                assert(p[k - core.len() - 1] == '+');
            }
        }
    }
    // the first '-' ends the numeric core
    crate::text::lemma_fpos_none(core, '-');
    if v.3 is Some {
        let p = v.3->0;
        assert(s == core + seq!['-'] + p);
        assert(s.take(core.len() as int) == core);
        assert(s[core.len() as int] == '-');
        crate::text::lemma_fpos_extend(s, core.len() as int, '-');
        assert(s.skip(core.len() as int + 1) =~= p);
    } else {
        assert(s == core);
    }
    assert(split_pre(s).0 == core);
    assert(split_pre(s).1 == v.3);
    // the core splits into the three numbers
    lemma_split_no_sep(d0, '.');
    lemma_split_sep(d0, d1, '.');
    lemma_split_sep(d0 + seq!['.'] + d1, d2, '.');
    assert(split(core, '.') =~= seq![d0, d1, d2]);
}

pub open spec fn repo_char_ok(c: char) -> bool {
    is_ascii_alnum(c) || c == '.' || c == '_' || c == '-'
}

pub open spec fn valid_repo_seg(seg: Seq<char>) -> bool {
    seg.len() > 0 && seg != "."@ && seg != ".."@ && forall|i: int|
        0 <= i < seg.len() ==> repo_char_ok(#[trigger] seg[i])
}

/// What `parse_repo` gives: `owner/name` with each segment matching
/// `[A-Za-z0-9._-]+`, not `.` or `..`, and no `.git` ending.
pub open spec fn parse_repo_spec(raw: Seq<char>) -> Result<Seq<char>, ReleaseError> {
    let t = trim(raw);
    let parts = split(t, '/');
    if t.len() == 0 {
        Err(ReleaseError::EmptyRepo)
    } else if ends_with(lower_ascii(t), ".git"@) {
        Err(ReleaseError::RepoEndsWithGit)
    } else if parts.len() != 2 {
        Err(ReleaseError::NotOwnerName)
    } else if !valid_repo_seg(parts[0]) || !valid_repo_seg(parts[1]) {
        Err(ReleaseError::InvalidRepo)
    } else {
        Ok(parts[0] + seq!['/'] + parts[1])
    }
}

fn valid_repo_segment(seg: &[char]) -> (r: bool)
    ensures
        r == valid_repo_seg(seg@),
{
    if seg.len() == 0 || eq_str(seg, ".") || eq_str(seg, "..") {
        return false;
    }
    let mut i: usize = 0;
    while i < seg.len()
        invariant
            i <= seg.len(),
            forall|k: int| 0 <= k < i ==> repo_char_ok(#[trigger] seg@[k]),
        decreases seg.len() - i,
    {
        let c = seg[i];
        if !(is_ascii_alphanumeric(c) || c == '.' || c == '_' || c == '-') {
            return false;
        }
        i += 1;
    }
    true
}

/// Checks a GitHub `owner/name` repository and returns it trimmed.
pub fn parse_repo(raw: &str) -> (r: Result<String, ReleaseError>)
    ensures
        match parse_repo_spec(raw@) {
            Ok(v) => r matches Ok(s) && s@ == v,
            Err(e) => r == Err::<String, ReleaseError>(e),
        },
{
    let rv = chars_of(raw);
    let t = trim_chars(&rv);
    if t.len() == 0 {
        return Err(ReleaseError::EmptyRepo);
    }
    let l = lower_chars(&t);
    if ends_with_str(&l, ".git") {
        return Err(ReleaseError::RepoEndsWithGit);
    }
    let parts = split_chars(&t, '/');
    proof {
        assert(views(parts@) == split(t@, '/'));
    }
    if parts.len() != 2 {
        return Err(ReleaseError::NotOwnerName);
    }
    proof {
        assert(views(parts@)[0] == parts@[0]@);
        assert(views(parts@)[1] == parts@[1]@);
    }
    if !valid_repo_segment(&parts[0]) || !valid_repo_segment(&parts[1]) {
        return Err(ReleaseError::InvalidRepo);
    }
    let mut out = slice_of(&parts[0], 0, parts[0].len());
    out.push('/');
    extend(&mut out, &parts[1]);
    proof {
        assert(parts@[0]@.subrange(0, parts@[0]@.len() as int) == parts@[0]@);
    }
    Ok(string_of(&out))
}

pub open spec fn repo_source(env: Option<Seq<char>>) -> Seq<char> {
    match env {
        Some(e) => if trim(e).len() > 0 { trim(e) } else { DEFAULT_REPO@ },
        None => DEFAULT_REPO@,
    }
}

pub open spec fn env_view(env: Option<&str>) -> Option<Seq<char>> {
    match env {
        Some(e) => Some(e@),
        None => None,
    }
}

/// The release repository: `GGOK_REPO` (given as `env_repo`) when it is set
/// and not blank, else the default.
pub fn repo(env_repo: Option<&str>) -> (r: Result<String, ReleaseError>)
    ensures
        match parse_repo_spec(repo_source(env_view(env_repo))) {
            Ok(v) => r matches Ok(s) && s@ == v,
            Err(e) => r == Err::<String, ReleaseError>(e),
        },
{
    match env_repo {
        Some(e) => {
            let ev = chars_of(e);
            let t = trim_chars(&ev);
            if t.len() > 0 {
                let ts = string_of(&t);
                return parse_repo(ts.as_str());
            }
            parse_repo(DEFAULT_REPO)
        },
        None => parse_repo(DEFAULT_REPO),
    }
}

/// The page that redirects to the newest release.
pub fn latest_page_url(env_repo: Option<&str>) -> (r: Result<String, ReleaseError>)
    ensures
        match parse_repo_spec(repo_source(env_view(env_repo))) {
            Ok(v) => r matches Ok(s) && s@ == "https://github.com/"@ + v + "/releases/latest"@,
            Err(e) => r == Err::<String, ReleaseError>(e),
        },
{
    let rp = repo(env_repo)?;
    let mut out: Vec<char> = Vec::new();
    extend_str(&mut out, "https://github.com/");
    extend_str(&mut out, rp.as_str());
    extend_str(&mut out, "/releases/latest");
    Ok(string_of(&out))
}

/// Filename of a release archive.
pub fn asset_filename(ver: &str, os: &str, arch: &str) -> (r: String)
    ensures
        r@ == "ggok_"@ + ver@ + "_"@ + os@ + "_"@ + arch@ + ".tar.gz"@,
{
    let mut out: Vec<char> = Vec::new();
    extend_str(&mut out, "ggok_");
    extend_str(&mut out, ver);
    extend_str(&mut out, "_");
    extend_str(&mut out, os);
    extend_str(&mut out, "_");
    extend_str(&mut out, arch);
    extend_str(&mut out, ".tar.gz");
    string_of(&out)
}

pub open spec fn os_arch_check(os: Seq<char>, arch: Seq<char>) -> Option<ReleaseError> {
    if os != "linux"@ && os != "darwin"@ {
        Some(ReleaseError::UnsupportedOs)
    } else if arch != "amd64"@ && arch != "arm64"@ {
        Some(ReleaseError::UnsupportedArch)
    } else {
        None
    }
}

fn checked_os_arch(os: &str, arch: &str) -> (r: Result<(), ReleaseError>)
    ensures
        match os_arch_check(os@, arch@) {
            Some(e) => r == Err::<(), ReleaseError>(e),
            None => r is Ok,
        },
{
    let o = chars_of(os);
    let a = chars_of(arch);
    if !eq_str(&o, "linux") && !eq_str(&o, "darwin") {
        return Err(ReleaseError::UnsupportedOs);
    }
    if !eq_str(&a, "amd64") && !eq_str(&a, "arm64") {
        return Err(ReleaseError::UnsupportedArch);
    }
    Ok(())
}

/// Download URL of the archive for `ver` on `os`/`arch`.
pub fn asset_url(ver: &str, os: &str, arch: &str, env_repo: Option<&str>) -> (r: Result<
    String,
    ReleaseError,
>)
    ensures
        match parse_version_spec(ver@) {
            None => r == Err::<String, ReleaseError>(ReleaseError::InvalidVersion),
            Some(v) => match os_arch_check(os@, arch@) {
                Some(e) => r == Err::<String, ReleaseError>(e),
                None => match parse_repo_spec(repo_source(env_view(env_repo))) {
                    Err(e) => r == Err::<String, ReleaseError>(e),
                    Ok(rp) => r matches Ok(s) && s@ == "https://github.com/"@ + rp
                        + "/releases/download/v"@ + version_text(v) + "/"@ + ("ggok_"@
                        + version_text(v) + "_"@ + os@ + "_"@ + arch@ + ".tar.gz"@),
                },
            },
        },
{
    let parsed = parse_version(ver)?;
    let vs = version_string(&parsed);
    checked_os_arch(os, arch)?;
    let rp = repo(env_repo)?;
    let name = asset_filename(vs.as_str(), os, arch);
    let mut out: Vec<char> = Vec::new();
    extend_str(&mut out, "https://github.com/");
    extend_str(&mut out, rp.as_str());
    extend_str(&mut out, "/releases/download/v");
    extend_str(&mut out, vs.as_str());
    extend_str(&mut out, "/");
    extend_str(&mut out, name.as_str());
    Ok(string_of(&out))
}

/// URL of the checksum list of release `ver`.
pub fn sha256sums_url(ver: &str, env_repo: Option<&str>) -> (r: Result<String, ReleaseError>)
    ensures
        match parse_version_spec(ver@) {
            None => r == Err::<String, ReleaseError>(ReleaseError::InvalidVersion),
            Some(v) => match parse_repo_spec(repo_source(env_view(env_repo))) {
                Err(e) => r == Err::<String, ReleaseError>(e),
                Ok(rp) => r matches Ok(s) && s@ == "https://github.com/"@ + rp
                    + "/releases/download/v"@ + version_text(v) + "/SHA256SUMS"@,
            },
        },
{
    let parsed = parse_version(ver)?;
    let vs = version_string(&parsed);
    let rp = repo(env_repo)?;
    let mut out: Vec<char> = Vec::new();
    extend_str(&mut out, "https://github.com/");
    extend_str(&mut out, rp.as_str());
    extend_str(&mut out, "/releases/download/v");
    extend_str(&mut out, vs.as_str());
    extend_str(&mut out, "/SHA256SUMS");
    Ok(string_of(&out))
}

/// What `parse_latest_tag` gives for the URL a `releases/latest` redirect ends at.
pub open spec fn latest_tag_spec(url: Seq<char>) -> Result<Seq<char>, ReleaseError> {
    let trimmed = strip_trailing(trim(url), '/');
    let tag = last_seg(trimmed);
    if trimmed.len() == 0 {
        Err(ReleaseError::EmptyLatestUrl)
    } else if tag.len() == 0 || tag == "latest"@ {
        Err(ReleaseError::NotReleaseTag)
    } else {
        match parse_version_spec(tag) {
            Some(v) => Ok(version_text(v)),
            None => Err(ReleaseError::InvalidVersion),
        }
    }
}

/// The canonical version named by the last segment of a release URL.
pub fn parse_latest_tag(effective_url: &str) -> (r: Result<String, ReleaseError>)
    ensures
        match latest_tag_spec(effective_url@) {
            Ok(v) => r matches Ok(s) && s@ == v,
            Err(e) => r == Err::<String, ReleaseError>(e),
        },
{
    let uv = chars_of(effective_url);
    let t = trim_chars(&uv);
    let trimmed = strip_trailing_chars(&t, '/');
    if trimmed.len() == 0 {
        return Err(ReleaseError::EmptyLatestUrl);
    }
    let tag = match rpos_char(&trimmed, '/') {
        Some(i) => {
            let r = slice_of(&trimmed, i + 1, trimmed.len());
            proof {
                assert(r@ =~= trimmed@.skip(i + 1));
            }
            r
        },
        None => trimmed,
    };
    if tag.len() == 0 || eq_str(&tag, "latest") {
        return Err(ReleaseError::NotReleaseTag);
    }
    let tag_s = string_of(&tag);
    let ver = parse_version(tag_s.as_str())?;
    Ok(version_string(&ver))
}


pub open spec fn is_hex_char(c: char) -> bool {
    ('0' <= c && c <= '9') || ('a' <= c && c <= 'f') || ('A' <= c && c <= 'F')
}

/// The file a checksum line is about: its second word, without a leading
/// `*` (binary mode), when the line has exactly two words.
pub open spec fn sum_line_name(line: Seq<char>) -> Option<Seq<char>> {
    let w = crate::text::words(line);
    if w.len() != 2 {
        None
    } else if w[1].len() > 0 && w[1][0] == '*' {
        Some(w[1].drop_first())
    } else {
        Some(w[1])
    }
}

/// The first line of a `SHA256SUMS` text that lists `filename`.
pub open spec fn sum_line(ls: Seq<Seq<char>>, filename: Seq<char>) -> Option<Seq<char>>
    decreases ls.len(),
{
    if ls.len() == 0 {
        None
    } else if sum_line_name(trim(ls[0])) == Some(filename) {
        Some(trim(ls[0]))
    } else {
        sum_line(ls.drop_first(), filename)
    }
}

/// The checksum of `filename` in a `SHA256SUMS` text (lines of
/// `<hex> <name>` or `<hex> *<name>`): the first line naming it must give
/// 64 hexadecimal digits.
pub open spec fn sha256sums_spec(text: Seq<char>, filename: Seq<char>) -> Result<Seq<char>, ReleaseError> {
    match sum_line(crate::prefs::lines(text), filename) {
        None => Err(ReleaseError::NoSha256),
        Some(l) => {
            let hex = crate::text::words(l)[0];
            if hex.len() == 64 && forall|i: int| 0 <= i < hex.len() ==> is_hex_char(#[trigger] hex[i]) {
                Ok(hex)
            } else {
                Err(ReleaseError::InvalidSha256)
            }
        },
    }
}

fn all_hex(v: &Vec<char>) -> (r: bool)
    ensures
        r == (forall|i: int| 0 <= i < v@.len() ==> is_hex_char(#[trigger] v@[i])),
{
    let mut i: usize = 0;
    while i < v.len()
        invariant
            i <= v.len(),
            forall|k: int| 0 <= k < i ==> is_hex_char(#[trigger] v@[k]),
        decreases v.len() - i,
    {
        let c = v[i];
        if !(('0' <= c && c <= '9') || ('a' <= c && c <= 'f') || ('A' <= c && c <= 'F')) {
            assert(!is_hex_char(v@[i as int]));
            return false;
        }
        i += 1;
    }
    true
}

fn line_names(line: &Vec<char>, filename: &[char]) -> (r: Option<Vec<Vec<char>>>)
    ensures
        match r {
            Some(w) => sum_line_name(line@) == Some(filename@) && crate::pathx::views(w@)
                == crate::text::words(line@),
            None => sum_line_name(line@) != Some(filename@),
        },
{
    let w = crate::text::words_of(line);
    let ghost wv = crate::pathx::views(w@);
    if w.len() != 2 {
        return None;
    }
    proof {
        assert(wv[1] == w@[1]@);
    }
    let name = if w[1].len() > 0 && w[1][0] == '*' {
        let x = crate::text::slice_of(&w[1], 1, w[1].len());
        proof {
            assert(x@ =~= w@[1]@.drop_first());
        }
        x
    } else {
        crate::text::slice_of(&w[1], 0, w[1].len())
    };
    proof {
        assert(w@[1]@.subrange(0, w@[1]@.len() as int) =~= w@[1]@);
    }
    if crate::text::eq_chars(&name, filename) {
        Some(w)
    } else {
        None
    }
}

/// The checksum listed for `filename` in a `SHA256SUMS` text.
pub fn parse_sha256sums(text: &str, filename: &str) -> (r: Result<String, ReleaseError>)
    ensures
        match sha256sums_spec(text@, filename@) {
            Ok(h) => r matches Ok(s) && s@ == h,
            Err(e) => r == Err::<String, ReleaseError>(e),
        },
{
    let chars = chars_of(text);
    let fname = chars_of(filename);
    let ls = crate::prefs::lines_of(&chars);
    let ghost lv = crate::pathx::views(ls@);
    let mut i: usize = 0;
    proof {
        assert(lv.skip(0) =~= lv);
    }
    while i < ls.len()
        invariant
            i <= ls.len(),
            lv == crate::pathx::views(ls@),
            lv == crate::prefs::lines(text@),
            fname@ == filename@,
            sum_line(lv, filename@) == sum_line(lv.skip(i as int), filename@),
        decreases ls.len() - i,
    {
        proof {
            assert(lv.skip(i as int)[0] == ls@[i as int]@);
            assert(lv.skip(i as int).drop_first() =~= lv.skip(i + 1));
        }
        let line = crate::text::trim_chars(&ls[i]);
        match line_names(&line, &fname) {
            Some(w) => {
                proof {
                    assert(crate::pathx::views(w@)[0] == w@[0]@);
                }
                let hex = &w[0];
                if hex.len() == 64 && all_hex(hex) {
                    return Ok(string_of(hex));
                }
                return Err(ReleaseError::InvalidSha256);
            },
            None => {},
        }
        i += 1;
    }
    proof {
        assert(lv.skip(i as int) =~= Seq::<Seq<char>>::empty());
    }
    Err(ReleaseError::NoSha256)
}


/// The release names of the platform Rust reports (`std::env::consts`):
/// `linux` or `macos` (as `darwin`), and `x86_64` (as `amd64`) or `aarch64`
/// (as `arm64`).
pub fn os_arch(os: &str, arch: &str) -> (r: Result<(String, String), ReleaseError>)
    ensures
        os@ != "linux"@ && os@ != "macos"@ ==> r == Err::<(String, String), ReleaseError>(
            ReleaseError::UnsupportedOs,
        ),
        (os@ == "linux"@ || os@ == "macos"@) && arch@ != "x86_64"@ && arch@ != "aarch64"@ ==> r
            == Err::<(String, String), ReleaseError>(ReleaseError::UnsupportedArch),
        (os@ == "linux"@ || os@ == "macos"@) && (arch@ == "x86_64"@ || arch@ == "aarch64"@) ==> (r matches Ok(
            (o, a),
        ) && o@ == (if os@ == "linux"@ {
            "linux"@
        } else {
            "darwin"@
        }) && a@ == (if arch@ == "x86_64"@ {
            "amd64"@
        } else {
            "arm64"@
        })),
{
    let o = if crate::text::str_eq(os, "linux") {
        "linux"
    } else if crate::text::str_eq(os, "macos") {
        "darwin"
    } else {
        return Err(ReleaseError::UnsupportedOs);
    };
    let a = if crate::text::str_eq(arch, "x86_64") {
        "amd64"
    } else if crate::text::str_eq(arch, "aarch64") {
        "arm64"
    } else {
        return Err(ReleaseError::UnsupportedArch);
    };
    Ok((o.to_string(), a.to_string()))
}

/// Checks a downloaded file against its listed SHA-256: the listed text,
/// trimmed, must be hexadecimal (else [`ReleaseError::InvalidSha256`]), and
/// the file's digest must be those bytes (else
/// [`ReleaseError::Sha256Mismatch`]).
pub fn sha256_matches(data: &[u8], hex: &str) -> (r: Result<(), ReleaseError>)
    ensures
        match crate::auth::hex_decode_spec(trim(hex@)) {
            None => r == Err::<(), ReleaseError>(ReleaseError::InvalidSha256),
            Some(e) => (r is Ok) == (crate::config::sha256(data@) == e) && (r is Err ==> r
                == Err::<(), ReleaseError>(ReleaseError::Sha256Mismatch)),
        },
{
    let t = string_of(&trim_chars(&chars_of(hex)));
    let expected = match crate::auth::hex_decode(t.as_str()) {
        None => {
            return Err(ReleaseError::InvalidSha256);
        },
        Some(e) => e,
    };
    let got = crate::config::sha256_digest(data);
    if got.len() != expected.len() {
        proof {
            assert(got@.len() != expected@.len());
        }
        return Err(ReleaseError::Sha256Mismatch);
    }
    let mut i: usize = 0;
    while i < expected.len()
        invariant
            i <= expected.len(),
            got@.len() == expected@.len(),
            got@ == crate::config::sha256(data@),
            crate::auth::hex_decode_spec(trim(hex@)) == Some(expected@),
            forall|k: int| 0 <= k < i ==> got@[k] == expected@[k],
        decreases expected.len() - i,
    {
        if got[i] != expected[i] {
            proof {
                assert(got@[i as int] != expected@[i as int]);
            }
            return Err(ReleaseError::Sha256Mismatch);
        }
        i += 1;
    }
    proof {
        assert(got@ =~= expected@);
    }
    Ok(())
}

} // verus!
