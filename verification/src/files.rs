//! Working directories, the `@` file completion of the prompt box, and
//! uploaded files.
//!
//! The file system is read by the caller: these functions take what it found
//! (canonical paths, directory listings) and decide.
use vstd::prelude::*;
use crate::pathx::{comps, components, file_name, extension, file_stem, file_name_of, extension_of, file_stem_of, join, join_str, join_chars, under, under_any, under_any_root, views, rpos, rpos_char};
use crate::text::{
    chars_of, string_of, extend, extend_str, trim, trim_chars, trim_str, starts_with, ends_with,
    contains, lowercase, to_lowercase, lex_order, lex_compare, slice_of, eq_chars, str_eq,
    starts_with_chars, ends_with_chars, contains_chars, is_ascii_digit, has_char,
};

verus! {

/// Where uploads are kept.
pub const UPLOAD_DIR: &'static str = "/tmp/.ggok-uploads";

/// The most completions offered.
pub const COMPLETE_MAX: usize = 40;

/// A directory offered by the directory picker.
#[derive(Debug, Clone)]
pub struct DirEntry {
    pub name: String,
    pub path: String,
    pub git: bool,
}

/// A file or directory offered by the `@` completion.
#[derive(Debug, Clone)]
pub struct FsEntry {
    pub name: String,
    pub path: String,
    pub dir: bool,
}

impl View for FsEntry {
    type V = (Seq<char>, Seq<char>, bool);

    open spec fn view(&self) -> (Seq<char>, Seq<char>, bool) {
        (self.name@, self.path@, self.dir)
    }
}

/// Why a path was refused.
#[derive(Debug, Clone, Copy, PartialEq, Eq, Structural)]
pub enum PathError {
    /// The working directory is empty.
    CwdEmpty,
    /// The working directory is not absolute.
    CwdNotAbsolute,
    /// The working directory lies outside the workspace roots.
    OutsideRoots,
    /// The path is not in the upload directory.
    NotAnUpload,
    /// The path is not a file.
    NotAFile,
    /// The file name is empty, `.`, `..`, or holds a path separator.
    BadFileName,
    /// The upload is larger than the configured limit.
    TooLarge,
}

/// `$HOME`, or `/` where it is unset or empty.
pub open spec fn home_or_root(home: Option<Seq<char>>) -> Seq<char> {
    match home {
        Some(h) => if h.len() > 0 {
            h
        } else {
            "/"@
        },
        None => "/"@,
    }
}

/// `~` and `~/...` taken from the home directory.
pub open spec fn expand_tilde_spec(raw: Seq<char>, home: Option<Seq<char>>) -> Seq<char> {
    if raw == "~"@ {
        home_or_root(home)
    } else if starts_with(raw, "~/"@) {
        join(home_or_root(home), raw.skip(2))
    } else {
        raw
    }
}

pub open spec fn opt_str_view(o: Option<&str>) -> Option<Seq<char>> {
    match o {
        Some(s) => Some(s@),
        None => None,
    }
}

fn home_dir(home: Option<&str>) -> (r: String)
    ensures
        r@ == home_or_root(opt_str_view(home)),
{
    match home {
        Some(h) => if h.is_empty() {
            "/".to_string()
        } else {
            h.to_string()
        },
        None => "/".to_string(),
    }
}

/// `~` and `~/...` taken from the home directory (`/` where none is set).
pub fn expand_tilde(raw: &str, home: Option<&str>) -> (r: String)
    ensures
        r@ == expand_tilde_spec(raw@, opt_str_view(home)),
{
    let v = chars_of(raw);
    proof {
        reveal_strlit("~");
        reveal_strlit("~/");
    }
    if v.len() == 1 && v[0] == '~' {
        assert(v@ =~= "~"@);
        return home_dir(home);
    }
    if v.len() >= 2 && v[0] == '~' && v[1] == '/' {
        assert(v@.take(2) =~= "~/"@);
        let rest = slice_of(&v, 2, v.len());
        let h = home_dir(home);
        let hv = chars_of(h.as_str());
        let j = join_chars(&hv, &rest);
        assert(v@.subrange(2, v@.len() as int) =~= v@.skip(2));
        return string_of(&j);
    }
    proof {
        if v@ == "~"@ {
            assert(v@.len() == 1);
        }
        if starts_with(v@, "~/"@) {
            assert(v@.take(2)[0] == '~' && v@.take(2)[1] == '/');
        }
    }
    raw.to_string()
}

pub open spec fn is_abs(p: Seq<char>) -> bool {
    p.len() > 0 && p[0] == '/'
}

/// A configured workspace root before it is resolved: trimmed, `~`
/// expanded; `None` where it is empty or not absolute.
pub open spec fn expand_one_spec(raw: Seq<char>, home: Option<Seq<char>>) -> Option<Seq<char>> {
    let t = trim(raw);
    if t.len() == 0 {
        None
    } else {
        let e = expand_tilde_spec(t, home);
        if is_abs(e) {
            Some(e)
        } else {
            None
        }
    }
}

/// A configured workspace root before it is resolved.
pub fn expand_one(raw: &str, home: Option<&str>) -> (r: Option<String>)
    ensures
        crate::types::opt_view(r) == expand_one_spec(raw@, opt_str_view(home)),
{
    let t = trim_str(raw);
    if t.len() == 0 {
        return None;
    }
    let ts = string_of(&t);
    let e = expand_tilde(ts.as_str(), home);
    let ev = chars_of(e.as_str());
    if ev.len() > 0 && ev[0] == '/' {
        Some(e)
    } else {
        None
    }
}

pub open spec fn same_path(a: Seq<char>, b: Seq<char>) -> bool {
    comps(a) == comps(b)
}

pub(crate) fn same_path_exec(a: &str, b: &str) -> (r: bool)
    ensures
        r == same_path(a@, b@),
{
    let av = chars_of(a);
    let bv = chars_of(b);
    let ac = components(&av);
    let bc = components(&bv);
    assert(views(ac@) == comps(a@));
    assert(views(bc@) == comps(b@));
    if ac.len() != bc.len() {
        proof {
            assert(views(ac@).len() != views(bc@).len());
        }
        return false;
    }
    let mut i: usize = 0;
    while i < ac.len()
        invariant
            i <= ac@.len(),
            ac@.len() == bc@.len(),
            views(ac@) == comps(a@),
            views(bc@) == comps(b@),
            forall|k: int| 0 <= k < i ==> views(ac@)[k] == views(bc@)[k],
        decreases ac.len() - i,
    {
        if !eq_chars(&ac[i], &bc[i]) {
            proof {
                assert(views(ac@)[i as int] == ac@[i as int]@);
                assert(views(bc@)[i as int] == bc@[i as int]@);
                assert(comps(a@)[i as int] != comps(b@)[i as int]);
            }
            return false;
        }
        i += 1;
    }
    proof {
        assert(views(ac@) =~= views(bc@));
    }
    true
}

/// The resolved roots, each kept once (paths compared by their components),
/// in the order given; `None` entries (roots that did not resolve to a
/// directory) are left out.
pub open spec fn dedupe_roots(c: Seq<Option<Seq<char>>>) -> Seq<Seq<char>>
    decreases c.len(),
{
    if c.len() == 0 {
        Seq::empty()
    } else {
        let rest = dedupe_roots(c.drop_last());
        match c.last() {
            Some(p) => if exists|i: int| 0 <= i < rest.len() && same_path(#[trigger] rest[i], p) {
                rest
            } else {
                rest.push(p)
            },
            None => rest,
        }
    }
}

pub open spec fn strings_view(v: Seq<String>) -> Seq<Seq<char>> {
    Seq::new(v.len(), |i: int| v[i]@)
}

pub open spec fn opts_view(v: Seq<Option<String>>) -> Seq<Option<Seq<char>>> {
    Seq::new(v.len(), |i: int| crate::types::opt_view(v[i]))
}

/// The workspace roots: the resolved directories, each kept once.
pub fn expand_roots(resolved: &[Option<String>]) -> (r: Vec<String>)
    ensures
        strings_view(r@) == dedupe_roots(opts_view(resolved@)),
{
    let ghost cv = opts_view(resolved@);
    let mut out: Vec<String> = Vec::new();
    let mut i: usize = 0;
    proof {
        assert(cv.take(0) =~= Seq::<Option<Seq<char>>>::empty());
        assert(strings_view(out@) =~= Seq::<Seq<char>>::empty());
    }
    while i < resolved.len()
        invariant
            i <= resolved@.len(),
            cv == opts_view(resolved@),
            strings_view(out@) == dedupe_roots(cv.take(i as int)),
        decreases resolved.len() - i,
    {
        proof {
            assert(cv.take(i + 1).drop_last() =~= cv.take(i as int));
            assert(cv.take(i + 1).last() == cv[i as int]);
        }
        match &resolved[i] {
            Some(p) => {
                let ghost ov = strings_view(out@);
                let mut dup = false;
                let mut j: usize = 0;
                while j < out.len()
                    invariant
                        j <= out@.len(),
                        ov == strings_view(out@),
                        !dup ==> forall|k: int| 0 <= k < j ==> !same_path(#[trigger] ov[k], p@),
                        dup ==> exists|k: int| 0 <= k < ov.len() && same_path(#[trigger] ov[k], p@),
                    decreases out.len() - j,
                {
                    if !dup && same_path_exec(out[j].as_str(), p.as_str()) {
                        dup = true;
                        assert(same_path(ov[j as int], p@));
                    }
                    j += 1;
                }
                if !dup {
                    out.push(p.clone());
                    proof {
                        assert(strings_view(out@) =~= ov.push(p@));
                    }
                }
            },
            None => {},
        }
        i += 1;
    }
    proof {
        assert(cv.take(resolved@.len() as int) =~= cv);
    }
    out
}

/// A working directory before it is resolved: trimmed and `~` expanded; it
/// must be given and absolute.
pub open spec fn cwd_candidate_spec(raw: Seq<char>, home: Option<Seq<char>>) -> Result<Seq<char>, PathError> {
    let t = trim(raw);
    if t.len() == 0 {
        Err(PathError::CwdEmpty)
    } else if !is_abs(expand_tilde_spec(t, home)) {
        Err(PathError::CwdNotAbsolute)
    } else {
        Ok(expand_tilde_spec(t, home))
    }
}

pub open spec fn pres_view(r: Result<String, PathError>) -> Result<Seq<char>, PathError> {
    match r {
        Ok(s) => Ok(s@),
        Err(e) => Err(e),
    }
}

/// A working directory before it is resolved.
pub fn cwd_candidate(raw: &str, home: Option<&str>) -> (r: Result<String, PathError>)
    ensures
        pres_view(r) == cwd_candidate_spec(raw@, opt_str_view(home)),
{
    let t = trim_str(raw);
    if t.len() == 0 {
        return Err(PathError::CwdEmpty);
    }
    let ts = string_of(&t);
    let e = expand_tilde(ts.as_str(), home);
    let ev = chars_of(e.as_str());
    if ev.len() > 0 && ev[0] == '/' {
        Ok(e)
    } else {
        Err(PathError::CwdNotAbsolute)
    }
}

/// A resolved working directory, accepted where it lies under a workspace
/// root (with no roots, where it is absolute).
pub fn cwd_allowed(canon: &str, roots: &[String]) -> (r: Result<String, PathError>)
    ensures
        under_any(canon@, roots@.map_values(|s: String| s@)) ==> (r matches Ok(s) && s@ == canon@),
        !under_any(canon@, roots@.map_values(|s: String| s@)) ==> r == Err::<String, PathError>(
            PathError::OutsideRoots,
        ),
{
    if under_any_root(canon, roots) {
        Ok(canon.to_string())
    } else {
        Err(PathError::OutsideRoots)
    }
}

pub open spec fn all_range_chars(s: Seq<char>) -> bool {
    forall|i: int| 0 <= i < s.len() ==> is_ascii_digit(#[trigger] s[i]) || s[i] == '-'
}

/// A completion query without a trailing `:12` or `:3-9` line range.
pub open spec fn strip_line_range_spec(q: Seq<char>) -> Seq<char> {
    match rpos(q, ':') {
        Some(i) => if q.skip(i + 1).len() > 0 && all_range_chars(q.skip(i + 1)) {
            q.take(i)
        } else {
            q
        },
        None => q,
    }
}

/// A completion query without a trailing line range.
pub fn strip_line_range(q: &[char]) -> (r: Vec<char>)
    ensures
        r@ == strip_line_range_spec(q@),
{
    match rpos_char(q, ':') {
        Some(i) => {
            let mut ok = i + 1 < q.len();
            let mut k = i + 1;
            while k < q.len()
                invariant
                    i + 1 <= k <= q@.len(),
                    ok == (i + 1 < q@.len() && forall|m: int| i + 1 <= m < k ==> (is_ascii_digit(
                        #[trigger] q@[m],
                    ) || q@[m] == '-')),
                decreases q.len() - k,
            {
                let c = q[k];
                if !(('0' <= c && c <= '9') || c == '-') {
                    ok = false;
                }
                k += 1;
            }
            proof {
                let rest = q@.skip(i + 1);
                if ok {
                    assert forall|m: int| 0 <= m < rest.len() implies is_ascii_digit(#[trigger] rest[m])
                        || rest[m] == '-' by {
                        assert(rest[m] == q@[i + 1 + m]);
                    }
                } else if rest.len() > 0 {
                    let m = choose|m: int| i + 1 <= m < q@.len() && !(is_ascii_digit(#[trigger] q@[m])
                        || q@[m] == '-');
                    assert(rest[m - i - 1] == q@[m]);
                }
            }
            if ok {
                let r = slice_of(q, 0, i);
                assert(q@.subrange(0, i as int) =~= q@.take(i as int));
                r
            } else {
                slice_of(q, 0, q.len())
            }
        },
        None => slice_of(q, 0, q.len()),
    }
}

/// What the `@` completion looks for: with `!`, ignored and hidden files too;
/// a trailing `/` lists that directory.
pub struct CompleteQuery {
    pub bang: bool,
    pub browse: bool,
    pub query: String,
}

/// `s` without all its trailing `/`.
pub open spec fn trim_end_slashes(s: Seq<char>) -> Seq<char>
    decreases s.len(),
{
    if s.len() > 0 && s.last() == '/' {
        trim_end_slashes(s.drop_last())
    } else {
        s
    }
}

pub open spec fn query_rest(q: Seq<char>) -> Seq<char> {
    let raw = trim(q);
    let bang = raw.len() > 0 && raw[0] == '!';
    let rest = if bang {
        trim(raw.skip(1))
    } else {
        raw
    };
    strip_line_range_spec(rest)
}

/// How a completion query reads.
pub open spec fn complete_query_spec(q: Seq<char>) -> (bool, bool, Seq<char>) {
    let raw = trim(q);
    let bang = raw.len() > 0 && raw[0] == '!';
    let rest = query_rest(q);
    let browse = rest.len() > 0 && rest.last() == '/';
    (bang, browse, if browse {
        trim_end_slashes(rest)
    } else {
        rest
    })
}

/// How a completion query reads.
pub fn parse_complete_query(q: &str) -> (r: CompleteQuery)
    ensures
        (r.bang, r.browse, r.query@) == complete_query_spec(q@),
{
    let raw = trim_str(q);
    let bang = raw.len() > 0 && raw[0] == '!';
    let rest0 = if bang {
        let t = slice_of(&raw, 1, raw.len());
        assert(raw@.subrange(1, raw@.len() as int) =~= raw@.skip(1));
        trim_chars(&t)
    } else {
        slice_of(&raw, 0, raw.len())
    };
    proof {
        assert(raw@.subrange(0, raw@.len() as int) =~= raw@);
    }
    let rest = strip_line_range(&rest0);
    let browse = rest.len() > 0 && rest[rest.len() - 1] == '/';
    let query = if browse {
        let mut n = rest.len();
        proof {
            assert(rest@.take(n as int) =~= rest@);
        }
        while n > 0 && rest[n - 1] == '/'
            invariant
                n <= rest@.len(),
                trim_end_slashes(rest@) == trim_end_slashes(rest@.take(n as int)),
            decreases n,
        {
            proof {
                assert(rest@.take(n as int).drop_last() =~= rest@.take(n - 1));
            }
            n -= 1;
        }
        let t = slice_of(&rest, 0, n);
        proof {
            assert(rest@.subrange(0, n as int) =~= rest@.take(n as int));
            if n > 0 {
                assert(rest@.take(n as int).last() == rest@[n - 1]);
            }
        }
        t
    } else {
        rest
    };
    CompleteQuery { bang, browse, query: string_of(&query) }
}

pub open spec fn count_slash(s: Seq<char>) -> nat
    decreases s.len(),
{
    if s.len() == 0 {
        0
    } else {
        count_slash(s.drop_last()) + if s.last() == '/' {
            1nat
        } else {
            0nat
        }
    }
}

/// The length in bytes (UTF-8) of a text.
pub open spec fn blen(s: Seq<char>) -> int {
    vstd::utf8::encode_utf8(s).len() as int
}

/// The last `/`-separated piece.
pub open spec fn last_piece(s: Seq<char>) -> Seq<char> {
    match rpos(s, '/') {
        Some(i) => s.skip(i + 1),
        None => s,
    }
}

/// Whether the characters of `q` occur in `t` in order (taken greedily).
pub open spec fn is_subseq(q: Seq<char>, t: Seq<char>) -> bool
    decreases t.len(),
{
    if q.len() == 0 {
        true
    } else if t.len() == 0 {
        false
    } else if t[0] == q[0] {
        is_subseq(q.drop_first(), t.drop_first())
    } else {
        is_subseq(q, t.drop_first())
    }
}

/// How well a relative path matches a query (higher is better; `None` for no
/// match): an exact file name, then a file-name prefix, a path prefix, a
/// file-name substring, a path substring, then the query's letters in order.
/// Shallow and short paths rank higher. Letters are compared in lowercase;
/// lengths are in bytes.
pub open spec fn fuzzy_spec(rel: Seq<char>, query: Seq<char>) -> Option<int> {
    let rl = lowercase(rel);
    let q = lowercase(query);
    let depth = count_slash(rel) as int;
    let rlen = blen(rel);
    let name = last_piece(rel);
    let nl = lowercase(name);
    let nlen = blen(name);
    if q.len() == 0 {
        Some(10_000 - depth * 30 - rlen)
    } else if nl == q {
        Some(2_000_000 - depth)
    } else if starts_with(nl, q) {
        Some(1_000_000 - nlen)
    } else if starts_with(rl, q) {
        Some(800_000 - rlen)
    } else if contains(nl, q) {
        Some(500_000 - nlen)
    } else if contains(rl, q) {
        Some(200_000 - rlen)
    } else if is_subseq(q, rl) {
        Some(50_000 - rlen - depth * 10)
    } else {
        None
    }
}

/// `q` is `t` with some characters left out: its characters occur in `t`
/// in order, at the positions `f` gives.
pub open spec fn embeds_at(q: Seq<char>, t: Seq<char>, f: spec_fn(int) -> int) -> bool {
    &&& forall|i: int| 0 <= i < q.len() ==> 0 <= #[trigger] f(i) < t.len() && t[f(i)] == q[i]
    &&& forall|i: int, j: int| 0 <= i < j < q.len() ==> #[trigger] f(i) < #[trigger] f(j)
}

proof fn lemma_embeds_subseq(q: Seq<char>, t: Seq<char>, f: spec_fn(int) -> int)
    requires
        embeds_at(q, t, f),
    ensures
        is_subseq(q, t),
    decreases t.len(),
{
    if q.len() == 0 {
    } else if t.len() == 0 {
        assert(0 <= f(0) < t.len());
    } else if t[0] == q[0] {
        let g = |i: int| f(i + 1) - 1;
        assert forall|i: int| 0 <= i < q.drop_first().len() implies 0 <= #[trigger] g(i) < t.drop_first().len()
            && t.drop_first()[g(i)] == q.drop_first()[i] by {
            assert(f(0) < f(i + 1));
            assert(0 <= f(0));
        }
        assert forall|i: int, j: int| 0 <= i < j < q.drop_first().len() implies #[trigger] g(i) < #[trigger] g(j) by {
            assert(f(i + 1) < f(j + 1));
        }
        lemma_embeds_subseq(q.drop_first(), t.drop_first(), g);
    } else {
        assert(f(0) != 0) by {
            assert(t[f(0)] == q[0]);
        }
        let g = |i: int| f(i) - 1;
        assert forall|i: int| 0 <= i < q.len() implies 0 <= #[trigger] g(i) < t.drop_first().len()
            && t.drop_first()[g(i)] == q[i] by {
            if i > 0 {
                assert(f(0) < f(i));
            }
            assert(0 <= f(0));
        }
        assert forall|i: int, j: int| 0 <= i < j < q.len() implies #[trigger] g(i) < #[trigger] g(j) by {
            assert(f(i) < f(j));
        }
        lemma_embeds_subseq(q, t.drop_first(), g);
    }
}

/// Every path in which the query's letters occur in order (in lowercase) is
/// offered as a completion: its score is `Some`. An empty query matches
/// every path.
pub proof fn law_fuzzy_offers_every_in_order_match(rel: Seq<char>, query: Seq<char>, f: spec_fn(int) -> int)
    requires
        embeds_at(lowercase(query), lowercase(rel), f),
    ensures
        fuzzy_spec(rel, query) is Some,
        lowercase(query).len() == 0 ==> fuzzy_spec(rel, query) == Some(
            10_000 - count_slash(rel) as int * 30 - blen(rel),
        ),
{
    lemma_embeds_subseq(lowercase(query), lowercase(rel), f);
}

/// A path whose file name is the (non-empty) query, in lowercase, scores
/// `2_000_000` less its depth; every other match scores at most `1_000_000`,
/// so an exact file name outranks all other matches of paths less than a
/// million directories deep.
pub proof fn law_fuzzy_exact_name_first(rel: Seq<char>, query: Seq<char>)
    ensures
        lowercase(query).len() > 0 && lowercase(last_piece(rel)) == lowercase(query) ==> fuzzy_spec(
            rel,
            query,
        ) == Some(2_000_000 - count_slash(rel) as int),
        !(lowercase(query).len() > 0 && lowercase(last_piece(rel)) == lowercase(query)) ==> (
        fuzzy_spec(rel, query) matches Some(v) ==> v <= 1_000_000),
{
}

/// The longest relative path, in bytes, that completion scores.
pub const MAX_REL_BYTES: usize = 1_000_000_000;

proof fn lemma_count_slash_le(s: Seq<char>)
    ensures
        count_slash(s) <= s.len(),
    decreases s.len(),
{
    if s.len() > 0 {
        lemma_count_slash_le(s.drop_last());
    }
}

proof fn lemma_encode_concat(a: Seq<char>, b: Seq<char>)
    ensures
        vstd::utf8::encode_utf8(a + b) == vstd::utf8::encode_utf8(a) + vstd::utf8::encode_utf8(b),
    decreases a.len(),
{
    if a.len() == 0 {
        assert(a + b =~= b);
        assert(vstd::utf8::encode_utf8(a) + vstd::utf8::encode_utf8(b) =~= vstd::utf8::encode_utf8(b));
    } else {
        lemma_encode_concat(a.drop_first(), b);
        assert((a + b).drop_first() =~= a.drop_first() + b);
        assert((a + b)[0] == a[0]);
        let e0 = vstd::utf8::encode_scalar(a[0] as u32);
        assert(vstd::utf8::encode_utf8(a + b) =~= e0 + (vstd::utf8::encode_utf8(a.drop_first())
            + vstd::utf8::encode_utf8(b)));
        assert(vstd::utf8::encode_utf8(a) =~= e0 + vstd::utf8::encode_utf8(a.drop_first()));
    }
}

proof fn lemma_utf8_len_ge(s: Seq<char>)
    ensures
        blen(s) >= s.len(),
    decreases s.len(),
{
    if s.len() > 0 {
        lemma_utf8_len_ge(s.drop_first());
        assert(vstd::utf8::encode_scalar(s[0] as u32).len() >= 1);
    }
}

fn count_slashes(s: &[char]) -> (r: u64)
    requires
        s@.len() <= MAX_REL_BYTES,
    ensures
        r == count_slash(s@),
{
    let mut n: u64 = 0;
    let mut i: usize = 0;
    while i < s.len()
        invariant
            i <= s@.len(),
            s@.len() <= MAX_REL_BYTES,
            n == count_slash(s@.take(i as int)),
        decreases s.len() - i,
    {
        proof {
            assert(s@.take(i + 1).drop_last() =~= s@.take(i as int));
            lemma_count_slash_le(s@.take(i as int));
        }
        if s[i] == '/' {
            n += 1;
        }
        i += 1;
    }
    proof {
        assert(s@.take(s@.len() as int) =~= s@);
    }
    n
}

fn subseq_in(q: &[char], t: &[char]) -> (r: bool)
    ensures
        r == is_subseq(q@, t@),
{
    let mut i: usize = 0;
    let mut j: usize = 0;
    proof {
        assert(q@.skip(0) =~= q@);
        assert(t@.skip(0) =~= t@);
    }
    while i < q.len()
        invariant
            i <= q@.len(),
            j <= t@.len(),
            is_subseq(q@, t@) == is_subseq(q@.skip(i as int), t@.skip(j as int)),
        decreases q@.len() - i + t@.len() - j,
    {
        if j == t.len() {
            return false;
        }
        proof {
            assert(q@.skip(i as int).drop_first() =~= q@.skip(i + 1));
            assert(t@.skip(j as int).drop_first() =~= t@.skip(j + 1));
        }
        if t[j] == q[i] {
            i += 1;
        }
        j += 1;
    }
    true
}

/// How well a relative path matches a completion query.
pub fn fuzzy_score(rel: &str, query: &str) -> (r: Option<i64>)
    requires
        blen(rel@) <= MAX_REL_BYTES,
    ensures
        match r {
            Some(v) => fuzzy_spec(rel@, query@) == Some(v as int),
            None => fuzzy_spec(rel@, query@) is None,
        },
{
    let relv = chars_of(rel);
    proof {
        lemma_utf8_len_ge(rel@);
    }
    let rl_s = to_lowercase(rel);
    let rl = chars_of(rl_s.as_str());
    let q_s = to_lowercase(query);
    let q = chars_of(q_s.as_str());
    let depth = count_slashes(&relv);
    proof {
        lemma_count_slash_le(rel@);
    }
    let rlen = rel.len() as u64;
    let depth_i = depth as i64;
    let rlen_i = rlen as i64;
    if q.len() == 0 {
        return Some(10_000 - depth_i * 30 - rlen_i);
    }
    let name_v = match rpos_char(&relv, '/') {
        Some(i) => {
            let t = slice_of(&relv, i + 1, relv.len());
            assert(relv@.subrange(i + 1, relv@.len() as int) =~= relv@.skip(i + 1));
            t
        },
        None => slice_of(&relv, 0, relv.len()),
    };
    proof {
        assert(relv@.subrange(0, relv@.len() as int) =~= relv@);
    }
    let name = string_of(&name_v);
    let nl_s = to_lowercase(name.as_str());
    let nl = chars_of(nl_s.as_str());
    let nlen = name.as_str().len() as u64;
    proof {
        let p = last_piece(rel@);
        if let Some(i) = rpos(rel@, '/') {
            lemma_encode_concat(rel@.take(i + 1), p);
            assert(rel@ =~= rel@.take(i + 1) + p);
        }
    }
    let nlen_i = nlen as i64;
    if eq_chars(&nl, &q) {
        return Some(2_000_000 - depth_i);
    }
    if starts_with_chars(&nl, &q) {
        return Some(1_000_000 - nlen_i);
    }
    if starts_with_chars(&rl, &q) {
        return Some(800_000 - rlen_i);
    }
    if contains_chars(&nl, &q) {
        return Some(500_000 - nlen_i);
    }
    if contains_chars(&rl, &q) {
        return Some(200_000 - rlen_i);
    }
    if subseq_in(&q, &rl) {
        return Some(50_000 - rlen_i - depth_i * 10);
    }
    None
}


/// A scored completion: its score and its entry.
pub type Scored = (int, (Seq<char>, Seq<char>, bool));

/// The scored entries that match, in the order given.
pub open spec fn scored_spec(es: Seq<(Seq<char>, Seq<char>, bool)>, needle: Seq<char>) -> Seq<Scored>
    decreases es.len(),
{
    if es.len() == 0 {
        Seq::empty()
    } else {
        let rest = scored_spec(es.drop_last(), needle);
        match fuzzy_spec(es.last().1, needle) {
            Some(n) => rest.push((n, es.last())),
            None => rest,
        }
    }
}

/// Whether `x` ranks strictly before `y`: a higher score, or the same score
/// and a path that comes first in lowercase.
pub open spec fn ranks_before(x: Scored, y: Scored) -> bool {
    x.0 > y.0 || (x.0 == y.0 && lex_order(lowercase(x.1.1), lowercase(y.1.1)) < 0)
}

/// Where `x` goes in a ranked list: before the first entry it ranks before.
pub open spec fn rank_pos(s: Seq<Scored>, x: Scored) -> int
    decreases s.len(),
{
    if s.len() == 0 {
        0
    } else if ranks_before(x, s[0]) {
        0
    } else {
        1 + rank_pos(s.drop_first(), x)
    }
}

/// The entries ranked, equal ones in the order given (a stable sort).
pub open spec fn rank_sort(s: Seq<Scored>) -> Seq<Scored>
    decreases s.len(),
{
    if s.len() == 0 {
        Seq::empty()
    } else {
        let t = rank_sort(s.drop_last());
        t.insert(rank_pos(t, s.last()), s.last())
    }
}

/// The completions offered: the matching entries, best first, at most
/// `COMPLETE_MAX` of them.
pub open spec fn rank_spec(es: Seq<(Seq<char>, Seq<char>, bool)>, needle: Seq<char>) -> Seq<(Seq<char>, Seq<char>, bool)> {
    let r = rank_sort(scored_spec(es, needle));
    let k = if r.len() <= COMPLETE_MAX {
        r.len() as int
    } else {
        COMPLETE_MAX as int
    };
    Seq::new(k as nat, |i: int| r[i].1)
}

pub open spec fn entries_view(v: Seq<FsEntry>) -> Seq<(Seq<char>, Seq<char>, bool)> {
    Seq::new(v.len(), |i: int| v[i]@)
}

struct Ranked {
    score: i64,
    key: Vec<char>,
    entry: FsEntry,
}

spec fn ranked_view(v: Seq<Ranked>) -> Seq<Scored> {
    Seq::new(v.len(), |i: int| (v[i].score as int, v[i].entry@))
}

fn copy_entry(e: &FsEntry) -> (r: FsEntry)
    ensures
        r@ == e@,
{
    FsEntry { name: e.name.clone(), path: e.path.clone(), dir: e.dir }
}

/// The completions offered for walked entries (paths relative to the working
/// directory, in the order walked): the matching ones, best first, at most
/// `COMPLETE_MAX`.
pub fn rank_completions(entries: &[FsEntry], needle: &str) -> (r: Vec<FsEntry>)
    requires
        forall|i: int| 0 <= i < entries@.len() ==> blen(#[trigger] entries@[i].path@) <= MAX_REL_BYTES,
    ensures
        entries_view(r@) == rank_spec(entries_view(entries@), needle@),
{
    let ghost ev = entries_view(entries@);
    let mut sorted: Vec<Ranked> = Vec::new();
    let mut i: usize = 0;
    proof {
        assert(ev.take(0) =~= Seq::<(Seq<char>, Seq<char>, bool)>::empty());
        assert(ranked_view(sorted@) =~= Seq::<Scored>::empty());
    }
    while i < entries.len()
        invariant
            i <= entries@.len(),
            ev == entries_view(entries@),
            forall|k: int| 0 <= k < entries@.len() ==> blen(#[trigger] entries@[k].path@) <= MAX_REL_BYTES,
            ranked_view(sorted@) == rank_sort(scored_spec(ev.take(i as int), needle@)),
            forall|k: int| 0 <= k < sorted@.len() ==> (#[trigger] sorted@[k]).key@ == lowercase(
                sorted@[k].entry.path@,
            ),
        decreases entries.len() - i,
    {
        proof {
            assert(ev.take(i + 1).drop_last() =~= ev.take(i as int));
            assert(ev.take(i + 1).last() == entries@[i as int]@);
        }
        let e = &entries[i];
        match fuzzy_score(e.path.as_str(), needle) {
            Some(sc) => {
                let lk = to_lowercase(e.path.as_str());
                let key = chars_of(lk.as_str());
                let ghost sv = ranked_view(sorted@);
                let ghost x: Scored = (sc as int, e@);
                let mut j: usize = 0;
                proof {
                    assert(sv.skip(0) =~= sv);
                }
                while j < sorted.len()
                    invariant
                        j <= sorted@.len(),
                        sv == ranked_view(sorted@),
                        x == (sc as int, e@),
                        key@ == lowercase(e.path@),
                        forall|k: int| 0 <= k < sorted@.len() ==> (#[trigger] sorted@[k]).key@
                            == lowercase(sorted@[k].entry.path@),
                        rank_pos(sv, x) == j + rank_pos(sv.skip(j as int), x),
                        j == sorted@.len() ==> sv.skip(j as int) =~= Seq::<Scored>::empty(),
                    ensures
                        j <= sorted@.len(),
                        sv == ranked_view(sorted@),
                        rank_pos(sv, x) == j,
                    decreases sorted.len() - j,
                {
                    let other = &sorted[j];
                    let before = sc > other.score || (sc == other.score && lex_compare(&key, &other.key)
                        < 0);
                    proof {
                        assert(sv.skip(j as int)[0] == sv[j as int]);
                        assert(sv[j as int] == (other.score as int, other.entry@));
                    }
                    if before {
                        proof {
                            assert(ranks_before(x, sv.skip(j as int)[0]));
                        }
                        break;
                    }
                    proof {
                        assert(sv.skip(j as int).drop_first() =~= sv.skip(j + 1));
                    }
                    j += 1;
                }
                let item = Ranked { score: sc, key, entry: copy_entry(e) };
                sorted.insert(j, item);
                proof {
                    assert(ranked_view(sorted@) =~= sv.insert(j as int, x));
                    let sp = scored_spec(ev.take(i as int), needle@);
                    assert(scored_spec(ev.take(i + 1), needle@) == sp.push(x));
                    assert(sp.push(x).drop_last() =~= sp);
                    assert forall|k: int| 0 <= k < sorted@.len() implies (#[trigger] sorted@[k]).key@
                        == lowercase(sorted@[k].entry.path@) by {
                        if k < j {
                        } else if k == j {
                        } else {
                        }
                    }
                }
            },
            None => {},
        }
        i += 1;
    }
    proof {
        assert(ev.take(entries@.len() as int) =~= ev);
    }
    let ghost full = ranked_view(sorted@);
    let n = if sorted.len() <= COMPLETE_MAX {
        sorted.len()
    } else {
        COMPLETE_MAX
    };
    let mut out: Vec<FsEntry> = Vec::new();
    let mut k: usize = 0;
    while k < n
        invariant
            k <= n <= sorted@.len(),
            full == ranked_view(sorted@),
            out@.len() == k,
            forall|m: int| 0 <= m < k ==> (#[trigger] out@[m])@ == full[m].1,
        decreases n - k,
    {
        out.push(copy_entry(&sorted[k].entry));
        k += 1;
    }
    proof {
        assert(entries_view(out@) =~= rank_spec(ev, needle@));
    }
    out
}

/// An upload's file name: the last component of what was given, trimmed; it
/// must not be empty, `.`, `..`, or hold a `/` or `\`.
pub open spec fn safe_filename_spec(name: Seq<char>) -> Result<Seq<char>, PathError> {
    let base = match file_name(name) {
        Some(f) => trim(f),
        None => Seq::empty(),
    };
    if base.len() == 0 || base == "."@ || base == ".."@ {
        Err(PathError::BadFileName)
    } else if base.contains('/') || base.contains('\\') {
        Err(PathError::BadFileName)
    } else {
        Ok(base)
    }
}

/// An upload's file name.
pub fn safe_filename(name: &str) -> (r: Result<String, PathError>)
    ensures
        pres_view(r) == safe_filename_spec(name@),
{
    let nv = chars_of(name);
    let base = match file_name_of(&nv) {
        Some(f) => trim_chars(&f),
        None => Vec::new(),
    };
    proof {
        reveal_strlit(".");
        reveal_strlit("..");
    }
    let bad = base.len() == 0 || (base.len() == 1 && base[0] == '.') || (base.len() == 2 && base[0] == '.'
        && base[1] == '.');
    proof {
        if base@ == "."@ {
            assert(base@.len() == 1);
        }
        if base@ == ".."@ {
            assert(base@.len() == 2);
        }
        if base.len() == 1 && base[0] == '.' {
            assert(base@ =~= "."@);
        }
        if base.len() == 2 && base[0] == '.' && base[1] == '.' {
            assert(base@ =~= ".."@);
        }
    }
    if bad {
        return Err(PathError::BadFileName);
    }
    if has_char(&base, '/') || has_char(&base, '\\') {
        return Err(PathError::BadFileName);
    }
    Ok(string_of(&base))
}

/// The name an upload is saved under when its own name is taken: `stem-i.ext`
/// for `i` in 1..1000, else `stem-dup.ext` (`file` where there is no stem).
pub open spec fn variant_name_spec(name: Seq<char>, i: Option<u64>) -> Seq<char> {
    let stem = match file_stem(name) {
        Some(s) => s,
        None => "file"@,
    };
    let ext = match extension(name) {
        Some(e) => seq!['.'] + e,
        None => Seq::empty(),
    };
    match i {
        Some(n) => stem + seq!['-'] + crate::numfmt::dec(n as nat) + ext,
        None => stem + "-dup"@ + ext,
    }
}

/// The name an upload is saved under when its own name is taken.
pub fn variant_name(name: &str, i: Option<u64>) -> (r: String)
    ensures
        r@ == variant_name_spec(name@, i),
{
    let nv = chars_of(name);
    let mut out: Vec<char> = match file_stem_of(&nv) {
        Some(s) => s,
        None => chars_of("file"),
    };
    let ghost stem = out@;
    match i {
        Some(n) => {
            out.push('-');
            let d = crate::numfmt::u64_chars(n);
            extend(&mut out, &d);
        },
        None => {
            extend_str(&mut out, "-dup");
        },
    }
    match extension_of(&nv) {
        Some(e) => {
            out.push('.');
            extend(&mut out, &e);
        },
        None => {},
    }
    proof {
        let ext = match extension(name@) {
            Some(e) => seq!['.'] + e,
            None => Seq::<char>::empty(),
        };
        match i {
            Some(n) => {
                assert(out@ =~= stem + seq!['-'] + crate::numfmt::dec(n as nat) + ext);
            },
            None => {
                assert(out@ =~= stem + "-dup"@ + ext);
            },
        }
    }
    string_of(&out)
}

/// An upload's size checked against the limit, then its name.
pub fn check_upload(filename: &str, len: usize, max: u64) -> (r: Result<String, PathError>)
    ensures
        len > max ==> r == Err::<String, PathError>(PathError::TooLarge),
        len <= max ==> pres_view(r) == safe_filename_spec(filename@),
{
    if len as u64 > max {
        return Err(PathError::TooLarge);
    }
    safe_filename(filename)
}

/// Where `open_upload` looks for a path: as given where absolute, else in the
/// upload directory.
pub fn upload_candidate(raw: &str) -> (r: String)
    ensures
        r@ == (if is_abs(raw@) {
            raw@
        } else {
            join(UPLOAD_DIR@, raw@)
        }),
{
    let v = chars_of(raw);
    if v.len() > 0 && v[0] == '/' {
        raw.to_string()
    } else {
        join_str(UPLOAD_DIR, raw)
    }
}

/// An uploaded file may be opened: its resolved path must lie in the resolved
/// upload directory and be a file.
pub fn open_upload(canon: &str, canon_root: Option<&str>, is_file: bool) -> (r: Result<String, PathError>)
    ensures
        match canon_root {
            None => r == Err::<String, PathError>(PathError::NotAnUpload),
            Some(root) => if !under(canon@, root@) {
                r == Err::<String, PathError>(PathError::NotAnUpload)
            } else if !is_file {
                r == Err::<String, PathError>(PathError::NotAFile)
            } else {
                r matches Ok(s) && s@ == canon@
            },
        },
{
    match canon_root {
        None => Err(PathError::NotAnUpload),
        Some(root) => {
            if !crate::pathx::is_under(canon, root) {
                Err(PathError::NotAnUpload)
            } else if !is_file {
                Err(PathError::NotAFile)
            } else {
                Ok(canon.to_string())
            }
        },
    }
}


/// The MIME type that `mime_guess` gives a file name (by its extension;
/// `application/octet-stream` where it knows none).
pub uninterp spec fn guessed_mime(name: Seq<char>) -> Seq<char>;

/// Calls `mime_guess::from_path(name).first_or_octet_stream()` and takes its
/// essence; the contract names the result.
#[verifier::external_body]
pub(crate) fn guess_mime(name: &str) -> (r: String)
    ensures
        r@ == guessed_mime(name@),
{
    mime_guess::from_path(name).first_or_octet_stream().essence_str().to_string()
}

/// Whether an upload is a PNG: by its extension (any case), or by the MIME
/// type its name gives.
pub open spec fn is_png_spec(filename: Seq<char>) -> bool {
    (extension(crate::text::lower_ascii(filename)) matches Some(e) && crate::text::lower_ascii(e)
        == "png"@) || guessed_mime(filename) == "image/png"@
}

/// Whether an upload is a PNG.
pub fn is_png_upload(filename: &str) -> (r: bool)
    ensures
        r == is_png_spec(filename@),
{
    let fv = chars_of(filename);
    let lower = crate::text::lower_chars(&fv);
    let by_ext = match extension_of(&lower) {
        Some(e) => {
            let el = crate::text::lower_chars(&e);
            crate::text::eq_str(&el, "png")
        },
        None => false,
    };
    if by_ext {
        return true;
    }
    let m = guess_mime(filename);
    str_eq(m.as_str(), "image/png")
}

/// Which chunks the PNG optimiser strips.
#[derive(Debug, Clone, Copy, PartialEq, Eq, Structural)]
pub enum PngStrip {
    /// Keep every chunk.
    Keep,
    /// Strip the chunks that do not change how the image shows.
    Safe,
    /// Strip every non-critical chunk.
    All,
}

/// How uploaded PNG images are optimised.
#[derive(Debug, Clone, Copy, PartialEq, Eq, Structural)]
pub struct PngOptions {
    /// The optimiser's preset level.
    pub preset: u8,
    pub strip: PngStrip,
    /// How long the optimiser may try, in seconds.
    pub timeout_secs: u64,
    pub optimize_alpha: bool,
    pub scale_16: bool,
}

/// The options uploads are optimised with: preset 2, safe chunk
/// stripping, at most 8 seconds, and no alpha optimisation or 16-bit
/// scaling (both lossless, but they change pixels that are not shown).
pub fn png_options() -> (r: PngOptions)
    ensures
        r == (PngOptions {
            preset: 2,
            strip: PngStrip::Safe,
            timeout_secs: 8,
            optimize_alpha: false,
            scale_16: false,
        }),
{
    PngOptions { preset: 2, strip: PngStrip::Safe, timeout_secs: 8, optimize_alpha: false, scale_16: false }
}

/// Calls `oxipng::optimize_from_memory` with `opts` copied field by field
/// into `oxipng::Options` (the preset through `Options::from_preset`). Its
/// result depends on how far the optimiser gets before the timeout, so
/// nothing is stated of it; `None` where it reports an error.
#[verifier::external_body]
fn optimize_png(bytes: &[u8], opts: PngOptions) -> Option<Vec<u8>> {
    let mut o = oxipng::Options::from_preset(opts.preset);
    o.strip = match opts.strip {
        PngStrip::Keep => oxipng::StripChunks::None,
        PngStrip::Safe => oxipng::StripChunks::Safe,
        PngStrip::All => oxipng::StripChunks::All,
    };
    o.timeout = Some(std::time::Duration::from_secs(opts.timeout_secs));
    o.optimize_alpha = opts.optimize_alpha;
    o.scale_16 = opts.scale_16;
    oxipng::optimize_from_memory(bytes, &o).ok()
}

/// The optimised bytes where they are not empty and no larger, else the
/// uploaded bytes as they came.
pub fn pick_compressed(orig: Vec<u8>, out: Option<Vec<u8>>) -> (r: Vec<u8>)
    ensures
        match out {
            Some(o) => if o@.len() > 0 && o@.len() <= orig@.len() {
                r@ == o@
            } else {
                r@ == orig@
            },
            None => r@ == orig@,
        },
{
    match out {
        Some(o) => if o.len() > 0 && o.len() <= orig.len() {
            o
        } else {
            orig
        },
        None => orig,
    }
}

/// An upload, with PNG images losslessly optimised where that makes them
/// smaller; other files are kept as they are.
pub fn compress_upload(filename: &str, bytes: Vec<u8>) -> (r: Vec<u8>)
    ensures
        !is_png_spec(filename@) ==> r@ == bytes@,
        r@ == bytes@ || (r@.len() > 0 && r@.len() <= bytes@.len()),
{
    if !is_png_upload(filename) {
        return bytes;
    }
    let out = optimize_png(bytes.as_slice(), png_options());
    pick_compressed(bytes, out)
}

/// Whether a listed child shows in the directory picker: not `.`, `..` or
/// `.git`, a directory, and under a workspace root.
pub fn keep_child_dir(name: &str, is_dir: bool, canon: &str, roots: &[String]) -> (r: bool)
    ensures
        r == (name@ != "."@ && name@ != ".."@ && name@ != ".git"@ && is_dir && under_any(
            canon@,
            roots@.map_values(|s: String| s@),
        )),
{
    if str_eq(name, ".") || str_eq(name, "..") || str_eq(name, ".git") {
        return false;
    }
    is_dir && under_any_root(canon, roots)
}

/// A directory picker entry for a root: its full path as name and path.
pub fn root_entry(path: &str, git: bool) -> (r: DirEntry)
    ensures
        r.name@ == path@,
        r.path@ == path@,
        r.git == git,
{
    DirEntry { name: path.to_string(), path: path.to_string(), git }
}

pub open spec fn dir_view(d: DirEntry) -> (Seq<char>, Seq<char>, bool) {
    (d.name@, d.path@, d.git)
}

pub open spec fn dirs_view(v: Seq<DirEntry>) -> Seq<(Seq<char>, Seq<char>, bool)> {
    Seq::new(v.len(), |i: int| dir_view(v[i]))
}

/// Where a directory goes among directories sorted by lowercase name: before
/// the first whose name comes after its own.
pub open spec fn name_pos(s: Seq<(Seq<char>, Seq<char>, bool)>, x: (Seq<char>, Seq<char>, bool)) -> int
    decreases s.len(),
{
    if s.len() == 0 {
        0
    } else if lex_order(lowercase(x.0), lowercase(s[0].0)) < 0 {
        0
    } else {
        1 + name_pos(s.drop_first(), x)
    }
}

/// Directories sorted by lowercase name, equal names in the order given.
pub open spec fn name_sort(s: Seq<(Seq<char>, Seq<char>, bool)>) -> Seq<(Seq<char>, Seq<char>, bool)>
    decreases s.len(),
{
    if s.len() == 0 {
        Seq::empty()
    } else {
        let t = name_sort(s.drop_last());
        t.insert(name_pos(t, s.last()), s.last())
    }
}

fn copy_dir(d: &DirEntry) -> (r: DirEntry)
    ensures
        dir_view(r) == dir_view(*d),
{
    DirEntry { name: d.name.clone(), path: d.path.clone(), git: d.git }
}

/// Directories sorted by lowercase name (a stable sort).
pub fn sort_dir_entries(v: &[DirEntry]) -> (r: Vec<DirEntry>)
    ensures
        dirs_view(r@) == name_sort(dirs_view(v@)),
{
    let ghost dv = dirs_view(v@);
    let mut out: Vec<DirEntry> = Vec::new();
    let mut keys: Vec<Vec<char>> = Vec::new();
    let mut i: usize = 0;
    proof {
        assert(dv.take(0) =~= Seq::<(Seq<char>, Seq<char>, bool)>::empty());
        assert(dirs_view(out@) =~= Seq::<(Seq<char>, Seq<char>, bool)>::empty());
    }
    while i < v.len()
        invariant
            i <= v@.len(),
            dv == dirs_view(v@),
            dirs_view(out@) == name_sort(dv.take(i as int)),
            keys@.len() == out@.len(),
            forall|k: int| 0 <= k < keys@.len() ==> (#[trigger] keys@[k])@ == lowercase(out@[k].name@),
        decreases v.len() - i,
    {
        proof {
            assert(dv.take(i + 1).drop_last() =~= dv.take(i as int));
            assert(dv.take(i + 1).last() == dir_view(v@[i as int]));
        }
        let lk = to_lowercase(v[i].name.as_str());
        let key = chars_of(lk.as_str());
        let ghost sv = dirs_view(out@);
        let ghost x = dir_view(v@[i as int]);
        let mut j: usize = 0;
        proof {
            assert(sv.skip(0) =~= sv);
        }
        while j < out.len()
            invariant
                j <= out@.len(),
                sv == dirs_view(out@),
                keys@.len() == out@.len(),
                forall|k: int| 0 <= k < keys@.len() ==> (#[trigger] keys@[k])@ == lowercase(out@[k].name@),
                key@ == lowercase(x.0),
                name_pos(sv, x) == j + name_pos(sv.skip(j as int), x),
                j == out@.len() ==> sv.skip(j as int) =~= Seq::<(Seq<char>, Seq<char>, bool)>::empty(),
            ensures
                j <= out@.len(),
                sv == dirs_view(out@),
                name_pos(sv, x) == j,
            decreases out.len() - j,
        {
            proof {
                assert(sv.skip(j as int)[0] == sv[j as int]);
                assert(keys@[j as int]@ == lowercase(sv[j as int].0));
            }
            if lex_compare(&key, &keys[j]) < 0 {
                break;
            }
            proof {
                assert(sv.skip(j as int).drop_first() =~= sv.skip(j + 1));
            }
            j += 1;
        }
        let d = copy_dir(&v[i]);
        out.insert(j, d);
        keys.insert(j, key);
        proof {
            assert(dirs_view(out@) =~= sv.insert(j as int, x));
            assert forall|k: int| 0 <= k < keys@.len() implies (#[trigger] keys@[k])@ == lowercase(
                out@[k].name@,
            ) by {
                if k < j {
                } else if k == j {
                } else {
                }
            }
        }
        i += 1;
    }
    proof {
        assert(dv.take(v@.len() as int) =~= dv);
    }
    out
}

} // verus!
