//! Unix path text: components, file names, extensions and joining, with the
//! meaning `std::path::Path` gives them.
use vstd::prelude::*;
use crate::text::{chars_of, string_of, extend, eq_str, starts_with};

verus! {

/// `s` split at every `c` (`n` separators give `n + 1` pieces).
pub open spec fn split(s: Seq<char>, c: char) -> Seq<Seq<char>>
    decreases s.len(),
{
    if s.len() == 0 {
        seq![Seq::<char>::empty()]
    } else if s.last() == c {
        split(s.drop_last(), c).push(Seq::<char>::empty())
    } else {
        let p = split(s.drop_last(), c);
        p.update(p.len() - 1, p.last().push(s.last()))
    }
}

pub proof fn lemma_split_nonempty(s: Seq<char>, c: char)
    ensures
        split(s, c).len() >= 1,
    decreases s.len(),
{
    if s.len() > 0 {
        lemma_split_nonempty(s.drop_last(), c);
    }
}

/// A path with trailing `/` and trailing `/.` removed.
pub open spec fn strip_tail(p: Seq<char>) -> Seq<char>
    decreases p.len(),
{
    if p.len() > 0 && p.last() == '/' {
        strip_tail(p.drop_last())
    } else if p.len() >= 2 && p.last() == '.' && p[p.len() - 2] == '/' {
        strip_tail(p.drop_last())
    } else {
        p
    }
}

/// Position of the last `c` in `s`.
pub open spec fn rpos(s: Seq<char>, c: char) -> Option<int>
    decreases s.len(),
{
    if s.len() == 0 {
        None
    } else if s.last() == c {
        Some(s.len() - 1)
    } else {
        rpos(s.drop_last(), c)
    }
}

/// The text after the last `/`.
pub open spec fn last_seg(t: Seq<char>) -> Seq<char> {
    match rpos(t, '/') {
        Some(i) => t.skip(i + 1),
        None => t,
    }
}

/// `Path::file_name`.
pub open spec fn file_name(p: Seq<char>) -> Option<Seq<char>> {
    let s = last_seg(strip_tail(p));
    if s.len() == 0 || s == "."@ || s == ".."@ {
        None
    } else {
        Some(s)
    }
}

/// `Path::extension`.
pub open spec fn extension(p: Seq<char>) -> Option<Seq<char>> {
    match file_name(p) {
        None => None,
        Some(f) => match rpos(f, '.') {
            Some(i) => if i > 0 { Some(f.skip(i + 1)) } else { None },
            None => None,
        },
    }
}

/// `Path::file_stem`.
pub open spec fn file_stem(p: Seq<char>) -> Option<Seq<char>> {
    match file_name(p) {
        None => None,
        Some(f) => match rpos(f, '.') {
            Some(i) => if i > 0 { Some(f.take(i)) } else { Some(f) },
            None => Some(f),
        },
    }
}

/// `a.join(b)` for a relative or absolute `b`.
pub open spec fn join(a: Seq<char>, b: Seq<char>) -> Seq<char> {
    if b.len() > 0 && b[0] == '/' {
        b
    } else if a.len() == 0 || a.last() == '/' {
        a + b
    } else {
        a + seq!['/'] + b
    }
}

/// The normal components of a sequence of `/`-pieces: empty and `.` pieces dropped.
pub open spec fn normal_segs(pieces: Seq<Seq<char>>) -> Seq<Seq<char>>
    decreases pieces.len(),
{
    if pieces.len() == 0 {
        Seq::empty()
    } else {
        let rest = normal_segs(pieces.drop_last());
        let last = pieces.last();
        if last.len() == 0 || last == "."@ {
            rest
        } else {
            rest.push(last)
        }
    }
}

/// `Path::components`: a root marker `/`, a leading `.` marker, then the
/// normal components (`..` included).
pub open spec fn comps(p: Seq<char>) -> Seq<Seq<char>> {
    let root: Seq<Seq<char>> = if p.len() > 0 && p[0] == '/' {
        seq![seq!['/']]
    } else {
        Seq::empty()
    };
    let cur: Seq<Seq<char>> = if !(p.len() > 0 && p[0] == '/') && (p == "."@ || starts_with(
        p,
        "./"@,
    )) {
        seq![seq!['.']]
    } else {
        Seq::empty()
    };
    root + cur + normal_segs(split(p, '/'))
}

/// The character sequences of a list of character vectors.
pub open spec fn views(v: Seq<Vec<char>>) -> Seq<Seq<char>> {
    v.map_values(|x: Vec<char>| x@)
}

pub open spec fn is_prefix<T>(a: Seq<T>, b: Seq<T>) -> bool {
    a.len() <= b.len() && b.take(a.len() as int) == a
}

/// `path == root || path.starts_with(root)`.
pub open spec fn under(path: Seq<char>, root: Seq<char>) -> bool {
    is_prefix(comps(root), comps(path))
}

pub fn split_chars(s: &[char], c: char) -> (r: Vec<Vec<char>>)
    ensures
        views(r@) == split(s@, c),
{
    let mut out: Vec<Vec<char>> = Vec::new();
    out.push(Vec::new());
    let mut i: usize = 0;
    proof {
        assert(s@.take(0) =~= Seq::<char>::empty());
        assert(views(out@) =~= seq![Seq::<char>::empty()]);
    }
    while i < s.len()
        invariant
            i <= s.len(),
            out.len() >= 1,
            views(out@) == split(s@.take(i as int), c),
        decreases s.len() - i,
    {
        let ch = s[i];
        let ghost before = views(out@);
        proof {
            assert(s@.take(i + 1).drop_last() == s@.take(i as int));
            assert(s@.take(i + 1).last() == ch);
        }
        if ch == c {
            out.push(Vec::new());
            proof {
                assert(views(out@) =~= before.push(Seq::<char>::empty()));
            }
        } else {
            let last = out.len() - 1;
            let mut piece = out.remove(last);
            piece.push(ch);
            out.push(piece);
            proof {
                assert(views(out@) =~= before.update(before.len() - 1, before.last().push(ch)));
            }
        }
        i += 1;
    }
    proof {
        assert(s@.take(s.len() as int) == s@);
    }
    out
}

/// Index of the last `c` in `s`.
pub fn rpos_char(s: &[char], c: char) -> (r: Option<usize>)
    ensures
        match r {
            Some(i) => rpos(s@, c) == Some(i as int) && i < s.len(),
            None => rpos(s@, c) is None,
        },
{
    let mut n: usize = s.len();
    proof {
        assert(s@.take(n as int) == s@);
    }
    while n > 0
        invariant
            n <= s.len(),
            rpos(s@, c) == rpos(s@.take(n as int), c),
        decreases n,
    {
        proof {
            assert(s@.take(n as int).last() == s@[n - 1]);
            assert(s@.take(n as int).drop_last() == s@.take(n - 1));
        }
        if s[n - 1] == c {
            return Some(n - 1);
        }
        n -= 1;
    }
    None
}

fn strip_tail_len(p: &[char]) -> (n: usize)
    ensures
        n <= p.len(),
        strip_tail(p@) == p@.take(n as int),
{
    let mut n: usize = p.len();
    proof {
        assert(p@.take(p.len() as int) == p@);
    }
    loop
        invariant
            n <= p.len(),
            strip_tail(p@) == strip_tail(p@.take(n as int)),
        ensures
            n <= p.len(),
            strip_tail(p@) == p@.take(n as int),
        decreases n,
    {
        let ghost t = p@.take(n as int);
        if n > 0 && p[n - 1] == '/' {
            proof {
                assert(t.last() == '/');
                assert(t.drop_last() == p@.take(n - 1));
            }
            n -= 1;
        } else if n >= 2 && p[n - 1] == '.' && p[n - 2] == '/' {
            proof {
                assert(t.last() == '.');
                assert(t[t.len() - 2] == '/');
                assert(t.drop_last() == p@.take(n - 1));
            }
            n -= 1;
        } else {
            proof {
                if n > 0 {
                    assert(t.last() == p@[n - 1]);
                }
                if n >= 2 {
                    assert(t[t.len() - 2] == p@[n - 2]);
                }
            }
            return n;
        }
    }
}

/// `Path::file_name` of the path text `p`.
pub fn file_name_of(p: &[char]) -> (r: Option<Vec<char>>)
    ensures
        match file_name(p@) {
            Some(f) => r matches Some(v) && v@ == f,
            None => r is None,
        },
{
    let n = strip_tail_len(p);
    let t = crate::text::slice_of(p, 0, n);
    proof {
        assert(t@ == p@.take(n as int));
    }
    let s = match rpos_char(&t, '/') {
        Some(i) => {
            let r = crate::text::slice_of(&t, i + 1, t.len());
            proof {
                assert(r@ =~= t@.skip(i + 1));
            }
            r
        },
        None => t,
    };
    proof {
        assert(s@ == last_seg(strip_tail(p@)));
    }
    if s.len() == 0 || eq_str(&s, ".") || eq_str(&s, "..") {
        None
    } else {
        Some(s)
    }
}

/// `Path::extension` of the path text `p`.
pub fn extension_of(p: &[char]) -> (r: Option<Vec<char>>)
    ensures
        match extension(p@) {
            Some(e) => r matches Some(v) && v@ == e,
            None => r is None,
        },
{
    let f = file_name_of(p)?;
    match rpos_char(&f, '.') {
        Some(i) => {
            if i > 0 {
                let r = crate::text::slice_of(&f, i + 1, f.len());
                proof {
                    assert(r@ =~= f@.skip(i + 1));
                }
                Some(r)
            } else {
                None
            }
        },
        None => None,
    }
}

/// `Path::file_stem` of the path text `p`.
pub fn file_stem_of(p: &[char]) -> (r: Option<Vec<char>>)
    ensures
        match file_stem(p@) {
            Some(e) => r matches Some(v) && v@ == e,
            None => r is None,
        },
{
    let f = file_name_of(p)?;
    match rpos_char(&f, '.') {
        Some(i) => {
            if i > 0 {
                let r = crate::text::slice_of(&f, 0, i);
                proof {
                    assert(r@ =~= f@.take(i as int));
                }
                Some(r)
            } else {
                Some(f)
            }
        },
        None => Some(f),
    }
}

/// `Path::join` on path text.
pub fn join_chars(a: &[char], b: &[char]) -> (r: Vec<char>)
    ensures
        r@ == join(a@, b@),
{
    if b.len() > 0 && b[0] == '/' {
        return crate::text::slice_of(b, 0, b.len());
    }
    let mut out = crate::text::slice_of(a, 0, a.len());
    if !(a.len() == 0 || a[a.len() - 1] == '/') {
        out.push('/');
        proof {
            assert(a@.last() == a@[a.len() - 1]);
        }
    } else {
        proof {
            if a.len() > 0 {
                assert(a@.last() == a@[a.len() - 1]);
            }
        }
    }
    extend(&mut out, b);
    proof {
        assert(a@.subrange(0, a.len() as int) == a@);
        assert(b@.subrange(0, b.len() as int) == b@);
    }
    out
}

/// `Path::new(a).join(b)` as text.
pub fn join_str(a: &str, b: &str) -> (r: String)
    ensures
        r@ == join(a@, b@),
{
    let av = chars_of(a);
    let bv = chars_of(b);
    let v = join_chars(&av, &bv);
    string_of(&v)
}

pub fn normal_segments(pieces: &Vec<Vec<char>>) -> (r: Vec<Vec<char>>)
    ensures
        views(r@) == normal_segs(views(pieces@)),
{
    let mut out: Vec<Vec<char>> = Vec::new();
    let mut i: usize = 0;
    while i < pieces.len()
        invariant
            i <= pieces.len(),
            views(out@) == normal_segs(views(pieces@).take(i as int)),
        decreases pieces.len() - i,
    {
        let piece = &pieces[i];
        proof {
            let t = views(pieces@).take(i + 1);
            assert(t.drop_last() == views(pieces@).take(i as int));
            assert(t.last() == piece@);
        }
        if !(piece.len() == 0 || eq_str(piece, ".")) {
            let ghost before = views(out@);
            out.push(crate::text::slice_of(piece, 0, piece.len()));
            proof {
                assert(piece@.subrange(0, piece@.len() as int) == piece@);
                assert(views(out@) =~= before.push(piece@));
            }
        }
        i += 1;
    }
    proof {
        assert(views(pieces@).take(pieces.len() as int) == views(pieces@));
    }
    out
}

/// `Path::components` of the path text `p`.
pub fn components(p: &[char]) -> (r: Vec<Vec<char>>)
    ensures
        views(r@) == comps(p@),
{
    let mut out: Vec<Vec<char>> = Vec::new();
    let abs = p.len() > 0 && p[0] == '/';
    if abs {
        let mut root: Vec<char> = Vec::new();
        root.push('/');
        out.push(root);
    }
    let dot = eq_str(p, ".") || crate::text::starts_with_str(p, "./");
    if !abs && dot {
        let mut cur: Vec<char> = Vec::new();
        cur.push('.');
        out.push(cur);
    }
    let pieces = split_chars(p, '/');
    let normals = normal_segments(&pieces);
    let ghost head = views(out@);
    let mut i: usize = 0;
    while i < normals.len()
        invariant
            i <= normals.len(),
            views(out@) == head + views(normals@).take(i as int),
        decreases normals.len() - i,
    {
        let ghost before = out@;
        out.push(crate::text::slice_of(&normals[i], 0, normals[i].len()));
        proof {
            assert(views(out@) =~= views(before).push(out@[out@.len() - 1]@));
            assert(normals[i as int]@.subrange(0, normals[i as int]@.len() as int)
                == normals[i as int]@);
            assert(views(normals@).take(i + 1) =~= views(normals@).take(i as int).push(
                normals[i as int]@,
            ));
        }
        i += 1;
    }
    proof {
        assert(views(normals@).take(normals.len() as int) == views(normals@));
        let root: Seq<Seq<char>> = if abs {
            seq![seq!['/']]
        } else {
            Seq::empty()
        };
        let cur: Seq<Seq<char>> = if !abs && dot {
            seq![seq!['.']]
        } else {
            Seq::empty()
        };
        assert(head =~= root + cur);
    }
    out
}

/// Whether the sequence `a` is a prefix of `b`.
fn prefix_of(a: &Vec<Vec<char>>, b: &Vec<Vec<char>>) -> (r: bool)
    ensures
        r == is_prefix(views(a@), views(b@)),
{
    if a.len() > b.len() {
        return false;
    }
    let mut i: usize = 0;
    while i < a.len()
        invariant
            a.len() <= b.len(),
            i <= a.len(),
            forall|k: int| 0 <= k < i ==> views(a@)[k] == views(b@)[k],
        decreases a.len() - i,
    {
        if !crate::text::eq_chars(&a[i], &b[i]) {
            proof {
                assert(views(b@).take(a.len() as int)[i as int] != views(a@)[i as int]);
            }
            return false;
        }
        i += 1;
    }
    proof {
        assert(views(b@).take(a.len() as int) =~= views(a@));
    }
    true
}

/// `path == root || path.starts_with(root)`: `root`'s components begin `path`'s.
pub fn is_under(path: &str, root: &str) -> (r: bool)
    ensures
        r == under(path@, root@),
{
    let pv = chars_of(path);
    let rv = chars_of(root);
    let pc = components(&pv);
    let rc = components(&rv);
    prefix_of(&rc, &pc)
}

pub open spec fn under_any(path: Seq<char>, roots: Seq<Seq<char>>) -> bool {
    if roots.len() == 0 {
        path.len() > 0 && path[0] == '/'
    } else {
        exists|i: int| 0 <= i < roots.len() && under(path, roots[i])
    }
}

/// Whether `path` lies under one of `roots`; with no roots, whether it is absolute.
pub fn under_any_root(path: &str, roots: &[String]) -> (r: bool)
    ensures
        r == under_any(path@, roots@.map_values(|s: String| s@)),
{
    let ghost rv = roots@.map_values(|s: String| s@);
    if roots.len() == 0 {
        let pv = chars_of(path);
        return pv.len() > 0 && pv[0] == '/';
    }
    let mut i: usize = 0;
    while i < roots.len()
        invariant
            i <= roots.len(),
            roots.len() > 0,
            rv == roots@.map_values(|s: String| s@),
            forall|j: int| 0 <= j < i ==> !under(path@, rv[j]),
        decreases roots.len() - i,
    {
        if is_under(path, roots[i].as_str()) {
            proof {
                assert(rv[i as int] == roots@[i as int]@);
            }
            return true;
        }
        proof {
            assert(rv[i as int] == roots@[i as int]@);
        }
        i += 1;
    }
    false
}


/// Pieces joined with `/` between them.
pub open spec fn join_slash(cs: Seq<Seq<char>>) -> Seq<char>
    decreases cs.len(),
{
    if cs.len() == 0 {
        Seq::empty()
    } else if cs.len() == 1 {
        cs[0]
    } else {
        join_slash(cs.drop_last()) + seq!['/'] + cs.last()
    }
}

/// A path written from its components.
pub open spec fn render(cs: Seq<Seq<char>>) -> Seq<char> {
    if cs.len() > 0 && cs[0] == seq!['/'] {
        seq!['/'] + join_slash(cs.drop_first())
    } else {
        join_slash(cs)
    }
}

/// `Path::parent`: the path without its last component; `None` for the root
/// and the empty path.
pub open spec fn parent(p: Seq<char>) -> Option<Seq<char>> {
    let c = comps(p);
    if c.len() == 0 || c.last() == seq!['/'] {
        None
    } else {
        Some(render(c.drop_last()))
    }
}

pub fn join_slash_exec(cs: &Vec<Vec<char>>, from: usize, to: usize) -> (r: Vec<char>)
    requires
        from <= to <= cs@.len(),
    ensures
        r@ == join_slash(views(cs@).subrange(from as int, to as int)),
{
    let ghost cv = views(cs@);
    let mut out: Vec<char> = Vec::new();
    let mut i: usize = from;
    proof {
        assert(cv.subrange(from as int, from as int) =~= Seq::<Seq<char>>::empty());
    }
    while i < to
        invariant
            from <= i <= to <= cs@.len(),
            cv == views(cs@),
            out@ == join_slash(cv.subrange(from as int, i as int)),
        decreases to - i,
    {
        let ghost prev = cv.subrange(from as int, i as int);
        let ghost next = cv.subrange(from as int, i + 1);
        assert(next.drop_last() =~= prev);
        assert(next.last() == cs@[i as int]@);
        if i > from {
            out.push('/');
        }
        crate::text::extend(&mut out, &cs[i]);
        proof {
            if i == from {
                assert(next.len() == 1);
                assert(out@ =~= next[0]);
            } else {
                assert(out@ =~= join_slash(prev) + seq!['/'] + next.last());
            }
        }
        i += 1;
    }
    out
}

/// `Path::parent`.
pub fn parent_of(p: &str) -> (r: Option<String>)
    ensures
        match parent(p@) {
            Some(q) => r matches Some(s) && s@ == q,
            None => r is None,
        },
{
    let pv = chars_of(p);
    let cs = components(&pv);
    let n = cs.len();
    if n == 0 {
        return None;
    }
    let last_root = cs[n - 1].len() == 1 && cs[n - 1][0] == '/';
    proof {
        assert(views(cs@).last() == cs@[n - 1]@);
        if last_root {
            assert(cs@[n - 1]@ =~= seq!['/']);
        }
        if cs@[n - 1]@ == seq!['/'] {
            assert(cs@[n - 1]@.len() == 1);
        }
    }
    if last_root {
        return None;
    }
    let ghost rest = views(cs@).drop_last();
    let first_root = n - 1 > 0 && cs[0].len() == 1 && cs[0][0] == '/';
    proof {
        assert(views(cs@).subrange(0, n - 1) =~= rest);
        if n - 1 > 0 {
            assert(rest[0] == cs@[0]@);
            if first_root {
                assert(cs@[0]@ =~= seq!['/']);
            }
            if cs@[0]@ == seq!['/'] {
                assert(cs@[0]@.len() == 1);
            }
        }
    }
    if first_root {
        let mut out: Vec<char> = Vec::new();
        out.push('/');
        let tail = join_slash_exec(&cs, 1, n - 1);
        crate::text::extend(&mut out, &tail);
        proof {
            assert(views(cs@).subrange(1, n - 1) =~= rest.drop_first());
        }
        Some(string_of(&out))
    } else {
        let all = join_slash_exec(&cs, 0, n - 1);
        Some(string_of(&all))
    }
}

} // verus!
