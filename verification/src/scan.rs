//! The index of grok's sessions on disk: projects, the filtered session
//! list, and what a session's `summary.json` says of it.
use vstd::prelude::*;
use crate::types::{ProjectRow, SessionMeta, SessionRow, SummaryFile, copy_opt, opt_view};
use crate::text::{chars_of, string_of, contains, contains_chars, lowercase, to_lowercase, lex_order, lex_compare, str_eq};
use crate::parse::rfc3339_ms;

verus! {

/// The sessions found on disk, each id once.
#[derive(Debug, Clone, Default)]
pub struct SessionIndex {
    pub sessions: Vec<SessionMeta>,
}

pub open spec fn ids_unique(s: Seq<SessionMeta>) -> bool {
    forall|i: int, j: int| 0 <= i < j < s.len() ==> (#[trigger] s[i]).id@ != (#[trigger] s[j]).id@
}

/// Where a session with this id stands.
pub open spec fn id_pos(s: Seq<SessionMeta>, id: Seq<char>) -> Option<int> {
    if exists|i: int| 0 <= i < s.len() && (#[trigger] s[i]).id@ == id {
        Some(choose|i: int| 0 <= i < s.len() && (#[trigger] s[i]).id@ == id)
    } else {
        None
    }
}

/// A project row being counted: its cwd, sessions, latest sort key and the
/// `updated_at` that goes with it.
pub type Group = (Seq<char>, nat, int, Seq<char>);

/// Sessions counted by project, projects in the order first seen; a session
/// whose sort key is at least the project's latest gives the project its
/// `updated_at`.
pub open spec fn group_spec(s: Seq<SessionMeta>) -> Seq<Group>
    decreases s.len(),
{
    if s.len() == 0 {
        Seq::empty()
    } else {
        let g = group_spec(s.drop_last());
        let m = s.last();
        if exists|i: int| 0 <= i < g.len() && (#[trigger] g[i]).0 == m.cwd@ {
            let i = choose|i: int| 0 <= i < g.len() && (#[trigger] g[i]).0 == m.cwd@;
            let e = g[i];
            g.update(
                i,
                if m.updated_sort >= e.2 {
                    (e.0, e.1 + 1, m.updated_sort as int, m.updated_at@)
                } else {
                    (e.0, e.1 + 1, e.2, e.3)
                },
            )
        } else {
            g.push(
                (
                    m.cwd@,
                    1nat,
                    if m.updated_sort >= 0 {
                        m.updated_sort as int
                    } else {
                        0
                    },
                    if m.updated_sort >= 0 {
                        m.updated_at@
                    } else {
                        Seq::empty()
                    },
                ),
            )
        }
    }
}

pub open spec fn groups_distinct(g: Seq<Group>) -> bool {
    forall|i: int, j: int| 0 <= i < j < g.len() ==> (#[trigger] g[i]).0 != (#[trigger] g[j]).0
}

/// Whether project row `x` comes strictly before `y`: the later `updated_at`
/// first, then by cwd.
pub open spec fn project_before(x: Group, y: Group) -> bool {
    lex_order(x.3, y.3) > 0 || (x.3 == y.3 && lex_order(x.0, y.0) < 0)
}

pub open spec fn project_pos(s: Seq<Group>, x: Group) -> int
    decreases s.len(),
{
    if s.len() == 0 {
        0
    } else if project_before(x, s[0]) {
        0
    } else {
        1 + project_pos(s.drop_first(), x)
    }
}

pub open spec fn project_sort(s: Seq<Group>) -> Seq<Group>
    decreases s.len(),
{
    if s.len() == 0 {
        Seq::empty()
    } else {
        let t = project_sort(s.drop_last());
        t.insert(project_pos(t, s.last()), s.last())
    }
}

pub open spec fn row_view(r: ProjectRow) -> (Seq<char>, nat, Seq<char>) {
    (r.cwd@, r.sessions as nat, r.updated_at@)
}

pub open spec fn rows_view(v: Seq<ProjectRow>) -> Seq<(Seq<char>, nat, Seq<char>)> {
    Seq::new(v.len(), |i: int| row_view(v[i]))
}

pub open spec fn projects_spec(s: Seq<SessionMeta>) -> Seq<(Seq<char>, nat, Seq<char>)> {
    let p = project_sort(group_spec(s));
    Seq::new(p.len(), |i: int| (p[i].0, p[i].1, p[i].3))
}

struct GroupRow {
    cwd: String,
    count: usize,
    best: i64,
    at: String,
}

spec fn groups_view(v: Seq<GroupRow>) -> Seq<Group> {
    Seq::new(v.len(), |i: int| (v[i].cwd@, v[i].count as nat, v[i].best as int, v[i].at@))
}

/// Whether `a` comes after `b` in `String`'s order.
fn later(a: &String, b: &String) -> (r: bool)
    ensures
        r == (lex_order(a@, b@) > 0),
{
    let av = chars_of(a.as_str());
    let bv = chars_of(b.as_str());
    lex_compare(&av, &bv) > 0
}

fn earlier(a: &String, b: &String) -> (r: bool)
    ensures
        r == (lex_order(a@, b@) < 0),
{
    let av = chars_of(a.as_str());
    let bv = chars_of(b.as_str());
    lex_compare(&av, &bv) < 0
}

impl SessionIndex {
    /// An empty index.
    pub fn new() -> (r: SessionIndex)
        ensures
            r.sessions@.len() == 0,
    {
        SessionIndex { sessions: Vec::new() }
    }

    /// A session found on disk; it replaces one with the same id.
    pub fn insert(&mut self, meta: SessionMeta)
        requires
            ids_unique(old(self).sessions@),
        ensures
            ids_unique(final(self).sessions@),
            match id_pos(old(self).sessions@, meta.id@) {
                Some(i) => final(self).sessions@ == old(self).sessions@.update(i, meta),
                None => final(self).sessions@ == old(self).sessions@.push(meta),
            },
    {
        let ghost s = self.sessions@;
        let mut i: usize = 0;
        while i < self.sessions.len()
            invariant
                i <= self.sessions@.len(),
                self.sessions@ == s,
                s == old(self).sessions@,
                ids_unique(s),
                forall|k: int| 0 <= k < i ==> (#[trigger] s[k]).id@ != meta.id@,
            decreases self.sessions.len() - i,
        {
            if self.sessions[i].id == meta.id {
                proof {
                    assert(s[i as int].id@ == meta.id@);
                    let k = choose|k: int| 0 <= k < s.len() && (#[trigger] s[k]).id@ == meta.id@;
                    if k < i {
                        assert(s[k].id@ != s[i as int].id@);
                    } else if k > i {
                        assert(s[i as int].id@ != s[k].id@);
                    }
                    assert(k == i);
                    assert(id_pos(s, meta.id@) == Some(i as int));
                }
                let ghost mg = meta;
                self.sessions.set(i, meta);
                proof {
                    assert(self.sessions@ == s.update(i as int, mg));
                    assert(mg == meta);
                    assert(s == old(self).sessions@);
                    assert(id_pos(old(self).sessions@, meta.id@) == Some(i as int));
                    let t = self.sessions@;
                    assert forall|a: int, b: int| 0 <= a < b < t.len() implies (#[trigger] t[a]).id@ != (
                    #[trigger] t[b]).id@ by {
                        if a != i && b != i {
                            assert(t[a] == s[a] && t[b] == s[b]);
                        } else if a == i {
                            assert(t[b] == s[b]);
                            assert(s[a].id@ == meta.id@);
                        } else {
                            assert(t[a] == s[a]);
                            assert(s[b].id@ == meta.id@);
                        }
                    }
                }
                return;
            }
            i += 1;
        }
        self.sessions.push(meta);
        proof {
            let t = self.sessions@;
            assert forall|a: int, b: int| 0 <= a < b < t.len() implies (#[trigger] t[a]).id@ != (
            #[trigger] t[b]).id@ by {
                if b == s.len() {
                    assert(t[a] == s[a]);
                } else {
                    assert(t[a] == s[a] && t[b] == s[b]);
                }
            }
        }
    }

    /// The session with this id.
    pub fn get(&self, id: &str) -> (r: Option<&SessionMeta>)
        requires
            ids_unique(self.sessions@),
        ensures
            match r {
                Some(m) => id_pos(self.sessions@, id@) matches Some(i) && *m == self.sessions@[i],
                None => id_pos(self.sessions@, id@) is None,
            },
    {
        let ghost s = self.sessions@;
        let mut i: usize = 0;
        while i < self.sessions.len()
            invariant
                i <= self.sessions@.len(),
                self.sessions@ == s,
                ids_unique(s),
                forall|k: int| 0 <= k < i ==> (#[trigger] s[k]).id@ != id@,
            decreases self.sessions.len() - i,
        {
            if str_eq(self.sessions[i].id.as_str(), id) {
                proof {
                    assert(s[i as int].id@ == id@);
                    let k = choose|k: int| 0 <= k < s.len() && (#[trigger] s[k]).id@ == id@;
                    if k < i {
                        assert(s[k].id@ != s[i as int].id@);
                    } else if k > i {
                        assert(s[i as int].id@ != s[k].id@);
                    }
                    assert(k == i);
                }
                return Some(&self.sessions[i]);
            }
            i += 1;
        }
        None
    }

    /// The projects: per working directory, the number of sessions and the
    /// latest `updated_at`; the most recently updated first, then by cwd.
    pub fn projects(&self) -> (r: Vec<ProjectRow>)
        requires
            self.sessions@.len() < usize::MAX,
        ensures
            rows_view(r@) == projects_spec(self.sessions@),
    {
        let ghost s = self.sessions@;
        let mut groups: Vec<GroupRow> = Vec::new();
        let mut i: usize = 0;
        proof {
            assert(s.take(0) =~= Seq::<SessionMeta>::empty());
            assert(groups_view(groups@) =~= Seq::<Group>::empty());
        }
        while i < self.sessions.len()
            invariant
                i <= s.len(),
                s == self.sessions@,
                s.len() < usize::MAX,
                groups_view(groups@) == group_spec(s.take(i as int)),
                groups_distinct(groups_view(groups@)),
                forall|k: int| 0 <= k < groups@.len() ==> (#[trigger] groups@[k]).count <= i,
            decreases s.len() - i,
        {
            proof {
                assert(s.take(i + 1).drop_last() =~= s.take(i as int));
                assert(s.take(i + 1).last() == s[i as int]);
            }
            let m = &self.sessions[i];
            let ghost gv = groups_view(groups@);
            let mut j: usize = 0;
            while j < groups.len()
                invariant
                    j <= groups@.len(),
                    gv == groups_view(groups@),
                    forall|k: int| 0 <= k < j ==> (#[trigger] gv[k]).0 != m.cwd@,
                ensures
                    j <= groups@.len(),
                    gv == groups_view(groups@),
                    forall|k: int| 0 <= k < j ==> (#[trigger] gv[k]).0 != m.cwd@,
                    j < groups@.len() ==> gv[j as int].0 == m.cwd@,
                decreases groups.len() - j,
            {
                if groups[j].cwd == m.cwd {
                    break;
                }
                j += 1;
            }
            if j < groups.len() {
                proof {
                    let k = choose|k: int| 0 <= k < gv.len() && (#[trigger] gv[k]).0 == m.cwd@;
                    if k < j {
                        assert(gv[k].0 != m.cwd@);
                    }
                    if k > j {
                        assert(gv[j as int].0 == gv[k].0);
                    }
                }
                let old_row = &groups[j];
                let nb = if m.updated_sort >= old_row.best {
                    GroupRow {
                        cwd: old_row.cwd.clone(),
                        count: old_row.count + 1,
                        best: m.updated_sort,
                        at: m.updated_at.clone(),
                    }
                } else {
                    GroupRow {
                        cwd: old_row.cwd.clone(),
                        count: old_row.count + 1,
                        best: old_row.best,
                        at: old_row.at.clone(),
                    }
                };
                groups.set(j, nb);
            } else {
                let nb = if m.updated_sort >= 0 {
                    GroupRow { cwd: m.cwd.clone(), count: 1, best: m.updated_sort, at: m.updated_at.clone() }
                } else {
                    GroupRow { cwd: m.cwd.clone(), count: 1, best: 0, at: String::new() }
                };
                groups.push(nb);
            }
            proof {
                assert(groups_view(groups@) =~= group_spec(s.take(i + 1)));
                let g2 = groups_view(groups@);
                assert forall|a: int, b: int| 0 <= a < b < g2.len() implies (#[trigger] g2[a]).0 != (
                #[trigger] g2[b]).0 by {
                    if b < gv.len() {
                        assert(g2[a].0 == gv[a].0 && g2[b].0 == gv[b].0);
                    } else {
                        assert(g2[a].0 == gv[a].0);
                    }
                }
            }
            i += 1;
        }
        proof {
            assert(s.take(s.len() as int) =~= s);
        }
        let ghost all = groups_view(groups@);
        let mut sorted: Vec<GroupRow> = Vec::new();
        let mut k: usize = 0;
        proof {
            assert(all.take(0) =~= Seq::<Group>::empty());
            assert(groups_view(sorted@) =~= Seq::<Group>::empty());
        }
        while k < groups.len()
            invariant
                k <= groups@.len(),
                all == groups_view(groups@),
                groups_view(sorted@) == project_sort(all.take(k as int)),
            decreases groups.len() - k,
        {
            proof {
                assert(all.take(k + 1).drop_last() =~= all.take(k as int));
                assert(all.take(k + 1).last() == all[k as int]);
            }
            let x = &groups[k];
            let ghost sv = groups_view(sorted@);
            let ghost xv = all[k as int];
            let mut j: usize = 0;
            proof {
                assert(sv.skip(0) =~= sv);
            }
            while j < sorted.len()
                invariant
                    j <= sorted@.len(),
                    sv == groups_view(sorted@),
                    xv == (x.cwd@, x.count as nat, x.best as int, x.at@),
                    project_pos(sv, xv) == j + project_pos(sv.skip(j as int), xv),
                    j == sorted@.len() ==> sv.skip(j as int) =~= Seq::<Group>::empty(),
                ensures
                    j <= sorted@.len(),
                    sv == groups_view(sorted@),
                    project_pos(sv, xv) == j,
                decreases sorted.len() - j,
            {
                proof {
                    assert(sv.skip(j as int)[0] == sv[j as int]);
                }
                let y = &sorted[j];
                if later(&x.at, &y.at) || (x.at == y.at && earlier(&x.cwd, &y.cwd)) {
                    break;
                }
                proof {
                    assert(sv.skip(j as int).drop_first() =~= sv.skip(j + 1));
                }
                j += 1;
            }
            let item = GroupRow { cwd: x.cwd.clone(), count: x.count, best: x.best, at: x.at.clone() };
            sorted.insert(j, item);
            proof {
                assert(groups_view(sorted@) =~= sv.insert(j as int, xv));
            }
            k += 1;
        }
        proof {
            assert(all.take(groups@.len() as int) =~= all);
        }
        let ghost fin = groups_view(sorted@);
        let mut out: Vec<ProjectRow> = Vec::new();
        let mut t: usize = 0;
        while t < sorted.len()
            invariant
                t <= sorted@.len(),
                fin == groups_view(sorted@),
                out@.len() == t,
                forall|q: int| 0 <= q < t ==> row_view(#[trigger] out@[q]) == (fin[q].0, fin[q].1, fin[q].3),
            decreases sorted.len() - t,
        {
            out.push(
                ProjectRow {
                    cwd: sorted[t].cwd.clone(),
                    sessions: sorted[t].count,
                    updated_at: sorted[t].at.clone(),
                },
            );
            t += 1;
        }
        proof {
            assert(rows_view(out@) =~= projects_spec(s));
        }
        out
    }
}


/// The query a list is filtered by: lowercased, where not empty.
pub open spec fn query_spec(q: Option<&str>) -> Option<Seq<char>> {
    match q {
        Some(x) => if lowercase(x@).len() > 0 {
            Some(lowercase(x@))
        } else {
            None
        },
        None => None,
    }
}

pub open spec fn fts_view(f: Option<&[String]>) -> Option<Seq<Seq<char>>> {
    match f {
        Some(v) => Some(Seq::new(v@.len(), |i: int| v@[i]@)),
        None => None,
    }
}

/// Whether a session is listed: in the given working directory, not empty
/// unless empty ones are asked for, and matching the query in its title, cwd
/// or id (any case), or found by the full-text search.
pub open spec fn listed(m: SessionMeta, cwd: Option<&str>, q: Option<Seq<char>>, empty: bool, fts: Option<Seq<Seq<char>>>) -> bool {
    &&& (cwd matches Some(c) ==> m.cwd@ == c@)
    &&& (empty || !m.empty)
    &&& match q {
        None => true,
        Some(ql) => contains(lowercase(m.title@), ql) || contains(lowercase(m.cwd@), ql) || contains(
            lowercase(m.id@),
            ql,
        ) || (fts matches Some(ids) && ids.contains(m.id@)),
    }
}

pub open spec fn list_filter(s: Seq<SessionMeta>, cwd: Option<&str>, q: Option<Seq<char>>, empty: bool, fts: Option<Seq<Seq<char>>>) -> Seq<SessionMeta>
    decreases s.len(),
{
    if s.len() == 0 {
        Seq::empty()
    } else {
        let rest = list_filter(s.drop_last(), cwd, q, empty, fts);
        if listed(s.last(), cwd, q, empty, fts) {
            rest.push(s.last())
        } else {
            rest
        }
    }
}

/// Whether session `x` is listed strictly before `y`: the most recently
/// updated first, then by id.
pub open spec fn session_before(x: SessionMeta, y: SessionMeta) -> bool {
    x.updated_sort > y.updated_sort || (x.updated_sort == y.updated_sort && lex_order(x.id@, y.id@) < 0)
}

pub open spec fn session_pos(s: Seq<SessionMeta>, x: SessionMeta) -> int
    decreases s.len(),
{
    if s.len() == 0 {
        0
    } else if session_before(x, s[0]) {
        0
    } else {
        1 + session_pos(s.drop_first(), x)
    }
}

pub open spec fn session_sort(s: Seq<SessionMeta>) -> Seq<SessionMeta>
    decreases s.len(),
{
    if s.len() == 0 {
        Seq::empty()
    } else {
        let t = session_sort(s.drop_last());
        t.insert(session_pos(t, s.last()), s.last())
    }
}

/// The list row of a session found on disk.
pub open spec fn is_row_of(r: SessionRow, m: SessionMeta) -> bool {
    &&& r.id == m.id
    &&& r.cwd == m.cwd
    &&& r.title == m.title
    &&& r.created_at == m.created_at
    &&& r.updated_at == m.updated_at
    &&& r.model == m.model
    &&& r.agent_name == m.agent_name
    &&& r.num_messages == m.num_messages
    &&& r.parent_id == m.parent_id
    &&& r.empty == m.empty
    &&& !r.running
    &&& r.source@ == "disk"@
    &&& !r.pinned
}

fn contains_lower(text: &String, ql: &Vec<char>) -> (r: bool)
    ensures
        r == contains(lowercase(text@), ql@),
{
    let l = to_lowercase(text.as_str());
    let lv = chars_of(l.as_str());
    contains_chars(&lv, ql)
}

fn in_ids(ids: &[String], id: &String) -> (r: bool)
    ensures
        r == Seq::new(ids@.len(), |i: int| ids@[i]@).contains(id@),
{
    let ghost v = Seq::new(ids@.len(), |i: int| ids@[i]@);
    let mut i: usize = 0;
    while i < ids.len()
        invariant
            i <= ids@.len(),
            v == Seq::new(ids@.len(), |k: int| ids@[k]@),
            forall|k: int| 0 <= k < i ==> v[k] != id@,
        decreases ids.len() - i,
    {
        if ids[i] == *id {
            assert(v[i as int] == id@);
            return true;
        }
        i += 1;
    }
    false
}

impl SessionIndex {
    /// The sessions listed for a working directory and query, the most
    /// recently updated first (then by id), as list rows.
    pub fn list(&self, cwd: Option<&str>, q: Option<&str>, empty: bool, fts_ids: Option<&[String]>) -> (r: Vec<SessionRow>)
        ensures
            r@.len() == session_sort(
                list_filter(self.sessions@, cwd, query_spec(q), empty, fts_view(fts_ids)),
            ).len(),
            forall|i: int| 0 <= i < r@.len() ==> is_row_of(
                #[trigger] r@[i],
                session_sort(list_filter(self.sessions@, cwd, query_spec(q), empty, fts_view(fts_ids)))[i],
            ),
    {
        let ghost s = self.sessions@;
        let ghost qs = query_spec(q);
        let ghost fv = fts_view(fts_ids);
        let ql: Option<Vec<char>> = match q {
            Some(x) => {
                let l = to_lowercase(x);
                let lv = chars_of(l.as_str());
                if lv.len() > 0 {
                    Some(lv)
                } else {
                    None
                }
            },
            None => None,
        };
        let mut sorted: Vec<&SessionMeta> = Vec::new();
        let mut i: usize = 0;
        proof {
            assert(s.take(0) =~= Seq::<SessionMeta>::empty());
        }
        while i < self.sessions.len()
            invariant
                i <= s.len(),
                s == self.sessions@,
                qs == query_spec(q),
                fv == fts_view(fts_ids),
                match ql {
                    Some(v) => qs == Some(v@),
                    None => qs is None,
                },
                Seq::new(sorted@.len(), |k: int| *sorted@[k]) == session_sort(
                    list_filter(s.take(i as int), cwd, qs, empty, fv),
                ),
            decreases s.len() - i,
        {
            proof {
                assert(s.take(i + 1).drop_last() =~= s.take(i as int));
                assert(s.take(i + 1).last() == s[i as int]);
            }
            let m = &self.sessions[i];
            let in_cwd = match cwd {
                Some(c) => str_eq(m.cwd.as_str(), c),
                None => true,
            };
            let q_ok = match &ql {
                None => true,
                Some(v) => {
                    contains_lower(&m.title, v) || contains_lower(&m.cwd, v) || contains_lower(&m.id, v)
                        || match fts_ids {
                        Some(ids) => in_ids(ids, &m.id),
                        None => false,
                    }
                },
            };
            if in_cwd && (empty || !m.empty) && q_ok {
                let ghost sv = Seq::new(sorted@.len(), |k: int| *sorted@[k]);
                let mut j: usize = 0;
                proof {
                    assert(sv.skip(0) =~= sv);
                }
                while j < sorted.len()
                    invariant
                        j <= sorted@.len(),
                        sv == Seq::new(sorted@.len(), |k: int| *sorted@[k]),
                        *m == s[i as int],
                        session_pos(sv, *m) == j + session_pos(sv.skip(j as int), *m),
                        j == sorted@.len() ==> sv.skip(j as int) =~= Seq::<SessionMeta>::empty(),
                    ensures
                        j <= sorted@.len(),
                        sv == Seq::new(sorted@.len(), |k: int| *sorted@[k]),
                        session_pos(sv, *m) == j,
                    decreases sorted.len() - j,
                {
                    proof {
                        assert(sv.skip(j as int)[0] == sv[j as int]);
                    }
                    let y = sorted[j];
                    if m.updated_sort > y.updated_sort || (m.updated_sort == y.updated_sort && earlier(&m.id, &y.id)) {
                        break;
                    }
                    proof {
                        assert(sv.skip(j as int).drop_first() =~= sv.skip(j + 1));
                    }
                    j += 1;
                }
                sorted.insert(j, m);
                proof {
                    assert(Seq::new(sorted@.len(), |k: int| *sorted@[k]) =~= sv.insert(j as int, *m));
                    let f0 = list_filter(s.take(i as int), cwd, qs, empty, fv);
                    assert(list_filter(s.take(i + 1), cwd, qs, empty, fv) == f0.push(s[i as int]));
                    assert(f0.push(s[i as int]).drop_last() =~= f0);
                }
            }
            i += 1;
        }
        proof {
            assert(s.take(s.len() as int) =~= s);
        }
        let ghost fin = Seq::new(sorted@.len(), |k: int| *sorted@[k]);
        let mut out: Vec<SessionRow> = Vec::new();
        let mut t: usize = 0;
        while t < sorted.len()
            invariant
                t <= sorted@.len(),
                fin == Seq::new(sorted@.len(), |k: int| *sorted@[k]),
                out@.len() == t,
                forall|k: int| 0 <= k < t ==> is_row_of(#[trigger] out@[k], fin[k]),
            decreases sorted.len() - t,
        {
            out.push(sorted[t].to_row());
            t += 1;
        }
        out
    }
}


/// Seconds since the epoch, from milliseconds (rounded down).
pub open spec fn secs_of(ms: i64) -> i64 {
    (ms as int / 1000) as i64
}

fn secs_from_ms(ms: i64) -> (r: i64)
    ensures
        r == secs_of(ms),
{
    if ms >= 0 {
        ((ms as u64) / 1000) as i64
    } else {
        let a: u64 = (-(ms + 1)) as u64;
        let q: u64 = a / 1000;
        proof {
            assert((q as int) * 1000 <= (a as int) && (a as int) < (q as int) * 1000 + 1000);
            assert((ms as int) / 1000 == -(q as int) - 1) by (nonlinear_arith)
                requires
                    (q as int) * 1000 <= (a as int) && (a as int) < (q as int) * 1000 + 1000,
                    (a as int) == -((ms as int) + 1),
                    ms < 0,
            {
            }
        }
        -(q as i64) - 1
    }
}

/// The time a session sorts by, in seconds: its `updated_at` as RFC 3339,
/// else the part before its first `.` with `Z` appended, else `now`.
pub open spec fn sort_ts_spec(s: Seq<char>, now: i64) -> i64 {
    match rfc3339_ms(s) {
        Some(ms) => secs_of(ms),
        None => match crate::text::fpos(s, '.') {
            Some(i) => match rfc3339_ms(s.take(i) + seq!['Z']) {
                Some(ms) => secs_of(ms),
                None => now,
            },
            None => now,
        },
    }
}

/// The time a session sorts by, in seconds.
pub fn sort_ts(s: &str, now_secs: i64) -> (r: i64)
    ensures
        r == sort_ts_spec(s@, now_secs),
{
    match crate::parse::rfc3339_millis(s) {
        Some(ms) => secs_from_ms(ms),
        None => {
            let v = chars_of(s);
            match crate::text::fpos_char(&v, '.') {
                Some(i) => {
                    let mut head = crate::text::slice_of(&v, 0, i);
                    head.push('Z');
                    proof {
                        assert(v@.subrange(0, i as int) =~= v@.take(i as int));
                    }
                    let h = string_of(&head);
                    proof {
                        assert(h@ =~= s@.take(i as int) + seq!['Z']);
                    }
                    match crate::parse::rfc3339_millis(h.as_str()) {
                        Some(ms) => secs_from_ms(ms),
                        None => now_secs,
                    }
                },
                None => now_secs,
            }
        },
    }
}

pub open spec fn nonempty_opt(o: Option<String>) -> Option<String> {
    match o {
        Some(s) => if s@.len() > 0 {
            Some(s)
        } else {
            None
        },
        None => None,
    }
}

fn nonempty_copy(o: &Option<String>) -> (r: Option<String>)
    ensures
        r == nonempty_opt(*o),
{
    match o {
        Some(s) => if s.as_str().is_empty() {
            None
        } else {
            Some(s.clone())
        },
        None => None,
    }
}

fn or_empty(o: &Option<String>) -> (r: String)
    ensures
        r@ == (match *o {
            Some(s) => s@,
            None => Seq::empty(),
        }),
{
    match o {
        Some(s) => s.clone(),
        None => String::new(),
    }
}

/// What a session's `summary.json` says of it. `dir_id` is its directory's
/// name, `fallback_cwd` its project's directory, `has_updates` whether an
/// `updates.jsonl` is there, `dir` its directory, `now_secs` the time now.
pub fn session_meta_from(
    summary: &SummaryFile,
    dir_id: &str,
    fallback_cwd: &str,
    has_updates: bool,
    dir: &str,
    now_secs: i64,
) -> (r: SessionMeta)
    ensures
        r.id@ == (if summary.info.id@.len() == 0 {
            dir_id@
        } else {
            summary.info.id@
        }),
        r.cwd@ == (match nonempty_opt(summary.info.cwd) {
            Some(c) => c@,
            None => fallback_cwd@,
        }),
        r.title@ == (match nonempty_opt(summary.generated_title) {
            Some(t) => t@,
            None => match nonempty_opt(summary.session_summary) {
                Some(t) => t@,
                None => dir_id@,
            },
        }),
        r.created_at@ == (match summary.created_at {
            Some(c) => c@,
            None => Seq::empty(),
        }),
        r.updated_at@ == (match summary.updated_at {
            Some(u) => u@,
            None => r.created_at@,
        }),
        r.updated_sort == sort_ts_spec(r.updated_at@, now_secs),
        r.model@ == (match summary.current_model_id {
            Some(m) => m@,
            None => Seq::empty(),
        }),
        r.agent_name@ == (match summary.agent_name {
            Some(a) => a@,
            None => Seq::empty(),
        }),
        r.num_messages == summary.num_messages,
        r.parent_id == nonempty_opt(summary.parent_session_id),
        r.empty == (!has_updates || summary.num_messages == 0),
        r.dir@ == dir@,
{
    let title = match nonempty_copy(&summary.generated_title) {
        Some(t) => t,
        None => match nonempty_copy(&summary.session_summary) {
            Some(t) => t,
            None => dir_id.to_string(),
        },
    };
    let cwd = match nonempty_copy(&summary.info.cwd) {
        Some(c) => c,
        None => fallback_cwd.to_string(),
    };
    let created_at = or_empty(&summary.created_at);
    let updated_at = match &summary.updated_at {
        Some(u) => u.clone(),
        None => created_at.clone(),
    };
    let updated_sort = sort_ts(updated_at.as_str(), now_secs);
    let id = if summary.info.id.as_str().is_empty() {
        dir_id.to_string()
    } else {
        summary.info.id.clone()
    };
    SessionMeta {
        id,
        cwd,
        title,
        created_at,
        updated_at,
        updated_sort,
        model: or_empty(&summary.current_model_id),
        agent_name: or_empty(&summary.agent_name),
        num_messages: summary.num_messages,
        parent_id: nonempty_copy(&summary.parent_session_id),
        empty: !has_updates || summary.num_messages == 0,
        dir: dir.to_string(),
    }
}

/// A percent-encoded directory name decoded, with invalid UTF-8 replaced, as
/// `percent_encoding::percent_decode_str(..).decode_utf8_lossy()` gives it.
pub uninterp spec fn percent_decoded(name: Seq<char>) -> Seq<char>;

/// Calls `percent_encoding::percent_decode_str(name).decode_utf8_lossy()`;
/// the contract names the result.
#[verifier::external_body]
fn percent_decode(name: &str) -> (r: String)
    ensures
        r@ == percent_decoded(name@),
{
    percent_encoding::percent_decode_str(name).decode_utf8_lossy().into_owned()
}

/// An upper-case hexadecimal digit.
pub open spec fn hex_digit_upper(n: u8) -> char {
    if n < 10 {
        ((48 + n) as u8) as char
    } else {
        ((55 + n) as u8) as char
    }
}

/// One byte percent-encoded: an ASCII letter or digit as itself, any other
/// byte as `%` and its two upper-case hexadecimal digits.
pub open spec fn percent_byte(b: u8) -> Seq<char> {
    if crate::text::is_ascii_alnum(b as char) {
        seq![b as char]
    } else {
        seq!['%', hex_digit_upper(b / 16), hex_digit_upper(b % 16)]
    }
}

pub open spec fn percent_bytes(bs: Seq<u8>) -> Seq<char>
    decreases bs.len(),
{
    if bs.len() == 0 {
        Seq::empty()
    } else {
        percent_bytes(bs.drop_last()) + percent_byte(bs.last())
    }
}

/// A working directory as grok names its project directory: every byte of
/// its UTF-8 but ASCII letters and digits written `%XX`.
pub open spec fn percent_encoded(cwd: Seq<char>) -> Seq<char> {
    percent_bytes(vstd::utf8::encode_utf8(cwd))
}

/// Calls `percent_encoding::utf8_percent_encode(cwd, NON_ALPHANUMERIC)`.
/// The contract states what the crate documents: each byte of the UTF-8
/// text that is not an ASCII letter or digit is written as `%` with two
/// upper-case hexadecimal digits (`percent_encode_byte`), the others as
/// they are.
#[verifier::external_body]
fn percent_encode(cwd: &str) -> (r: String)
    ensures
        r@ == percent_encoded(cwd@),
{
    percent_encoding::utf8_percent_encode(cwd, percent_encoding::NON_ALPHANUMERIC).to_string()
}

/// Where grok writes a session's updates: `sessions/<cwd encoded>/<id>/updates.jsonl`
/// under its home; none for a session without a working directory.
pub fn session_updates_path(grok_home: &str, cwd: &str, id: &str) -> (r: Option<String>)
    ensures
        cwd@.len() == 0 ==> r is None,
        cwd@.len() > 0 ==> (r matches Some(p) && p@ == crate::pathx::join(
            crate::pathx::join(crate::pathx::join(crate::pathx::join(grok_home@, "sessions"@), percent_encoded(cwd@)), id@),
            "updates.jsonl"@,
        )),
{
    if cwd.is_empty() {
        return None;
    }
    let enc = percent_encode(cwd);
    let a = crate::pathx::join_str(grok_home, "sessions");
    let b = crate::pathx::join_str(a.as_str(), enc.as_str());
    let c = crate::pathx::join_str(b.as_str(), id);
    Some(crate::pathx::join_str(c.as_str(), "updates.jsonl"))
}

/// A project's working directory: the trimmed content of its `.cwd` file
/// where that is not empty, else its directory name percent-decoded.
pub fn project_cwd(cwd_file: Option<&str>, dir_name: &str) -> (r: String)
    ensures
        r@ == (match cwd_file {
            Some(c) => if crate::text::trim(c@).len() > 0 {
                crate::text::trim(c@)
            } else {
                percent_decoded(dir_name@)
            },
            None => percent_decoded(dir_name@),
        }),
{
    match cwd_file {
        Some(c) => {
            let t = crate::text::trim_str(c);
            if t.len() > 0 {
                return string_of(&t);
            }
            percent_decode(dir_name)
        },
        None => percent_decode(dir_name),
    }
}

/// The parent the first pair for this child names.
pub open spec fn first_parent(pairs: Seq<(String, String)>, child: Seq<char>) -> Option<Seq<char>>
    decreases pairs.len(),
{
    if pairs.len() == 0 {
        None
    } else if pairs[0].0@ == child {
        Some(pairs[0].1@)
    } else {
        first_parent(pairs.drop_first(), child)
    }
}

fn find_parent(pairs: &[(String, String)], child: &String) -> (r: Option<String>)
    ensures
        opt_view(r) == first_parent(pairs@, child@),
{
    let mut i: usize = 0;
    proof {
        assert(pairs@.subrange(0, pairs@.len() as int) =~= pairs@);
    }
    while i < pairs.len()
        invariant
            i <= pairs@.len(),
            first_parent(pairs@, child@) == first_parent(pairs@.subrange(i as int, pairs@.len() as int), child@),
        decreases pairs.len() - i,
    {
        let ghost rest = pairs@.subrange(i as int, pairs@.len() as int);
        assert(rest[0] == pairs@[i as int]);
        if pairs[i].0 == *child {
            return Some(pairs[i].1.clone());
        }
        proof {
            assert(rest.drop_first() =~= pairs@.subrange(i + 1, pairs@.len() as int));
        }
        i += 1;
    }
    None
}

impl SessionIndex {
    /// Subagent sessions get their parent where they have none yet: the one
    /// the first (child, parent) pair for them names.
    pub fn link_parents(&mut self, pairs: &[(String, String)])
        ensures
            final(self).sessions@.len() == old(self).sessions@.len(),
            forall|i: int| 0 <= i < old(self).sessions@.len() ==> {
                let o = #[trigger] old(self).sessions@[i];
                let n = final(self).sessions@[i];
                &&& n.id == o.id
                &&& n.cwd == o.cwd
                &&& n.updated_sort == o.updated_sort
                &&& opt_view(n.parent_id) == (match o.parent_id {
                    Some(p) => Some(p@),
                    None => first_parent(pairs@, o.id@),
                })
            },
    {
        let ghost s = self.sessions@;
        let mut i: usize = 0;
        while i < self.sessions.len()
            invariant
                i <= s.len(),
                self.sessions@.len() == s.len(),
                s == old(self).sessions@,
                forall|k: int| i <= k < s.len() ==> self.sessions@[k] == s[k],
                forall|k: int| 0 <= k < i ==> {
                    let o = #[trigger] s[k];
                    let n = self.sessions@[k];
                    &&& n.id == o.id
                    &&& n.cwd == o.cwd
                    &&& n.updated_sort == o.updated_sort
                    &&& opt_view(n.parent_id) == (match o.parent_id {
                        Some(p) => Some(p@),
                        None => first_parent(pairs@, o.id@),
                    })
                },
            decreases s.len() - i,
        {
            if self.sessions[i].parent_id.is_none() {
                let found = find_parent(pairs, &self.sessions[i].id);
                let m = &self.sessions[i];
                let nm = SessionMeta {
                    id: m.id.clone(),
                    cwd: m.cwd.clone(),
                    title: m.title.clone(),
                    created_at: m.created_at.clone(),
                    updated_at: m.updated_at.clone(),
                    updated_sort: m.updated_sort,
                    model: m.model.clone(),
                    agent_name: m.agent_name.clone(),
                    num_messages: m.num_messages,
                    parent_id: found,
                    empty: m.empty,
                    dir: m.dir.clone(),
                };
                self.sessions.set(i, nm);
            }
            i += 1;
        }
    }
}

/// The names that are session ids (UUIDs, as `uuid` reads them), in order:
/// the session directories a scan looks into.
pub fn uuid_names(names: &[String]) -> (r: Vec<String>)
    ensures
        r@.map_values(|s: String| s@) == names@.map_values(|s: String| s@).filter(
            |n: Seq<char>| crate::pins::uuid_text(n),
        ),
{
    let ghost nv = names@.map_values(|s: String| s@);
    let ghost pred = |n: Seq<char>| crate::pins::uuid_text(n);
    let mut out: Vec<String> = Vec::new();
    let mut i: usize = 0;
    proof {
        reveal(Seq::filter);
        assert(nv.take(0) =~= Seq::<Seq<char>>::empty());
        assert(out@.map_values(|s: String| s@) =~= nv.take(0).filter(pred));
    }
    while i < names.len()
        invariant
            i <= names.len(),
            nv == names@.map_values(|s: String| s@),
            pred == (|n: Seq<char>| crate::pins::uuid_text(n)),
            out@.map_values(|s: String| s@) == nv.take(i as int).filter(pred),
        decreases names.len() - i,
    {
        let ghost before = out@.map_values(|s: String| s@);
        proof {
            reveal(Seq::filter);
            assert(nv.take(i + 1).drop_last() =~= nv.take(i as int));
            assert(nv.take(i + 1).last() == names@[i as int]@);
        }
        if crate::pins::parses_as_uuid(names[i].as_str()) {
            out.push(names[i].clone());
            proof {
                assert(out@.map_values(|s: String| s@) =~= before.push(names@[i as int]@));
            }
        }
        i += 1;
    }
    proof {
        assert(nv.take(names.len() as int) =~= nv);
    }
    out
}

} // verus!
