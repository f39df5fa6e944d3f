//! The slash commands documented in grok's user guide
//! (`docs/user-guide/04-slash-commands.md`): each `### ` heading names one
//! or more commands in backticks, and the text under it gives their
//! description and aliases. Reading the file is left to the caller.
use vstd::prelude::*;
use crate::agent::{CommandV, cmd_pos, commands_view, cmd_pos_exec};
use crate::pathx::views;
use crate::prefs::{lines, lines_of};
use crate::skill::join_space;
use crate::text::{
    chars_of, contains, contains_str, extend, fpos, fpos_char, is_ascii_alnum, lower_ascii,
    lower_chars, replace, replace_chars, slice_of, starts_with, starts_with_str, string_of, trim,
    trim_chars, words, words_of,
};
use crate::types::SlashCommand;

verus! {

/// A command named in backticks: its name and the argument hint after it.
pub type Tick = (Seq<char>, Option<Seq<char>>);

pub open spec fn name_char(c: char) -> bool {
    is_ascii_alnum(c) || c == '-' || c == '_'
}

pub open spec fn is_bracket(c: char) -> bool {
    c == '<' || c == '>' || c == '[' || c == ']' || c == '|'
}

/// `s` without its leading brackets.
pub open spec fn strip_front(s: Seq<char>) -> Seq<char>
    decreases s.len(),
{
    if s.len() > 0 && is_bracket(s[0]) {
        strip_front(s.drop_first())
    } else {
        s
    }
}

/// `s` without its trailing brackets.
pub open spec fn strip_back(s: Seq<char>) -> Seq<char>
    decreases s.len(),
{
    if s.len() > 0 && is_bracket(s.last()) {
        strip_back(s.drop_last())
    } else {
        s
    }
}

fn strip_brackets(v: &[char]) -> (r: Vec<char>)
    ensures
        r@ == strip_back(strip_front(v@)),
{
    let mut i: usize = 0;
    proof {
        assert(v@.skip(0) =~= v@);
    }
    while i < v.len() && is_bracket_char(v[i])
        invariant
            i <= v.len(),
            strip_front(v@) == strip_front(v@.skip(i as int)),
        decreases v.len() - i,
    {
        proof {
            assert(v@.skip(i as int)[0] == v@[i as int]);
            assert(v@.skip(i as int).drop_first() =~= v@.skip(i + 1));
        }
        i += 1;
    }
    proof {
        if i < v.len() {
            assert(v@.skip(i as int)[0] == v@[i as int]);
        } else {
            assert(v@.skip(i as int) =~= Seq::<char>::empty());
        }
    }
    let mut j: usize = v.len();
    proof {
        assert(v@.subrange(i as int, j as int) =~= v@.skip(i as int));
    }
    while j > i && is_bracket_char(v[j - 1])
        invariant
            i <= j <= v.len(),
            strip_front(v@) == v@.skip(i as int),
            strip_back(strip_front(v@)) == strip_back(v@.subrange(i as int, j as int)),
        decreases j,
    {
        proof {
            assert(v@.subrange(i as int, j as int).last() == v@[j - 1]);
            assert(v@.subrange(i as int, j as int).drop_last() =~= v@.subrange(i as int, j - 1));
        }
        j -= 1;
    }
    proof {
        if j > i {
            assert(v@.subrange(i as int, j as int).last() == v@[j - 1]);
        }
    }
    slice_of(v, i, j)
}

fn is_bracket_char(c: char) -> (r: bool)
    ensures
        r == is_bracket(c),
{
    c == '<' || c == '>' || c == '[' || c == ']' || c == '|'
}

/// The argument hint of a command: the words after the name joined by
/// spaces, with brackets stripped from both ends, `\` removed and trimmed;
/// none when nothing is left.
pub open spec fn hint_spec(rest: Seq<Seq<char>>) -> Option<Seq<char>> {
    if rest.len() == 0 {
        None
    } else {
        let h = trim(replace(strip_back(strip_front(join_space(rest))), "\\"@, Seq::empty()));
        if h.len() == 0 {
            None
        } else {
            Some(h)
        }
    }
}

/// What a backticked span names: `/name hint`, the name made only of
/// letters, digits, `-` and `_`.
pub open spec fn tick_spec(inner: Seq<char>) -> Option<Tick> {
    let t = trim(inner);
    if !(t.len() > 0 && t[0] == '/') {
        None
    } else {
        let w = words(t.drop_first());
        if w.len() == 0 || !(forall|i: int| 0 <= i < w[0].len() ==> name_char(#[trigger] w[0][i])) {
            None
        } else {
            Some((w[0], hint_spec(w.drop_first())))
        }
    }
}

fn join_words(ws: &Vec<Vec<char>>, from: usize) -> (r: Vec<char>)
    requires
        from <= ws.len(),
    ensures
        r@ == join_space(views(ws@).skip(from as int)),
{
    let ghost wv = views(ws@);
    let mut out: Vec<char> = Vec::new();
    let mut i: usize = from;
    proof {
        assert(wv.subrange(from as int, from as int) =~= Seq::<Seq<char>>::empty());
    }
    while i < ws.len()
        invariant
            from <= i <= ws.len(),
            wv == views(ws@),
            out@ == join_space(wv.subrange(from as int, i as int)),
        decreases ws.len() - i,
    {
        let ghost prev = wv.subrange(from as int, i as int);
        let ghost next = wv.subrange(from as int, i + 1);
        proof {
            assert(next.drop_last() =~= prev);
            assert(next.last() == ws@[i as int]@);
        }
        if i > from {
            out.push(' ');
        }
        extend(&mut out, &ws[i]);
        proof {
            if i == from {
                assert(out@ =~= next[0]);
            } else {
                assert(out@ =~= join_space(prev) + seq![' '] + next.last());
            }
        }
        i += 1;
    }
    proof {
        assert(wv.subrange(from as int, ws.len() as int) =~= wv.skip(from as int));
    }
    out
}

fn all_name_chars(name: &Vec<char>) -> (r: bool)
    ensures
        r == (forall|i: int| 0 <= i < name@.len() ==> name_char(#[trigger] name@[i])),
{
    let mut k: usize = 0;
    while k < name.len()
        invariant
            k <= name.len(),
            forall|m: int| 0 <= m < k ==> name_char(#[trigger] name@[m]),
        decreases name.len() - k,
    {
        let c = name[k];
        if !(crate::text::is_ascii_alphanumeric(c) || c == '-' || c == '_') {
            assert(!name_char(name@[k as int]));
            return false;
        }
        k += 1;
    }
    true
}

/// The command a backticked span names.
pub fn parse_tick(inner: &[char]) -> (r: Option<(String, Option<String>)>)
    ensures
        match tick_spec(inner@) {
            Some(t) => r matches Some((n, h)) && n@ == t.0 && crate::skill::opt_view(h) == t.1,
            None => r is None,
        },
{
    let t = trim_chars(inner);
    if !(t.len() > 0 && t[0] == '/') {
        return None;
    }
    let body = slice_of(&t, 1, t.len());
    proof {
        assert(body@ =~= t@.drop_first());
    }
    let w = words_of(&body);
    let ghost wv = views(w@);
    if w.len() == 0 {
        return None;
    }
    let name = &w[0];
    proof {
        assert(wv[0] == name@);
    }
    if !all_name_chars(name) {
        return None;
    }
    let hint = if w.len() == 1 {
        proof {
            assert(wv.drop_first().len() == 0);
        }
        None
    } else {
        let joined = join_words(&w, 1);
        let stripped = strip_brackets(&joined);
        let bs = chars_of("\\");
        let empty: Vec<char> = Vec::new();
        proof {
            reveal_strlit("\\");
            assert(wv.skip(1) =~= wv.drop_first());
        }
        let nb = replace_chars(&stripped, &bs, &empty);
        let h = trim_chars(&nb);
        if h.len() == 0 {
            None
        } else {
            Some(string_of(&h))
        }
    };
    Some((string_of(name), hint))
}

/// The backticked spans of `s`, in order: a backtick with a closing one
/// after it encloses a span, and scanning goes on after the closing one.
pub open spec fn raw_ticks(s: Seq<char>) -> Seq<Option<Tick>>
    decreases s.len(),
{
    if s.len() == 0 {
        Seq::empty()
    } else if s[0] == '`' && fpos(s.drop_first(), '`') is Some {
        let e = fpos(s.drop_first(), '`')->0;
        proof {
            crate::text::lemma_fpos_range(s.drop_first(), '`');
        }
        seq![tick_spec(s.subrange(1, 1 + e))] + raw_ticks(s.skip(2 + e))
    } else {
        raw_ticks(s.drop_first())
    }
}

pub open spec fn has_tick_name(d: Seq<Tick>, n: Seq<char>) -> bool {
    exists|i: int| 0 <= i < d.len() && (#[trigger] d[i]).0 == n
}

/// The commands of the spans, each name once (the first wins).
pub open spec fn dedup_ticks(l: Seq<Option<Tick>>) -> Seq<Tick>
    decreases l.len(),
{
    if l.len() == 0 {
        Seq::empty()
    } else {
        let d = dedup_ticks(l.drop_last());
        match l.last() {
            Some(t) => if has_tick_name(d, t.0) {
                d
            } else {
                d.push(t)
            },
            None => d,
        }
    }
}

pub open spec fn ticks_spec(s: Seq<char>) -> Seq<Tick> {
    dedup_ticks(raw_ticks(s))
}

pub open spec fn ticks_view(v: Seq<(String, Option<String>)>) -> Seq<Tick> {
    v.map_values(|t: (String, Option<String>)| (t.0@, crate::skill::opt_view(t.1)))
}

fn has_name(out: &Vec<(String, Option<String>)>, n: &String) -> (r: bool)
    ensures
        r == has_tick_name(ticks_view(out@), n@),
{
    let ghost tv = ticks_view(out@);
    let mut i: usize = 0;
    while i < out.len()
        invariant
            i <= out.len(),
            tv == ticks_view(out@),
            forall|k: int| 0 <= k < i ==> (#[trigger] tv[k]).0 != n@,
        decreases out.len() - i,
    {
        proof {
            assert(tv[i as int].0 == out@[i as int].0@);
        }
        if crate::text::str_eq(out[i].0.as_str(), n.as_str()) {
            return true;
        }
        i += 1;
    }
    false
}

/// The commands named in backticks in `s`.
pub fn extract_ticks(s: &[char]) -> (r: Vec<(String, Option<String>)>)
    ensures
        ticks_view(r@) == ticks_spec(s@),
{
    let mut out: Vec<(String, Option<String>)> = Vec::new();
    let ghost mut seen: Seq<Option<Tick>> = Seq::empty();
    let mut i: usize = 0;
    proof {
        assert(s@.skip(0) =~= s@);
        assert(raw_ticks(s@) =~= seen + raw_ticks(s@.skip(0)));
        assert(ticks_view(out@) =~= dedup_ticks(seen));
    }
    while i < s.len()
        invariant
            i <= s.len(),
            raw_ticks(s@) == seen + raw_ticks(s@.skip(i as int)),
            ticks_view(out@) == dedup_ticks(seen),
        decreases s.len() - i,
    {
        let ghost t = s@.skip(i as int);
        proof {
            assert(t[0] == s@[i as int]);
            assert(t.drop_first() =~= s@.skip(i + 1));
        }
        let close = if s[i] == '`' {
            let rest = slice_of(s, i + 1, s.len());
            proof {
                assert(rest@ =~= t.drop_first());
            }
            fpos_char(&rest, '`')
        } else {
            None
        };
        match close {
            Some(e) => {
                let inner = slice_of(s, i + 1, i + 1 + e);
                proof {
                    assert(inner@ =~= t.subrange(1, 1 + e as int));
                    assert(t.skip(2 + e as int) =~= s@.skip(i + 2 + e));
                    assert(raw_ticks(t) == seq![tick_spec(inner@)] + raw_ticks(s@.skip(i + 2 + e)));
                }
                let parsed = parse_tick(&inner);
                let ghost before = ticks_view(out@);
                match parsed {
                    Some((n, h)) => {
                        if !has_name(&out, &n) {
                            out.push((n, h));
                            proof {
                                assert(ticks_view(out@) =~= before.push(
                                    (n@, crate::skill::opt_view(h)),
                                ));
                            }
                        }
                    },
                    None => {},
                }
                proof {
                    let s2 = seen.push(tick_spec(inner@));
                    assert(s2.drop_last() =~= seen);
                    assert(raw_ticks(s@) =~= s2 + raw_ticks(s@.skip(i + 2 + e)));
                    seen = s2;
                }
                i = i + 2 + e;
            },
            None => {
                proof {
                    assert(raw_ticks(t) == raw_ticks(s@.skip(i + 1)));
                }
                i += 1;
            },
        }
    }
    proof {
        assert(s@.skip(i as int) =~= Seq::<char>::empty());
        assert(seen + Seq::<Option<Tick>>::empty() =~= seen);
    }
    out
}

/// Markdown emphasis and code marks dropped, and links `[label](url)`
/// reduced to their label; a `[` that closes without a link stays.
pub open spec fn strip_md_spec(s: Seq<char>) -> Seq<char>
    decreases s.len(),
{
    if s.len() == 0 {
        Seq::empty()
    } else if s[0] == '[' {
        let rest = s.drop_first();
        match fpos(rest, ']') {
            None => s,
            Some(j) => {
                proof {
                    crate::text::lemma_fpos_range(rest, ']');
                }
                let label = rest.take(j);
                let after = rest.skip(j + 1);
                if after.len() > 0 && after[0] == '(' {
                    match fpos(after.drop_first(), ')') {
                        None => label,
                        Some(k) => {
                            proof {
                                crate::text::lemma_fpos_range(after.drop_first(), ')');
                            }
                            label + strip_md_spec(after.drop_first().skip(k + 1))
                        },
                    }
                } else {
                    seq!['['] + label + seq![']'] + strip_md_spec(after)
                }
            },
        }
    } else if s[0] == '*' || s[0] == '`' {
        strip_md_spec(s.drop_first())
    } else {
        seq![s[0]] + strip_md_spec(s.drop_first())
    }
}

pub fn strip_md(s: &[char]) -> (r: Vec<char>)
    ensures
        r@ == strip_md_spec(s@),
{
    let mut out: Vec<char> = Vec::new();
    let mut i: usize = 0;
    proof {
        assert(s@.skip(0) =~= s@);
        assert(out@ + strip_md_spec(s@) =~= strip_md_spec(s@));
    }
    while i < s.len()
        invariant
            i <= s.len(),
            out@ + strip_md_spec(s@.skip(i as int)) == strip_md_spec(s@),
        decreases s.len() - i,
    {
        let ghost t = s@.skip(i as int);
        let ghost before = out@;
        proof {
            assert(t[0] == s@[i as int]);
            assert(t.drop_first() =~= s@.skip(i + 1));
        }
        let c = s[i];
        if c == '[' {
            let rest = slice_of(s, i + 1, s.len());
            proof {
                assert(rest@ =~= t.drop_first());
            }
            match fpos_char(&rest, ']') {
                None => {
                    extend(&mut out, &slice_of(s, i, s.len()));
                    proof {
                        assert(s@.subrange(i as int, s.len() as int) =~= t);
                        assert(s@.skip(s.len() as int) =~= Seq::<char>::empty());
                        assert(out@ + strip_md_spec(s@.skip(s.len() as int)) =~= before + t);
                    }
                    i = s.len();
                },
                Some(j) => {
                    let label = slice_of(&rest, 0, j);
                    let a = i + 1 + j + 1;
                    proof {
                        assert(label@ =~= rest@.take(j as int));
                        assert(rest@.skip(j + 1) =~= s@.skip(a as int));
                    }
                    if a < s.len() && s[a] == '(' {
                        let after2 = slice_of(s, a + 1, s.len());
                        proof {
                            assert(s@.skip(a as int)[0] == s@[a as int]);
                            assert(after2@ =~= s@.skip(a as int).drop_first());
                        }
                        match fpos_char(&after2, ')') {
                            None => {
                                extend(&mut out, &label);
                                proof {
                                    assert(s@.skip(s.len() as int) =~= Seq::<char>::empty());
                                    assert(out@ + strip_md_spec(s@.skip(s.len() as int)) =~= before
                                        + label@);
                                }
                                i = s.len();
                            },
                            Some(k) => {
                                extend(&mut out, &label);
                                proof {
                                    assert(after2@.skip(k + 1) =~= s@.skip(a + 1 + k + 1));
                                    assert(out@ + strip_md_spec(s@.skip(a + 1 + k + 1)) =~= before
                                        + (label@ + strip_md_spec(s@.skip(a + 1 + k + 1))));
                                }
                                i = a + 1 + k + 1;
                            },
                        }
                    } else {
                        proof {
                            if a < s.len() {
                                assert(s@.skip(a as int)[0] == s@[a as int]);
                            }
                        }
                        out.push('[');
                        extend(&mut out, &label);
                        out.push(']');
                        proof {
                            assert(out@ + strip_md_spec(s@.skip(a as int)) =~= before + (seq!['[']
                                + label@ + seq![']'] + strip_md_spec(s@.skip(a as int))));
                        }
                        i = a;
                    }
                },
            }
        } else if c == '*' || c == '`' {
            i += 1;
        } else {
            out.push(c);
            proof {
                assert(out@ + strip_md_spec(s@.skip(i + 1)) =~= before + (seq![c] + strip_md_spec(
                    s@.skip(i + 1),
                )));
            }
            i += 1;
        }
    }
    proof {
        assert(s@.skip(i as int) =~= Seq::<char>::empty());
        assert(out@ + Seq::<char>::empty() =~= out@);
    }
    out
}


pub open spec fn strs(v: Seq<String>) -> Seq<Seq<char>> {
    Seq::new(v.len(), |i: int| v[i]@)
}

pub open spec fn tick_names(t: Seq<Tick>) -> Seq<Seq<char>> {
    t.map_values(|x: Tick| x.0)
}

fn names_of(ticks: &Vec<(String, Option<String>)>) -> (r: Vec<String>)
    ensures
        strs(r@) == tick_names(ticks_view(ticks@)),
{
    let mut out: Vec<String> = Vec::new();
    let mut i: usize = 0;
    while i < ticks.len()
        invariant
            i <= ticks.len(),
            strs(out@) == tick_names(ticks_view(ticks@)).take(i as int),
        decreases ticks.len() - i,
    {
        let n = ticks[i].0.clone();
        let ghost before = strs(out@);
        out.push(n);
        proof {
            assert(strs(out@) =~= before.push(ticks@[i as int].0@));
            assert(tick_names(ticks_view(ticks@)).take(i + 1) =~= tick_names(ticks_view(ticks@)).take(
                i as int,
            ).push(ticks@[i as int].0@));
        }
        i += 1;
    }
    proof {
        assert(tick_names(ticks_view(ticks@)).take(i as int) =~= tick_names(ticks_view(ticks@)));
    }
    out
}

/// The commands of a `### ` heading: those in backticks; a heading about
/// aliases names one command and its aliases after it.
pub open spec fn heading_spec(rest: Seq<char>) -> (Seq<Tick>, Seq<Seq<char>>) {
    let t = ticks_spec(rest);
    if contains(lower_ascii(rest), "alias"@) && t.len() > 0 {
        (seq![t[0]], tick_names(t).drop_first())
    } else {
        (t, Seq::empty())
    }
}

pub fn heading_commands(rest: &[char]) -> (r: (Vec<(String, Option<String>)>, Vec<String>))
    ensures
        ticks_view(r.0@) == heading_spec(rest@).0,
        strs(r.1@) == heading_spec(rest@).1,
{
    let mut ticks = extract_ticks(rest);
    let l = lower_chars(rest);
    if contains_str(&l, "alias") && ticks.len() > 0 {
        let mut names = names_of(&ticks);
        let ghost nv = strs(names@);
        proof {
            assert(nv.len() == names@.len());
            assert(tick_names(ticks_view(ticks@)).len() == ticks@.len());
        }
        let _ = names.remove(0);
        let first = ticks.remove(0);
        let mut cmds: Vec<(String, Option<String>)> = Vec::new();
        cmds.push(first);
        proof {
            assert(strs(names@) =~= nv.drop_first());
            assert(ticks_view(cmds@) =~= seq![ticks_spec(rest@)[0]]);
        }
        (cmds, names)
    } else {
        let empty: Vec<String> = Vec::new();
        proof {
            assert(strs(empty@) =~= Seq::<Seq<char>>::empty());
        }
        (ticks, empty)
    }
}

/// Reading the description under a heading: the lines so far, whether the
/// paragraph has started, whether inside a code fence, and whether it ended.
pub type FpState = (Seq<Seq<char>>, bool, bool, bool);

/// One line of the text under a heading: a code fence toggles (and ends a
/// started paragraph); code is skipped; tables, headings and blank lines end
/// a started paragraph; any other line joins it, markdown stripped.
pub open spec fn fp_step(st: FpState, raw: Seq<char>) -> FpState {
    if st.3 {
        st
    } else {
        let line = trim(raw);
        if starts_with(line, "```"@) {
            (st.0, st.1, !st.2, st.1)
        } else if st.2 {
            st
        } else if starts_with(line, "|"@) || starts_with(line, "#"@) || line.len() == 0 {
            (st.0, st.1, st.2, st.1)
        } else {
            (st.0.push(strip_md_spec(line)), true, st.2, false)
        }
    }
}

pub open spec fn fp_fold(body: Seq<Seq<char>>) -> FpState
    decreases body.len(),
{
    if body.len() == 0 {
        (Seq::empty(), false, false, false)
    } else {
        fp_step(fp_fold(body.drop_last()), body.last())
    }
}

/// The description of a command: the first paragraph under its heading,
/// its lines joined by spaces.
pub open spec fn first_paragraph_spec(body: Seq<Seq<char>>) -> Seq<char> {
    join_space(fp_fold(body).0)
}

pub fn first_paragraph(body: &Vec<Vec<char>>) -> (r: Vec<char>)
    ensures
        r@ == first_paragraph_spec(views(body@)),
{
    let ghost bv = views(body@);
    let mut lines_out: Vec<Vec<char>> = Vec::new();
    let mut started = false;
    let mut in_code = false;
    let mut done = false;
    let mut i: usize = 0;
    proof {
        assert(bv.take(0) =~= Seq::<Seq<char>>::empty());
        assert(views(lines_out@) =~= Seq::<Seq<char>>::empty());
        reveal_strlit("```");
        reveal_strlit("|");
        reveal_strlit("#");
    }
    while i < body.len()
        invariant
            i <= body.len(),
            bv == views(body@),
            (views(lines_out@), started, in_code, done) == fp_fold(bv.take(i as int)),
        decreases body.len() - i,
    {
        proof {
            assert(bv.take(i + 1).drop_last() =~= bv.take(i as int));
            assert(bv.take(i + 1).last() == body@[i as int]@);
        }
        if !done {
            let line = trim_chars(&body[i]);
            if starts_with_str(&line, "```") {
                in_code = !in_code;
                done = started;
            } else if in_code {
            } else if starts_with_str(&line, "|") || starts_with_str(&line, "#") || line.len() == 0 {
                done = started;
            } else {
                let ghost before = views(lines_out@);
                lines_out.push(strip_md(&line));
                proof {
                    assert(views(lines_out@) =~= before.push(strip_md_spec(line@)));
                }
                started = true;
            }
        }
        i += 1;
    }
    proof {
        assert(bv.take(i as int) =~= bv);
    }
    let r = join_words(&lines_out, 0);
    proof {
        assert(views(lines_out@).skip(0) =~= views(lines_out@));
    }
    r
}

/// `more` added to `have`, skipping what is already there.
pub open spec fn add_new(have: Seq<Seq<char>>, more: Seq<Seq<char>>) -> Seq<Seq<char>>
    decreases more.len(),
{
    if more.len() == 0 {
        have
    } else {
        let h = add_new(have, more.drop_last());
        if h.contains(more.last()) {
            h
        } else {
            h.push(more.last())
        }
    }
}

fn add_new_into(have: &mut Vec<String>, more: &Vec<String>)
    ensures
        strs(final(have)@) == add_new(strs(old(have)@), strs(more@)),
{
    let ghost start = strs(have@);
    let ghost mv = strs(more@);
    let mut j: usize = 0;
    proof {
        assert(mv.take(0) =~= Seq::<Seq<char>>::empty());
    }
    while j < more.len()
        invariant
            j <= more.len(),
            mv == strs(more@),
            start == strs(old(have)@),
            strs(have@) == add_new(start, mv.take(j as int)),
        decreases more.len() - j,
    {
        proof {
            assert(mv.take(j + 1).drop_last() =~= mv.take(j as int));
            assert(mv.take(j + 1).last() == more@[j as int]@);
        }
        let a = &more[j];
        proof {
            assert(strs(have@) =~= Seq::new(have@.len(), |k: int| have@[k]@));
        }
        if !crate::agent::contains_string(have, a) {
            let ghost hv = strs(have@);
            have.push(a.clone());
            proof {
                assert(strs(have@) =~= hv.push(a@));
            }
        }
        j += 1;
    }
    proof {
        assert(mv.take(more.len() as int) =~= mv);
    }
}

/// Aliases named in the text under a heading, on lines that mention
/// `alias:` or `aliases:` (any case), each once.
pub open spec fn ba_step(out: Seq<Seq<char>>, raw: Seq<char>) -> Seq<Seq<char>> {
    let line = trim(raw);
    let l = lower_ascii(line);
    if contains(l, "alias:"@) || contains(l, "aliases:"@) {
        add_new(out, tick_names(ticks_spec(line)))
    } else {
        out
    }
}

pub open spec fn ba_fold(body: Seq<Seq<char>>) -> Seq<Seq<char>>
    decreases body.len(),
{
    if body.len() == 0 {
        Seq::empty()
    } else {
        ba_step(ba_fold(body.drop_last()), body.last())
    }
}

pub fn body_aliases(body: &Vec<Vec<char>>) -> (r: Vec<String>)
    ensures
        strs(r@) == ba_fold(views(body@)),
{
    let ghost bv = views(body@);
    let mut out: Vec<String> = Vec::new();
    let mut i: usize = 0;
    proof {
        assert(bv.take(0) =~= Seq::<Seq<char>>::empty());
        assert(strs(out@) =~= Seq::<Seq<char>>::empty());
    }
    while i < body.len()
        invariant
            i <= body.len(),
            bv == views(body@),
            strs(out@) == ba_fold(bv.take(i as int)),
        decreases body.len() - i,
    {
        proof {
            assert(bv.take(i + 1).drop_last() =~= bv.take(i as int));
            assert(bv.take(i + 1).last() == body@[i as int]@);
        }
        let line = trim_chars(&body[i]);
        let l = lower_chars(&line);
        if contains_str(&l, "alias:") || contains_str(&l, "aliases:") {
            let ticks = extract_ticks(&line);
            let names = names_of(&ticks);
            add_new_into(&mut out, &names);
        }
        i += 1;
    }
    proof {
        assert(bv.take(i as int) =~= bv);
    }
    out
}

/// `s` without `name`.
pub open spec fn drop_name(s: Seq<Seq<char>>, name: Seq<char>) -> Seq<Seq<char>>
    decreases s.len(),
{
    if s.len() == 0 {
        Seq::empty()
    } else if s.last() == name {
        drop_name(s.drop_last(), name)
    } else {
        drop_name(s.drop_last(), name).push(s.last())
    }
}

/// The aliases of one command of a heading: the aliases found for the
/// heading, then the heading's other commands, never the command itself.
pub open spec fn aliases_for(extra: Seq<Seq<char>>, names: Seq<Seq<char>>, name: Seq<char>) -> Seq<Seq<char>> {
    drop_name(crate::agent::add_aliases(extra, name, names), name)
}

fn aliases_for_exec(extra: &Vec<String>, names: &Vec<String>, name: &String) -> (r: Vec<String>)
    ensures
        strs(r@) == aliases_for(strs(extra@), strs(names@), name@),
{
    let mut al: Vec<String> = Vec::new();
    let mut k: usize = 0;
    while k < extra.len()
        invariant
            k <= extra.len(),
            strs(al@) == strs(extra@).take(k as int),
        decreases extra.len() - k,
    {
        let ghost before = strs(al@);
        al.push(extra[k].clone());
        proof {
            assert(strs(al@) =~= before.push(extra@[k as int]@));
            assert(strs(extra@).take(k + 1) =~= strs(extra@).take(k as int).push(extra@[k as int]@));
        }
        k += 1;
    }
    proof {
        assert(strs(extra@).take(k as int) =~= strs(extra@));
    }
    let ghost nv = strs(names@);
    let mut j: usize = 0;
    proof {
        assert(nv.take(0) =~= Seq::<Seq<char>>::empty());
    }
    while j < names.len()
        invariant
            j <= names.len(),
            nv == strs(names@),
            Seq::new(al@.len(), |q: int| al@[q]@) == crate::agent::add_aliases(
                strs(extra@),
                name@,
                nv.take(j as int),
            ),
        decreases names.len() - j,
    {
        proof {
            assert(nv.take(j + 1).drop_last() =~= nv.take(j as int));
            assert(nv.take(j + 1).last() == names@[j as int]@);
        }
        let o = &names[j];
        if *o != *name && !crate::agent::contains_string(&al, o) {
            let ghost hv = Seq::new(al@.len(), |q: int| al@[q]@);
            al.push(o.clone());
            proof {
                assert(Seq::new(al@.len(), |q: int| al@[q]@) =~= hv.push(o@));
            }
        }
        j += 1;
    }
    proof {
        assert(nv.take(names.len() as int) =~= nv);
    }
    let ghost av = strs(al@);
    let mut out: Vec<String> = Vec::new();
    let mut m: usize = 0;
    proof {
        assert(av.take(0) =~= Seq::<Seq<char>>::empty());
        assert(strs(out@) =~= Seq::<Seq<char>>::empty());
    }
    while m < al.len()
        invariant
            m <= al.len(),
            av == strs(al@),
            strs(out@) == drop_name(av.take(m as int), name@),
        decreases al.len() - m,
    {
        proof {
            assert(av.take(m + 1).drop_last() =~= av.take(m as int));
            assert(av.take(m + 1).last() == al@[m as int]@);
        }
        if al[m] != *name {
            let ghost before = strs(out@);
            out.push(al[m].clone());
            proof {
                assert(strs(out@) =~= before.push(al@[m as int]@));
            }
        }
        m += 1;
    }
    proof {
        assert(av.take(m as int) =~= av);
    }
    out
}

/// A documented command put in the list by name: an entry of that name
/// gets a description and hint where it has none, and new aliases; else a
/// new entry is added in its place.
pub open spec fn doc_put(
    s: Seq<CommandV>,
    name: Seq<char>,
    desc: Seq<char>,
    hint: Option<Seq<char>>,
    al: Seq<Seq<char>>,
) -> Seq<CommandV> {
    let p = cmd_pos(s, name);
    if p < s.len() && s[p].0 == name {
        let e = s[p];
        s.update(
            p,
            (
                e.0,
                if e.1.len() == 0 && desc.len() > 0 {
                    desc
                } else {
                    e.1
                },
                if e.2 is None {
                    hint
                } else {
                    e.2
                },
                add_new(e.3, al),
            ),
        )
    } else {
        s.insert(p, (name, desc, hint, add_new(Seq::empty(), al)))
    }
}

fn clone_opt(h: &Option<String>) -> (r: Option<String>)
    ensures
        crate::types::opt_view(r) == crate::types::opt_view(*h),
{
    match h {
        Some(x) => Some(x.clone()),
        None => None,
    }
}

fn doc_put_exec(
    cmds: &mut Vec<SlashCommand>,
    name: &String,
    desc: &Vec<char>,
    hint: &Option<String>,
    al: &Vec<String>,
)
    ensures
        commands_view(final(cmds)@) == doc_put(
            commands_view(old(cmds)@),
            name@,
            desc@,
            crate::types::opt_view(*hint),
            strs(al@),
        ),
{
    let p = cmd_pos_exec(cmds, name);
    let ghost before = commands_view(cmds@);
    if p < cmds.len() && cmds[p].name == *name {
        let e = cmds.remove(p);
        proof {
            assert(before[p as int] == crate::agent::command_view(e));
        }
        let description = if e.description.as_str().is_empty() && desc.len() > 0 {
            string_of(desc)
        } else {
            e.description
        };
        let h = match e.hint {
            None => clone_opt(hint),
            Some(x) => Some(x),
        };
        let mut aliases = e.aliases;
        proof {
            assert(strs(aliases@) =~= Seq::new(aliases@.len(), |i: int| aliases@[i]@));
        }
        add_new_into(&mut aliases, al);
        let merged = SlashCommand { name: e.name, description, hint: h, aliases };
        cmds.insert(p, merged);
        proof {
            assert(crate::agent::command_view(merged).3 =~= strs(merged.aliases@));
            assert(commands_view(cmds@) =~= before.update(
                p as int,
                crate::agent::command_view(merged),
            ));
        }
    } else {
        let mut aliases: Vec<String> = Vec::new();
        proof {
            assert(strs(aliases@) =~= Seq::<Seq<char>>::empty());
        }
        add_new_into(&mut aliases, al);
        let c = SlashCommand {
            name: name.clone(),
            description: string_of(desc),
            hint: clone_opt(hint),
            aliases,
        };
        cmds.insert(p, c);
        proof {
            assert(crate::agent::command_view(c).3 =~= strs(c.aliases@));
            assert(commands_view(cmds@) =~= before.insert(p as int, crate::agent::command_view(c)));
        }
    }
}

/// The commands of one heading put in the list, in order.
pub open spec fn put_pending(
    s: Seq<CommandV>,
    pending: Seq<Tick>,
    desc: Seq<char>,
    extra: Seq<Seq<char>>,
    names: Seq<Seq<char>>,
) -> Seq<CommandV>
    decreases pending.len(),
{
    if pending.len() == 0 {
        s
    } else {
        let t = pending.last();
        doc_put(
            put_pending(s, pending.drop_last(), desc, extra, names),
            t.0,
            desc,
            t.1,
            aliases_for(extra, names, t.0),
        )
    }
}

/// What a heading adds once its text is read: its commands, with the
/// first paragraph as description and the aliases found.
pub open spec fn flush_spec(
    cmds: Seq<CommandV>,
    pending: Seq<Tick>,
    pending_aliases: Seq<Seq<char>>,
    body: Seq<Seq<char>>,
) -> Seq<CommandV> {
    if pending.len() == 0 {
        cmds
    } else {
        put_pending(
            cmds,
            pending,
            first_paragraph_spec(body),
            add_new(ba_fold(body), pending_aliases),
            tick_names(pending),
        )
    }
}

pub fn flush_pending(
    cmds: &mut Vec<SlashCommand>,
    pending: &Vec<(String, Option<String>)>,
    pending_aliases: &Vec<String>,
    body: &Vec<Vec<char>>,
)
    ensures
        commands_view(final(cmds)@) == flush_spec(
            commands_view(old(cmds)@),
            ticks_view(pending@),
            strs(pending_aliases@),
            views(body@),
        ),
{
    if pending.len() == 0 {
        return;
    }
    let desc = first_paragraph(body);
    let mut extra = body_aliases(body);
    add_new_into(&mut extra, pending_aliases);
    let names = names_of(pending);
    let ghost pv = ticks_view(pending@);
    let ghost start = commands_view(cmds@);
    let mut i: usize = 0;
    proof {
        assert(pv.take(0) =~= Seq::<Tick>::empty());
    }
    while i < pending.len()
        invariant
            i <= pending.len(),
            pv == ticks_view(pending@),
            start == commands_view(old(cmds)@),
            strs(names@) == tick_names(pv),
            desc@ == first_paragraph_spec(views(body@)),
            strs(extra@) == add_new(ba_fold(views(body@)), strs(pending_aliases@)),
            commands_view(cmds@) == put_pending(start, pv.take(i as int), desc@, strs(extra@), strs(names@)),
        decreases pending.len() - i,
    {
        proof {
            assert(pv.take(i + 1).drop_last() =~= pv.take(i as int));
            assert(pv.take(i + 1).last() == pv[i as int]);
        }
        let al = aliases_for_exec(&extra, &names, &pending[i].0);
        doc_put_exec(cmds, &pending[i].0, &desc, &pending[i].1, &al);
        i += 1;
    }
    proof {
        assert(pv.take(i as int) =~= pv);
    }
}

/// Reading the guide: the commands so far, the commands of the current
/// heading and their aliases, and the text under it.
pub type DocState = (Seq<CommandV>, Seq<Tick>, Seq<Seq<char>>, Seq<Seq<char>>);

/// One line of the guide: a `### ` heading closes the one before and opens
/// its own; under a heading with commands, lines are kept (trimmed).
pub open spec fn doc_step(st: DocState, raw: Seq<char>) -> DocState {
    let line = trim(raw);
    if starts_with(line, "### "@) {
        let h = heading_spec(line.skip(4));
        (flush_spec(st.0, st.1, st.2, st.3), h.0, h.1, Seq::empty())
    } else if st.1.len() > 0 {
        (st.0, st.1, st.2, st.3.push(line))
    } else {
        st
    }
}

pub open spec fn doc_fold(ls: Seq<Seq<char>>) -> DocState
    decreases ls.len(),
{
    if ls.len() == 0 {
        (Seq::empty(), Seq::empty(), Seq::empty(), Seq::empty())
    } else {
        doc_step(doc_fold(ls.drop_last()), ls.last())
    }
}

/// The commands documented in the guide's text, sorted by name.
pub open spec fn docs_spec(text: Seq<char>) -> Seq<CommandV> {
    let f = doc_fold(lines(text));
    flush_spec(f.0, f.1, f.2, f.3)
}

pub fn parse_docs(text: &str) -> (r: Vec<SlashCommand>)
    ensures
        commands_view(r@) == docs_spec(text@),
{
    let chars = chars_of(text);
    let ls = lines_of(&chars);
    let ghost lv = views(ls@);
    let mut cmds: Vec<SlashCommand> = Vec::new();
    let mut pending: Vec<(String, Option<String>)> = Vec::new();
    let mut pal: Vec<String> = Vec::new();
    let mut body: Vec<Vec<char>> = Vec::new();
    let mut i: usize = 0;
    proof {
        assert(lv.take(0) =~= Seq::<Seq<char>>::empty());
        assert(commands_view(cmds@) =~= Seq::<CommandV>::empty());
        assert(ticks_view(pending@) =~= Seq::<Tick>::empty());
        assert(strs(pal@) =~= Seq::<Seq<char>>::empty());
        assert(views(body@) =~= Seq::<Seq<char>>::empty());
        reveal_strlit("### ");
    }
    while i < ls.len()
        invariant
            i <= ls.len(),
            lv == views(ls@),
            lv == lines(text@),
            "### "@.len() == 4,
            (commands_view(cmds@), ticks_view(pending@), strs(pal@), views(body@)) == doc_fold(
                lv.take(i as int),
            ),
        decreases ls.len() - i,
    {
        proof {
            assert(lv.take(i + 1).drop_last() =~= lv.take(i as int));
            assert(lv.take(i + 1).last() == ls@[i as int]@);
        }
        let line = trim_chars(&ls[i]);
        if starts_with_str(&line, "### ") {
            flush_pending(&mut cmds, &pending, &pal, &body);
            let rest = slice_of(&line, 4, line.len());
            proof {
                assert(rest@ =~= line@.skip(4));
            }
            let (c, a) = heading_commands(&rest);
            pending = c;
            pal = a;
            body = Vec::new();
            proof {
                assert(views(body@) =~= Seq::<Seq<char>>::empty());
            }
        } else if pending.len() > 0 {
            let ghost before = views(body@);
            body.push(line);
            proof {
                assert(views(body@) =~= before.push(trim(ls@[i as int]@)));
            }
        }
        i += 1;
    }
    proof {
        assert(lv.take(i as int) =~= lv);
    }
    flush_pending(&mut cmds, &pending, &pal, &body);
    cmds
}

} // verus!
