//! The model and reasoning effort last chosen in the web UI, and their
//! merge into grok's `config.toml`.
use vstd::prelude::*;
use crate::pathx::{join, join_str, split, split_chars, views};
use crate::text::{
    chars_of, string_of, extend, extend_str, eq_str, trim, trim_chars, fpos, fpos_char, starts_with,
    ends_with, starts_with_str, ends_with_str, slice_of,
};

verus! {

/// Last model and reasoning effort chosen in the web UI.
#[derive(Debug, Clone, Default)]
pub struct LastModel {
    pub model: String,
    pub effort: String,
}

/// Path of ggok's last-model file under a config directory.
pub fn last_model_path(config_dir: &str) -> (r: String)
    ensures
        r@ == join(config_dir@, "last_model.json"@),
{
    join_str(config_dir, "last_model.json")
}

pub open spec fn nonempty_spec(v: Option<Seq<char>>) -> Option<Seq<char>> {
    match v {
        Some(s) => if trim(s).len() > 0 { Some(trim(s)) } else { None },
        None => None,
    }
}

pub open spec fn opt_str(v: Option<&str>) -> Option<Seq<char>> {
    match v {
        Some(s) => Some(s@),
        None => None,
    }
}

pub open spec fn opt_string(v: Option<String>) -> Option<Seq<char>> {
    match v {
        Some(s) => Some(s@),
        None => None,
    }
}

/// The trimmed text, unless it is blank.
pub fn nonempty(v: Option<&str>) -> (r: Option<String>)
    ensures
        opt_string(r) == nonempty_spec(opt_str(v)),
{
    match v {
        Some(s) => {
            let t = trim_str_vec(s);
            if t.len() > 0 {
                Some(string_of(&t))
            } else {
                None
            }
        },
        None => None,
    }
}

fn trim_str_vec(s: &str) -> (r: Vec<char>)
    ensures
        r@ == trim(s@),
{
    crate::text::trim_str(s)
}

/// Prefer an explicit model/effort, otherwise the stored last-used pair.
pub fn resolve_choice(model: Option<&str>, effort: Option<&str>, last: &LastModel) -> (r: (
    Option<String>,
    Option<String>,
))
    ensures
        ({
            let m = nonempty_spec(opt_str(model));
            let e = nonempty_spec(opt_str(effort));
            if m is Some || e is Some {
                opt_string(r.0) == m && opt_string(r.1) == e
            } else {
                opt_string(r.0) == nonempty_spec(Some(last.model@)) && opt_string(r.1)
                    == nonempty_spec(Some(last.effort@))
            }
        }),
{
    let m = nonempty(model);
    let e = nonempty(effort);
    if m.is_some() || e.is_some() {
        return (m, e);
    }
    (nonempty(Some(last.model.as_str())), nonempty(Some(last.effort.as_str())))
}

pub open spec fn strip_cr(x: Seq<char>) -> Seq<char> {
    if x.len() > 0 && x.last() == '\r' {
        x.drop_last()
    } else {
        x
    }
}

/// `str::lines`: the text split at `\n`, each line without its `\n` or
/// `\r\n`, and no empty line after a final `\n`.
pub open spec fn lines(s: Seq<char>) -> Seq<Seq<char>> {
    let p = split(s, '\n');
    let n = if s.len() == 0 || s.last() == '\n' {
        p.len() - 1
    } else {
        p.len() as int
    };
    Seq::new(n as nat, |i: int| if i < p.len() - 1 { strip_cr(p[i]) } else { p[i] })
}

/// The lines of a text.
pub fn lines_of(s: &[char]) -> (r: Vec<Vec<char>>)
    ensures
        views(r@) == lines(s@),
{
    let pieces = split_chars(s, '\n');
    proof {
        crate::pathx::lemma_split_nonempty(s@, '\n');
    }
    let n: usize = if s.len() == 0 || s[s.len() - 1] == '\n' {
        pieces.len() - 1
    } else {
        pieces.len()
    };
    proof {
        if s.len() > 0 {
            assert(s@.last() == s@[s.len() - 1]);
        }
    }
    let mut out: Vec<Vec<char>> = Vec::new();
    let mut i: usize = 0;
    while i < n
        invariant
            i <= n <= pieces.len(),
            views(pieces@) == split(s@, '\n'),
            n as int == (if s@.len() == 0 || s@.last() == '\n' {
                split(s@, '\n').len() - 1
            } else {
                split(s@, '\n').len() as int
            }),
            views(out@) == lines(s@).take(i as int),
        decreases n - i,
    {
        let piece = &pieces[i];
        let line = if i + 1 < pieces.len() && piece.len() > 0 && piece[piece.len() - 1] == '\r' {
            slice_of(piece, 0, piece.len() - 1)
        } else {
            slice_of(piece, 0, piece.len())
        };
        proof {
            assert(views(pieces@)[i as int] == piece@);
            if piece@.len() > 0 {
                assert(piece@.last() == piece@[piece@.len() - 1]);
            }
            assert(line@ =~= lines(s@)[i as int]);
        }
        let ghost before = out@;
        out.push(line);
        proof {
            assert(views(out@) =~= views(before).push(line@));
            assert(lines(s@).take(i + 1) =~= lines(s@).take(i as int).push(lines(s@)[i as int]));
        }
        i += 1;
    }
    proof {
        assert(lines(s@).take(n as int) =~= lines(s@));
    }
    out
}

pub open spec fn is_table_header_spec(t: Seq<char>) -> bool {
    starts_with(t, "["@) && ends_with(t, "]"@)
}

fn is_table_header(trimmed: &[char]) -> (r: bool)
    ensures
        r == is_table_header_spec(trimmed@),
{
    starts_with_str(trimmed, "[") && ends_with_str(trimmed, "]")
}

/// The key of a `key = value` line (already trimmed), unless blank or a comment.
pub open spec fn line_key_spec(t: Seq<char>) -> Option<Seq<char>> {
    if t.len() == 0 || starts_with(t, "#"@) {
        None
    } else {
        match fpos(t, '=') {
            Some(i) => Some(trim(t.take(i))),
            None => None,
        }
    }
}

fn line_key(trimmed: &[char]) -> (r: Option<Vec<char>>)
    ensures
        match line_key_spec(trimmed@) {
            Some(k) => r matches Some(v) && v@ == k,
            None => r is None,
        },
{
    if trimmed.len() == 0 || starts_with_str(trimmed, "#") {
        return None;
    }
    match fpos_char(trimmed, '=') {
        Some(i) => {
            let k = slice_of(trimmed, 0, i);
            proof {
                assert(k@ =~= trimmed@.take(i as int));
            }
            Some(trim_chars(&k))
        },
        None => None,
    }
}

/// TOML basic-string escaping of backslashes and double quotes.
pub open spec fn escape_toml(v: Seq<char>) -> Seq<char>
    decreases v.len(),
{
    if v.len() == 0 {
        Seq::empty()
    } else {
        let c = v.last();
        let tail: Seq<char> = if c == '\\' {
            seq!['\\', '\\']
        } else if c == '"' {
            seq!['\\', '"']
        } else {
            seq![c]
        };
        escape_toml(v.drop_last()) + tail
    }
}

fn escape_toml_string(value: &[char]) -> (r: Vec<char>)
    ensures
        r@ == escape_toml(value@),
{
    let mut out: Vec<char> = Vec::new();
    let mut i: usize = 0;
    while i < value.len()
        invariant
            i <= value.len(),
            out@ == escape_toml(value@.take(i as int)),
        decreases value.len() - i,
    {
        let c = value[i];
        proof {
            assert(value@.take(i + 1).drop_last() == value@.take(i as int));
            assert(value@.take(i + 1).last() == c);
        }
        if c == '\\' {
            out.push('\\');
            out.push('\\');
        } else if c == '"' {
            out.push('\\');
            out.push('"');
        } else {
            out.push(c);
        }
        proof {
            let tail: Seq<char> = if c == '\\' {
                seq!['\\', '\\']
            } else if c == '"' {
                seq!['\\', '"']
            } else {
                seq![c]
            };
            assert(out@ =~= escape_toml(value@.take(i as int)) + tail);
        }
        i += 1;
    }
    proof {
        assert(value@.take(value.len() as int) == value@);
    }
    out
}

/// `key = "value"` with the value escaped.
pub open spec fn key_line_spec(key: Seq<char>, value: Seq<char>) -> Seq<char> {
    key + " = \""@ + escape_toml(value) + "\""@
}

fn key_line(key: &str, value: &[char]) -> (r: Vec<char>)
    ensures
        r@ == key_line_spec(key@, value@),
{
    let mut out = chars_of(key);
    extend_str(&mut out, " = \"");
    let e = escape_toml_string(value);
    extend(&mut out, &e);
    extend_str(&mut out, "\"");
    out
}

pub open spec fn ends_nl(out: Seq<char>) -> bool {
    out.len() > 0 && out.last() == '\n'
}

pub open spec fn nl_unless_ended(out: Seq<char>) -> Seq<char> {
    if ends_nl(out) {
        out
    } else {
        out.push('\n')
    }
}

/// Appends the `[models]` keys that were not written yet.
pub open spec fn missing_keys(
    out: Seq<char>,
    model: Seq<char>,
    effort: Seq<char>,
    wrote_default: bool,
    wrote_effort: bool,
) -> Seq<char> {
    let a = if !wrote_default {
        nl_unless_ended(out) + key_line_spec("default"@, model) + seq!['\n']
    } else {
        out
    };
    if effort.len() > 0 && !wrote_effort {
        nl_unless_ended(a) + key_line_spec("default_reasoning_effort"@, effort) + seq!['\n']
    } else {
        a
    }
}

/// Merge state after some lines: output so far, whether inside `[models]`,
/// whether `[models]` was seen, whether each key was written, and whether a
/// newline is owed before the next line.
pub struct MergeState {
    pub out: Seq<char>,
    pub in_models: bool,
    pub seen_models: bool,
    pub wrote_default: bool,
    pub wrote_effort: bool,
    pub pending_nl: bool,
}

pub open spec fn merge_step(st: MergeState, line: Seq<char>, model: Seq<char>, effort: Seq<char>) -> MergeState {
    let out0 = if st.pending_nl {
        st.out.push('\n')
    } else {
        st.out
    };
    let t = trim(line);
    if is_table_header_spec(t) {
        let out1 = if st.in_models {
            missing_keys(out0, model, effort, st.wrote_default, st.wrote_effort)
        } else {
            out0
        };
        let wd = if st.in_models { true } else { st.wrote_default };
        let we = if st.in_models { true } else { st.wrote_effort };
        let now_in = t == "[models]"@;
        MergeState {
            out: out1 + line,
            in_models: now_in,
            seen_models: if now_in { true } else { st.seen_models },
            wrote_default: if now_in { false } else { wd },
            wrote_effort: if now_in { false } else { we },
            pending_nl: true,
        }
    } else if st.in_models && line_key_spec(t) == Some("default"@) {
        MergeState {
            out: out0 + key_line_spec("default"@, model),
            wrote_default: true,
            pending_nl: true,
            ..st
        }
    } else if st.in_models && line_key_spec(t) == Some("default_reasoning_effort"@) {
        if effort.len() == 0 {
            MergeState { out: out0 + line, pending_nl: true, ..st }
        } else {
            MergeState {
                out: out0 + key_line_spec("default_reasoning_effort"@, effort),
                wrote_effort: true,
                pending_nl: true,
                ..st
            }
        }
    } else {
        MergeState { out: out0 + line, pending_nl: true, ..st }
    }
}

pub open spec fn merge_fold(ls: Seq<Seq<char>>, model: Seq<char>, effort: Seq<char>) -> MergeState
    decreases ls.len(),
{
    if ls.len() == 0 {
        MergeState {
            out: Seq::empty(),
            in_models: false,
            seen_models: false,
            wrote_default: false,
            wrote_effort: false,
            pending_nl: false,
        }
    } else {
        merge_step(merge_fold(ls.drop_last(), model, effort), ls.last(), model, effort)
    }
}

pub open spec fn merge_finish(st: MergeState, src: Seq<char>, model: Seq<char>, effort: Seq<char>) -> Seq<char> {
    let a = if st.in_models {
        let o = if st.out.len() > 0 && !ends_nl(st.out) {
            st.out.push('\n')
        } else {
            st.out
        };
        missing_keys(o, model, effort, st.wrote_default, st.wrote_effort)
    } else if !st.seen_models {
        let o1 = if st.out.len() > 0 && !ends_nl(st.out) {
            st.out.push('\n')
        } else {
            st.out
        };
        let o2 = if o1.len() > 0 {
            o1.push('\n')
        } else {
            o1
        };
        let o3 = o2 + "[models]\n"@ + key_line_spec("default"@, model) + seq!['\n'];
        if effort.len() > 0 {
            o3 + key_line_spec("default_reasoning_effort"@, effort) + seq!['\n']
        } else {
            o3
        }
    } else {
        st.out
    };
    if ends_nl(src) && !ends_nl(a) {
        a.push('\n')
    } else {
        a
    }
}

/// What `merge_models_section` gives.
pub open spec fn merge_models_spec(src: Seq<char>, model: Seq<char>, effort: Seq<char>) -> Seq<char> {
    if model.len() == 0 {
        src
    } else {
        merge_finish(merge_fold(lines(src), model, effort), src, model, effort)
    }
}

struct MergeBuf {
    out: Vec<char>,
    in_models: bool,
    seen_models: bool,
    wrote_default: bool,
    wrote_effort: bool,
    pending_nl: bool,
}

impl MergeBuf {
    spec fn state(&self) -> MergeState {
        MergeState {
            out: self.out@,
            in_models: self.in_models,
            seen_models: self.seen_models,
            wrote_default: self.wrote_default,
            wrote_effort: self.wrote_effort,
            pending_nl: self.pending_nl,
        }
    }
}

fn ends_with_nl(out: &Vec<char>) -> (r: bool)
    ensures
        r == ends_nl(out@),
{
    out.len() > 0 && out[out.len() - 1] == '\n'
}

fn push_nl_unless_ended(out: &mut Vec<char>)
    ensures
        final(out)@ == nl_unless_ended(old(out)@),
{
    if !ends_with_nl(out) {
        out.push('\n');
    }
}

fn write_missing_keys(
    out: &mut Vec<char>,
    model: &[char],
    effort: &[char],
    wrote_default: bool,
    wrote_effort: bool,
)
    ensures
        final(out)@ == missing_keys(old(out)@, model@, effort@, wrote_default, wrote_effort),
{
    if !wrote_default {
        push_nl_unless_ended(out);
        let k = key_line("default", model);
        extend(out, &k);
        out.push('\n');
    }
    if effort.len() > 0 && !wrote_effort {
        push_nl_unless_ended(out);
        let k = key_line("default_reasoning_effort", effort);
        extend(out, &k);
        out.push('\n');
    }
}

fn merge_line(buf: &mut MergeBuf, line: &[char], model: &[char], effort: &[char])
    ensures
        final(buf).state() == merge_step(old(buf).state(), line@, model@, effort@),
{
    if buf.pending_nl {
        buf.out.push('\n');
    }
    buf.pending_nl = true;
    let t = trim_chars(line);
    if is_table_header(&t) {
        if buf.in_models {
            write_missing_keys(&mut buf.out, model, effort, buf.wrote_default, buf.wrote_effort);
            buf.wrote_default = true;
            buf.wrote_effort = true;
        }
        buf.in_models = eq_str(&t, "[models]");
        if buf.in_models {
            buf.seen_models = true;
            buf.wrote_default = false;
            buf.wrote_effort = false;
        }
        extend(&mut buf.out, line);
        return ;
    }
    if buf.in_models {
        match line_key(&t) {
            Some(k) => {
                if eq_str(&k, "default") {
                    let kl = key_line("default", model);
                    extend(&mut buf.out, &kl);
                    buf.wrote_default = true;
                    return ;
                }
                if eq_str(&k, "default_reasoning_effort") {
                    if effort.len() == 0 {
                        extend(&mut buf.out, line);
                    } else {
                        let kl = key_line("default_reasoning_effort", effort);
                        extend(&mut buf.out, &kl);
                        buf.wrote_effort = true;
                    }
                    return ;
                }
            },
            None => {},
        }
    }
    extend(&mut buf.out, line);
}

/// Rewrite only `[models] default` and `default_reasoning_effort` in a TOML
/// document.
pub fn merge_models_section(src: &str, model: &str, effort: &str) -> (r: String)
    ensures
        r@ == merge_models_spec(src@, model@, effort@),
{
    let sv = chars_of(src);
    let mv = chars_of(model);
    let ev = chars_of(effort);
    if mv.len() == 0 {
        return string_of(&sv);
    }
    let ls = lines_of(&sv);
    let mut buf = MergeBuf {
        out: Vec::new(),
        in_models: false,
        seen_models: false,
        wrote_default: false,
        wrote_effort: false,
        pending_nl: false,
    };
    let mut i: usize = 0;
    proof {
        assert(views(ls@).take(0) =~= Seq::<Seq<char>>::empty());
        assert(buf.state() == merge_fold(views(ls@).take(0), mv@, ev@));
    }
    while i < ls.len()
        invariant
            i <= ls.len(),
            buf.state() == merge_fold(views(ls@).take(i as int), mv@, ev@),
        decreases ls.len() - i,
    {
        merge_line(&mut buf, &ls[i], &mv, &ev);
        proof {
            let t = views(ls@).take(i + 1);
            assert(t.drop_last() == views(ls@).take(i as int));
            assert(t.last() == ls@[i as int]@);
        }
        i += 1;
    }
    proof {
        assert(views(ls@).take(ls.len() as int) == views(ls@));
    }
    let st = Ghost(buf.state());
    if buf.in_models {
        if buf.out.len() > 0 && !ends_with_nl(&buf.out) {
            buf.out.push('\n');
        }
        write_missing_keys(&mut buf.out, &mv, &ev, buf.wrote_default, buf.wrote_effort);
    } else if !buf.seen_models {
        if buf.out.len() > 0 && !ends_with_nl(&buf.out) {
            buf.out.push('\n');
        }
        if buf.out.len() > 0 {
            buf.out.push('\n');
        }
        extend_str(&mut buf.out, "[models]\n");
        let kl = key_line("default", &mv);
        extend(&mut buf.out, &kl);
        buf.out.push('\n');
        if ev.len() > 0 {
            let kl2 = key_line("default_reasoning_effort", &ev);
            extend(&mut buf.out, &kl2);
            buf.out.push('\n');
        }
    }
    if ends_with_nl(&sv) && !ends_with_nl(&buf.out) {
        buf.out.push('\n');
    }
    string_of(&buf.out)
}

/// What `remember_model_choice` records in ggok's `last_model.json`: nothing
/// for an empty model, otherwise the pair as given.
pub fn remember_model_choice(model: &str, effort: &str) -> (r: Option<LastModel>)
    ensures
        model@.len() == 0 <==> r is None,
        r matches Some(l) ==> l.model@ == model@ && l.effort@ == effort@,
{
    let mv = chars_of(model);
    if mv.len() == 0 {
        return None;
    }
    let ev = chars_of(effort);
    Some(LastModel { model: string_of(&mv), effort: string_of(&ev) })
}

/// The new text of grok's `config.toml` when it has to be written: `None` when
/// the model is empty or the merge leaves the document as it was.
pub fn models_config_update(src: &str, model: &str, effort: &str) -> (r: Option<String>)
    ensures
        r is None <==> (model@.len() == 0 || merge_models_spec(src@, model@, effort@) == src@),
        r matches Some(t) ==> t@ == merge_models_spec(src@, model@, effort@),
{
    if model.unicode_len() == 0 {
        return None;
    }
    let next = merge_models_section(src, model, effort);
    let a = chars_of(&next);
    let b = chars_of(src);
    if crate::text::eq_chars(&a, &b) {
        None
    } else {
        Some(next)
    }
}

/// With no model to record, the document is returned unchanged.
pub proof fn law_merge_without_model_is_identity(src: Seq<char>, effort: Seq<char>)
    ensures
        merge_models_spec(src, Seq::empty(), effort) == src,
{
}

/// `a` is a prefix of `b`.
pub open spec fn prefix_of(a: Seq<char>, b: Seq<char>) -> bool {
    a.len() <= b.len() && b.take(a.len() as int) == a
}

/// What a merge step writes before the line itself: the owed newline and,
/// at a table header that closes a `[models]` table, its missing keys.
pub open spec fn step_prefix(st: MergeState, line: Seq<char>, model: Seq<char>, effort: Seq<char>) -> Seq<char> {
    let out0 = if st.pending_nl {
        st.out.push('\n')
    } else {
        st.out
    };
    if is_table_header_spec(trim(line)) && st.in_models {
        missing_keys(out0, model, effort, st.wrote_default, st.wrote_effort)
    } else {
        out0
    }
}

/// A line a merge writes as it is: anything but a `default` line (or,
/// with an effort to record, a `default_reasoning_effort` line) inside a
/// `[models]` table.
pub open spec fn line_kept(st: MergeState, line: Seq<char>, effort: Seq<char>) -> bool {
    let t = trim(line);
    is_table_header_spec(t) || !(st.in_models && (line_key_spec(t) == Some("default"@) || (line_key_spec(t)
        == Some("default_reasoning_effort"@) && effort.len() > 0)))
}

/// Where the `i`-th line of `src` is written in the merged document.
pub open spec fn line_pos(src: Seq<char>, model: Seq<char>, effort: Seq<char>, i: int) -> int {
    step_prefix(merge_fold(lines(src).take(i), model, effort), lines(src)[i], model, effort).len() as int
}

proof fn lemma_prefix_trans(a: Seq<char>, b: Seq<char>, c: Seq<char>)
    requires
        prefix_of(a, b),
        prefix_of(b, c),
    ensures
        prefix_of(a, c),
{
    assert(c.take(a.len() as int) =~= c.take(b.len() as int).take(a.len() as int));
}

proof fn lemma_prefix_refl(a: Seq<char>)
    ensures
        prefix_of(a, a),
{
    assert(a.take(a.len() as int) =~= a);
}

proof fn lemma_prefix_append(a: Seq<char>, b: Seq<char>)
    ensures
        prefix_of(a, a + b),
{
    assert((a + b).take(a.len() as int) =~= a);
}

proof fn lemma_missing_keys_extends(out: Seq<char>, model: Seq<char>, effort: Seq<char>, wd: bool, we: bool)
    ensures
        prefix_of(out, missing_keys(out, model, effort, wd, we)),
{
    let n1 = nl_unless_ended(out);
    lemma_prefix_refl(out);
    lemma_prefix_append(out, seq!['\n']);
    assert(out.push('\n') =~= out + seq!['\n']);
    let a = if !wd {
        n1 + key_line_spec("default"@, model) + seq!['\n']
    } else {
        out
    };
    if !wd {
        lemma_prefix_append(n1, key_line_spec("default"@, model) + seq!['\n']);
        assert(n1 + key_line_spec("default"@, model) + seq!['\n'] =~= n1 + (key_line_spec(
            "default"@,
            model,
        ) + seq!['\n']));
        lemma_prefix_trans(out, n1, a);
    }
    if effort.len() > 0 && !we {
        let n2 = nl_unless_ended(a);
        lemma_prefix_refl(a);
        lemma_prefix_append(a, seq!['\n']);
        assert(a.push('\n') =~= a + seq!['\n']);
        lemma_prefix_append(n2, key_line_spec("default_reasoning_effort"@, effort) + seq!['\n']);
        assert(n2 + key_line_spec("default_reasoning_effort"@, effort) + seq!['\n'] =~= n2 + (
        key_line_spec("default_reasoning_effort"@, effort) + seq!['\n']));
        lemma_prefix_trans(a, n2, missing_keys(out, model, effort, wd, we));
        lemma_prefix_trans(out, a, missing_keys(out, model, effort, wd, we));
    }
}

proof fn lemma_step_extends(st: MergeState, line: Seq<char>, model: Seq<char>, effort: Seq<char>)
    ensures
        prefix_of(st.out, step_prefix(st, line, model, effort)),
        prefix_of(step_prefix(st, line, model, effort), merge_step(st, line, model, effort).out),
        st.pending_nl ==> step_prefix(st, line, model, effort).len() > st.out.len(),
        line_kept(st, line, effort) ==> merge_step(st, line, model, effort).out == step_prefix(
            st,
            line,
            model,
            effort,
        ) + line,
        merge_step(st, line, model, effort).pending_nl,
{
    let out0 = if st.pending_nl {
        st.out.push('\n')
    } else {
        st.out
    };
    lemma_prefix_refl(st.out);
    lemma_prefix_append(st.out, seq!['\n']);
    assert(st.out.push('\n') =~= st.out + seq!['\n']);
    let p = step_prefix(st, line, model, effort);
    if is_table_header_spec(trim(line)) && st.in_models {
        lemma_missing_keys_extends(out0, model, effort, st.wrote_default, st.wrote_effort);
        lemma_prefix_trans(st.out, out0, p);
    }
    let t = trim(line);
    if is_table_header_spec(t) {
        lemma_prefix_append(p, line);
    } else if st.in_models && line_key_spec(t) == Some("default"@) {
        lemma_prefix_append(p, key_line_spec("default"@, model));
    } else if st.in_models && line_key_spec(t) == Some("default_reasoning_effort"@) && effort.len() > 0 {
        lemma_prefix_append(p, key_line_spec("default_reasoning_effort"@, effort));
    } else {
        lemma_prefix_append(p, line);
    }
}

proof fn lemma_fold_prefix(ls: Seq<Seq<char>>, k: int, model: Seq<char>, effort: Seq<char>)
    requires
        0 <= k <= ls.len(),
    ensures
        prefix_of(merge_fold(ls.take(k), model, effort).out, merge_fold(ls, model, effort).out),
    decreases ls.len(),
{
    if k == ls.len() {
        assert(ls.take(k) =~= ls);
        assert(merge_fold(ls, model, effort).out.take(merge_fold(ls, model, effort).out.len() as int)
            =~= merge_fold(ls, model, effort).out);
    } else {
        let d = ls.drop_last();
        assert(d.take(k) =~= ls.take(k));
        lemma_fold_prefix(d, k, model, effort);
        lemma_step_extends(merge_fold(d, model, effort), ls.last(), model, effort);
        lemma_prefix_trans(
            merge_fold(d, model, effort).out,
            step_prefix(merge_fold(d, model, effort), ls.last(), model, effort),
            merge_fold(ls, model, effort).out,
        );
        lemma_prefix_trans(
            merge_fold(ls.take(k), model, effort).out,
            merge_fold(d, model, effort).out,
            merge_fold(ls, model, effort).out,
        );
    }
}

proof fn lemma_finish_extends(st: MergeState, src: Seq<char>, model: Seq<char>, effort: Seq<char>)
    ensures
        prefix_of(st.out, merge_finish(st, src, model, effort)),
{
    let o = if st.out.len() > 0 && !ends_nl(st.out) {
        st.out.push('\n')
    } else {
        st.out
    };
    lemma_prefix_append(st.out, seq!['\n']);
    assert(st.out.push('\n') =~= st.out + seq!['\n']);
    assert(prefix_of(st.out, o)) by {
        if !(st.out.len() > 0 && !ends_nl(st.out)) {
            assert(st.out.take(st.out.len() as int) =~= st.out);
        }
    }
    let a = if st.in_models {
        missing_keys(o, model, effort, st.wrote_default, st.wrote_effort)
    } else if !st.seen_models {
        let o2 = if o.len() > 0 {
            o.push('\n')
        } else {
            o
        };
        let o3 = o2 + "[models]\n"@ + key_line_spec("default"@, model) + seq!['\n'];
        if effort.len() > 0 {
            o3 + key_line_spec("default_reasoning_effort"@, effort) + seq!['\n']
        } else {
            o3
        }
    } else {
        st.out
    };
    if st.in_models {
        lemma_missing_keys_extends(o, model, effort, st.wrote_default, st.wrote_effort);
        lemma_prefix_trans(st.out, o, a);
    } else if !st.seen_models {
        let o2 = if o.len() > 0 {
            o.push('\n')
        } else {
            o
        };
        lemma_prefix_append(o, seq!['\n']);
        assert(o.push('\n') =~= o + seq!['\n']);
        assert(prefix_of(o, o2)) by {
            if o.len() == 0 {
                assert(o2.take(0) =~= o);
            }
        }
        let tail1 = "[models]\n"@ + key_line_spec("default"@, model) + seq!['\n'];
        let o3 = o2 + "[models]\n"@ + key_line_spec("default"@, model) + seq!['\n'];
        assert(o3 =~= o2 + tail1);
        lemma_prefix_append(o2, tail1);
        lemma_prefix_trans(o, o2, o3);
        if effort.len() > 0 {
            let tail2 = key_line_spec("default_reasoning_effort"@, effort) + seq!['\n'];
            assert(a =~= o3 + tail2);
            lemma_prefix_append(o3, tail2);
            lemma_prefix_trans(o, o3, a);
        }
        lemma_prefix_trans(st.out, o, a);
    } else {
        assert(a.take(a.len() as int) =~= a);
    }
    let r = merge_finish(st, src, model, effort);
    lemma_prefix_append(a, seq!['\n']);
    assert(a.push('\n') =~= a + seq!['\n']);
    if r == a {
        assert(r.take(a.len() as int) =~= a);
    } else {
        lemma_prefix_trans(st.out, a, r);
    }
}

proof fn lemma_fold_len_mono(ls: Seq<Seq<char>>, k: int, j: int, model: Seq<char>, effort: Seq<char>)
    requires
        0 <= k <= j <= ls.len(),
    ensures
        merge_fold(ls.take(k), model, effort).out.len() <= merge_fold(ls.take(j), model, effort).out.len(),
{
    assert(ls.take(j).take(k) =~= ls.take(k));
    lemma_fold_prefix(ls.take(j), k, model, effort);
}

/// Merging the model into a document writes every line it does not
/// replace (all but the `default` lines, and with an effort to record the
/// `default_reasoning_effort` lines, of `[models]` tables) unchanged, at
/// [`line_pos`].
pub proof fn law_merge_keeps_other_lines(src: Seq<char>, model: Seq<char>, effort: Seq<char>, i: int)
    requires
        model.len() > 0,
        0 <= i < lines(src).len(),
        line_kept(merge_fold(lines(src).take(i), model, effort), lines(src)[i], effort),
    ensures
        ({
            let r = merge_models_spec(src, model, effort);
            let p = line_pos(src, model, effort, i);
            &&& 0 <= p
            &&& p + lines(src)[i].len() <= r.len()
            &&& r.subrange(p, p + lines(src)[i].len()) == lines(src)[i]
        }),
{
    let ls = lines(src);
    let st = merge_fold(ls.take(i), model, effort);
    let line = ls[i];
    assert(ls.take(i + 1).drop_last() =~= ls.take(i));
    assert(ls.take(i + 1).last() == line);
    lemma_step_extends(st, line, model, effort);
    let after = merge_fold(ls.take(i + 1), model, effort).out;
    let pre = step_prefix(st, line, model, effort);
    assert(after == pre + line);
    lemma_fold_prefix(ls, i + 1, model, effort);
    let fin = merge_fold(ls, model, effort);
    lemma_finish_extends(fin, src, model, effort);
    let r = merge_models_spec(src, model, effort);
    lemma_prefix_trans(after, fin.out, r);
    assert(r.subrange(pre.len() as int, (pre.len() + line.len()) as int) =~= after.subrange(
        pre.len() as int,
        (pre.len() + line.len()) as int,
    ));
    assert(after.subrange(pre.len() as int, (pre.len() + line.len()) as int) =~= line);
}

/// The lines a merge writes unchanged keep their order: a later line of
/// `src` is written after an earlier one ends.
pub proof fn law_merge_keeps_line_order(src: Seq<char>, model: Seq<char>, effort: Seq<char>, i: int, j: int)
    requires
        model.len() > 0,
        0 <= i < j < lines(src).len(),
        line_kept(merge_fold(lines(src).take(i), model, effort), lines(src)[i], effort),
    ensures
        line_pos(src, model, effort, i) + lines(src)[i].len() < line_pos(src, model, effort, j),
{
    let ls = lines(src);
    let st = merge_fold(ls.take(i), model, effort);
    assert(ls.take(i + 1).drop_last() =~= ls.take(i));
    assert(ls.take(i + 1).last() == ls[i]);
    lemma_step_extends(st, ls[i], model, effort);
    let stj = merge_fold(ls.take(j), model, effort);
    lemma_fold_len_mono(ls, i + 1, j, model, effort);
    assert(j >= 1);
    assert(ls.take(j).drop_last() =~= ls.take(j - 1));
    assert(stj.pending_nl) by {
        lemma_step_extends(merge_fold(ls.take(j - 1), model, effort), ls.take(j).last(), model, effort);
    }
    lemma_step_extends(stj, ls[j], model, effort);
}

proof fn lemma_contains_extends(a: Seq<char>, b: Seq<char>, x: Seq<char>)
    requires
        crate::text::contains(a, x),
        prefix_of(a, b),
    ensures
        crate::text::contains(b, x),
{
    let i = choose|i: int| crate::text::match_at(a, x, i);
    assert(b.take(a.len() as int) == a);
    assert(b.subrange(i, i + x.len()) =~= a.subrange(i, i + x.len())) by {
        assert forall|k: int| 0 <= k < x.len() implies #[trigger] b.subrange(i, i + x.len())[k]
            == a.subrange(i, i + x.len())[k] by {
            assert(b.take(a.len() as int)[i + k] == b[i + k]);
        }
    }
    assert(crate::text::match_at(b, x, i));
}

proof fn lemma_contains_middle(p: Seq<char>, x: Seq<char>, q: Seq<char>)
    ensures
        crate::text::contains(p + x + q, x),
{
    assert((p + x + q).subrange(p.len() as int, (p.len() + x.len()) as int) =~= x);
    assert(crate::text::match_at(p + x + q, x, p.len() as int));
}

/// The line recording the model.
pub open spec fn default_line(model: Seq<char>) -> Seq<char> {
    key_line_spec("default"@, model)
}

/// After some lines: every `[models]` table seen so far holds the model's
/// line, except the open one where it is not written yet.
pub open spec fn default_recorded(st: MergeState, model: Seq<char>) -> bool {
    &&& st.in_models ==> st.seen_models
    &&& (st.seen_models && !(st.in_models && !st.wrote_default)) ==> crate::text::contains(
        st.out,
        default_line(model),
    )
}

proof fn lemma_missing_default(out: Seq<char>, model: Seq<char>, effort: Seq<char>, we: bool)
    ensures
        crate::text::contains(missing_keys(out, model, effort, false, we), default_line(model)),
{
    let n1 = nl_unless_ended(out);
    let a = n1 + default_line(model) + seq!['\n'];
    lemma_contains_middle(n1, default_line(model), seq!['\n']);
    lemma_missing_keys_extends(a, model, effort, true, we);
    lemma_contains_extends(a, missing_keys(a, model, effort, true, we), default_line(model));
    assert(missing_keys(out, model, effort, false, we) == missing_keys(a, model, effort, true, we));
}

proof fn lemma_fold_records_default(ls: Seq<Seq<char>>, model: Seq<char>, effort: Seq<char>)
    ensures
        default_recorded(merge_fold(ls, model, effort), model),
    decreases ls.len(),
{
    if ls.len() == 0 {
        return;
    }
    let d = ls.drop_last();
    lemma_fold_records_default(d, model, effort);
    let st = merge_fold(d, model, effort);
    let line = ls.last();
    let nx = merge_fold(ls, model, effort);
    lemma_step_extends(st, line, model, effort);
    let pre = step_prefix(st, line, model, effort);
    lemma_prefix_trans(st.out, pre, nx.out);
    let t = trim(line);
    let kl = default_line(model);
    if is_table_header_spec(t) {
        if st.in_models && !st.wrote_default {
            let out0 = if st.pending_nl {
                st.out.push('\n')
            } else {
                st.out
            };
            lemma_missing_default(out0, model, effort, st.wrote_effort);
            lemma_contains_extends(pre, nx.out, kl);
        } else if st.seen_models {
            lemma_contains_extends(st.out, nx.out, kl);
        }
    } else if st.in_models && line_key_spec(t) == Some("default"@) {
        let out0 = if st.pending_nl {
            st.out.push('\n')
        } else {
            st.out
        };
        assert(nx.out == out0 + kl);
        lemma_contains_middle(out0, kl, Seq::empty());
        assert(out0 + kl + Seq::<char>::empty() =~= out0 + kl);
    } else {
        if st.seen_models && !(st.in_models && !st.wrote_default) {
            lemma_contains_extends(st.out, nx.out, kl);
        }
    }
}

/// With a model to record, the merged document holds its line
/// `default = "<model>"` (the model escaped for TOML).
pub proof fn law_merge_records_model(src: Seq<char>, model: Seq<char>, effort: Seq<char>)
    requires
        model.len() > 0,
    ensures
        crate::text::contains(merge_models_spec(src, model, effort), default_line(model)),
{
    let ls = lines(src);
    let st = merge_fold(ls, model, effort);
    lemma_fold_records_default(ls, model, effort);
    lemma_finish_extends(st, src, model, effort);
    let r = merge_models_spec(src, model, effort);
    let kl = default_line(model);
    let o = if st.out.len() > 0 && !ends_nl(st.out) {
        st.out.push('\n')
    } else {
        st.out
    };
    let a = if st.in_models {
        missing_keys(o, model, effort, st.wrote_default, st.wrote_effort)
    } else if !st.seen_models {
        let o2 = if o.len() > 0 {
            o.push('\n')
        } else {
            o
        };
        let o3 = o2 + "[models]\n"@ + kl + seq!['\n'];
        if effort.len() > 0 {
            o3 + key_line_spec("default_reasoning_effort"@, effort) + seq!['\n']
        } else {
            o3
        }
    } else {
        st.out
    };
    assert(prefix_of(a, r)) by {
        lemma_prefix_append(a, seq!['\n']);
        assert(a.push('\n') =~= a + seq!['\n']);
        lemma_prefix_refl(a);
    }
    if st.in_models && !st.wrote_default {
        lemma_missing_default(o, model, effort, st.wrote_effort);
        lemma_contains_extends(a, r, kl);
    } else if !st.seen_models {
        let o2 = if o.len() > 0 {
            o.push('\n')
        } else {
            o
        };
        let o3 = o2 + "[models]\n"@ + kl + seq!['\n'];
        lemma_contains_middle(o2 + "[models]\n"@, kl, seq!['\n']);
        if effort.len() > 0 {
            lemma_prefix_append(o3, key_line_spec("default_reasoning_effort"@, effort) + seq!['\n']);
            assert(o3 + key_line_spec("default_reasoning_effort"@, effort) + seq!['\n'] =~= o3 + (
            key_line_spec("default_reasoning_effort"@, effort) + seq!['\n']));
            lemma_contains_extends(o3, a, kl);
        }
        lemma_contains_extends(a, r, kl);
    } else {
        lemma_contains_extends(st.out, r, kl);
    }
}

proof fn lemma_split_text(s: Seq<char>, t: Seq<char>)
    requires
        !t.contains('\n'),
    ensures
        split(s + t, '\n') == split(s, '\n').update(
            split(s, '\n').len() - 1,
            split(s, '\n').last() + t,
        ),
        split(s + t, '\n').len() == split(s, '\n').len(),
    decreases t.len(),
{
    crate::pathx::lemma_split_nonempty(s, '\n');
    if t.len() == 0 {
        assert(s + t =~= s);
        assert(split(s, '\n').last() + t =~= split(s, '\n').last());
        assert(split(s, '\n').update(split(s, '\n').len() - 1, split(s, '\n').last()) =~= split(
            s,
            '\n',
        ));
    } else {
        let d = t.drop_last();
        assert(!d.contains('\n')) by {
            if d.contains('\n') {
                let k = choose|k: int| 0 <= k < d.len() && d[k] == '\n';
                assert(t[k] == '\n');
            }
        }
        lemma_split_text(s, d);
        assert(t.last() != '\n') by {
            assert(t[t.len() - 1] == t.last());
        }
        assert((s + t).drop_last() =~= s + d);
        assert((s + t).last() == t.last());
        let p = split(s + d, '\n');
        let q = split(s, '\n');
        assert(p.len() == q.len());
        assert(p.last() == q.last() + d);
        assert(split(s + t, '\n') == p.update(p.len() - 1, p.last().push(t.last())));
        assert((q.last() + d).push(t.last()) =~= q.last() + t);
        assert(p.update(p.len() - 1, p.last().push(t.last())) =~= q.update(q.len() - 1, q.last() + t));
        assert(split(s, '\n').last() + d + seq![t.last()] =~= split(s, '\n').last() + t);
        assert(split(s + t, '\n') =~= split(s, '\n').update(
            split(s, '\n').len() - 1,
            split(s, '\n').last() + t,
        ));
    }
}

proof fn lemma_split_nl(s: Seq<char>)
    ensures
        split(s.push('\n'), '\n') == split(s, '\n').push(Seq::empty()),
{
    assert(s.push('\n').drop_last() =~= s);
}

/// A newline, then a line, adds the line to the split.
proof fn lemma_split_line(s: Seq<char>, t: Seq<char>)
    requires
        !t.contains('\n'),
    ensures
        split(s.push('\n') + t, '\n') == split(s, '\n').push(t),
{
    lemma_split_nl(s);
    lemma_split_text(s.push('\n'), t);
    let q = split(s, '\n').push(Seq::empty());
    assert(Seq::<char>::empty() + t =~= t);
    assert(q.update(q.len() - 1, q.last() + t) =~= split(s, '\n').push(t));
}

proof fn lemma_split_ends_nl(s: Seq<char>)
    requires
        s.len() > 0,
        s.last() == '\n',
    ensures
        split(s, '\n').len() >= 2,
        split(s, '\n').last() == Seq::<char>::empty(),
        split(s, '\n').drop_last() == split(s.drop_last(), '\n'),
{
    crate::pathx::lemma_split_nonempty(s.drop_last(), '\n');
    assert(split(s, '\n') == split(s.drop_last(), '\n').push(Seq::empty()));
    assert(split(s, '\n').drop_last() =~= split(s.drop_last(), '\n'));
}

proof fn lemma_no_nl_concat(a: Seq<char>, b: Seq<char>)
    requires
        !a.contains('\n'),
        !b.contains('\n'),
    ensures
        !(a + b).contains('\n'),
{
    lemma_no_char_concat(a, b, '\n');
}

proof fn lemma_no_char_concat(a: Seq<char>, b: Seq<char>, c: char)
    requires
        !a.contains(c),
        !b.contains(c),
    ensures
        !(a + b).contains(c),
{
    if (a + b).contains(c) {
        let k = choose|k: int| 0 <= k < (a + b).len() && (a + b)[k] == c;
        if k < a.len() {
            assert(a[k] == c);
        } else {
            assert(b[k - a.len()] == c);
        }
    }
}

proof fn lemma_escape_no(v: Seq<char>, c: char)
    requires
        !v.contains(c),
        c != '\\',
        c != '"',
    ensures
        !escape_toml(v).contains(c),
    decreases v.len(),
{
    if v.len() > 0 {
        let d = v.drop_last();
        assert(!d.contains(c)) by {
            if d.contains(c) {
                let k = choose|k: int| 0 <= k < d.len() && d[k] == c;
                assert(v[k] == c);
            }
        }
        lemma_escape_no(d, c);
        let x = v.last();
        assert(x == v[v.len() - 1]);
        let tail: Seq<char> = if x == '\\' {
            seq!['\\', '\\']
        } else if x == '"' {
            seq!['\\', '"']
        } else {
            seq![x]
        };
        assert(!tail.contains(c)) by {
            if tail.contains(c) {
                let k = choose|k: int| 0 <= k < tail.len() && tail[k] == c;
            }
        }
        if (escape_toml(d) + tail).contains(c) {
            let k = choose|k: int| 0 <= k < (escape_toml(d) + tail).len() && (escape_toml(d) + tail)[k] == c;
            if k < escape_toml(d).len() {
                assert(escape_toml(d)[k] == c);
            } else {
                assert(tail[k - escape_toml(d).len()] == c);
            }
        }
    }
}

proof fn lemma_trim_fixed(s: Seq<char>)
    requires
        s.len() > 0,
        !crate::text::is_ws(s[0]),
        !crate::text::is_ws(s.last()),
    ensures
        trim(s) == s,
{
    assert(crate::text::trim_start(s) == s);
}

proof fn lemma_fpos_at(s: Seq<char>, c: char, j: int)
    requires
        0 <= j < s.len(),
        s[j] == c,
        forall|i: int| 0 <= i < j ==> s[i] != c,
    ensures
        fpos(s, c) == Some(j),
{
    crate::text::lemma_fpos_none(s, c);
    assert(s.contains(c));
    let i = fpos(s, c)->Some_0;
    if i < j {
        assert(s[i] != c);
    }
    if i > j {
        assert(s[j] != c);
    }
}

/// What the merge reads of a key line it wrote: the same trimmed text, no
/// table header, its key.
proof fn lemma_key_line_reads(key: Seq<char>, v: Seq<char>)
    requires
        key == "default"@ || key == "default_reasoning_effort"@,
        !v.contains('\n'),
        !v.contains('\r'),
    ensures
        !key_line_spec(key, v).contains('\n'),
        !key_line_spec(key, v).contains('\r'),
        trim(key_line_spec(key, v)) == key_line_spec(key, v),
        !is_table_header_spec(key_line_spec(key, v)),
        line_key_spec(key_line_spec(key, v)) == Some(key),
{
    reveal_strlit("default");
    reveal_strlit("default_reasoning_effort");
    reveal_strlit(" = \"");
    reveal_strlit("\"");
    reveal_strlit("[");
    reveal_strlit("#");
    let k = key_line_spec(key, v);
    let e = escape_toml(v);
    let kn: int = key.len() as int;
    lemma_escape_no(v, '\n');
    lemma_escape_no(v, '\r');
    assert(k == key + " = \""@ + e + "\""@);
    let mid = " = \""@;
    assert(!key.contains('\n') && !key.contains('\r')) by {
        if key.contains('\n') || key.contains('\r') {
            let i = choose|i: int| 0 <= i < key.len() && (key[i] == '\n' || key[i] == '\r');
        }
    }
    assert(!mid.contains('\n') && !mid.contains('\r')) by {
        if mid.contains('\n') || mid.contains('\r') {
            let i = choose|i: int| 0 <= i < mid.len() && (mid[i] == '\n' || mid[i] == '\r');
        }
    }
    assert(!"\""@.contains('\n') && !"\""@.contains('\r')) by {
        if "\""@.contains('\n') || "\""@.contains('\r') {
            let i = choose|i: int| 0 <= i < "\""@.len() && ("\""@[i] == '\n' || "\""@[i] == '\r');
        }
    }
    lemma_no_nl_concat(key, mid);
    lemma_no_nl_concat(key + mid, e);
    lemma_no_nl_concat(key + mid + e, "\""@);
    assert(!(key + mid + e + "\""@).contains('\r')) by {
        if (key + mid + e + "\""@).contains('\r') {
            let i = choose|i: int| 0 <= i < k.len() && k[i] == '\r';
            if i < key.len() {
                assert(key[i] == '\r');
            } else if i < key.len() + 4 {
                assert(mid[i - key.len()] == '\r');
            } else if i < key.len() + 4 + e.len() {
                assert(e[i - key.len() - 4] == '\r');
            } else {
                assert("\""@[i - key.len() - 4 - e.len()] == '\r');
            }
        }
    }
    assert(k[0] == 'd');
    assert(k.last() == '"');
    lemma_trim_fixed(k);
    assert(!starts_with(k, "["@)) by {
        assert(k.take(1)[0] == 'd');
    }
    assert(!starts_with(k, "#"@)) by {
        assert(k.take(1)[0] == 'd');
    }
    assert(k[kn + 1] == '=');
    assert forall|i: int| 0 <= i < kn + 1 implies k[i] != '=' by {
        if i < key.len() {
            assert(k[i] == key[i]);
        } else {
            assert(k[i] == ' ');
        }
    }
    lemma_fpos_at(k, '=', kn + 1);
    let kt = k.take(kn + 1);
    assert(kt =~= key.push(' '));
    assert(crate::text::trim_start(kt) == kt);
    assert(kt.drop_last() =~= key);
    assert(crate::text::trim_end(key) == key) by {
        assert(key.last() == 't' || key.last() == 'e');
    }
}

/// The lines a merge has written so far.
pub open spec fn written_lines(st: MergeState) -> Seq<Seq<char>> {
    if st.pending_nl {
        split(st.out, '\n')
    } else {
        Seq::empty()
    }
}

/// Merging again the lines a merge wrote gives the same state.
pub open spec fn replays(st: MergeState, model: Seq<char>, effort: Seq<char>) -> bool {
    merge_fold(written_lines(st), model, effort) == st
}

proof fn lemma_fold_push(ls: Seq<Seq<char>>, w: Seq<char>, model: Seq<char>, effort: Seq<char>)
    ensures
        merge_fold(ls.push(w), model, effort) == merge_step(merge_fold(ls, model, effort), w, model, effort),
{
    assert(ls.push(w).drop_last() =~= ls);
}

/// A state that replays, given one more written line.
proof fn lemma_written_push(st: MergeState, w: Seq<char>, model: Seq<char>, effort: Seq<char>)
    requires
        replays(st, model, effort),
        !w.contains('\n'),
    ensures
        split((if st.pending_nl { st.out.push('\n') } else { st.out }) + w, '\n') == written_lines(st).push(w),
{
    if st.pending_nl {
        lemma_split_line(st.out, w);
    } else {
        assert(st.out == Seq::<char>::empty());
        lemma_split_text(Seq::<char>::empty(), w);
        assert(Seq::<char>::empty() + w =~= w);
        assert(split(Seq::<char>::empty(), '\n').update(0, Seq::<char>::empty() + w) =~= seq![w]);
        assert(written_lines(st).push(w) =~= seq![w]);
    }
}

pub open spec fn eff_line(effort: Seq<char>) -> Seq<char> {
    key_line_spec("default_reasoning_effort"@, effort)
}

proof fn lemma_step_replays(st: MergeState, x: Seq<char>, model: Seq<char>, effort: Seq<char>)
    requires
        replays(st, model, effort),
        !x.contains('\n'),
        !model.contains('\n'),
        !model.contains('\r'),
        !effort.contains('\n'),
        !effort.contains('\r'),
    ensures
        replays(merge_step(st, x, model, effort), model, effort),
        written_lines(merge_step(st, x, model, effort)).len() > 0,
        x.len() == 0 ==> written_lines(merge_step(st, x, model, effort)) == written_lines(st).push(x),
        x.len() > 0 ==> written_lines(merge_step(st, x, model, effort)).last().len() > 0,
        !st.out.contains('\r') && !x.contains('\r') ==> !merge_step(st, x, model, effort).out.contains(
            '\r',
        ),
{
    lemma_nl_no_cr();
    reveal_strlit("default");
    reveal_strlit("default_reasoning_effort");
    lemma_key_line_reads("default"@, model);
    lemma_key_line_reads("default_reasoning_effort"@, effort);
    let kl = default_line(model);
    let el = eff_line(effort);
    assert("default"@ != "default_reasoning_effort"@) by {
        assert("default"@.len() != "default_reasoning_effort"@.len());
    }
    let nx = merge_step(st, x, model, effort);
    let t = trim(x);
    let out0 = if st.pending_nl {
        st.out.push('\n')
    } else {
        st.out
    };
    let p = written_lines(st);
    if is_table_header_spec(t) && st.in_models {
        assert(st.pending_nl) by {
            if !st.pending_nl {
                assert(merge_fold(Seq::<Seq<char>>::empty(), model, effort) == st);
            }
        }
        // missing keys written as lines of their own, then the header
        let s1 = if !st.wrote_default {
            merge_step(st, kl, model, effort)
        } else {
            st
        };
        let p1 = if !st.wrote_default {
            p.push(kl)
        } else {
            p
        };
        lemma_written_push(st, kl, model, effort);
        lemma_fold_push(p, kl, model, effort);
        assert(merge_fold(p1, model, effort) == s1);
        assert(s1.pending_nl && s1.in_models && s1.wrote_default);
        assert(s1.wrote_effort == st.wrote_effort);
        let a = if !st.wrote_default {
            out0 + kl + seq!['\n']
        } else {
            out0
        };
        assert(nl_unless_ended(out0) == out0);
        assert(s1.out.push('\n') == a) by {
            if !st.wrote_default {
                assert(s1.out == out0 + kl);
                assert((out0 + kl).push('\n') =~= out0 + kl + seq!['\n']);
            } else {
                assert(s1.out.push('\n') == out0);
            }
        }
        assert(split(s1.out, '\n') == p1) by {
            if !st.wrote_default {
                assert(s1.out == out0 + kl);
            }
        }
        let need_e = effort.len() > 0 && !st.wrote_effort;
        let s2 = if need_e {
            merge_step(s1, el, model, effort)
        } else {
            s1
        };
        let p2 = if need_e {
            p1.push(el)
        } else {
            p1
        };
        lemma_written_push(s1, el, model, effort);
        lemma_fold_push(p1, el, model, effort);
        assert(merge_fold(p2, model, effort) == s2);
        let b = missing_keys(out0, model, effort, st.wrote_default, st.wrote_effort);
        assert(nl_unless_ended(a) == a) by {
            if !st.wrote_default {
                assert(a.last() == '\n');
            }
        }
        assert(s2.pending_nl && s2.in_models && s2.wrote_default && (effort.len() == 0 || s2.wrote_effort));
        assert(s2.out.push('\n') == b) by {
            if need_e {
                assert(s2.out == a + el);
                assert((a + el).push('\n') =~= a + el + seq!['\n']);
            }
        }
        assert(split(s2.out, '\n') == p2) by {
            if need_e {
                assert(s2.out == s1.out.push('\n') + el);
            }
        }
        lemma_written_push(s2, x, model, effort);
        lemma_fold_push(p2, x, model, effort);
        let s3 = merge_step(s2, x, model, effort);
        assert(missing_keys(s2.out.push('\n'), model, effort, s2.wrote_default, s2.wrote_effort) == s2.out.push(
            '\n',
        ));
        assert(s3.out == b + x);
        assert(nx.out == b + x);
        assert(s3 == nx);
        assert(written_lines(nx) == p2.push(x));
        assert(x.len() > 0) by {
            reveal_strlit("[");
            assert(starts_with(t, "["@));
            assert(t.len() > 0);
            if x.len() == 0 {
                assert(crate::text::trim_start(x) == x);
            }
        }
        if !st.out.contains('\r') && !x.contains('\r') {
            lemma_no_char_concat(st.out, seq!['\n'], '\r');
            assert(st.out.push('\n') =~= st.out + seq!['\n']);
            lemma_no_char_concat(out0, kl, '\r');
            lemma_no_char_concat(out0 + kl, seq!['\n'], '\r');
            lemma_no_char_concat(a, el, '\r');
            lemma_no_char_concat(a + el, seq!['\n'], '\r');
            assert(!b.contains('\r'));
            lemma_no_char_concat(b, x, '\r');
        }
    } else {
        let w = if is_table_header_spec(t) {
            x
        } else if st.in_models && line_key_spec(t) == Some("default"@) {
            kl
        } else if st.in_models && line_key_spec(t) == Some("default_reasoning_effort"@) && effort.len() > 0 {
            el
        } else {
            x
        };
        assert(!w.contains('\n'));
        assert(nx.out == out0 + w);
        lemma_written_push(st, w, model, effort);
        lemma_fold_push(p, w, model, effort);
        assert(merge_step(st, w, model, effort) == nx);
        assert(written_lines(nx) == p.push(w));
        if x.len() == 0 {
            assert(t == x);
            reveal_strlit("[");
            assert(!is_table_header_spec(t));
            assert(line_key_spec(t) is None);
            assert(w == x);
        }
        if x.len() > 0 {
            assert(kl.len() > 0 && el.len() > 0);
        }
        if !st.out.contains('\r') && !x.contains('\r') {
            lemma_no_char_concat(st.out, seq!['\n'], '\r');
            assert(st.out.push('\n') =~= st.out + seq!['\n']);
            lemma_no_char_concat(out0, w, '\r');
        }
    }
}

proof fn lemma_nl_no_cr()
    ensures
        !seq!['\n'].contains('\r'),
{
    if seq!['\n'].contains('\r') {
        let k = choose|k: int| 0 <= k < 1 && seq!['\n'][k] == '\r';
    }
}

proof fn lemma_split_elems(s: Seq<char>, ch: char)
    ensures
        forall|i: int| 0 <= i < split(s, '\n').len() ==> !(#[trigger] split(s, '\n')[i]).contains('\n'),
        !s.contains(ch) ==> forall|i: int|
            0 <= i < split(s, '\n').len() ==> !(#[trigger] split(s, '\n')[i]).contains(ch),
    decreases s.len(),
{
    if s.len() > 0 {
        let d = s.drop_last();
        lemma_split_elems(d, ch);
        crate::pathx::lemma_split_nonempty(d, '\n');
        let p = split(d, '\n');
        assert(!s.contains(ch) ==> !d.contains(ch)) by {
            if !s.contains(ch) && d.contains(ch) {
                let k = choose|k: int| 0 <= k < d.len() && d[k] == ch;
                assert(s[k] == ch);
            }
        }
        if s.last() == '\n' {
            assert forall|i: int| 0 <= i < split(s, '\n').len() implies !(#[trigger] split(s, '\n')[i]).contains(
                '\n',
            ) && (!s.contains(ch) ==> !split(s, '\n')[i].contains(ch)) by {
                if i < p.len() {
                    assert(split(s, '\n')[i] == p[i]);
                } else {
                    assert(split(s, '\n')[i] == Seq::<char>::empty());
                }
            }
        } else {
            let x = s.last();
            assert(x == s[s.len() - 1]);
            assert forall|i: int| 0 <= i < split(s, '\n').len() implies !(#[trigger] split(s, '\n')[i]).contains(
                '\n',
            ) && (!s.contains(ch) ==> !split(s, '\n')[i].contains(ch)) by {
                if i < p.len() - 1 {
                    assert(split(s, '\n')[i] == p[i]);
                } else {
                    assert(split(s, '\n')[i] == p.last().push(x));
                    assert(p.last() == p[p.len() - 1]);
                    assert(p.last().push(x) =~= p.last() + seq![x]);
                    assert(!seq![x].contains('\n')) by {
                        if seq![x].contains('\n') {
                            let k = choose|k: int| 0 <= k < 1 && seq![x][k] == '\n';
                        }
                    }
                    lemma_no_char_concat(p.last(), seq![x], '\n');
                    if !s.contains(ch) {
                        assert(!seq![x].contains(ch)) by {
                            if seq![x].contains(ch) {
                                let k = choose|k: int| 0 <= k < 1 && seq![x][k] == ch;
                            }
                        }
                        lemma_no_char_concat(p.last(), seq![x], ch);
                    }
                }
            }
        }
    }
}

/// Without carriage returns, `lines` is the split at newlines, less the
/// empty piece after a final newline.
proof fn lemma_lines_plain(s: Seq<char>)
    requires
        !s.contains('\r'),
    ensures
        lines(s) == (if s.len() == 0 || s.last() == '\n' {
            split(s, '\n').drop_last()
        } else {
            split(s, '\n')
        }),
        forall|i: int| 0 <= i < lines(s).len() ==> !(#[trigger] lines(s)[i]).contains('\n') && !lines(
            s,
        )[i].contains('\r'),
{
    lemma_split_elems(s, '\r');
    crate::pathx::lemma_split_nonempty(s, '\n');
    let p = split(s, '\n');
    let want = if s.len() == 0 || s.last() == '\n' {
        p.drop_last()
    } else {
        p
    };
    assert forall|i: int| 0 <= i < want.len() implies lines(s)[i] == want[i] by {
        let x = p[i];
        assert(!x.contains('\r'));
        if x.len() > 0 && x.last() == '\r' {
            assert(x.contains('\r')) by {
                assert(x[x.len() - 1] == '\r');
            }
        }
    }
    assert(lines(s) =~= want);
}

proof fn lemma_lines_elems(s: Seq<char>)
    ensures
        forall|i: int| 0 <= i < lines(s).len() ==> !(#[trigger] lines(s)[i]).contains('\n'),
        !s.contains('\r') ==> forall|i: int| 0 <= i < lines(s).len() ==> !(#[trigger] lines(s)[i]).contains('\r'),
{
    lemma_split_elems(s, '\r');
    crate::pathx::lemma_split_nonempty(s, '\n');
    let p = split(s, '\n');
    assert forall|i: int| 0 <= i < lines(s).len() implies !(#[trigger] lines(s)[i]).contains('\n') && (!s.contains(
        '\r',
    ) ==> !lines(s)[i].contains('\r')) by {
        let x = p[i];
        if i < p.len() - 1 && x.len() > 0 && x.last() == '\r' {
            assert(lines(s)[i] == x.drop_last());
            if x.drop_last().contains('\n') {
                let k = choose|k: int| 0 <= k < x.drop_last().len() && x.drop_last()[k] == '\n';
                assert(x[k] == '\n');
            }
            if x.drop_last().contains('\r') {
                let k = choose|k: int| 0 <= k < x.drop_last().len() && x.drop_last()[k] == '\r';
                assert(x[k] == '\r');
            }
        }
    }
}

pub open spec fn plain_lines(ls: Seq<Seq<char>>) -> bool {
    forall|i: int| 0 <= i < ls.len() ==> !(#[trigger] ls[i]).contains('\n') && !ls[i].contains('\r')
}

pub open spec fn plain(v: Seq<char>) -> bool {
    !v.contains('\n') && !v.contains('\r')
}

/// Ends with two empty lines.
pub open spec fn two_blank_tail(ls: Seq<Seq<char>>) -> bool {
    ls.len() >= 2 && ls[ls.len() - 1].len() == 0 && ls[ls.len() - 2].len() == 0
}

proof fn lemma_fold_replays(ls: Seq<Seq<char>>, model: Seq<char>, effort: Seq<char>)
    requires
        plain_lines(ls),
        plain(model),
        plain(effort),
    ensures
        replays(merge_fold(ls, model, effort), model, effort),
        !merge_fold(ls, model, effort).out.contains('\r'),
        ls.len() > 0 && ls.last().len() > 0 ==> written_lines(merge_fold(ls, model, effort)).len() > 0
            && written_lines(merge_fold(ls, model, effort)).last().len() > 0,
        two_blank_tail(written_lines(merge_fold(ls, model, effort))) ==> two_blank_tail(ls),
    decreases ls.len(),
{
    if ls.len() == 0 {
        assert(merge_fold(ls, model, effort).out =~= Seq::<char>::empty());
        return;
    }
    let d = ls.drop_last();
    let x = ls.last();
    assert(x == ls[ls.len() - 1]);
    assert(plain_lines(d)) by {
        assert forall|i: int| 0 <= i < d.len() implies !(#[trigger] d[i]).contains('\n') && !d[i].contains('\r') by {
            assert(d[i] == ls[i]);
        }
    }
    lemma_fold_replays(d, model, effort);
    let st = merge_fold(d, model, effort);
    lemma_step_replays(st, x, model, effort);
    let w = written_lines(merge_fold(ls, model, effort));
    if two_blank_tail(w) {
        assert(x.len() == 0);
        let wd = written_lines(st);
        assert(w == wd.push(x));
        assert(wd.len() >= 1 && wd.last().len() == 0) by {
            assert(w[w.len() - 2] == wd[wd.len() - 1]);
        }
        assert(d.len() > 0) by {
            if d.len() == 0 {
                assert(wd.len() == 0);
            }
        }
        assert(d.last().len() == 0);
        assert(ls[ls.len() - 2] == d.last());
    }
}

proof fn lemma_fold_pending(ls: Seq<Seq<char>>, model: Seq<char>, effort: Seq<char>)
    requires
        ls.len() > 0,
    ensures
        merge_fold(ls, model, effort).pending_nl,
{
    lemma_fold_push(ls.drop_last(), ls.last(), model, effort);
    assert(ls.drop_last().push(ls.last()) =~= ls);
}

/// A state with a written text is not the starting one, and a text with a
/// table open or seen is not empty.
proof fn lemma_replays_shape(st: MergeState, model: Seq<char>, effort: Seq<char>)
    requires
        replays(st, model, effort),
    ensures
        !st.pending_nl ==> st.out.len() == 0 && !st.in_models && !st.seen_models && !st.wrote_default
            && !st.wrote_effort,
        (st.in_models || st.seen_models) ==> st.pending_nl && st.out.len() > 0,
{
    if st.pending_nl && st.out.len() == 0 {
        assert(split(st.out, '\n') =~= seq![Seq::<char>::empty()]);
        lemma_fold_push(Seq::<Seq<char>>::empty(), Seq::<char>::empty(), model, effort);
        assert(Seq::<Seq<char>>::empty().push(Seq::<char>::empty()) =~= seq![Seq::<char>::empty()]);
        reveal_strlit("[");
        assert(trim(Seq::<char>::empty()) =~= Seq::<char>::empty());
        assert(!is_table_header_spec(Seq::<char>::empty()));
    }
}

/// A written text ending in a newline is the text before it with an empty
/// line written last.
proof fn lemma_peel_blank(st: MergeState, model: Seq<char>, effort: Seq<char>)
    requires
        replays(st, model, effort),
        st.pending_nl,
        st.out.len() > 0,
        st.out.last() == '\n',
    ensures
        ({
            let s0 = merge_fold(split(st.out, '\n').drop_last(), model, effort);
            &&& replays(s0, model, effort)
            &&& s0.pending_nl
            &&& s0.out.push('\n') == st.out
            &&& s0.in_models == st.in_models
            &&& s0.seen_models == st.seen_models
            &&& s0.wrote_default == st.wrote_default
            &&& s0.wrote_effort == st.wrote_effort
            &&& written_lines(s0) == split(st.out, '\n').drop_last()
        }),
{
    let w = split(st.out, '\n');
    lemma_split_ends_nl(st.out);
    let dl = w.drop_last();
    let s0 = merge_fold(dl, model, effort);
    lemma_fold_push(dl, Seq::empty(), model, effort);
    assert(dl.push(Seq::<char>::empty()) =~= w);
    lemma_fold_pending(dl, model, effort);
    reveal_strlit("[");
    assert(trim(Seq::<char>::empty()) =~= Seq::<char>::empty());
    assert(!is_table_header_spec(Seq::<char>::empty()));
    assert(line_key_spec(Seq::<char>::empty()) is None);
    assert(s0.out.push('\n') + Seq::<char>::empty() =~= s0.out.push('\n'));
    assert(s0.out.push('\n') == st.out);
    assert(s0.out =~= st.out.drop_last());
}

/// A merged text that merging again leaves as it is: it ends in a newline
/// after the last written line, inside a `[models]` table that holds its
/// keys.
proof fn lemma_fin_stable(t: MergeState, r: Seq<char>, model: Seq<char>, effort: Seq<char>)
    requires
        replays(t, model, effort),
        t.pending_nl,
        t.in_models,
        t.wrote_default,
        effort.len() == 0 || t.wrote_effort,
        t.out.len() > 0,
        t.out.last() != '\n',
        !t.out.contains('\r'),
        r == t.out.push('\n'),
    ensures
        merge_finish(merge_fold(lines(r), model, effort), r, model, effort) == r,
{
    lemma_nl_no_cr();
    assert(r =~= t.out + seq!['\n']);
    lemma_no_char_concat(t.out, seq!['\n'], '\r');
    lemma_lines_plain(r);
    lemma_split_nl(t.out);
    assert(split(r, '\n').drop_last() =~= split(t.out, '\n'));
    assert(lines(r) == written_lines(t));
    assert(merge_fold(lines(r), model, effort) == t);
}

/// The keys of a `[models]` table written as lines, from a state inside
/// it: afterwards it holds them, and the text is the missing keys less
/// their final newline.
proof fn lemma_write_keys(b: MergeState, model: Seq<char>, effort: Seq<char>) -> (t: MergeState)
    requires
        replays(b, model, effort),
        b.pending_nl,
        b.in_models,
        plain(model),
        plain(effort),
        !b.out.contains('\r'),
    ensures
        replays(t, model, effort),
        t.pending_nl,
        t.in_models,
        t.wrote_default,
        effort.len() == 0 || t.wrote_effort,
        !t.out.contains('\r'),
        t.out.len() > 0,
        missing_keys(b.out.push('\n'), model, effort, b.wrote_default, b.wrote_effort) == (if !b.wrote_default
            || (effort.len() > 0 && !b.wrote_effort) {
            t.out.push('\n')
        } else {
            b.out.push('\n')
        }),
        (!b.wrote_default || (effort.len() > 0 && !b.wrote_effort)) ==> t.out.last() != '\n',
        (b.wrote_default && (effort.len() == 0 || b.wrote_effort)) ==> t == b,
{
    lemma_nl_no_cr();
    reveal_strlit("default");
    reveal_strlit("default_reasoning_effort");
    reveal_strlit("\"");
    lemma_key_line_reads("default"@, model);
    lemma_key_line_reads("default_reasoning_effort"@, effort);
    assert("default"@ != "default_reasoning_effort"@) by {
        assert("default"@.len() != "default_reasoning_effort"@.len());
    }
    let kl = default_line(model);
    let el = eff_line(effort);
    assert(kl.last() == '"');
    assert(el.last() == '"');
    lemma_replays_shape(b, model, effort);
    let o = b.out.push('\n');
    assert(o =~= b.out + seq!['\n']);
    lemma_no_char_concat(b.out, seq!['\n'], '\r');
    assert(nl_unless_ended(o) == o);
    let t1 = if !b.wrote_default {
        merge_step(b, kl, model, effort)
    } else {
        b
    };
    if !b.wrote_default {
        lemma_step_replays(b, kl, model, effort);
        assert(t1.out == o + kl);
    }
    let a = if !b.wrote_default {
        o + kl + seq!['\n']
    } else {
        o
    };
    assert(t1.out.push('\n') == a) by {
        if !b.wrote_default {
            assert((o + kl).push('\n') =~= o + kl + seq!['\n']);
        }
    }
    assert(nl_unless_ended(a) == a) by {
        if !b.wrote_default {
            assert(a.last() == '\n');
        }
    }
    let need_e = effort.len() > 0 && !b.wrote_effort;
    let t = if need_e {
        merge_step(t1, el, model, effort)
    } else {
        t1
    };
    if need_e {
        lemma_step_replays(t1, el, model, effort);
        assert(t.out == t1.out.push('\n') + el);
        assert(t.out.push('\n') =~= a + el + seq!['\n']);
    }
    if !b.wrote_default && !need_e {
        assert(t.out.last() == kl.last());
    }
    if need_e {
        assert(t.out.last() == el.last());
    }
    t
}

proof fn lemma_idem_models(st: MergeState, src: Seq<char>, model: Seq<char>, effort: Seq<char>)
    requires
        model.len() > 0,
        plain(model),
        plain(effort),
        replays(st, model, effort),
        !st.out.contains('\r'),
        !two_blank_tail(written_lines(st)),
        st.in_models,
    ensures
        ({
            let r = merge_finish(st, src, model, effort);
            merge_finish(merge_fold(lines(r), model, effort), r, model, effort) == r
        }),
{
    lemma_nl_no_cr();
    lemma_replays_shape(st, model, effort);
    let r = merge_finish(st, src, model, effort);
    let out = st.out;
        if out.last() != '\n' {
            let t = lemma_write_keys(st, model, effort);
            let o = out.push('\n');
            assert(merge_finish(st, src, model, effort) == missing_keys(o, model, effort, st.wrote_default, st.wrote_effort)) by {
                let a = missing_keys(o, model, effort, st.wrote_default, st.wrote_effort);
                assert(a.last() == '\n');
            }
            if !st.wrote_default || (effort.len() > 0 && !st.wrote_effort) {
                lemma_fin_stable(t, r, model, effort);
            } else {
                lemma_fin_stable(st, r, model, effort);
            }
        } else {
            lemma_peel_blank(st, model, effort);
            let s0 = merge_fold(split(out, '\n').drop_last(), model, effort);
            assert(!s0.out.contains('\r')) by {
                if s0.out.contains('\r') {
                    let k = choose|k: int| 0 <= k < s0.out.len() && s0.out[k] == '\r';
                    assert(out[k] == '\r');
                }
            }
            let t = lemma_write_keys(s0, model, effort);
            let a = missing_keys(out, model, effort, st.wrote_default, st.wrote_effort);
            assert(merge_finish(st, src, model, effort) == a) by {
                assert(a.last() == '\n');
            }
            if !st.wrote_default || (effort.len() > 0 && !st.wrote_effort) {
                lemma_fin_stable(t, r, model, effort);
            } else {
                lemma_replays_shape(s0, model, effort);
                lemma_split_ends_nl(out);
                assert(s0.out.last() != '\n') by {
                    if s0.out.last() == '\n' {
                        lemma_split_ends_nl(s0.out);
                        let w = written_lines(st);
                        assert(w.drop_last() == split(s0.out, '\n'));
                        assert(w[w.len() - 2] == split(s0.out, '\n').last());
                        assert(two_blank_tail(w));
                    }
                }
                lemma_fin_stable(s0, r, model, effort);
            }
        }
}

proof fn lemma_idem_fresh(st: MergeState, src: Seq<char>, model: Seq<char>, effort: Seq<char>)
    requires
        model.len() > 0,
        plain(model),
        plain(effort),
        replays(st, model, effort),
        !st.out.contains('\r'),
        !two_blank_tail(written_lines(st)),
        !st.in_models && !st.seen_models,
    ensures
        ({
            let r = merge_finish(st, src, model, effort);
            merge_finish(merge_fold(lines(r), model, effort), r, model, effort) == r
        }),
{
    lemma_nl_no_cr();
    lemma_replays_shape(st, model, effort);
    let r = merge_finish(st, src, model, effort);
    let out = st.out;
        reveal_strlit("[models]");
        reveal_strlit("[models]\n");
        reveal_strlit("[");
        reveal_strlit("]");
        let mh = "[models]"@;
        assert(!mh.contains('\n') && !mh.contains('\r')) by {
            if mh.contains('\n') || mh.contains('\r') {
                let k = choose|k: int| 0 <= k < mh.len() && (mh[k] == '\n' || mh[k] == '\r');
            }
        }
        assert(trim(mh) == mh) by {
            lemma_trim_fixed(mh);
        }
        assert(is_table_header_spec(mh)) by {
            assert(mh.take(1) =~= "["@);
            assert(mh.skip(mh.len() - 1) =~= "]"@);
        }
        let o1 = if out.len() > 0 && out.last() != '\n' {
            out.push('\n')
        } else {
            out
        };
        let o2 = if o1.len() > 0 {
            o1.push('\n')
        } else {
            o1
        };
        let q = if out.len() == 0 {
            merge_fold(Seq::<Seq<char>>::empty(), model, effort)
        } else if out.last() != '\n' {
            merge_step(st, Seq::<char>::empty(), model, effort)
        } else {
            st
        };
        assert(replays(q, model, effort) && !q.out.contains('\r') && !q.in_models && !q.seen_models
            && (if q.pending_nl {
            q.out.push('\n')
        } else {
            q.out
        }) == o2) by {
            if out.len() == 0 {
                assert(written_lines(q) =~= Seq::<Seq<char>>::empty());
                assert(q.out =~= Seq::<char>::empty());
            } else if out.last() != '\n' {
                assert(!Seq::<char>::empty().contains('\r'));
                assert(!Seq::<char>::empty().contains('\n'));
                lemma_step_replays(st, Seq::<char>::empty(), model, effort);
                assert(trim(Seq::<char>::empty()) =~= Seq::<char>::empty());
                assert(!is_table_header_spec(Seq::<char>::empty()));
                assert(q.out == out.push('\n') + Seq::<char>::empty());
                assert(out.push('\n') + Seq::<char>::empty() =~= out.push('\n'));
            }
        }
        lemma_step_replays(q, mh, model, effort);
        let h = merge_step(q, mh, model, effort);
        assert(h.out == o2 + mh);
        assert(h.in_models && h.seen_models && !h.wrote_default && !h.wrote_effort && h.pending_nl);
        let t = lemma_write_keys(h, model, effort);
        let kl = default_line(model);
        let el = eff_line(effort);
        let x = h.out.push('\n');
        assert(x =~= o2 + "[models]\n"@);
        assert(x.last() == '\n');
        assert(nl_unless_ended(x) == x);
        let a1 = x + kl + seq!['\n'];
        assert(nl_unless_ended(a1) == a1) by {
            assert(a1.last() == '\n');
        }
        let a = merge_finish(st, src, model, effort);
        assert(a == missing_keys(x, model, effort, false, false)) by {
            let o3 = o2 + "[models]\n"@ + kl + seq!['\n'];
            assert(o3 =~= a1);
            let pre = if effort.len() > 0 {
                o3 + key_line_spec("default_reasoning_effort"@, effort) + seq!['\n']
            } else {
                o3
            };
            assert(pre.last() == '\n');
        }
        lemma_fin_stable(t, r, model, effort);
}

proof fn lemma_idem_seen(st: MergeState, src: Seq<char>, model: Seq<char>, effort: Seq<char>)
    requires
        model.len() > 0,
        plain(model),
        plain(effort),
        replays(st, model, effort),
        !st.out.contains('\r'),
        !two_blank_tail(written_lines(st)),
        !st.in_models && st.seen_models,
    ensures
        ({
            let r = merge_finish(st, src, model, effort);
            merge_finish(merge_fold(lines(r), model, effort), r, model, effort) == r
        }),
{
    lemma_nl_no_cr();
    lemma_replays_shape(st, model, effort);
    let r = merge_finish(st, src, model, effort);
    let out = st.out;
        lemma_split_nl(out);
        if out.last() != '\n' {
            if src.len() > 0 && src.last() == '\n' {
                assert(r == out.push('\n'));
                assert(out.push('\n') =~= out + seq!['\n']);
                lemma_no_char_concat(out, seq!['\n'], '\r');
                lemma_lines_plain(r);
                assert(split(r, '\n').drop_last() =~= split(out, '\n'));
            } else {
                assert(r == out);
                lemma_lines_plain(r);
            }
            assert(lines(r) == written_lines(st));
        } else {
            assert(r == out);
            lemma_peel_blank(st, model, effort);
            let s0 = merge_fold(split(out, '\n').drop_last(), model, effort);
            lemma_lines_plain(r);
            assert(lines(r) == written_lines(s0));
            lemma_split_ends_nl(out);
            assert(s0.out.last() != '\n') by {
                lemma_replays_shape(s0, model, effort);
                if s0.out.last() == '\n' {
                    lemma_split_ends_nl(s0.out);
                    let w = written_lines(st);
                    assert(w.drop_last() == split(s0.out, '\n'));
                    assert(w[w.len() - 2] == split(s0.out, '\n').last());
                    assert(two_blank_tail(w));
                }
            }
            assert(s0.out.push('\n') == r);
        }
}

/// Merging the model a second time changes nothing, for documents without
/// carriage returns that do not end in two blank lines, and a model and
/// effort on one line (a second merge drops one more trailing blank line,
/// and a carriage return at the end of the last line is read as a line
/// ending once a newline follows it).
pub proof fn law_merge_idempotent(src: Seq<char>, model: Seq<char>, effort: Seq<char>)
    requires
        model.len() > 0,
        plain(model),
        plain(effort),
        !src.contains('\r'),
        !two_blank_tail(lines(src)),
    ensures
        merge_models_spec(merge_models_spec(src, model, effort), model, effort) == merge_models_spec(
            src,
            model,
            effort,
        ),
{
    let ls = lines(src);
    lemma_lines_elems(src);
    assert(plain_lines(ls));
    lemma_fold_replays(ls, model, effort);
    let st = merge_fold(ls, model, effort);
    if st.in_models {
        lemma_idem_models(st, src, model, effort);
    } else if !st.seen_models {
        lemma_idem_fresh(st, src, model, effort);
    } else {
        lemma_idem_seen(st, src, model, effort);
    }
}
} // verus!
