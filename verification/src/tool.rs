//! A tool call's details, read back from a session transcript: its last
//! `content` and `rawOutput`, with byte arrays shown as text and image data
//! shown as its size.
use vstd::prelude::*;
use crate::parse::{FieldVal, field_of};
use crate::control::{get, get_of};
use crate::mcp_ask::{take_one, take_fields, text_or_empty, keys_view, distinct};
use crate::text::{chars_of, string_of, extend, extend_str, str_eq};
use crate::numfmt::dec;

verus! {

/// Bytes read as UTF-8 with invalid sequences replaced, as
/// `String::from_utf8_lossy` gives them.
pub uninterp spec fn utf8_lossy(bytes: Seq<u8>) -> Seq<char>;

/// Calls std's `String::from_utf8_lossy`; the contract names the result.
#[verifier::external_body]
fn lossy_text(bytes: &[u8]) -> (r: String)
    ensures
        r@ == utf8_lossy(bytes@),
{
    String::from_utf8_lossy(bytes).into_owned()
}

/// A whole number that fits a byte.
pub open spec fn is_byte(v: FieldVal) -> bool {
    v matches FieldVal::UInt(n) && n <= 255
}

/// An array of at least 16 numbers that all fit a byte: a byte buffer.
pub open spec fn byte_array(a: Seq<FieldVal>) -> bool {
    a.len() >= 16 && forall|i: int| 0 <= i < a.len() ==> is_byte(#[trigger] a[i])
}

pub open spec fn byte_of(v: FieldVal) -> u8 {
    match v {
        FieldVal::UInt(n) => n as u8,
        _ => 0,
    }
}

pub open spec fn bytes_of_vals(a: Seq<FieldVal>) -> Seq<u8> {
    a.map_values(|v: FieldVal| byte_of(v))
}

/// What image data is shown as: `[image <n> bytes]`, `n` its length in UTF-8.
pub open spec fn placeholder(s: Seq<char>) -> Seq<char> {
    "[image "@ + dec((vstd::utf8::encode_utf8(s).len() as usize) as nat) + " bytes]"@
}

/// The position of the first field with the key.
pub open spec fn key_pos(fs: Seq<(String, FieldVal)>, key: Seq<char>) -> Option<int>
    decreases fs.len(),
{
    if fs.len() == 0 {
        None
    } else if fs[0].0@ == key {
        Some(0)
    } else {
        match key_pos(fs.drop_first(), key) {
            Some(i) => Some(i + 1),
            None => None,
        }
    }
}

proof fn lemma_key_pos(fs: Seq<(String, FieldVal)>, key: Seq<char>)
    ensures
        key_pos(fs, key) matches Some(i) ==> 0 <= i < fs.len() && fs[i].0@ == key,
    decreases fs.len(),
{
    if fs.len() > 0 && fs[0].0@ != key {
        lemma_key_pos(fs.drop_first(), key);
    }
}

/// An object that says it is an image: its `type` is `image`.
pub open spec fn is_image(fs: Seq<(String, FieldVal)>) -> bool {
    field_of(fs, "type"@) matches Some(FieldVal::Str(t)) && t@ == "image"@
}

/// The text of an object's `data`, where that is a string.
pub open spec fn data_text(fs: Seq<(String, FieldVal)>) -> Option<Seq<char>> {
    match field_of(fs, "data"@) {
        Some(FieldVal::Str(s)) => Some(s@),
        _ => None,
    }
}

/// `r` is `v` as shown: a byte buffer becomes its text; in an object that
/// says it is an image, the `data` string becomes its size; the `data`
/// string of an `ImageContent` object too; and so on all the way down.
pub open spec fn norm(v: FieldVal, r: FieldVal) -> bool
    decreases v, 2int,
{
    match v {
        FieldVal::Array(a) => if byte_array(a@) {
            r matches FieldVal::Str(s) && s@ == utf8_lossy(bytes_of_vals(a@))
        } else {
            r matches FieldVal::Array(b) && b@.len() == a@.len() && forall|i: int|
                0 <= i < a@.len() ==> norm(#[trigger] a@[i], b@[i])
        },
        FieldVal::Object(fs) => r matches FieldVal::Object(gs) && norm_fields(fs@, None, gs@),
        _ => r == v,
    }
}

/// The fields of an object as shown, where its `data` text is taken to be
/// `ov` when that is given (it was replaced by its parent already).
pub open spec fn norm_fields(fs: Seq<(String, FieldVal)>, ov: Option<Seq<char>>, gs: Seq<(String, FieldVal)>) -> bool
    decreases fs, 1int,
{
    gs.len() == fs.len() && forall|i: int|
        0 <= i < fs.len() ==> (#[trigger] gs[i]).0@ == fs[i].0@ && norm_entry(fs, ov, i, gs[i].1)
}

/// The `i`-th field of an object as shown.
pub open spec fn norm_entry(fs: Seq<(String, FieldVal)>, ov: Option<Seq<char>>, i: int, g: FieldVal) -> bool
    decreases fs, 0int,
{
    if 0 <= i < fs.len() {
        let val = fs[i].1;
        if key_pos(fs, "data"@) == Some(i) && val is Str {
            let t0 = match ov {
                Some(t) => t,
                None => text_or_empty(Some(val)),
            };
            g matches FieldVal::Str(x) && x@ == (if is_image(fs) {
                placeholder(t0)
            } else {
                t0
            })
        } else {
            match val {
                FieldVal::Object(ic) => if key_pos(fs, "ImageContent"@) == Some(i) && data_text(ic@) is Some {
                    g matches FieldVal::Object(hs) && norm_fields(ic@, Some(placeholder(data_text(ic@).unwrap())), hs@)
                } else {
                    norm(val, g)
                },
                _ => norm(val, g),
            }
        }
    } else {
        false
    }
}


fn placeholder_of(s: &str) -> (r: String)
    ensures
        r@ == placeholder(s@),
{
    let n: usize = s.len();
    let mut out = chars_of("[image ");
    extend(&mut out, &crate::numfmt::u64_chars(n as u64));
    extend_str(&mut out, " bytes]");
    string_of(&out)
}

fn byte_buffer(a: &Vec<FieldVal>) -> (r: Option<Vec<u8>>)
    ensures
        byte_array(a@) ==> (r matches Some(b) && b@ == bytes_of_vals(a@)),
        !byte_array(a@) ==> r is None,
{
    if a.len() < 16 {
        return None;
    }
    let mut out: Vec<u8> = Vec::new();
    let mut i: usize = 0;
    while i < a.len()
        invariant
            i <= a.len(),
            a@.len() >= 16,
            out@ == bytes_of_vals(a@).take(i as int),
            forall|j: int| 0 <= j < i ==> is_byte(#[trigger] a@[j]),
        decreases a.len() - i,
    {
        match &a[i] {
            FieldVal::UInt(n) => if *n <= 255 {
                out.push(*n as u8);
                proof {
                    assert(bytes_of_vals(a@).take(i + 1) =~= bytes_of_vals(a@).take(i as int).push(byte_of(a@[i as int])));
                }
            } else {
                return None;
            },
            _ => {
                return None;
            },
        }
        i += 1;
    }
    proof {
        assert(bytes_of_vals(a@).take(a.len() as int) =~= bytes_of_vals(a@));
    }
    Some(out)
}

fn key_index(fs: &Vec<(String, FieldVal)>, key: &str) -> (r: Option<usize>)
    ensures
        match key_pos(fs@, key@) {
            Some(i) => r == Some(i as usize),
            None => r is None,
        },
{
    let mut i: usize = 0;
    proof {
        assert(fs@.skip(0) =~= fs@);
    }
    while i < fs.len()
        invariant
            i <= fs.len(),
            key_pos(fs@, key@) == (match key_pos(fs@.skip(i as int), key@) {
                Some(k) => Some(k + i),
                None => None,
            }),
        decreases fs.len() - i,
    {
        proof {
            assert(fs@.skip(i as int)[0] == fs@[i as int]);
            assert(fs@.skip(i as int).drop_first() =~= fs@.skip(i + 1));
        }
        if str_eq(fs[i].0.as_str(), key) {
            return Some(i);
        }
        i += 1;
    }
    None
}

/// A tool's output as shown (see [`norm`]).
pub fn normalize(v: FieldVal) -> (r: FieldVal)
    ensures
        norm(v, r),
    decreases v, 2int,
{
    let ghost v0 = v;
    match v {
        FieldVal::Array(a) => {
            match byte_buffer(&a) {
                Some(b) => {
                    return FieldVal::Str(lossy_text(b.as_slice()));
                },
                None => {},
            }
            let ghost a0 = a;
            let ghost orig = a@;
            assert(orig.len() == a.len());
            let mut a = a;
            let mut out: Vec<FieldVal> = Vec::new();
            let mut k: usize = 0;
            proof {
                assert(orig.skip(0) =~= orig);
            }
            while a.len() > 0
                invariant
                    a@ == orig.skip(k as int),
                    k <= orig.len(),
                    orig.len() <= usize::MAX,
                    v0 == FieldVal::Array(a0),
                    v0 == v,
                    orig == a0@,
                    out@.len() == k,
                    forall|j: int| 0 <= j < k ==> norm(#[trigger] orig[j], out@[j]),
                decreases a.len(),
            {
                assert(a@.len() == orig.len() - k);
                let x = a.remove(0);
                proof {
                    assert(x == orig[k as int]);
                    assert(orig.skip(k as int).drop_first() =~= orig.skip(k + 1));
                    assert(v0->Array_0 == a0);
                    assert(decreases_to!(v0 => v0->Array_0));
                    assert(decreases_to!(v0->Array_0 => v0->Array_0@));
                    assert(decreases_to!(v0->Array_0@ => v0->Array_0@[k as int]));
                }
                let y = normalize(x);
                out.push(y);
                k += 1;
            }
            proof {
                assert(!byte_array(orig));
            }
            FieldVal::Array(out)
        },
        FieldVal::Object(fs) => {
            proof {
                assert(decreases_to!(v0 => v0->Object_0));
                assert(decreases_to!(v0->Object_0 => v0->Object_0@));
            }
            FieldVal::Object(normalize_fields(fs, None))
        },
        other => other,
    }
}

fn normalize_fields(fields: Vec<(String, FieldVal)>, ov: Option<String>) -> (r: Vec<(String, FieldVal)>)
    ensures
        norm_fields(fields@, crate::types::opt_view(ov), r@),
    decreases fields@, 1int,
{
    let ghost orig = fields@;
    assert(orig.len() == fields.len());
    let dpos = key_index(&fields, "data");
    let cpos = key_index(&fields, "ImageContent");
    let image = match get_field_ref(&fields, "type") {
        Some(FieldVal::Str(t)) => str_eq(t.as_str(), "image"),
        _ => false,
    };
    assert(image == is_image(orig));
    let mut fs = fields;
    let mut out: Vec<(String, FieldVal)> = Vec::new();
    let mut k: usize = 0;
    proof {
        assert(orig.skip(0) =~= orig);
    }
    while fs.len() > 0
        invariant
            fs@ == orig.skip(k as int),
            orig == fields@,
            k <= orig.len(),
            orig.len() <= usize::MAX,
            image == is_image(orig),
            match key_pos(orig, "data"@) {
                Some(i) => dpos == Some(i as usize),
                None => dpos is None,
            },
            match key_pos(orig, "ImageContent"@) {
                Some(i) => cpos == Some(i as usize),
                None => cpos is None,
            },
            out@.len() == k,
            forall|j: int| 0 <= j < k ==> (#[trigger] out@[j]).0@ == orig[j].0@ && norm_entry(
                orig,
                crate::types::opt_view(ov),
                j,
                out@[j].1,
            ),
        decreases fs.len(),
    {
        assert(fs@.len() == orig.len() - k);
        let (key, val) = fs.remove(0);
        proof {
            assert((key, val) == orig[k as int]);
            assert(orig.skip(k as int).drop_first() =~= orig.skip(k + 1));
            assert(decreases_to!(orig => orig[k as int]));
            assert(decreases_to!(orig[k as int] => orig[k as int].1));
        }
        let is_data = match dpos {
            Some(d) => d == k,
            None => false,
        };
        let is_content = match cpos {
            Some(c) => c == k,
            None => false,
        };
        let shown: FieldVal = match val {
            FieldVal::Str(s) => if is_data {
                let t0: String = match &ov {
                    Some(t) => t.clone(),
                    None => s,
                };
                if image {
                    FieldVal::Str(placeholder_of(t0.as_str()))
                } else {
                    FieldVal::Str(t0)
                }
            } else {
                FieldVal::Str(s)
            },
            FieldVal::Object(ic) => {
                let d = if is_content {
                    match get_field_ref(&ic, "data") {
                        Some(FieldVal::Str(t)) => Some(placeholder_of(t.as_str())),
                        _ => None,
                    }
                } else {
                    None
                };
                proof {
                    assert(orig[k as int].1 == FieldVal::Object(ic));
                    assert(decreases_to!(orig[k as int].1 => orig[k as int].1->Object_0));
                    assert(decreases_to!(orig[k as int].1->Object_0 => orig[k as int].1->Object_0@));
                }
                match d {
                    Some(p) => FieldVal::Object(normalize_fields(ic, Some(p))),
                    None => normalize(FieldVal::Object(ic)),
                }
            },
            other => normalize(other),
        };
        proof {
            lemma_key_pos(orig, "data"@);
            lemma_key_pos(orig, "ImageContent"@);
            assert(is_data <==> key_pos(orig, "data"@) == Some(k as int));
            assert(is_content <==> key_pos(orig, "ImageContent"@) == Some(k as int));
            assert(norm_entry(orig, crate::types::opt_view(ov), k as int, shown));
        }
        let ghost before = out@;
        out.push((key, shown));
        proof {
            assert(out@[k as int] == (key, shown));
            assert forall|j: int| 0 <= j < k + 1 implies (#[trigger] out@[j]).0@ == orig[j].0@ && norm_entry(
                orig,
                crate::types::opt_view(ov),
                j,
                out@[j].1,
            ) by {
                if j < k {
                    assert(out@[j] == before[j]);
                }
            }
        }
        k += 1;
    }
    proof {
        assert(k == orig.len());
    }
    out
}

fn get_field_ref<'a>(fs: &'a Vec<(String, FieldVal)>, key: &str) -> (r: Option<&'a FieldVal>)
    ensures
        match r {
            Some(v) => field_of(fs@, key@) == Some(*v),
            None => field_of(fs@, key@) is None,
        },
{
    crate::parse::get_field(fs.as_slice(), key)
}


/// The `params.update` of a transcript line (`null` where it has none).
pub open spec fn line_update(obj: FieldVal) -> FieldVal {
    match get(obj, "params"@) {
        Some(p) => match get(p, "update"@) {
            Some(u) => u,
            None => FieldVal::Null,
        },
        None => FieldVal::Null,
    }
}

/// A line about the tool call: a `tool_call` or `tool_call_update` with its id.
pub open spec fn is_tool_line(obj: FieldVal, tool_id: Seq<char>) -> bool {
    let u = line_update(obj);
    let kind = text_or_empty(get(u, "sessionUpdate"@));
    (kind == "tool_call_update"@ || kind == "tool_call"@) && text_or_empty(get(u, "toolCallId"@)) == tool_id
}

/// What a transcript says of a tool call so far: its last `content` and
/// `rawOutput`, and whether any line was about it.
pub struct ToolScan {
    pub content: FieldVal,
    pub raw_output: FieldVal,
    pub found: bool,
}

/// A tool call's details as shown.
pub struct ToolDetail {
    pub content: FieldVal,
    pub raw_output: FieldVal,
    pub log: String,
}

fn text_at(v: &FieldVal, key: &str) -> (r: String)
    ensures
        r@ == text_or_empty(get(*v, key@)),
{
    match get_of(v, key) {
        Some(FieldVal::Str(s)) => s.clone(),
        _ => String::new(),
    }
}

impl ToolScan {
    /// Nothing read yet.
    pub fn new() -> (r: ToolScan)
        ensures
            r.content == FieldVal::Null,
            r.raw_output == FieldVal::Null,
            !r.found,
    {
        ToolScan { content: FieldVal::Null, raw_output: FieldVal::Null, found: false }
    }

    /// Takes one line of the transcript: where it is about the tool call, its
    /// `content` and `rawOutput` (where present) replace those kept.
    pub fn take_line(&mut self, obj: FieldVal, tool_id: &str) -> (r: bool)
        ensures
            r == is_tool_line(obj, tool_id@),
            r ==> final(self).found && final(self).content == (match get(line_update(obj), "content"@) {
                Some(c) => c,
                None => old(self).content,
            }) && final(self).raw_output == (match get(line_update(obj), "rawOutput"@) {
                Some(c) => c,
                None => old(self).raw_output,
            }),
            !r ==> *final(self) == *old(self),
    {
        let ghost o = obj;
        let u = match take_one(obj, "params") {
            Some(p) => match take_one(p, "update") {
                Some(u) => u,
                None => FieldVal::Null,
            },
            None => FieldVal::Null,
        };
        assert(u == line_update(o));
        let kind = text_at(&u, "sessionUpdate");
        let id = text_at(&u, "toolCallId");
        if !(str_eq(kind.as_str(), "tool_call_update") || str_eq(kind.as_str(), "tool_call")) || !str_eq(
            id.as_str(),
            tool_id,
        ) {
            return false;
        }
        let fs = match u {
            FieldVal::Object(fs) => fs,
            _ => Vec::new(),
        };
        let keys: [&str; 2] = ["content", "rawOutput"];
        proof {
            reveal_strlit("content");
            reveal_strlit("rawOutput");
            assert(keys_view(keys@)[0][0] != keys_view(keys@)[1][0]);
        }
        let mut got = take_fields(fs, &keys);
        let raw = got.pop();
        let content = got.pop();
        match content {
            Some(Some(c)) => {
                self.content = c;
            },
            _ => {},
        }
        match raw {
            Some(Some(r)) => {
                self.raw_output = r;
            },
            _ => {},
        }
        self.found = true;
        true
    }

    /// The details to show: where a line was about the tool call or it left
    /// a log, its content and raw output as shown (see [`norm`]) and the log.
    pub fn finish(self, log: String) -> (r: Option<ToolDetail>)
        ensures
            (self.found || log@.len() > 0) <==> r is Some,
            r matches Some(d) ==> norm(self.content, d.content) && norm(self.raw_output, d.raw_output) && d.log
                == log,
    {
        if !self.found && log.as_str().is_empty() {
            return None;
        }
        Some(ToolDetail { content: normalize(self.content), raw_output: normalize(self.raw_output), log })
    }
}

/// The most of a tool's log that is shown: the last 256 KiB.
pub const TOOL_LOG_CAP: u64 = 262144;

/// Where a tool's log may be, in order: `terminal/<id>.log` in the session's
/// directory, then the `output_file` of its raw output (or of its
/// `Result`), where that lies in the session's directory.
pub open spec fn log_candidates_spec(session_dir: Seq<char>, tool_id: Seq<char>, raw: FieldVal) -> Seq<Seq<char>> {
    let named = crate::pathx::join(crate::pathx::join(session_dir, "terminal"@), tool_id + ".log"@);
    let a = match get(raw, "output_file"@) {
        Some(FieldVal::Str(p)) => if crate::pathx::under(p@, session_dir) {
            seq![p@]
        } else {
            Seq::empty()
        },
        _ => Seq::empty(),
    };
    let b = match get(raw, "Result"@) {
        Some(res) => match get(res, "output_file"@) {
            Some(FieldVal::Str(p)) => if crate::pathx::under(p@, session_dir) {
                seq![p@]
            } else {
                Seq::empty()
            },
            _ => Seq::empty(),
        },
        None => Seq::empty(),
    };
    seq![named] + a + b
}

fn output_file(v: &FieldVal, session_dir: &str, out: &mut Vec<String>)
    ensures
        final(out)@.map_values(|s: String| s@) == old(out)@.map_values(|s: String| s@) + (match get(*v, "output_file"@) {
            Some(FieldVal::Str(p)) => if crate::pathx::under(p@, session_dir@) {
                seq![p@]
            } else {
                Seq::empty()
            },
            _ => Seq::empty(),
        }),
{
    let ghost before = out@;
    match get_of(v, "output_file") {
        Some(FieldVal::Str(p)) => if crate::pathx::is_under(p.as_str(), session_dir) {
            out.push(p.clone());
            proof {
                assert(out@.map_values(|s: String| s@) =~= before.map_values(|s: String| s@).push(p@));
            }
        },
        _ => {},
    }
    proof {
        assert(out@.map_values(|s: String| s@) =~= before.map_values(|s: String| s@) + (match get(*v, "output_file"@) {
            Some(FieldVal::Str(p)) => if crate::pathx::under(p@, session_dir@) {
                seq![p@]
            } else {
                Seq::empty()
            },
            _ => Seq::empty(),
        }));
    }
}

/// The files a tool's log is looked for in, in order (the first that is
/// not blank is shown).
pub fn log_candidates(session_dir: &str, tool_id: &str, raw: &FieldVal) -> (r: Vec<String>)
    ensures
        r@.map_values(|s: String| s@) == log_candidates_spec(session_dir@, tool_id@, *raw),
{
    let t = crate::pathx::join_str(session_dir, "terminal");
    let mut name = chars_of(tool_id);
    extend_str(&mut name, ".log");
    let named = crate::pathx::join_str(t.as_str(), string_of(&name).as_str());
    let mut out: Vec<String> = Vec::new();
    out.push(named);
    proof {
        assert(out@.map_values(|s: String| s@) =~= seq![named@]);
    }
    output_file(raw, session_dir, &mut out);
    match get_of(raw, "Result") {
        Some(res) => output_file(res, session_dir, &mut out),
        None => {},
    }
    proof {
        assert(out@.map_values(|s: String| s@) =~= log_candidates_spec(session_dir@, tool_id@, *raw));
    }
    out
}

/// The log text shown from what was read of its end: all of it where the
/// file was not cut; else `…`, a newline, and what follows the first
/// newline read (all of it where it holds none).
pub open spec fn capped_log_spec(tail: Seq<char>, cut: bool) -> Seq<char> {
    if !cut {
        tail
    } else {
        "…\n"@ + match crate::text::fpos(tail, '\n') {
            Some(i) => tail.skip(i + 1),
            None => tail,
        }
    }
}

pub fn capped_log(tail: &str, cut: bool) -> (r: String)
    ensures
        r@ == capped_log_spec(tail@, cut),
{
    if !cut {
        return tail.to_string();
    }
    let t = chars_of(tail);
    let mut out = chars_of("…\n");
    match crate::text::fpos_char(&t, '\n') {
        Some(i) => {
            let rest = crate::text::slice_of(&t, i + 1, t.len());
            assert(rest@ =~= t@.skip(i + 1));
            extend(&mut out, &rest);
        },
        None => extend(&mut out, &t),
    }
    string_of(&out)
}

} // verus!
