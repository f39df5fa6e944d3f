//! Skills: `SKILL.md` files under grok's home. Their front matter is read,
//! names are made into slugs, cards get a label, a category and a short
//! description, and a new skill's markdown is rendered. Reading and writing
//! the files and unpacking uploads is left to the caller.
use vstd::prelude::*;
use crate::pathx::{comps, components, extension, extension_of, join, join_slash, join_str, views};
use crate::text::{
    ascii_lower, ascii_upper, chars_of, ends_with, eq_chars, eq_str, extend, extend_str,
    is_ascii_alnum, is_whitespace, is_ws, lower_ascii, lower_chars, replace, replace_chars,
    starts_with, starts_with_str, string_of, strip_trailing, strip_trailing_chars, to_ascii_lower,
    trim, trim_chars, trim_str,
};

verus! {

/// The longest skill name.
pub const MAX_NAME: usize = 64;

/// Why a skill could not be made.
#[derive(Debug, Clone, PartialEq, Eq)]
pub enum SkillError {
    /// The name has no letter or digit.
    NameRequired,
    /// The name is longer than [`MAX_NAME`].
    NameTooLong,
    /// The description is empty.
    DescriptionRequired,
    /// The files of an uploaded archive add up to more than [`MAX_UNCOMPRESSED`].
    ZipTooLarge,
    /// No skill has the name asked for (in the scope asked for).
    NotFound,
    /// An upload holds no bytes.
    FileRequired,
    /// An upload is larger than [`MAX_UNCOMPRESSED`].
    FileTooLarge,
    /// An upload is neither markdown nor a zip archive.
    UnsupportedUpload,
    /// An archive, or one of its entries, cannot be read.
    InvalidZip,
    /// An archive has no `SKILL.md` at its root or one folder deep.
    NoSkillMd,
    /// An archive's `SKILL.md` is larger than [`MAX_UNCOMPRESSED`].
    SkillMdTooLarge,
    /// A `SKILL.md` is not UTF-8.
    NotUtf8,
}

/// The most bytes an upload may unpack to: 8 MiB.
pub const MAX_UNCOMPRESSED: u64 = 8388608;

/// A skill found on disk.
#[derive(Debug, Clone)]
pub struct SkillInfo {
    pub name: String,
    pub label: String,
    pub description: String,
    pub path: String,
    pub scope: String,
    pub category: String,
}

/// The front matter of a `SKILL.md`: the first `name`, `description` and
/// `short-description` (or `short_description`) values.
#[derive(Debug, Clone)]
pub struct Frontmatter {
    pub name: Option<String>,
    pub description: Option<String>,
    pub short_description: Option<String>,
}

/// A YAML block marker in place of a description: nothing, `>`, `>-`, `|` or `|-`.
pub open spec fn folded_spec(raw: Seq<char>) -> bool {
    let s = trim(raw);
    s.len() == 0 || s == ">"@ || s == ">-"@ || s == "|"@ || s == "|-"@
}

pub fn looks_folded(raw: &str) -> (r: bool)
    ensures
        r == folded_spec(raw@),
{
    let s = trim_str(raw);
    s.len() == 0 || eq_str(&s, ">") || eq_str(&s, ">-") || eq_str(&s, "|") || eq_str(&s, "|-")
}

/// A value with its quotes taken off: a trimmed value in matching double or
/// single quotes loses them, and inside, `\"` becomes `"` and then `\n`
/// becomes a space; any other value is only trimmed.
pub open spec fn unquote_spec(raw: Seq<char>) -> Seq<char> {
    let s = trim(raw);
    if s.len() >= 2 && ((s[0] == '"' && s.last() == '"') || (s[0] == '\'' && s.last() == '\'')) {
        replace(replace(s.subrange(1, s.len() - 1), "\\\""@, "\""@), "\\n"@, " "@)
    } else {
        s
    }
}

pub fn unquote(raw: &[char]) -> (r: Vec<char>)
    ensures
        r@ == unquote_spec(raw@),
{
    let s = trim_chars(raw);
    let n = s.len();
    if n >= 2 && ((s[0] == '"' && s[n - 1] == '"') || (s[0] == '\'' && s[n - 1] == '\'')) {
        proof {
            assert(s@.last() == s@[n - 1]);
        }
        let inner = crate::text::slice_of(&s, 1, n - 1);
        let p1 = chars_of("\\\"");
        let r1 = chars_of("\"");
        let p2 = chars_of("\\n");
        let r2 = chars_of(" ");
        proof {
            reveal_strlit("\\\"");
            reveal_strlit("\\n");
        }
        let a = replace_chars(&inner, &p1, &r1);
        replace_chars(&a, &p2, &r2)
    } else {
        proof {
            if n >= 2 {
                assert(s@.last() == s@[n - 1]);
            }
        }
        s
    }
}

/// The section a skill card is shown in: anything not bundled is
/// `personal`; bundled ones are `documents` (docx, pdf, pptx), `game`,
/// `resume` or `builtin` by name.
pub open spec fn category_spec(scope: Seq<char>, name: Seq<char>) -> Seq<char> {
    if scope != "bundled"@ {
        "personal"@
    } else if name == "docx"@ || name == "pdf"@ || name == "pptx"@ {
        "documents"@
    } else if starts_with(name, "game-"@) {
        "game"@
    } else if starts_with(name, "resume-"@) {
        "resume"@
    } else {
        "builtin"@
    }
}

pub fn skill_category(scope: &str, name: &str) -> (r: String)
    ensures
        r@ == category_spec(scope@, name@),
{
    let sc = chars_of(scope);
    let nm = chars_of(name);
    if !eq_str(&sc, "bundled") {
        return "personal".to_string();
    }
    if eq_str(&nm, "docx") || eq_str(&nm, "pdf") || eq_str(&nm, "pptx") {
        return "documents".to_string();
    }
    if starts_with_str(&nm, "game-") {
        return "game".to_string();
    }
    if starts_with_str(&nm, "resume-") {
        return "resume".to_string();
    }
    "builtin".to_string()
}

/// Where a file of a skill is listed: `SKILL.md` (any case) first, then
/// other markdown, then the rest.
pub open spec fn rank_spec(name: Seq<char>) -> u8 {
    if lower_ascii(name) == "skill.md"@ {
        0
    } else if ends_with(lower_ascii(name), ".md"@) {
        1
    } else {
        2
    }
}

pub fn skill_file_rank(name: &str) -> (r: u8)
    ensures
        r == rank_spec(name@),
{
    let l = lower_chars(&chars_of(name));
    if eq_str(&l, "skill.md") {
        0
    } else if crate::text::ends_with_str(&l, ".md") {
        1
    } else {
        2
    }
}

/// How a skill's file is shown, by its extension (any case): `markdown`,
/// `script`, `binary`, or else `text`.
pub open spec fn kind_spec(rel: Seq<char>) -> Seq<char> {
    let e = match extension(lower_ascii(rel)) {
        Some(x) => x,
        None => Seq::empty(),
    };
    if e == "md"@ || e == "markdown"@ {
        "markdown"@
    } else if e == "py"@ || e == "sh"@ || e == "bash"@ || e == "zsh"@ || e == "js"@ || e == "mjs"@
        || e == "cjs"@ || e == "ts"@ || e == "tsx"@ || e == "jsx"@ || e == "rb"@ || e == "pl"@
        || e == "lua"@ || e == "r"@ || e == "go"@ || e == "rs"@ || e == "java"@ || e == "php"@ {
        "script"@
    } else if e == "png"@ || e == "jpg"@ || e == "jpeg"@ || e == "gif"@ || e == "webp"@ || e
        == "ico"@ || e == "pdf"@ || e == "zip"@ || e == "gz"@ || e == "woff"@ || e == "woff2"@ || e
        == "bin"@ {
        "binary"@
    } else {
        "text"@
    }
}

pub fn file_kind(rel: &str) -> (r: &'static str)
    ensures
        r@ == kind_spec(rel@),
{
    let l = lower_chars(&chars_of(rel));
    let e = match extension_of(&l) {
        Some(x) => x,
        None => Vec::new(),
    };
    proof {
        if extension(lower_ascii(rel@)) is None {
            assert(e@ =~= Seq::<char>::empty());
        }
    }
    if eq_str(&e, "md") || eq_str(&e, "markdown") {
        "markdown"
    } else if eq_str(&e, "py") || eq_str(&e, "sh") || eq_str(&e, "bash") || eq_str(&e, "zsh")
        || eq_str(&e, "js") || eq_str(&e, "mjs") || eq_str(&e, "cjs") || eq_str(&e, "ts") || eq_str(
        &e,
        "tsx",
    ) || eq_str(&e, "jsx") || eq_str(&e, "rb") || eq_str(&e, "pl") || eq_str(&e, "lua") || eq_str(
        &e,
        "r",
    ) || eq_str(&e, "go") || eq_str(&e, "rs") || eq_str(&e, "java") || eq_str(&e, "php") {
        "script"
    } else if eq_str(&e, "png") || eq_str(&e, "jpg") || eq_str(&e, "jpeg") || eq_str(&e, "gif")
        || eq_str(&e, "webp") || eq_str(&e, "ico") || eq_str(&e, "pdf") || eq_str(&e, "zip")
        || eq_str(&e, "gz") || eq_str(&e, "woff") || eq_str(&e, "woff2") || eq_str(&e, "bin") {
        "binary"
    } else {
        "text"
    }
}

/// The extension of `name` is `e`, ignoring ASCII case.
pub open spec fn ext_is(name: Seq<char>, e: Seq<char>) -> bool {
    match extension(name) {
        Some(x) => lower_ascii(x) == e,
        None => false,
    }
}

/// An upload is a zip archive when it is named `.zip`, or starts with `PK`
/// (and has at least four bytes) and is named `.skill` or is not named `.md`.
pub open spec fn zip_upload_spec(lower_name: Seq<char>, bytes: Seq<u8>) -> bool {
    let magic = bytes.len() >= 4 && bytes[0] == 0x50u8 && bytes[1] == 0x4bu8;
    ext_is(lower_name, "zip"@) || (ext_is(lower_name, "skill"@) && magic) || (magic && !ext_is(
        lower_name,
        "md"@,
    ))
}

fn ext_matches(ext: &Option<Vec<char>>, e: &str) -> (r: bool)
    ensures
        r == (match ext {
            Some(x) => lower_ascii(x@) == e@,
            None => false,
        }),
{
    match ext {
        Some(x) => {
            let l = lower_chars(x);
            eq_str(&l, e)
        },
        None => false,
    }
}

pub fn is_zip_upload(lower_name: &str, bytes: &[u8]) -> (r: bool)
    ensures
        r == zip_upload_spec(lower_name@, bytes@),
{
    let magic = bytes.len() >= 4 && bytes[0] == 0x50u8 && bytes[1] == 0x4bu8;
    let ext = extension_of(&chars_of(lower_name));
    let is_zip = ext_matches(&ext, "zip");
    let is_skill = ext_matches(&ext, "skill");
    let is_md = ext_matches(&ext, "md");
    is_zip || (is_skill && magic) || (magic && !is_md)
}

/// One character of a name read into a slug, after `out`: letters and
/// digits are kept (lower-cased); a `-`, `_` or space becomes one `-`,
/// unless nothing is kept yet or a `-` is last; anything else is dropped.
pub open spec fn slug_step(out: Seq<char>, c: char) -> Seq<char> {
    let l = ascii_lower(c);
    if is_ascii_alnum(l) {
        out.push(l)
    } else if (l == '-' || l == '_' || l == ' ') && out.len() > 0 && out.last() != '-' {
        out.push('-')
    } else {
        out
    }
}

pub open spec fn slug_fold(s: Seq<char>) -> Seq<char>
    decreases s.len(),
{
    if s.len() == 0 {
        Seq::empty()
    } else {
        slug_step(slug_fold(s.drop_last()), s.last())
    }
}

/// The slug of a name: its trimmed characters read one by one, then any
/// trailing `-` dropped; it must not be empty nor longer than [`MAX_NAME`].
pub open spec fn slug_spec(raw: Seq<char>) -> Result<Seq<char>, SkillError> {
    let out = strip_trailing(slug_fold(trim(raw)), '-');
    if out.len() == 0 {
        Err(SkillError::NameRequired)
    } else if out.len() > MAX_NAME {
        Err(SkillError::NameTooLong)
    } else {
        Ok(out)
    }
}

pub open spec fn slug_char(c: char) -> bool {
    ('a' <= c && c <= 'z') || ('0' <= c && c <= '9') || c == '-'
}

/// A slug: lower-case letters, digits and single hyphens, with no hyphen at
/// either end.
pub open spec fn is_slug(s: Seq<char>) -> bool {
    &&& s.len() > 0
    &&& forall|i: int| 0 <= i < s.len() ==> slug_char(#[trigger] s[i])
    &&& s[0] != '-'
    &&& s.last() != '-'
    &&& forall|i: int| 0 <= i < s.len() - 1 ==> !(#[trigger] s[i] == '-' && s[i + 1] == '-')
}

/// What every step of [`slug_fold`] keeps: slug characters, no `-` first, no `--`.
pub open spec fn slug_prefix(s: Seq<char>) -> bool {
    &&& forall|i: int| 0 <= i < s.len() ==> slug_char(#[trigger] s[i])
    &&& (s.len() > 0 ==> s[0] != '-')
    &&& forall|i: int| 0 <= i < s.len() - 1 ==> !(#[trigger] s[i] == '-' && s[i + 1] == '-')
}

proof fn lemma_slug_fold_shape(s: Seq<char>)
    ensures
        slug_prefix(slug_fold(s)),
    decreases s.len(),
{
    if s.len() > 0 {
        lemma_slug_fold_shape(s.drop_last());
        let prev = slug_fold(s.drop_last());
        let next = slug_fold(s);
        assert forall|i: int| 0 <= i < next.len() implies slug_char(#[trigger] next[i]) by {
            if i < prev.len() {
                assert(next[i] == prev[i]);
            }
        }
        assert forall|i: int| 0 <= i < next.len() - 1 implies !(#[trigger] next[i] == '-' && next[i
            + 1] == '-') by {
            if i + 1 < prev.len() {
                assert(next[i] == prev[i] && next[i + 1] == prev[i + 1]);
            } else if i + 1 == prev.len() {
                assert(next[i] == prev.last());
            }
        }
    }
}

proof fn lemma_strip_trailing_prefix(s: Seq<char>, c: char)
    ensures
        strip_trailing(s, c).len() <= s.len(),
        strip_trailing(s, c) == s.take(strip_trailing(s, c).len() as int),
        strip_trailing(s, c).len() > 0 ==> strip_trailing(s, c).last() != c,
    decreases s.len(),
{
    if s.len() > 0 && s.last() == c {
        lemma_strip_trailing_prefix(s.drop_last(), c);
        let t = strip_trailing(s, c);
        assert(s.drop_last().take(t.len() as int) =~= s.take(t.len() as int));
    } else {
        assert(s.take(s.len() as int) =~= s);
    }
}

/// A name made into a slug.
pub fn slug_name(raw: &str) -> (r: Result<String, SkillError>)
    ensures
        match slug_spec(raw@) {
            Ok(s) => r matches Ok(v) && v@ == s,
            Err(e) => r == Err::<String, SkillError>(e),
        },
        r matches Ok(v) ==> is_slug(v@),
{
    let t = trim_str(raw);
    let mut out: Vec<char> = Vec::new();
    let mut i: usize = 0;
    proof {
        assert(t@.take(0) =~= Seq::<char>::empty());
    }
    while i < t.len()
        invariant
            i <= t.len(),
            t@ == trim(raw@),
            out@ == slug_fold(t@.take(i as int)),
        decreases t.len() - i,
    {
        let c = to_ascii_lower(t[i]);
        proof {
            assert(t@.take(i + 1).drop_last() =~= t@.take(i as int));
            assert(t@.take(i + 1).last() == t@[i as int]);
        }
        if crate::text::is_ascii_alphanumeric(c) {
            out.push(c);
        } else if (c == '-' || c == '_' || c == ' ') && out.len() > 0 && out[out.len() - 1] != '-' {
            proof {
                assert(out@.last() == out@[out.len() - 1]);
            }
            out.push('-');
        } else {
            proof {
                if out.len() > 0 {
                    assert(out@.last() == out@[out.len() - 1]);
                }
            }
        }
        i += 1;
    }
    proof {
        assert(t@.take(t.len() as int) =~= t@);
        lemma_slug_fold_shape(t@);
        lemma_strip_trailing_prefix(slug_fold(t@), '-');
    }
    let s = strip_trailing_chars(&out, '-');
    if s.len() == 0 {
        return Err(SkillError::NameRequired);
    }
    if s.len() > MAX_NAME {
        return Err(SkillError::NameTooLong);
    }
    proof {
        let f = slug_fold(t@);
        assert forall|k: int| 0 <= k < s@.len() implies slug_char(#[trigger] s@[k]) by {
            assert(s@[k] == f[k]);
        }
        assert forall|k: int| 0 <= k < s@.len() - 1 implies !(#[trigger] s@[k] == '-' && s@[k
            + 1] == '-') by {
            assert(s@[k] == f[k] && s@[k + 1] == f[k + 1]);
        }
        assert(s@[0] == f[0]);
    }
    Ok(string_of(&s))
}

proof fn lemma_trim_of_slug(s: Seq<char>)
    requires
        is_slug(s),
    ensures
        trim(s) == s,
{
    assert(!is_ws(s[0])) by {
        assert(slug_char(s[0]));
    }
    assert(!is_ws(s.last())) by {
        assert(slug_char(s[s.len() - 1]));
    }
    assert(crate::text::trim_start(s) == s);
}

proof fn lemma_slug_fold_fixed(s: Seq<char>, k: int)
    requires
        is_slug(s),
        0 <= k <= s.len(),
    ensures
        slug_fold(s.take(k)) == s.take(k),
    decreases k,
{
    if k > 0 {
        lemma_slug_fold_fixed(s, k - 1);
        assert(s.take(k).drop_last() =~= s.take(k - 1));
        assert(s.take(k).last() == s[k - 1]);
        assert(slug_char(s[k - 1]));
        if s[k - 1] == '-' {
            assert(k - 1 > 0);
            assert(s.take(k - 1).last() == s[k - 2]);
            assert(!(s[k - 2] == '-' && s[k - 1] == '-'));
        }
        assert(s.take(k - 1).push(s[k - 1]) =~= s.take(k));
    }
}

/// Making a slug of a slug changes nothing.
pub proof fn law_slug_idempotent(s: Seq<char>)
    requires
        is_slug(s),
        s.len() <= MAX_NAME,
    ensures
        slug_spec(s) == Ok::<Seq<char>, SkillError>(s),
{
    lemma_trim_of_slug(s);
    lemma_slug_fold_fixed(s, s.len() as int);
    assert(s.take(s.len() as int) =~= s);
}

/// Characters that make YAML read a plain value differently: punctuation
/// with a meaning in YAML, and white space other than the space.
pub open spec fn yaml_special(c: char) -> bool {
    c == ':' || c == '#' || c == '"' || c == '\'' || c == '{' || c == '}' || c == '[' || c == ']'
        || c == ',' || c == '&' || c == '*' || c == '!' || c == '|' || c == '>' || c == '%' || c
        == '@' || c == '`' || (is_ws(c) && c != ' ')
}

/// Line breaks turned into spaces.
pub open spec fn flatten(s: Seq<char>) -> Seq<char> {
    s.map_values(|c: char| if c == '\n' || c == '\r' { ' ' } else { c })
}

pub open spec fn needs_quotes(f: Seq<char>) -> bool {
    f.len() == 0 || (exists|i: int| 0 <= i < f.len() && yaml_special(#[trigger] f[i])) || (f[0]
        == ' ' || f[0] == '-' || f[0] == '?')
}

/// A one-line YAML scalar for `raw`: line breaks become spaces and the text
/// is trimmed; when it is empty, holds a special character or starts with
/// `-` or `?`, it is put in double quotes with `\` and `"` escaped.
pub open spec fn yaml_spec(raw: Seq<char>) -> Seq<char> {
    let flat = trim(flatten(raw));
    if needs_quotes(flat) {
        seq!['"'] + replace(replace(flat, "\\"@, "\\\\"@), "\""@, "\\\""@) + seq!['"']
    } else {
        flat
    }
}

fn is_yaml_special(c: char) -> (r: bool)
    ensures
        r == yaml_special(c),
{
    c == ':' || c == '#' || c == '"' || c == '\'' || c == '{' || c == '}' || c == '[' || c == ']'
        || c == ',' || c == '&' || c == '*' || c == '!' || c == '|' || c == '>' || c == '%' || c
        == '@' || c == '`' || (is_whitespace(c) && c != ' ')
}

pub fn yaml_escape(raw: &str) -> (r: String)
    ensures
        r@ == yaml_spec(raw@),
{
    let src = chars_of(raw);
    let mut mapped: Vec<char> = Vec::new();
    let mut i: usize = 0;
    while i < src.len()
        invariant
            i <= src.len(),
            mapped@ == flatten(src@).take(i as int),
        decreases src.len() - i,
    {
        let c = src[i];
        mapped.push(
            if c == '\n' || c == '\r' {
                ' '
            } else {
                c
            },
        );
        proof {
            assert(mapped@ =~= flatten(src@).take(i + 1));
        }
        i += 1;
    }
    proof {
        assert(flatten(src@).take(i as int) =~= flatten(src@));
    }
    let flat = trim_chars(&mapped);
    let mut special = false;
    let mut k: usize = 0;
    while k < flat.len()
        invariant
            k <= flat.len(),
            special <==> exists|j: int| 0 <= j < k && yaml_special(#[trigger] flat@[j]),
        decreases flat.len() - k,
    {
        if is_yaml_special(flat[k]) {
            special = true;
        }
        k += 1;
    }
    let needs = flat.len() == 0 || special || flat[0] == ' ' || flat[0] == '-' || flat[0] == '?';
    if needs {
        let p1 = chars_of("\\");
        let r1 = chars_of("\\\\");
        let p2 = chars_of("\"");
        let r2 = chars_of("\\\"");
        proof {
            reveal_strlit("\\");
            reveal_strlit("\"");
        }
        let a = replace_chars(&flat, &p1, &r1);
        let b = replace_chars(&a, &p2, &r2);
        let mut out: Vec<char> = Vec::new();
        out.push('"');
        extend(&mut out, &b);
        out.push('"');
        proof {
            assert(out@ =~= seq!['"'] + b@ + seq!['"']);
        }
        string_of(&out)
    } else {
        string_of(&flat)
    }
}

/// The markdown of a new skill: front matter with its name and description,
/// then the trimmed body and a final newline.
pub open spec fn skill_md_spec(name: Seq<char>, description: Seq<char>, body: Seq<char>) -> Seq<char> {
    "---\nname: "@ + name + "\ndescription: "@ + yaml_spec(description) + "\n---\n\n"@ + trim(body)
        + "\n"@
}

pub fn render_skill_md(name: &str, description: &str, body: &str) -> (r: String)
    ensures
        r@ == skill_md_spec(name@, description@, body@),
{
    let mut out: Vec<char> = Vec::new();
    extend_str(&mut out, "---\nname: ");
    extend_str(&mut out, name);
    extend_str(&mut out, "\ndescription: ");
    let y = yaml_escape(description);
    extend_str(&mut out, y.as_str());
    extend_str(&mut out, "\n---\n\n");
    let b = trim_str(body);
    extend(&mut out, &b);
    extend_str(&mut out, "\n");
    string_of(&out)
}

/// The directory of a user skill: `skills/<name>` under grok's home.
pub fn user_skill_dir(grok_home: &str, name: &str) -> (r: String)
    ensures
        r@ == join(join(grok_home@, "skills"@), name@),
{
    let s = join_str(grok_home, "skills");
    join_str(s.as_str(), name)
}


pub open spec fn opt_seq(o: Option<String>) -> Seq<char> {
    match o {
        Some(x) => x@,
        None => Seq::empty(),
    }
}

/// The line under a skill card: the short description when there is one
/// (trimmed); else the description's first sentence (up to the first `. `,
/// the period kept), trimmed and cut to 140 characters plus `…`; nothing
/// for a YAML block marker.
pub open spec fn card_spec(short: Option<String>, description: Option<String>) -> Seq<char> {
    let sd = trim(opt_seq(short));
    if sd.len() > 0 {
        sd
    } else {
        let raw = trim(opt_seq(description));
        if folded_spec(raw) {
            Seq::empty()
        } else {
            let cut = match crate::text::find(raw, ". "@) {
                Some(i) => i + 1,
                None => raw.len() as int,
            };
            let s = trim(raw.take(cut));
            if s.len() > 140 {
                trim(s.take(140)).push('…')
            } else {
                s
            }
        }
    }
}

pub fn card_description(meta: &Frontmatter) -> (r: String)
    ensures
        r@ == card_spec(meta.short_description, meta.description),
{
    let sd = match &meta.short_description {
        Some(x) => trim_str(x.as_str()),
        None => Vec::new(),
    };
    proof {
        if meta.short_description is None {
            assert(trim(Seq::<char>::empty()) =~= Seq::<char>::empty()) by {
                assert(crate::text::trim_start(Seq::<char>::empty()) =~= Seq::<char>::empty());
            }
        }
    }
    if sd.len() > 0 {
        return string_of(&sd);
    }
    let raw = match &meta.description {
        Some(x) => trim_str(x.as_str()),
        None => Vec::new(),
    };
    proof {
        if meta.description is None {
            assert(trim(Seq::<char>::empty()) =~= Seq::<char>::empty()) by {
                assert(crate::text::trim_start(Seq::<char>::empty()) =~= Seq::<char>::empty());
            }
        }
        assert(trim(raw@) == raw@) by {
            crate::text::lemma_trim_idem(opt_seq(meta.description));
        }
    }
    let raw_s = string_of(&raw);
    if looks_folded(raw_s.as_str()) {
        return String::new();
    }
    let cut = match crate::text::find_str(&raw, ". ") {
        Some(i) => {
            proof {
                reveal_strlit(". ");
            }
            i + 1
        },
        None => raw.len(),
    };
    let head = crate::text::slice_of(&raw, 0, cut);
    let s = trim_chars(&head);
    proof {
        assert(head@ =~= raw@.take(cut as int));
    }
    if s.len() > 140 {
        let first = crate::text::slice_of(&s, 0, 140);
        let mut t = trim_chars(&first);
        proof {
            assert(first@ =~= s@.take(140));
        }
        t.push('…');
        string_of(&t)
    } else {
        string_of(&s)
    }
}

/// A word of a label: its first character upper-cased (ASCII).
pub open spec fn capitalized(p: Seq<char>) -> Seq<char> {
    seq![ascii_upper(p[0])] + p.drop_first()
}

/// The non-empty pieces, capitalized.
pub open spec fn label_words(pieces: Seq<Seq<char>>) -> Seq<Seq<char>>
    decreases pieces.len(),
{
    if pieces.len() == 0 {
        Seq::empty()
    } else {
        let prev = label_words(pieces.drop_last());
        if pieces.last().len() == 0 {
            prev
        } else {
            prev.push(capitalized(pieces.last()))
        }
    }
}

/// Words joined by single spaces.
pub open spec fn join_space(ws: Seq<Seq<char>>) -> Seq<char>
    decreases ws.len(),
{
    if ws.len() == 0 {
        Seq::empty()
    } else if ws.len() == 1 {
        ws[0]
    } else {
        join_space(ws.drop_last()) + seq![' '] + ws.last()
    }
}

/// The title of a skill card: fixed titles for the bundled document skills
/// and the skill creator; else the name's `-`-separated words, capitalized,
/// joined by spaces.
pub open spec fn label_spec(name: Seq<char>) -> Seq<char> {
    if name == "docx"@ {
        "Word Documents"@
    } else if name == "pdf"@ {
        "PDFs"@
    } else if name == "pptx"@ {
        "Presentations"@
    } else if name == "create-skill"@ {
        "Skill Creator"@
    } else {
        join_space(label_words(crate::pathx::split(name, '-')))
    }
}

pub fn skill_label(name: &str) -> (r: String)
    ensures
        r@ == label_spec(name@),
{
    let n = chars_of(name);
    if eq_str(&n, "docx") {
        return "Word Documents".to_string();
    }
    if eq_str(&n, "pdf") {
        return "PDFs".to_string();
    }
    if eq_str(&n, "pptx") {
        return "Presentations".to_string();
    }
    if eq_str(&n, "create-skill") {
        return "Skill Creator".to_string();
    }
    let pieces = crate::pathx::split_chars(&n, '-');
    let ghost pv = views(pieces@);
    let mut out: Vec<char> = Vec::new();
    let mut i: usize = 0;
    proof {
        assert(pv.take(0) =~= Seq::<Seq<char>>::empty());
    }
    while i < pieces.len()
        invariant
            i <= pieces.len(),
            pv == views(pieces@),
            pv == crate::pathx::split(n@, '-'),
            out@ == join_space(label_words(pv.take(i as int))),
        decreases pieces.len() - i,
    {
        let p = &pieces[i];
        let ghost before = label_words(pv.take(i as int));
        proof {
            lemma_label_words_nonempty(pv.take(i as int));
            lemma_join_space_nonempty(before);
            assert(pv[i as int] == p@);
            assert(pv.take(i + 1).drop_last() =~= pv.take(i as int));
            assert(pv.take(i + 1).last() == p@);
        }
        if p.len() > 0 {
            let c = p[0];
            let up = if 'a' <= c && c <= 'z' {
                ((c as u8) - 32) as char
            } else {
                c
            };
            proof {
                assert(up == ascii_upper(c));
            }
            if out.len() > 0 {
                out.push(' ');
            }
            let ghost mid = out@;
            out.push(up);
            let rest = crate::text::slice_of(p, 1, p.len());
            extend(&mut out, &rest);
            proof {
                assert(rest@ =~= p@.drop_first());
                let next = before.push(capitalized(p@));
                assert(label_words(pv.take(i + 1)) == next);
                if before.len() == 0 {
                    assert(out@ =~= capitalized(p@));
                } else {
                    assert(next.drop_last() =~= before);
                    assert(out@ =~= join_space(before) + seq![' '] + capitalized(p@));
                }
            }
        }
        i += 1;
    }
    proof {
        assert(pv.take(pieces.len() as int) =~= pv);
    }
    string_of(&out)
}

proof fn lemma_label_words_nonempty(pieces: Seq<Seq<char>>)
    ensures
        forall|i: int| 0 <= i < label_words(pieces).len() ==> (#[trigger] label_words(pieces)[i]).len() > 0,
    decreases pieces.len(),
{
    if pieces.len() > 0 {
        lemma_label_words_nonempty(pieces.drop_last());
        let prev = label_words(pieces.drop_last());
        let cur = label_words(pieces);
        assert forall|i: int| 0 <= i < cur.len() implies (#[trigger] cur[i]).len() > 0 by {
            if i < prev.len() {
                assert(cur[i] == prev[i]);
            }
        }
    }
}

proof fn lemma_join_space_nonempty(ws: Seq<Seq<char>>)
    requires
        forall|i: int| 0 <= i < ws.len() ==> (#[trigger] ws[i]).len() > 0,
    ensures
        ws.len() > 0 <==> join_space(ws).len() > 0,
    decreases ws.len(),
{
    if ws.len() > 1 {
        lemma_join_space_nonempty(ws.drop_last());
    }
}


/// A relative path inside an upload, made safe: `\` read as `/`; refused
/// when it ends in `/`, is absolute, holds `..`, or names nothing; else its
/// normal components joined by `/` (`.` and empty ones dropped).
pub open spec fn safe_rel_spec(name: Seq<char>) -> Option<Seq<char>> {
    let n = replace(name, "\\"@, "/"@);
    let segs = crate::pathx::normal_segs(crate::pathx::split(n, '/'));
    if ends_with(n, "/"@) || (n.len() > 0 && n[0] == '/') {
        None
    } else if exists|i: int| 0 <= i < segs.len() && #[trigger] segs[i] == ".."@ {
        None
    } else if segs.len() == 0 {
        None
    } else {
        Some(join_slash(segs))
    }
}

pub fn safe_rel(name: &str) -> (r: Option<String>)
    ensures
        match safe_rel_spec(name@) {
            Some(p) => r matches Some(s) && s@ == p,
            None => r is None,
        },
{
    let raw = chars_of(name);
    let p1 = chars_of("\\");
    let r1 = chars_of("/");
    proof {
        reveal_strlit("\\");
    }
    let n = replace_chars(&raw, &p1, &r1);
    if crate::text::ends_with_str(&n, "/") || (n.len() > 0 && n[0] == '/') {
        return None;
    }
    let pieces = crate::pathx::split_chars(&n, '/');
    let segs = crate::pathx::normal_segments(&pieces);
    let ghost sv = views(segs@);
    proof {
        assert(sv == crate::pathx::normal_segs(crate::pathx::split(n@, '/')));
        assert(n@ == replace(name@, "\\"@, "/"@));
    }
    let mut k: usize = 0;
    while k < segs.len()
        invariant
            k <= segs.len(),
            sv == views(segs@),
            sv == crate::pathx::normal_segs(crate::pathx::split(n@, '/')),
            n@ == replace(name@, "\\"@, "/"@),
            !(ends_with(n@, "/"@) || (n@.len() > 0 && n@[0] == '/')),
            forall|j: int| 0 <= j < k ==> sv[j] != ".."@,
        decreases segs.len() - k,
    {
        proof {
            assert(sv[k as int] == segs@[k as int]@);
        }
        if eq_str(&segs[k], "..") {
            proof {
                assert(sv[k as int] == ".."@);
            }
            return None;
        }
        k += 1;
    }
    if segs.len() == 0 {
        return None;
    }
    let joined = crate::pathx::join_slash_exec(&segs, 0, segs.len());
    proof {
        assert(sv.subrange(0, segs.len() as int) =~= sv);
    }
    Some(string_of(&joined))
}

/// The three front-matter values found so far.
pub type FmState = (Option<Seq<char>>, Option<Seq<char>>, Option<Seq<char>>);

/// One line of the front matter: blank lines and `#` comments are skipped,
/// as are lines without `:`; `key: value` sets `name`, `description` or
/// `short-description` (`short_description`) unless already set, the value
/// trimmed and unquoted.
pub open spec fn fm_step(st: FmState, raw: Seq<char>) -> FmState {
    let line = trim(raw);
    if line.len() == 0 || line[0] == '#' {
        st
    } else {
        match crate::text::fpos(line, ':') {
            None => st,
            Some(i) => {
                let key = trim(line.take(i));
                let val = unquote_spec(trim(line.skip(i + 1)));
                if key == "name"@ && st.0 is None {
                    (Some(val), st.1, st.2)
                } else if key == "description"@ && st.1 is None {
                    (st.0, Some(val), st.2)
                } else if (key == "short-description"@ || key == "short_description"@) && st.2 is None {
                    (st.0, st.1, Some(val))
                } else {
                    st
                }
            },
        }
    }
}

pub open spec fn fm_fold(ls: Seq<Seq<char>>) -> FmState
    decreases ls.len(),
{
    if ls.len() == 0 {
        (None, None, None)
    } else {
        fm_step(fm_fold(ls.drop_last()), ls.last())
    }
}

/// The front-matter block of a `SKILL.md`: after any byte-order marks the
/// text must start with `---`; the block runs from the next line to the
/// first `\n---` (or to the end).
pub open spec fn fm_block(text: Seq<char>) -> Option<Seq<char>> {
    let t = crate::text::strip_leading(text, '\u{feff}');
    if !starts_with(t, "---"@) {
        None
    } else {
        let r0 = t.skip(3);
        let r1 = if starts_with(r0, "\n"@) {
            r0.skip(1)
        } else if starts_with(r0, "\r\n"@) {
            r0.skip(2)
        } else {
            r0
        };
        Some(
            match crate::text::find(r1, "\n---"@) {
                Some(i) => r1.take(i),
                None => r1,
            },
        )
    }
}

pub open spec fn fm_spec(text: Seq<char>) -> FmState {
    match fm_block(text) {
        None => (None, None, None),
        Some(b) => fm_fold(crate::prefs::lines(b)),
    }
}

pub open spec fn opt_view(o: Option<String>) -> Option<Seq<char>> {
    match o {
        Some(s) => Some(s@),
        None => None,
    }
}

pub open spec fn fm_view(f: Frontmatter) -> FmState {
    (opt_view(f.name), opt_view(f.description), opt_view(f.short_description))
}

fn some_string(v: &Vec<char>) -> (r: Option<String>)
    ensures
        opt_view(r) == Some(v@),
{
    Some(string_of(v))
}

/// The front matter of a `SKILL.md` text.
pub fn parse_frontmatter(text: &str) -> (r: Frontmatter)
    ensures
        fm_view(r) == fm_spec(text@),
{
    let raw = chars_of(text);
    let t = crate::text::strip_leading_chars(&raw, '\u{feff}');
    if !starts_with_str(&t, "---") {
        return Frontmatter { name: None, description: None, short_description: None };
    }
    proof {
        reveal_strlit("---");
        reveal_strlit("\n");
        reveal_strlit("\r\n");
    }
    let r0 = crate::text::slice_of(&t, 3, t.len());
    proof {
        assert(r0@ =~= t@.skip(3));
    }
    let r1 = if starts_with_str(&r0, "\n") {
        let x = crate::text::slice_of(&r0, 1, r0.len());
        proof {
            assert(x@ =~= r0@.skip(1));
        }
        x
    } else if starts_with_str(&r0, "\r\n") {
        let x = crate::text::slice_of(&r0, 2, r0.len());
        proof {
            assert(x@ =~= r0@.skip(2));
        }
        x
    } else {
        r0
    };
    let block = match crate::text::find_str(&r1, "\n---") {
        Some(i) => {
            proof {
                reveal_strlit("\n---");
            }
            let x = crate::text::slice_of(&r1, 0, i);
            proof {
                assert(x@ =~= r1@.take(i as int));
            }
            x
        },
        None => r1,
    };
    let ls = crate::prefs::lines_of(&block);
    let ghost lv = views(ls@);
    let mut name: Option<String> = None;
    let mut description: Option<String> = None;
    let mut short: Option<String> = None;
    let mut i: usize = 0;
    proof {
        assert(lv.take(0) =~= Seq::<Seq<char>>::empty());
    }
    while i < ls.len()
        invariant
            i <= ls.len(),
            lv == views(ls@),
            lv == crate::prefs::lines(block@),
            (opt_view(name), opt_view(description), opt_view(short)) == fm_fold(lv.take(i as int)),
        decreases ls.len() - i,
    {
        let ghost st = (opt_view(name), opt_view(description), opt_view(short));
        proof {
            assert(lv[i as int] == ls@[i as int]@);
            assert(lv.take(i + 1).drop_last() =~= lv.take(i as int));
            assert(lv.take(i + 1).last() == ls@[i as int]@);
        }
        let line = trim_chars(&ls[i]);
        if line.len() > 0 && line[0] != '#' {
            match crate::text::fpos_char(&line, ':') {
                None => {},
                Some(c) => {
                    let kpart = crate::text::slice_of(&line, 0, c);
                    let vpart = crate::text::slice_of(&line, c + 1, line.len());
                    let key = trim_chars(&kpart);
                    let vt = trim_chars(&vpart);
                    let val = unquote(&vt);
                    proof {
                        assert(kpart@ =~= line@.take(c as int));
                        assert(vpart@ =~= line@.skip(c + 1));
                    }
                    if eq_str(&key, "name") && name.is_none() {
                        name = some_string(&val);
                    } else if eq_str(&key, "description") && description.is_none() {
                        description = some_string(&val);
                    } else if (eq_str(&key, "short-description") || eq_str(&key, "short_description"))
                        && short.is_none() {
                        short = some_string(&val);
                    }
                },
            }
        }
        i += 1;
    }
    proof {
        assert(lv.take(ls.len() as int) =~= lv);
    }
    Frontmatter { name, description, short_description: short }
}

/// A value that is present and not empty.
pub open spec fn nonempty(o: Option<Seq<char>>) -> Option<Seq<char>> {
    match o {
        Some(s) => if s.len() > 0 {
            Some(s)
        } else {
            None
        },
        None => None,
    }
}

/// The card of a skill found in the directory `dir_name` with its
/// `SKILL.md` at `md_path`: named by its front matter, else by the
/// directory, else `skill`.
pub fn skill_info(meta: &Frontmatter, dir_name: Option<String>, md_path: String, scope: &str) -> (r:
    SkillInfo)
    ensures
        r.name@ == (match nonempty(opt_view(meta.name)) {
            Some(n) => n,
            None => match dir_name {
                Some(d) => d@,
                None => "skill"@,
            },
        }),
        r.description@ == card_spec(meta.short_description, meta.description),
        r.label@ == label_spec(r.name@),
        r.category@ == category_spec(scope@, r.name@),
        r.path == md_path,
        r.scope@ == scope@,
{
    let name = match &meta.name {
        Some(n) => if !n.as_str().is_empty() {
            string_of(&chars_of(n.as_str()))
        } else {
            match dir_name {
                Some(d) => d,
                None => "skill".to_string(),
            }
        },
        None => match dir_name {
            Some(d) => d,
            None => "skill".to_string(),
        },
    };
    let description = card_description(meta);
    let label = skill_label(name.as_str());
    let category = skill_category(scope, name.as_str());
    SkillInfo { name, label, description, path: md_path, scope: scope.to_string(), category }
}


/// A new skill's slug and markdown: the name made into a slug, and a
/// description that must not be blank (it is trimmed).
pub fn create_contents(name: &str, description: &str, body: &str) -> (r: Result<(String, String), SkillError>)
    ensures
        match slug_spec(name@) {
            Err(e) => r == Err::<(String, String), SkillError>(e),
            Ok(slug) => if trim(description@).len() == 0 {
                r == Err::<(String, String), SkillError>(SkillError::DescriptionRequired)
            } else {
                r matches Ok((n, md)) && n@ == slug && md@ == skill_md_spec(
                    slug,
                    trim(description@),
                    body@,
                )
            },
        },
{
    let slug = match slug_name(name) {
        Ok(s) => s,
        Err(e) => {
            return Err(e);
        },
    };
    let d = trim_str(description);
    if d.len() == 0 {
        return Err(SkillError::DescriptionRequired);
    }
    let ds = string_of(&d);
    let md = render_skill_md(slug.as_str(), ds.as_str(), body);
    Ok((slug, md))
}

/// The name an uploaded skill gets: its front-matter name when not empty,
/// else `fallback`, made into a slug.
pub open spec fn upload_name_spec(meta_name: Option<String>, fallback: Seq<char>) -> Result<Seq<char>, SkillError> {
    slug_spec(
        match nonempty(opt_view(meta_name)) {
            Some(n) => n,
            None => fallback,
        },
    )
}

pub fn upload_name(meta_name: &Option<String>, fallback: &str) -> (r: Result<String, SkillError>)
    ensures
        match upload_name_spec(*meta_name, fallback@) {
            Ok(s) => r matches Ok(v) && v@ == s,
            Err(e) => r == Err::<String, SkillError>(e),
        },
{
    match meta_name {
        Some(n) => if !n.as_str().is_empty() {
            slug_name(n.as_str())
        } else {
            slug_name(fallback)
        },
        None => slug_name(fallback),
    }
}

/// The stem of an uploaded markdown file's name, with `SKILL` (any case)
/// counting as no name.
pub open spec fn md_stem_spec(filename: Seq<char>) -> Seq<char> {
    let stem = match crate::pathx::file_stem(filename) {
        Some(x) => x,
        None => Seq::empty(),
    };
    if lower_ascii(stem) == "skill"@ {
        Seq::empty()
    } else {
        stem
    }
}

/// The slug and the markdown to store for an uploaded markdown skill: the
/// text as it is when it starts (after white space) with `---`, else the
/// text rendered under front matter with its description.
pub fn markdown_upload(filename: &str, text: &str) -> (r: Result<(String, String), SkillError>)
    ensures
        ({
            let fm = fm_spec(text@);
            match upload_name_spec_v(fm.0, md_stem_spec(filename@)) {
                Err(e) => r == Err::<(String, String), SkillError>(e),
                Ok(slug) => r matches Ok((n, md)) && n@ == slug && md@ == (if starts_with(
                    crate::text::trim_start(text@),
                    "---"@,
                ) {
                    text@
                } else {
                    skill_md_spec(
                        slug,
                        match fm.1 {
                            Some(d) => d,
                            None => Seq::empty(),
                        },
                        text@,
                    )
                }),
            }
        }),
{
    let meta = parse_frontmatter(text);
    let fname = chars_of(filename);
    let stem = match crate::pathx::file_stem_of(&fname) {
        Some(x) => x,
        None => Vec::new(),
    };
    let ls = lower_chars(&stem);
    let stem2 = if eq_str(&ls, "skill") {
        Vec::new()
    } else {
        stem
    };
    proof {
        if crate::pathx::file_stem(filename@) is None {
            assert(stem@ =~= Seq::<char>::empty());
        }
        assert(stem2@ == md_stem_spec(filename@));
    }
    let stem_s = string_of(&stem2);
    let slug = match upload_name(&meta.name, stem_s.as_str()) {
        Ok(s) => s,
        Err(e) => {
            return Err(e);
        },
    };
    let tv = chars_of(text);
    let k = crate::text::trim_start_index(&tv);
    let rest = crate::text::slice_of(&tv, k, tv.len());
    proof {
        assert(rest@ =~= tv@.skip(k as int));
    }
    if starts_with_str(&rest, "---") {
        Ok((slug, text.to_string()))
    } else {
        let desc = match &meta.description {
            Some(d) => string_of(&chars_of(d.as_str())),
            None => String::new(),
        };
        let md = render_skill_md(slug.as_str(), desc.as_str(), text);
        Ok((slug, md))
    }
}

/// [`upload_name_spec`] over a front-matter value.
pub open spec fn upload_name_spec_v(meta_name: Option<Seq<char>>, fallback: Seq<char>) -> Result<Seq<char>, SkillError> {
    slug_spec(
        match nonempty(meta_name) {
            Some(n) => n,
            None => fallback,
        },
    )
}

/// How deep a `SKILL.md` (any case) sits in an archive entry's safe path;
/// `None` for other entries.
pub open spec fn md_depth(name: Seq<char>) -> Option<nat> {
    match safe_rel_spec(name) {
        None => None,
        Some(r) => if lower_ascii(
            match crate::pathx::file_name(r) {
                Some(f) => f,
                None => Seq::empty(),
            },
        ) == "skill.md"@ {
            Some(comps(r).len())
        } else {
            None
        },
    }
}

/// The first entry whose `SKILL.md` sits at depth `d`.
pub open spec fn first_at_depth(names: Seq<Seq<char>>, d: nat) -> Option<int>
    decreases names.len(),
{
    if names.len() == 0 {
        None
    } else if md_depth(names[0]) == Some(d) {
        Some(0)
    } else {
        match first_at_depth(names.drop_first(), d) {
            Some(i) => Some(i + 1),
            None => None,
        }
    }
}

/// The `SKILL.md` of an archive: the first at its root, else the first one
/// folder deep.
pub open spec fn skill_md_entry(names: Seq<Seq<char>>) -> Option<int> {
    match first_at_depth(names, 1) {
        Some(i) => Some(i),
        None => first_at_depth(names, 2),
    }
}

proof fn lemma_first_at_depth_shift(names: Seq<Seq<char>>, d: nat, i: int)
    requires
        0 <= i <= names.len(),
        forall|j: int| 0 <= j < i ==> md_depth(#[trigger] names[j]) != Some(d),
    ensures
        first_at_depth(names, d) == (match first_at_depth(names.skip(i), d) {
            Some(k) => Some(k + i),
            None => None,
        }),
    decreases i,
{
    if i == 0 {
        assert(names.skip(0) =~= names);
    } else {
        lemma_first_at_depth_shift(names, d, i - 1);
        let t = names.skip(i - 1);
        assert(t[0] == names[i - 1]);
        assert(t.drop_first() =~= names.skip(i));
    }
}

proof fn lemma_first_at_depth_range(names: Seq<Seq<char>>, d: nat)
    ensures
        first_at_depth(names, d) matches Some(i) ==> 0 <= i < names.len() && md_depth(names[i])
            == Some(d) && forall|j: int| 0 <= j < i ==> md_depth(#[trigger] names[j]) != Some(d),
    decreases names.len(),
{
    if names.len() > 0 && md_depth(names[0]) != Some(d) {
        lemma_first_at_depth_range(names.drop_first(), d);
        match first_at_depth(names, d) {
            Some(i) => {
                assert forall|j: int| 0 <= j < i implies md_depth(#[trigger] names[j]) != Some(d) by {
                    if j > 0 {
                        assert(names[j] == names.drop_first()[j - 1]);
                    }
                }
                assert(names[i] == names.drop_first()[i - 1]);
            },
            None => {},
        }
    }
}

fn entry_depth(name: &String) -> (r: Option<(usize, String)>)
    ensures
        match md_depth(name@) {
            Some(d) => r matches Some((k, rel)) && k as nat == d && safe_rel_spec(name@) == Some(
                rel@,
            ),
            None => r is None,
        },
{
    let rel = match safe_rel(name.as_str()) {
        Some(r) => r,
        None => {
            return None;
        },
    };
    let rv = chars_of(rel.as_str());
    let f = match crate::pathx::file_name_of(&rv) {
        Some(x) => x,
        None => Vec::new(),
    };
    proof {
        if crate::pathx::file_name(rv@) is None {
            assert(f@ =~= Seq::<char>::empty());
        }
    }
    let lf = lower_chars(&f);
    if !eq_str(&lf, "skill.md") {
        return None;
    }
    let cs = components(&rv);
    proof {
        assert(views(cs@).len() == cs@.len());
    }
    Some((cs.len(), rel))
}

/// The archive entry holding the skill's `SKILL.md`, with its safe path.
pub fn find_skill_md(names: &[String]) -> (r: Option<(usize, String)>)
    ensures
        match skill_md_entry(names@.map_values(|s: String| s@)) {
            Some(i) => r matches Some((k, rel)) && k as int == i && k < names@.len() && safe_rel_spec(
                names@[i]@,
            ) == Some(rel@),
            None => r is None,
        },
{
    let ghost nv = names@.map_values(|s: String| s@);
    let mut found: Option<(usize, String)> = None;
    let mut i: usize = 0;
    while i < names.len()
        invariant
            i <= names.len(),
            nv == names@.map_values(|s: String| s@),
            forall|j: int| 0 <= j < i ==> md_depth(#[trigger] nv[j]) != Some(1nat),
            match found {
                Some((k, rel)) => k < i && first_at_depth(nv, 2) == Some(k as int) && safe_rel_spec(
                    nv[k as int],
                ) == Some(rel@),
                None => forall|j: int| 0 <= j < i ==> md_depth(#[trigger] nv[j]) != Some(2nat),
            },
        decreases names.len() - i,
    {
        proof {
            assert(nv[i as int] == names@[i as int]@);
        }
        match entry_depth(&names[i]) {
            Some((d, rel)) => {
                if d == 1 {
                    proof {
                        lemma_first_at_depth_shift(nv, 1, i as int);
                        let t = nv.skip(i as int);
                        assert(t[0] == nv[i as int]);
                    }
                    return Some((i, rel));
                }
                if d == 2 && found.is_none() {
                    proof {
                        lemma_first_at_depth_shift(nv, 2, i as int);
                        let t = nv.skip(i as int);
                        assert(t[0] == nv[i as int]);
                    }
                    found = Some((i, rel));
                }
            },
            None => {},
        }
        i += 1;
    }
    proof {
        lemma_first_at_depth_shift(nv, 1, i as int);
        assert(nv.skip(i as int) =~= Seq::<Seq<char>>::empty());
        if found is None {
            lemma_first_at_depth_shift(nv, 2, i as int);
        }
    }
    found
}

/// Adds an archive entry's size to the running total; refused once the
/// total passes [`MAX_UNCOMPRESSED`] (the sum saturates).
pub fn add_entry_size(total: u64, size: u64) -> (r: Result<u64, SkillError>)
    ensures
        ({
            let t = if total + size > u64::MAX {
                u64::MAX as int
            } else {
                total + size
            };
            if t > MAX_UNCOMPRESSED {
                r == Err::<u64, SkillError>(SkillError::ZipTooLarge)
            } else {
                r == Ok::<u64, SkillError>(t as u64)
            }
        }),
{
    let t = total.saturating_add(size);
    if t > MAX_UNCOMPRESSED {
        Err(SkillError::ZipTooLarge)
    } else {
        Ok(t)
    }
}


/// A component that is never unpacked: `..`, `__MACOSX` or `.DS_Store`.
pub open spec fn skipped_comp(c: Seq<char>) -> bool {
    c == ".."@ || c == "__MACOSX"@ || c == ".DS_Store"@
}

/// Where an archive entry is unpacked, relative to the skill's directory:
/// directories and unsafe paths are skipped; with a `prefix` (the folder
/// holding `SKILL.md`), only entries under it count, taken relative to it;
/// entries with a skipped component are left out.
pub open spec fn zip_inner(rel: Seq<char>, prefix: Option<Seq<char>>) -> Option<Seq<Seq<char>>> {
    let rc = comps(rel);
    match prefix {
        None => Some(rc),
        Some(p) => if crate::pathx::is_prefix(comps(p), rc) && rc.len() > comps(p).len() {
            Some(rc.skip(comps(p).len() as int))
        } else {
            None
        },
    }
}

pub open spec fn any_skipped(ic: Seq<Seq<char>>) -> bool {
    exists|i: int| 0 <= i < ic.len() && skipped_comp(#[trigger] ic[i])
}

pub open spec fn zip_target_spec(name: Seq<char>, is_dir: bool, prefix: Option<Seq<char>>) -> Option<Seq<char>> {
    if is_dir {
        None
    } else {
        match safe_rel_spec(name) {
            None => None,
            Some(rel) => match zip_inner(rel, prefix) {
                None => None,
                Some(ic) => if any_skipped(ic) {
                    None
                } else {
                    Some(join_slash(ic))
                },
            },
        }
    }
}

pub fn zip_entry_target(name: &str, is_dir: bool, prefix: Option<&str>) -> (r: Option<String>)
    ensures
        match zip_target_spec(
            name@,
            is_dir,
            match prefix {
                Some(p) => Some(p@),
                None => None,
            },
        ) {
            Some(t) => r matches Some(s) && s@ == t,
            None => r is None,
        },
{
    if is_dir {
        return None;
    }
    let rel = match safe_rel(name) {
        Some(r) => r,
        None => {
            return None;
        },
    };
    let rc = components(&chars_of(rel.as_str()));
    let ghost rv = views(rc@);
    let ghost pre: Option<Seq<char>> = match &prefix {
        Some(p) => Some(p@),
        None => None,
    };
    let from: usize = match prefix {
        None => 0,
        Some(p) => {
            let pc = components(&chars_of(p));
            let ghost pv = views(pc@);
            if pc.len() >= rc.len() {
                return None;
            }
            let mut k: usize = 0;
            while k < pc.len()
                invariant
                    k <= pc.len() < rc.len(),
                    pv == views(pc@),
                    pv == comps(p@),
                    rv == views(rc@),
                    rv == comps(rel@),
                    safe_rel_spec(name@) == Some(rel@),
                    !is_dir,
                    prefix == Some(p),
                    forall|j: int| 0 <= j < k ==> pv[j] == rv[j],
                decreases pc.len() - k,
            {
                proof {
                    assert(pv[k as int] == pc@[k as int]@);
                    assert(rv[k as int] == rc@[k as int]@);
                }
                if !eq_chars(&pc[k], &rc[k]) {
                    proof {
                        assert(!crate::pathx::is_prefix(pv, rv)) by {
                            assert(rv.take(pv.len() as int)[k as int] != pv[k as int]);
                        }
                    }
                    return None;
                }
                k += 1;
            }
            proof {
                assert(rv.take(pv.len() as int) =~= pv);
            }
            pc.len()
        },
    };
    let mut i: usize = from;
    while i < rc.len()
        invariant
            from <= i <= rc.len(),
            rv == views(rc@),
            rv == comps(rel@),
            safe_rel_spec(name@) == Some(rel@),
            !is_dir,
            pre == (match prefix {
                Some(p) => Some(p@),
                None => None::<Seq<char>>,
            }),
            match pre {
                None => from == 0,
                Some(pp) => crate::pathx::is_prefix(comps(pp), rv) && rv.len() > comps(pp).len()
                    && from == comps(pp).len(),
            },
            forall|j: int| from <= j < i ==> !skipped_comp(#[trigger] rv[j]),
        decreases rc.len() - i,
    {
        proof {
            assert(rv[i as int] == rc@[i as int]@);
        }
        if eq_str(&rc[i], "..") || eq_str(&rc[i], "__MACOSX") || eq_str(&rc[i], ".DS_Store") {
            proof {
                let ic = rv.skip(from as int);
                assert(ic[i - from] == rv[i as int]);
                assert(skipped_comp(ic[i - from]));
                if prefix is None {
                    assert(rv.skip(0) =~= rv);
                }
                let w = i - from;
                assert(0 <= w < ic.len() && skipped_comp(ic[w]));
                assert(any_skipped(ic));
                assert(zip_inner(rel@, pre) == Some(ic));
            }
            return None;
        }
        i += 1;
    }
    let out = crate::pathx::join_slash_exec(&rc, from, rc.len());
    proof {
        let ic = rv.skip(from as int);
        assert(rv.subrange(from as int, rc.len() as int) =~= ic);
        assert forall|j: int| 0 <= j < ic.len() implies !skipped_comp(#[trigger] ic[j]) by {
            assert(ic[j] == rv[j + from]);
        }
        if prefix is None {
            assert(rv.skip(0) =~= rv);
        }
    }
    Some(string_of(&out))
}

/// The folder holding an archive's `SKILL.md` (its safe path's parent), when there is one.
pub fn zip_skill_prefix(skill_rel: &str) -> (r: Option<String>)
    ensures
        match crate::pathx::parent(skill_rel@) {
            Some(p) => if p.len() > 0 {
                r matches Some(s) && s@ == p
            } else {
                r is None
            },
            None => r is None,
        },
{
    match crate::pathx::parent_of(skill_rel) {
        Some(p) => if p.as_str().is_empty() {
            None
        } else {
            Some(p)
        },
        None => None,
    }
}


/// The largest skill file whose text is shown: 512 KiB.
pub const MAX_TEXT: u64 = 524288;

/// Entries a skill's file listing passes over.
pub open spec fn walk_skip_spec(name: Seq<char>) -> bool {
    name == ".git"@ || name == "node_modules"@ || name == "__MACOSX"@ || name == ".DS_Store"@
}

pub fn walk_skips(name: &str) -> (r: bool)
    ensures
        r == walk_skip_spec(name@),
{
    str_eq_lit(name, ".git") || str_eq_lit(name, "node_modules") || str_eq_lit(name, "__MACOSX")
        || str_eq_lit(name, ".DS_Store")
}

fn str_eq_lit(a: &str, b: &str) -> (r: bool)
    ensures
        r == (a@ == b@),
{
    crate::text::str_eq(a, b)
}

/// Whether a file's text is read for the listing: it is not of a binary
/// kind, not empty, and at most [`MAX_TEXT`] bytes.
pub open spec fn text_wanted_spec(kind: Seq<char>, bytes: u64) -> bool {
    kind != "binary"@ && 0 < bytes && bytes <= MAX_TEXT
}

pub fn text_wanted(kind: &str, bytes: u64) -> (r: bool)
    ensures
        r == text_wanted_spec(kind@, bytes),
{
    !str_eq_lit(kind, "binary") && bytes > 0 && bytes <= MAX_TEXT
}

/// The kind a file is listed with once its text was read (or not): one
/// without text that is not markdown counts as binary when it is over
/// [`MAX_TEXT`] bytes.
pub open spec fn listed_kind_spec(kind: Seq<char>, has_text: bool, bytes: u64) -> Seq<char> {
    if !has_text && kind != "markdown"@ && bytes > MAX_TEXT {
        "binary"@
    } else {
        kind
    }
}

pub fn listed_kind(kind: &'static str, has_text: bool, bytes: u64) -> (r: &'static str)
    ensures
        r@ == listed_kind_spec(kind@, has_text, bytes),
{
    if !has_text && !str_eq_lit(kind, "markdown") && bytes > MAX_TEXT {
        "binary"
    } else {
        kind
    }
}

/// Whether a skill is the one asked for: the same name in any ASCII case,
/// and in the scope asked for where one is.
pub open spec fn skill_matches(s: SkillInfo, name: Seq<char>, scope: Option<Seq<char>>) -> bool {
    lower_ascii(s.name@) == lower_ascii(name) && match scope {
        Some(sc) => s.scope@ == sc,
        None => true,
    }
}

/// The scope asked for: trimmed, where it is not blank.
pub open spec fn scope_wanted(scope: Option<Seq<char>>) -> Option<Seq<char>> {
    match scope {
        Some(sc) => if trim(sc).len() > 0 {
            Some(trim(sc))
        } else {
            None
        },
        None => None,
    }
}

/// The skill to show: the first found whose name is `name` (trimmed, in
/// any case), in `scope` where one is given; an error for a blank name or
/// none found.
pub fn find_skill(skills: &[SkillInfo], name: &str, scope: Option<&str>) -> (r: Result<usize, SkillError>)
    ensures
        trim(name@).len() == 0 ==> r == Err::<usize, SkillError>(SkillError::NameRequired),
        trim(name@).len() > 0 ==> match r {
            Ok(i) => i < skills@.len() && skill_matches(
                skills@[i as int],
                trim(name@),
                scope_wanted(crate::files::opt_str_view(scope)),
            ) && forall|j: int|
                0 <= j < i ==> !skill_matches(
                    #[trigger] skills@[j],
                    trim(name@),
                    scope_wanted(crate::files::opt_str_view(scope)),
                ),
            Err(e) => e == SkillError::NotFound && forall|j: int|
                0 <= j < skills@.len() ==> !skill_matches(
                    #[trigger] skills@[j],
                    trim(name@),
                    scope_wanted(crate::files::opt_str_view(scope)),
                ),
        },
{
    let raw = trim_str(name);
    if raw.len() == 0 {
        return Err(SkillError::NameRequired);
    }
    let want = lower_chars(&raw);
    let sc: Option<Vec<char>> = match scope {
        Some(x) => {
            let t = trim_str(x);
            if t.len() > 0 {
                Some(t)
            } else {
                None
            }
        },
        None => None,
    };
    let ghost wanted = scope_wanted(crate::files::opt_str_view(scope));
    assert(match sc {
        Some(v) => wanted == Some(v@),
        None => wanted is None,
    });
    let mut i: usize = 0;
    while i < skills.len()
        invariant
            i <= skills.len(),
            want@ == lower_ascii(trim(name@)),
            match sc {
                Some(v) => wanted == Some(v@),
                None => wanted is None,
            },
            wanted == scope_wanted(crate::files::opt_str_view(scope)),
            trim(name@).len() > 0,
            forall|j: int| 0 <= j < i ==> !skill_matches(#[trigger] skills@[j], trim(name@), wanted),
        decreases skills.len() - i,
    {
        let scope_ok = match &sc {
            Some(v) => eq_chars(&chars_of(skills[i].scope.as_str()), v),
            None => true,
        };
        let name_ok = eq_chars(&lower_chars(&chars_of(skills[i].name.as_str())), &want);
        if scope_ok && name_ok {
            return Ok(i);
        }
        i += 1;
    }
    Err(SkillError::NotFound)
}

/// How an upload is taken.
#[derive(Debug, Clone, Copy, PartialEq, Eq, Structural)]
pub enum UploadKind {
    /// A zip archive holding a skill folder.
    Zip,
    /// A markdown `SKILL.md`.
    Markdown,
}

/// How an upload named `filename` is taken: refused when empty or larger
/// than [`MAX_UNCOMPRESSED`]; a zip archive by [`is_zip_upload`] on the
/// lower-cased name; else markdown when named `.md` or `.markdown`; else
/// refused.
pub open spec fn upload_kind_spec(filename: Seq<char>, bytes: Seq<u8>) -> Result<UploadKind, SkillError> {
    let lower = lower_ascii(filename);
    if bytes.len() == 0 {
        Err(SkillError::FileRequired)
    } else if bytes.len() > MAX_UNCOMPRESSED {
        Err(SkillError::FileTooLarge)
    } else if zip_upload_spec(lower, bytes) {
        Ok(UploadKind::Zip)
    } else if ext_is(lower, "md"@) || ext_is(lower, "markdown"@) {
        Ok(UploadKind::Markdown)
    } else {
        Err(SkillError::UnsupportedUpload)
    }
}

pub fn upload_kind(filename: &str, bytes: &[u8]) -> (r: Result<UploadKind, SkillError>)
    ensures
        r == upload_kind_spec(filename@, bytes@),
{
    if bytes.len() == 0 {
        return Err(SkillError::FileRequired);
    }
    if bytes.len() as u64 > MAX_UNCOMPRESSED {
        return Err(SkillError::FileTooLarge);
    }
    let lower = string_of(&lower_chars(&chars_of(filename)));
    if is_zip_upload(lower.as_str(), bytes) {
        return Ok(UploadKind::Zip);
    }
    let ext = extension_of(&chars_of(lower.as_str()));
    if ext_matches(&ext, "md") || ext_matches(&ext, "markdown") {
        Ok(UploadKind::Markdown)
    } else {
        Err(SkillError::UnsupportedUpload)
    }
}

/// The entries of a zip archive, as the `zip` crate lists them: each one's
/// name, whether it is a directory, and its unpacked size; `None` when the
/// archive, or one of its entries, cannot be opened.
pub uninterp spec fn zip_listing(bytes: Seq<u8>) -> Option<Seq<(Seq<char>, bool, u64)>>;

/// The unpacked bytes of entry `index` of a zip archive, as the `zip` crate
/// reads them; `None` when it cannot be read.
pub uninterp spec fn zip_entry(bytes: Seq<u8>, index: usize) -> Option<Seq<u8>>;

pub open spec fn entry_view(e: (String, bool, u64)) -> (Seq<char>, bool, u64) {
    (e.0@, e.1, e.2)
}

pub open spec fn listing_view(l: Seq<(String, bool, u64)>) -> Seq<(Seq<char>, bool, u64)> {
    l.map_values(|e: (String, bool, u64)| entry_view(e))
}

/// Opens the archive with `zip::ZipArchive::new` and takes each entry by
/// `by_index`, keeping its `name()`, `is_dir()` and `size()`. The claim is
/// only that the result is what [`zip_listing`] names: the same bytes list
/// the same way; `None` when opening the archive or any entry fails.
#[verifier::external_body]
fn zip_list(bytes: &[u8]) -> (r: Option<Vec<(String, bool, u64)>>)
    ensures
        match r {
            Some(v) => zip_listing(bytes@) == Some(listing_view(v@)),
            None => zip_listing(bytes@) is None,
        },
{
    let mut archive = zip::ZipArchive::new(std::io::Cursor::new(bytes)).ok()?;
    let mut out = Vec::new();
    for i in 0..archive.len() {
        let f = archive.by_index(i).ok()?;
        out.push((f.name().to_string(), f.is_dir(), f.size()));
    }
    Some(out)
}

/// Opens the archive with `zip::ZipArchive::new`, takes entry `index` by
/// `by_index` and reads it to the end. The claim is only that the result
/// is what [`zip_entry`] names; `None` when any of these steps fails.
#[verifier::external_body]
fn zip_entry_bytes(bytes: &[u8], index: usize) -> (r: Option<Vec<u8>>)
    ensures
        match r {
            Some(v) => zip_entry(bytes@, index) == Some(v@),
            None => zip_entry(bytes@, index) is None,
        },
{
    let mut archive = zip::ZipArchive::new(std::io::Cursor::new(bytes)).ok()?;
    let mut f = archive.by_index(index).ok()?;
    let mut buf = Vec::new();
    std::io::Read::read_to_end(&mut f, &mut buf).ok()?;
    Some(buf)
}

/// `String::from_utf8`: the text the bytes encode, or `None` where they
/// are not valid UTF-8 (as std documents it).
#[verifier::external_body]
fn utf8_text(bytes: Vec<u8>) -> (r: Option<String>)
    ensures
        match r {
            Some(s) => vstd::utf8::valid_utf8(bytes@) && s@ == vstd::utf8::decode_utf8(bytes@),
            None => !vstd::utf8::valid_utf8(bytes@),
        },
{
    String::from_utf8(bytes).ok()
}

/// A skill unpacked from an archive: its slug and each file to write, by
/// its path under the skill's directory, with its bytes.
#[derive(Debug, Clone)]
pub struct ZipUpload {
    pub name: String,
    pub files: Vec<(String, Vec<u8>)>,
}

pub open spec fn files_view(f: Seq<(String, Vec<u8>)>) -> Seq<(Seq<char>, Seq<u8>)> {
    f.map_values(|e: (String, Vec<u8>)| (e.0@, e.1@))
}

/// The files unpacked from the first `n` entries, with the running total
/// of their sizes: entries without a target ([`zip_target_spec`]) are
/// passed over; the others count toward [`MAX_UNCOMPRESSED`] (refused once
/// the total, saturating, passes it) and are read.
pub open spec fn unpack_spec(
    bytes: Seq<u8>,
    l: Seq<(Seq<char>, bool, u64)>,
    prefix: Option<Seq<char>>,
    n: int,
) -> Result<(u64, Seq<(Seq<char>, Seq<u8>)>), SkillError>
    decreases n,
{
    if n <= 0 {
        Ok((0u64, Seq::empty()))
    } else {
        match unpack_spec(bytes, l, prefix, n - 1) {
            Err(e) => Err(e),
            Ok((total, out)) => match zip_target_spec(l[n - 1].0, l[n - 1].1, prefix) {
                None => Ok((total, out)),
                Some(t) => {
                    let sum = if total + l[n - 1].2 > u64::MAX {
                        u64::MAX as int
                    } else {
                        total + l[n - 1].2
                    };
                    if sum > MAX_UNCOMPRESSED {
                        Err(SkillError::ZipTooLarge)
                    } else {
                        match zip_entry(bytes, (n - 1) as usize) {
                            None => Err(SkillError::InvalidZip),
                            Some(c) => Ok((sum as u64, out.push((t, c)))),
                        }
                    }
                },
            },
        }
    }
}

/// The folder that holds a `SKILL.md` at `rel`, when it is not at the root.
pub open spec fn md_prefix(rel: Seq<char>) -> Option<Seq<char>> {
    match crate::pathx::parent(rel) {
        Some(p) => if p.len() > 0 {
            Some(p)
        } else {
            None
        },
        None => None,
    }
}

/// What an archive with entries `l` unpacks to: its `SKILL.md`
/// ([`skill_md_entry`]) is read, must be at most [`MAX_UNCOMPRESSED`] bytes
/// and UTF-8; the skill is named by its front matter, else by the folder
/// that holds it; then the entries are unpacked ([`unpack_spec`]).
pub open spec fn zip_upload_spec_of(bytes: Seq<u8>, l: Seq<(Seq<char>, bool, u64)>) -> Result<
    (Seq<char>, Seq<(Seq<char>, Seq<u8>)>),
    SkillError,
> {
    let names = l.map_values(|e: (Seq<char>, bool, u64)| e.0);
    match skill_md_entry(names) {
        None => Err(SkillError::NoSkillMd),
        Some(i) => match zip_entry(bytes, i as usize) {
            None => Err(SkillError::InvalidZip),
            Some(md) => if md.len() > MAX_UNCOMPRESSED {
                Err(SkillError::SkillMdTooLarge)
            } else if !vstd::utf8::valid_utf8(md) {
                Err(SkillError::NotUtf8)
            } else {
                let rel = safe_rel_spec(names[i])->Some_0;
                let prefix = md_prefix(rel);
                let folder = match prefix {
                    Some(p) => match crate::pathx::file_name(p) {
                        Some(f) => f,
                        None => Seq::empty(),
                    },
                    None => Seq::empty(),
                };
                match upload_name_spec_v(fm_spec(vstd::utf8::decode_utf8(md)).0, folder) {
                    Err(e) => Err(e),
                    Ok(slug) => match unpack_spec(bytes, l, prefix, l.len() as int) {
                        Err(e) => Err(e),
                        Ok((_, files)) => Ok((slug, files)),
                    },
                }
            },
        },
    }
}

proof fn lemma_unpack_err_stays(
    bytes: Seq<u8>,
    l: Seq<(Seq<char>, bool, u64)>,
    prefix: Option<Seq<char>>,
    n: int,
    m: int,
)
    requires
        0 <= n <= m,
        unpack_spec(bytes, l, prefix, n) is Err,
    ensures
        unpack_spec(bytes, l, prefix, m) == unpack_spec(bytes, l, prefix, n),
    decreases m - n,
{
    if m > n {
        lemma_unpack_err_stays(bytes, l, prefix, n, m - 1);
    }
}

/// What an uploaded archive gives, from its bytes and its entries as
/// [`zip_listing`] names them.
pub fn plan_zip_upload(bytes: &[u8], listing: &[(String, bool, u64)]) -> (r: Result<ZipUpload, SkillError>)
    requires
        zip_listing(bytes@) == Some(listing_view(listing@)),
    ensures
        match zip_upload_spec_of(bytes@, listing_view(listing@)) {
            Ok((slug, files)) => r matches Ok(u) && u.name@ == slug && files_view(u.files@) == files,
            Err(e) => r matches Err(x) && x == e,
        },
{
    let ghost lv = listing_view(listing@);
    let mut names: Vec<String> = Vec::new();
    let mut k: usize = 0;
    while k < listing.len()
        invariant
            k <= listing.len(),
            names@.len() == k,
            forall|j: int| 0 <= j < k ==> #[trigger] names@[j] == listing@[j].0,
        decreases listing.len() - k,
    {
        names.push(listing[k].0.clone());
        k += 1;
    }
    proof {
        assert(names@.map_values(|s: String| s@) =~= lv.map_values(|e: (Seq<char>, bool, u64)| e.0));
    }
    let (idx, rel) = match find_skill_md(&names) {
        None => {
            return Err(SkillError::NoSkillMd);
        },
        Some(x) => x,
    };
    let md = match zip_entry_bytes(bytes, idx) {
        None => {
            return Err(SkillError::InvalidZip);
        },
        Some(m) => m,
    };
    if md.len() as u64 > MAX_UNCOMPRESSED {
        return Err(SkillError::SkillMdTooLarge);
    }
    let text = match utf8_text(md) {
        None => {
            return Err(SkillError::NotUtf8);
        },
        Some(t) => t,
    };
    let meta = parse_frontmatter(text.as_str());
    let prefix = zip_skill_prefix(rel.as_str());
    let folder: String = match &prefix {
        Some(p) => match crate::pathx::file_name_of(&chars_of(p.as_str())) {
            Some(f) => string_of(&f),
            None => String::new(),
        },
        None => String::new(),
    };
    let ghost pre: Option<Seq<char>> = match &prefix {
        Some(p) => Some(p@),
        None => None,
    };
    proof {
        let nv = lv.map_values(|e: (Seq<char>, bool, u64)| e.0);
        assert(nv[idx as int] == names@[idx as int]@);
        assert(safe_rel_spec(nv[idx as int])->Some_0 == rel@);
        assert(pre == md_prefix(rel@));
        assert(fm_view(meta).0 == opt_view(meta.name));
    }
    let slug = match upload_name(&meta.name, folder.as_str()) {
        Err(e) => {
            return Err(e);
        },
        Ok(s) => s,
    };
    let ghost whole = zip_upload_spec_of(bytes@, lv);
    proof {
        assert(whole == (match unpack_spec(bytes@, lv, pre, lv.len() as int) {
            Err(e) => Err(e),
            Ok((_, f)) => Ok((slug@, f)),
        }));
    }
    let mut files: Vec<(String, Vec<u8>)> = Vec::new();
    proof {
        assert(files_view(files@) =~= Seq::<(Seq<char>, Seq<u8>)>::empty());
    }
    let mut total: u64 = 0;
    let mut i: usize = 0;
    while i < listing.len()
        invariant
            i <= listing.len(),
            lv == listing_view(listing@),
            pre == (match prefix {
                Some(p) => Some(p@),
                None => None::<Seq<char>>,
            }),
            unpack_spec(bytes@, lv, pre, i as int) == Ok::<(u64, Seq<(Seq<char>, Seq<u8>)>), SkillError>(
                (total, files_view(files@)),
            ),
            lv.len() == listing@.len(),
            whole == zip_upload_spec_of(bytes@, lv),
            whole == (match unpack_spec(bytes@, lv, pre, lv.len() as int) {
                Err(e) => Err(e),
                Ok((_, f)) => Ok((slug@, f)),
            }),
        decreases listing.len() - i,
    {
        let pref: Option<&str> = match &prefix {
            Some(p) => Some(p.as_str()),
            None => None,
        };
        proof {
            assert(lv[i as int] == entry_view(listing@[i as int]));
        }
        match zip_entry_target(listing[i].0.as_str(), listing[i].1, pref) {
            None => {},
            Some(t) => {
                total = match add_entry_size(total, listing[i].2) {
                    Err(e) => {
                        proof {
                            lemma_unpack_err_stays(bytes@, lv, pre, i + 1, lv.len() as int);
                        }
                        return Err(e);
                    },
                    Ok(v) => v,
                };
                let c = match zip_entry_bytes(bytes, i) {
                    None => {
                        proof {
                            lemma_unpack_err_stays(bytes@, lv, pre, i + 1, lv.len() as int);
                        }
                        return Err(SkillError::InvalidZip);
                    },
                    Some(c) => c,
                };
                let ghost before = files_view(files@);
                let ghost item = (t@, c@);
                files.push((t, c));
                proof {
                    assert(files_view(files@) =~= before.push(item));
                }
            },
        }
        i += 1;
    }
    proof {
        assert(lv.len() == listing@.len());
    }
    Ok(ZipUpload { name: slug, files })
}

/// The zip branch of an upload: the archive is listed with the `zip`
/// crate (refused as [`SkillError::InvalidZip`] when that fails), then
/// [`plan_zip_upload`] gives the skill's name and its files.
pub fn upload_zip(bytes: &[u8]) -> (r: Result<ZipUpload, SkillError>)
    ensures
        match zip_listing(bytes@) {
            None => r matches Err(x) && x == SkillError::InvalidZip,
            Some(l) => match zip_upload_spec_of(bytes@, l) {
                Ok((slug, files)) => r matches Ok(u) && u.name@ == slug && files_view(u.files@) == files,
                Err(e) => r matches Err(x) && x == e,
            },
        },
{
    match zip_list(bytes) {
        None => Err(SkillError::InvalidZip),
        Some(listing) => plan_zip_upload(bytes, &listing),
    }
}

/// What an uploaded markdown skill gives: its slug (its front-matter name,
/// else the file's stem) and the markdown to store, as
/// [`markdown_upload`] makes them.
pub open spec fn markdown_upload_spec(filename: Seq<char>, text: Seq<char>) -> Result<
    (Seq<char>, Seq<char>),
    SkillError,
> {
    let fm = fm_spec(text);
    match upload_name_spec_v(fm.0, md_stem_spec(filename)) {
        Err(e) => Err(e),
        Ok(slug) => Ok(
            (
                slug,
                if starts_with(crate::text::trim_start(text), "---"@) {
                    text
                } else {
                    skill_md_spec(
                        slug,
                        match fm.1 {
                            Some(d) => d,
                            None => Seq::empty(),
                        },
                        text,
                    )
                },
            ),
        ),
    }
}

/// What an upload gives: a skill unpacked from an archive, or a markdown
/// skill's slug and markdown.
#[derive(Debug, Clone)]
pub enum SkillUpload {
    Zip(ZipUpload),
    Markdown(String, String),
}

fn copy_bytes(b: &[u8]) -> (r: Vec<u8>)
    ensures
        r@ == b@,
{
    let mut out: Vec<u8> = Vec::new();
    let mut i: usize = 0;
    while i < b.len()
        invariant
            i <= b.len(),
            out@ == b@.take(i as int),
        decreases b.len() - i,
    {
        out.push(b[i]);
        proof {
            assert(out@ =~= b@.take(i + 1));
        }
        i += 1;
    }
    proof {
        assert(b@.take(b.len() as int) =~= b@);
    }
    out
}

/// An uploaded skill file, by [`upload_kind`]: an archive is unpacked
/// ([`upload_zip`]); a markdown file must be UTF-8 and gives its slug and
/// markdown ([`markdown_upload`]).
pub fn plan_upload(filename: &str, bytes: &[u8]) -> (r: Result<SkillUpload, SkillError>)
    ensures
        match upload_kind_spec(filename@, bytes@) {
            Err(e) => r matches Err(x) && x == e,
            Ok(UploadKind::Zip) => match zip_listing(bytes@) {
                None => r matches Err(x) && x == SkillError::InvalidZip,
                Some(l) => match zip_upload_spec_of(bytes@, l) {
                    Ok((slug, files)) => r matches Ok(SkillUpload::Zip(u)) && u.name@ == slug && files_view(
                        u.files@,
                    ) == files,
                    Err(e) => r matches Err(x) && x == e,
                },
            },
            Ok(UploadKind::Markdown) => if !vstd::utf8::valid_utf8(bytes@) {
                r matches Err(x) && x == SkillError::NotUtf8
            } else {
                match markdown_upload_spec(filename@, vstd::utf8::decode_utf8(bytes@)) {
                    Ok((n, md)) => r matches Ok(SkillUpload::Markdown(a, b)) && a@ == n && b@ == md,
                    Err(e) => r matches Err(x) && x == e,
                }
            },
        },
{
    let kind = match upload_kind(filename, bytes) {
        Err(e) => {
            return Err(e);
        },
        Ok(k) => k,
    };
    match kind {
        UploadKind::Zip => match upload_zip(bytes) {
            Err(e) => Err(e),
            Ok(u) => Ok(SkillUpload::Zip(u)),
        },
        UploadKind::Markdown => {
            let text = match utf8_text(copy_bytes(bytes)) {
                None => {
                    return Err(SkillError::NotUtf8);
                },
                Some(t) => t,
            };
            match markdown_upload(filename, text.as_str()) {
                Err(e) => Err(e),
                Ok((n, md)) => Ok(SkillUpload::Markdown(n, md)),
            }
        },
    }
}

/// The names of a skill's files as the skill page lists them.
pub open spec fn name_views(v: Seq<String>) -> Seq<Seq<char>> {
    Seq::new(v.len(), |i: int| v[i]@)
}

/// Whether file `x` is listed strictly before file `y`: by rank
/// ([`rank_spec`]), then by lowercase name.
pub open spec fn file_before(x: Seq<char>, y: Seq<char>) -> bool {
    rank_spec(x) < rank_spec(y) || (rank_spec(x) == rank_spec(y) && crate::text::lex_order(
        crate::text::lowercase(x),
        crate::text::lowercase(y),
    ) < 0)
}

/// Where a file goes among files already in order: before the first it is
/// listed before.
pub open spec fn file_pos(s: Seq<Seq<char>>, x: Seq<char>) -> int
    decreases s.len(),
{
    if s.len() == 0 {
        0
    } else if file_before(x, s[0]) {
        0
    } else {
        1 + file_pos(s.drop_first(), x)
    }
}

/// A skill's files in order: `SKILL.md` first, then other markdown, then
/// the rest, each group by lowercase name, equal names in the order walked
/// (a stable sort).
pub open spec fn file_sort(s: Seq<Seq<char>>) -> Seq<Seq<char>>
    decreases s.len(),
{
    if s.len() == 0 {
        Seq::empty()
    } else {
        let t = file_sort(s.drop_last());
        t.insert(file_pos(t, s.last()), s.last())
    }
}

/// A skill's file names, in the order the skill page lists them.
pub fn sort_skill_files(names: &[String]) -> (r: Vec<String>)
    ensures
        name_views(r@) == file_sort(name_views(names@)),
{
    let ghost nv = name_views(names@);
    let mut out: Vec<String> = Vec::new();
    let mut keys: Vec<(u8, Vec<char>)> = Vec::new();
    let mut i: usize = 0;
    proof {
        assert(nv.take(0) =~= Seq::<Seq<char>>::empty());
        assert(name_views(out@) =~= Seq::<Seq<char>>::empty());
    }
    while i < names.len()
        invariant
            i <= names@.len(),
            nv == name_views(names@),
            name_views(out@) == file_sort(nv.take(i as int)),
            keys@.len() == out@.len(),
            forall|k: int|
                0 <= k < keys@.len() ==> (#[trigger] keys@[k]).0 == rank_spec(out@[k]@) && keys@[k].1@
                    == crate::text::lowercase(out@[k]@),
        decreases names.len() - i,
    {
        proof {
            assert(nv.take(i + 1).drop_last() =~= nv.take(i as int));
            assert(nv.take(i + 1).last() == names@[i as int]@);
        }
        let rank = skill_file_rank(names[i].as_str());
        let lk = crate::text::to_lowercase(names[i].as_str());
        let key = chars_of(lk.as_str());
        let ghost sv = name_views(out@);
        let ghost x = names@[i as int]@;
        let mut j: usize = 0;
        proof {
            assert(sv.skip(0) =~= sv);
        }
        while j < out.len()
            invariant
                j <= out@.len(),
                sv == name_views(out@),
                keys@.len() == out@.len(),
                forall|k: int|
                    0 <= k < keys@.len() ==> (#[trigger] keys@[k]).0 == rank_spec(out@[k]@)
                        && keys@[k].1@ == crate::text::lowercase(out@[k]@),
                rank == rank_spec(x),
                key@ == crate::text::lowercase(x),
                file_pos(sv, x) == j + file_pos(sv.skip(j as int), x),
                j == out@.len() ==> sv.skip(j as int) =~= Seq::<Seq<char>>::empty(),
            ensures
                j <= out@.len(),
                sv == name_views(out@),
                file_pos(sv, x) == j,
            decreases out.len() - j,
        {
            proof {
                assert(sv.skip(j as int)[0] == sv[j as int]);
                assert(keys@[j as int].0 == rank_spec(sv[j as int]));
                assert(keys@[j as int].1@ == crate::text::lowercase(sv[j as int]));
            }
            let before = rank < keys[j].0 || (rank == keys[j].0 && crate::text::lex_compare(
                &key,
                &keys[j].1,
            ) < 0);
            if before {
                break;
            }
            proof {
                assert(sv.skip(j as int).drop_first() =~= sv.skip(j + 1));
            }
            j += 1;
        }
        let name = names[i].clone();
        out.insert(j, name);
        keys.insert(j, (rank, key));
        proof {
            assert(name_views(out@) =~= sv.insert(j as int, x));
            assert forall|k: int| 0 <= k < keys@.len() implies (#[trigger] keys@[k]).0 == rank_spec(
                out@[k]@,
            ) && keys@[k].1@ == crate::text::lowercase(out@[k]@) by {
                if k < j {
                } else if k == j {
                } else {
                }
            }
        }
        i += 1;
    }
    proof {
        assert(nv.take(names@.len() as int) =~= nv);
    }
    out
}

} // verus!
