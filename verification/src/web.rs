//! Text the web server shows or sends: error lines cut for the browser,
//! download names, cache-busted asset links and full-text search phrases.
use vstd::prelude::*;
use crate::pathx::{extension, file_name, file_name_of, views};
use crate::prefs::{lines, lines_of};
use crate::text::{
    chars_of, extend, extend_str, lower_ascii, lower_chars, replace, replace_chars, slice_of,
    starts_with, starts_with_str, string_of, trim, trim_chars, trim_str,
};

verus! {

/// The line of an error worth showing: not blank, not just `error` (any
/// case), not the start of a backtrace.
pub open spec fn shown_line(l: Seq<char>) -> bool {
    l.len() > 0 && lower_ascii(l) != "error"@ && !starts_with(l, "stack backtrace"@)
}

/// The first line of `ls`, trimmed, worth showing.
pub open spec fn first_shown(ls: Seq<Seq<char>>) -> Option<Seq<char>>
    decreases ls.len(),
{
    if ls.len() == 0 {
        None
    } else if shown_line(trim(ls[0])) {
        Some(trim(ls[0]))
    } else {
        first_shown(ls.drop_first())
    }
}

/// An error as the browser gets it: its first line worth showing (else the
/// whole trimmed text), without a leading `Error: `, cut to 240 characters
/// and `...`.
pub open spec fn public_err_spec(raw: Seq<char>) -> Seq<char> {
    let s = trim(raw);
    let line0 = match first_shown(lines(s)) {
        Some(l) => l,
        None => s,
    };
    let line = if starts_with(line0, "Error: "@) {
        line0.skip(7)
    } else {
        line0
    };
    if line.len() <= 240 {
        line
    } else {
        line.take(240) + "..."@
    }
}

pub fn public_err(raw: &str) -> (r: String)
    ensures
        r@ == public_err_spec(raw@),
{
    let s = trim_str(raw);
    let ls = lines_of(&s);
    let ghost lv = views(ls@);
    let mut found: Option<Vec<char>> = None;
    let mut i: usize = 0;
    proof {
        assert(lv.skip(0) =~= lv);
        reveal_strlit("Error: ");
    }
    while i < ls.len() && found.is_none()
        invariant
            i <= ls.len(),
            lv == views(ls@),
            first_shown(lv) == (match found {
                Some(f) => Some(f@),
                None => first_shown(lv.skip(i as int)),
            }),
        decreases ls.len() - i,
    {
        let t = trim_chars(&ls[i]);
        proof {
            assert(lv[i as int] == ls@[i as int]@);
            assert(lv.skip(i as int)[0] == lv[i as int]);
            assert(lv.skip(i as int).drop_first() =~= lv.skip(i + 1));
        }
        let lt = lower_chars(&t);
        if t.len() > 0 && !crate::text::eq_str(&lt, "error") && !starts_with_str(&t, "stack backtrace") {
            found = Some(t);
        }
        i += 1;
    }
    proof {
        if found is None {
            assert(lv.skip(i as int) =~= Seq::<Seq<char>>::empty());
        }
    }
    let line0 = match found {
        Some(f) => f,
        None => s,
    };
    let line = if starts_with_str(&line0, "Error: ") {
        let x = slice_of(&line0, 7, line0.len());
        proof {
            assert(x@ =~= line0@.skip(7));
        }
        x
    } else {
        line0
    };
    if line.len() <= 240 {
        string_of(&line)
    } else {
        let mut out = slice_of(&line, 0, 240);
        extend_str(&mut out, "...");
        proof {
            assert(line@.subrange(0, 240) =~= line@.take(240));
        }
        string_of(&out)
    }
}

/// A name safe in a `Content-Disposition` header: line breaks and double
/// quotes become `_`.
pub open spec fn sanitize_spec(name: Seq<char>) -> Seq<char> {
    name.map_values(|c: char| if c == '\r' || c == '\n' || c == '"' { '_' } else { c })
}

pub fn sanitize_filename(name: &str) -> (r: String)
    ensures
        r@ == sanitize_spec(name@),
{
    let v = chars_of(name);
    let mut out: Vec<char> = Vec::new();
    let mut i: usize = 0;
    while i < v.len()
        invariant
            i <= v.len(),
            out@ == sanitize_spec(v@).take(i as int),
        decreases v.len() - i,
    {
        let c = v[i];
        out.push(
            if c == '\r' || c == '\n' || c == '"' {
                '_'
            } else {
                c
            },
        );
        proof {
            assert(out@ =~= sanitize_spec(v@).take(i + 1));
        }
        i += 1;
    }
    proof {
        assert(sanitize_spec(v@).take(i as int) =~= sanitize_spec(v@));
    }
    string_of(&out)
}

/// The name a download is offered under: the path's file name, made safe;
/// an archive ends in `.zip` (`workspace.zip` when there is no name), a
/// file without a name is `file`.
pub open spec fn download_name_spec(path: Seq<char>, zip: bool) -> Seq<char> {
    let base = match file_name(path) {
        Some(f) => sanitize_spec(f),
        None => Seq::empty(),
    };
    if zip {
        if base.len() == 0 {
            "workspace.zip"@
        } else if (match extension(base) {
            Some(e) => lower_ascii(e) == "zip"@,
            None => false,
        }) {
            base
        } else {
            base + ".zip"@
        }
    } else if base.len() == 0 {
        "file"@
    } else {
        base
    }
}

pub fn download_basename(path: &str, zip: bool) -> (r: String)
    ensures
        r@ == download_name_spec(path@, zip),
{
    let pv = chars_of(path);
    let base = match file_name_of(&pv) {
        Some(f) => sanitize_filename(string_of(&f).as_str()),
        None => String::new(),
    };
    if zip {
        if base.as_str().is_empty() {
            "workspace.zip".to_string()
        } else {
            let bv = chars_of(base.as_str());
            let is_zip = match crate::pathx::extension_of(&bv) {
                Some(e) => crate::text::eq_str(&lower_chars(&e), "zip"),
                None => false,
            };
            if is_zip {
                base
            } else {
                let mut out = bv;
                extend_str(&mut out, ".zip");
                string_of(&out)
            }
        }
    } else if base.as_str().is_empty() {
        "file".to_string()
    } else {
        base
    }
}

/// The page with its stylesheet and scripts linked under the version
/// `v`, so that browsers fetch them anew after an update.
pub open spec fn bust_spec(html: Seq<char>, v: Seq<char>) -> Seq<char> {
    replace(
        replace(
            replace(html, "href=\"/app.css\""@, "href=\"/app.css?v="@ + v + "\""@),
            "src=\"/app.js\""@,
            "src=\"/app.js?v="@ + v + "\""@,
        ),
        "src=\"/i18n.js\""@,
        "src=\"/i18n.js?v="@ + v + "\""@,
    )
}

fn link_with(prefix: &str, v: &str) -> (r: Vec<char>)
    ensures
        r@ == prefix@ + v@ + "\""@,
{
    let mut out = chars_of(prefix);
    extend_str(&mut out, v);
    extend_str(&mut out, "\"");
    out
}

pub fn bust_html(html: &str, v: &str) -> (r: String)
    ensures
        r@ == bust_spec(html@, v@),
{
    let h = chars_of(html);
    let p1 = chars_of("href=\"/app.css\"");
    let p2 = chars_of("src=\"/app.js\"");
    let p3 = chars_of("src=\"/i18n.js\"");
    proof {
        reveal_strlit("href=\"/app.css\"");
        reveal_strlit("src=\"/app.js\"");
        reveal_strlit("src=\"/i18n.js\"");
    }
    let a = replace_chars(&h, &p1, &link_with("href=\"/app.css?v=", v));
    let b = replace_chars(&a, &p2, &link_with("src=\"/app.js?v=", v));
    let c = replace_chars(&b, &p3, &link_with("src=\"/i18n.js?v=", v));
    string_of(&c)
}

/// A search text as one full-text phrase: characters with a meaning in the
/// query language become spaces, and the trimmed rest is put in quotes.
pub open spec fn fts_spec(q: Seq<char>) -> Seq<char> {
    let cleaned = q.map_values(
        |c: char|
            if c == '"' || c == '*' || c == '(' || c == ')' || c == ':' || c == '^' {
                ' '
            } else {
                c
            },
    );
    seq!['"'] + trim(cleaned) + seq!['"']
}

pub fn fts_phrase(q: &str) -> (r: String)
    ensures
        r@ == fts_spec(q@),
{
    let v = chars_of(q);
    let ghost cleaned = v@.map_values(
        |c: char|
            if c == '"' || c == '*' || c == '(' || c == ')' || c == ':' || c == '^' {
                ' '
            } else {
                c
            },
    );
    let mut out: Vec<char> = Vec::new();
    let mut i: usize = 0;
    while i < v.len()
        invariant
            i <= v.len(),
            cleaned == v@.map_values(
                |c: char|
                    if c == '"' || c == '*' || c == '(' || c == ')' || c == ':' || c == '^' {
                        ' '
                    } else {
                        c
                    },
            ),
            out@ == cleaned.take(i as int),
        decreases v.len() - i,
    {
        let c = v[i];
        out.push(
            if c == '"' || c == '*' || c == '(' || c == ')' || c == ':' || c == '^' {
                ' '
            } else {
                c
            },
        );
        proof {
            assert(out@ =~= cleaned.take(i + 1));
        }
        i += 1;
    }
    proof {
        assert(cleaned.take(i as int) =~= cleaned);
    }
    let t = trim_chars(&out);
    let mut r: Vec<char> = Vec::new();
    r.push('"');
    extend(&mut r, &t);
    r.push('"');
    proof {
        assert(r@ =~= seq!['"'] + t@ + seq!['"']);
    }
    string_of(&r)
}

/// The message a failed update shows: known download failures get advice
/// (naming the release where it helps); any other message is kept.
pub open spec fn annotate_spec(msg: Seq<char>, latest: Seq<char>) -> Seq<char> {
    if msg == "Network timeout while downloading"@ {
        "Network timeout while downloading "@ + latest
            + "\nCheck the connection and run ggok update again"@
    } else if msg == "Could not download update"@ {
        "Could not download update\nCheck the connection and run ggok update again"@
    } else if msg == "Release is not ready yet"@ {
        "Release "@ + latest + " is not ready yet"@
    } else {
        msg
    }
}

pub fn annotate_download(msg: &str, latest: &str) -> (r: String)
    ensures
        r@ == annotate_spec(msg@, latest@),
{
    if crate::text::str_eq(msg, "Network timeout while downloading") {
        let mut out = chars_of("Network timeout while downloading ");
        extend_str(&mut out, latest);
        extend_str(&mut out, "\nCheck the connection and run ggok update again");
        string_of(&out)
    } else if crate::text::str_eq(msg, "Could not download update") {
        "Could not download update\nCheck the connection and run ggok update again".to_string()
    } else if crate::text::str_eq(msg, "Release is not ready yet") {
        let mut out = chars_of("Release ");
        extend_str(&mut out, latest);
        extend_str(&mut out, " is not ready yet");
        string_of(&out)
    } else {
        msg.to_string()
    }
}

/// The cache-busting version of the web assets: the first 12 hexadecimal
/// digits of the SHA-256 of their bytes (`app.css`, `app.js` and `i18n.js`
/// one after the other).
pub fn asset_version(data: &[u8]) -> (r: String)
    ensures
        r@ == crate::auth::hex_lower(crate::config::sha256(data@)).take(12),
{
    let digest = crate::config::sha256_digest(data);
    let hex = crate::auth::hex_encode(digest.as_slice());
    let cs = chars_of(hex.as_str());
    proof {
        lemma_hex_lower_len(digest@);
    }
    let cut = slice_of(&cs, 0, 12);
    proof {
        assert(cut@ =~= cs@.take(12));
    }
    string_of(&cut)
}

proof fn lemma_hex_lower_len(b: Seq<u8>)
    ensures
        crate::auth::hex_lower(b).len() == 2 * b.len(),
    decreases b.len(),
{
    if b.len() > 0 {
        lemma_hex_lower_len(b.drop_last());
    }
}

/// The MIME type a web asset is sent with: what `mime_guess` gives its path.
pub fn asset_mime(path: &str) -> (r: String)
    ensures
        r@ == crate::files::guessed_mime(path@),
{
    crate::files::guess_mime(path)
}

/// A session id a request may name: no `..`, `/` or `\` in it, and a UUID
/// as `uuid` reads it.
pub fn valid_id(id: &str) -> (r: bool)
    ensures
        r == (!crate::text::contains(id@, ".."@) && !id@.contains('/') && !id@.contains('\\')
            && crate::pins::uuid_text(id@)),
{
    let cs = chars_of(id);
    if crate::text::contains_str(&cs, "..") || crate::text::has_char(&cs, '/') || crate::text::has_char(
        &cs,
        '\\',
    ) {
        return false;
    }
    crate::pins::parses_as_uuid(id)
}

} // verus!
