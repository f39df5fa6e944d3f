//! The content of a prompt sent to grok: the text, with an `@path` mention
//! for each attached file that is not sent as an image, and the images.
use vstd::prelude::*;
use base64::Engine;
use crate::types::{PromptFile, files_view, opt_view};
use crate::text::{chars_of, string_of, contains, starts_with, contains_chars, extend, starts_with_str};

verus! {

/// What `Path::strip_prefix` leaves of `path` below `base` (as text), where
/// `base` is a prefix of it.
pub uninterp spec fn path_strip_prefix(path: Seq<char>, base: Seq<char>) -> Option<Seq<char>>;

/// Calls std's `Path::strip_prefix`. The contract names the result and says
/// nothing more of it.
#[verifier::external_body]
fn strip_path_prefix(path: &str, base: &str) -> (r: Option<String>)
    ensures
        opt_view(r) == path_strip_prefix(path@, base@),
{
    std::path::Path::new(path).strip_prefix(base).ok().map(|p| p.to_string_lossy().into_owned())
}

/// The character of a six-bit value in the standard base64 alphabet:
/// `A`-`Z`, `a`-`z`, `0`-`9`, `+`, `/`.
pub open spec fn b64_char(n: int) -> char {
    if n < 26 {
        (65 + n) as char
    } else if n < 52 {
        (71 + n) as char
    } else if n < 62 {
        (n - 4) as char
    } else if n == 62 {
        '+'
    } else {
        '/'
    }
}

/// The standard base64 encoding of the bytes (RFC 4648), padded with `=`:
/// each three bytes become four characters.
pub open spec fn base64_standard(bytes: Seq<u8>) -> Seq<char>
    decreases bytes.len(),
{
    if bytes.len() == 0 {
        Seq::empty()
    } else if bytes.len() == 1 {
        seq![b64_char(bytes[0] as int / 4), b64_char((bytes[0] as int % 4) * 16), '=', '=']
    } else if bytes.len() == 2 {
        seq![
            b64_char(bytes[0] as int / 4),
            b64_char((bytes[0] as int % 4) * 16 + bytes[1] as int / 16),
            b64_char((bytes[1] as int % 16) * 4),
            '=',
        ]
    } else {
        seq![
            b64_char(bytes[0] as int / 4),
            b64_char((bytes[0] as int % 4) * 16 + bytes[1] as int / 16),
            b64_char((bytes[1] as int % 16) * 4 + bytes[2] as int / 64),
            b64_char(bytes[2] as int % 64),
        ] + base64_standard(bytes.skip(3))
    }
}

/// Calls `base64::engine::general_purpose::STANDARD.encode`: the standard
/// alphabet with padding, as RFC 4648 and the crate's documentation state it.
#[verifier::external_body]
fn base64_encode(bytes: &[u8]) -> (r: String)
    ensures
        r@ == base64_standard(bytes@),
{
    base64::engine::general_purpose::STANDARD.encode(bytes)
}

pub open spec fn mime_or_empty(m: Option<Seq<char>>) -> Seq<char> {
    match m {
        Some(x) => x,
        None => Seq::empty(),
    }
}

/// A file goes as an image where images are accepted, its type is `image/*`
/// and its bytes could be read.
pub open spec fn sent_as_image(f: (Seq<char>, Option<Seq<char>>), bytes: Option<Seq<u8>>, image_ok: bool) -> bool {
    image_ok && starts_with(mime_or_empty(f.1), "image/"@) && bytes is Some
}

/// The mention of a file: `@` and its path below the working directory
/// (its whole path where it is not below it).
pub open spec fn file_tag(path: Seq<char>, cwd: Seq<char>) -> Seq<char> {
    seq!['@'] + match path_strip_prefix(path, cwd) {
        Some(r) => r,
        None => path,
    }
}

/// The text with a mention added on a line of its own, unless the text
/// already holds it.
pub open spec fn with_tag(body: Seq<char>, tag: Seq<char>) -> Seq<char> {
    if contains(body, tag) {
        body
    } else if body.len() > 0 && body.last() != '\n' {
        body.push('\n') + tag
    } else {
        body + tag
    }
}

/// The prompt's text after the files: `bytes[i]` is what was read of
/// `files[i]`.
pub open spec fn prompt_text(
    text: Seq<char>,
    files: Seq<(Seq<char>, Option<Seq<char>>)>,
    bytes: Seq<Option<Seq<u8>>>,
    cwd: Seq<char>,
    image_ok: bool,
) -> Seq<char>
    decreases files.len(),
{
    if files.len() == 0 {
        text
    } else {
        let n = files.len() - 1;
        let b = prompt_text(text, files.drop_last(), bytes.take(n), cwd, image_ok);
        if sent_as_image(files[n], bytes[n], image_ok) {
            b
        } else {
            with_tag(b, file_tag(files[n].0, cwd))
        }
    }
}

/// The images sent, in order: each one's type and its bytes in base64.
pub open spec fn prompt_images(
    files: Seq<(Seq<char>, Option<Seq<char>>)>,
    bytes: Seq<Option<Seq<u8>>>,
    image_ok: bool,
) -> Seq<(Seq<char>, Seq<char>)>
    decreases files.len(),
{
    if files.len() == 0 {
        Seq::empty()
    } else {
        let n = files.len() - 1;
        let p = prompt_images(files.drop_last(), bytes.take(n), image_ok);
        if sent_as_image(files[n], bytes[n], image_ok) {
            p.push((mime_or_empty(files[n].1), base64_standard(bytes[n].unwrap())))
        } else {
            p
        }
    }
}

/// A prompt's content blocks: the text block, then the image blocks (type
/// and base64 data).
pub struct PromptContent {
    pub text: String,
    pub images: Vec<(String, String)>,
}

pub open spec fn pairs_view(v: Seq<(String, String)>) -> Seq<(Seq<char>, Seq<char>)> {
    v.map_values(|p: (String, String)| (p.0@, p.1@))
}

pub open spec fn bytes_view(v: Seq<Option<Vec<u8>>>) -> Seq<Option<Seq<u8>>> {
    v.map_values(
        |b: Option<Vec<u8>>|
            match b {
                Some(x) => Some(x@),
                None => None,
            },
    )
}

/// The content of a prompt: `bytes[i]` holds what was read of `files[i]`
/// (`None` where it was not read or could not be).
pub fn build_prompt(text: &str, files: &[PromptFile], bytes: &[Option<Vec<u8>>], cwd: &str, image_ok: bool) -> (r:
    PromptContent)
    requires
        files.len() == bytes.len(),
    ensures
        r.text@ == prompt_text(text@, files_view(files@), bytes_view(bytes@), cwd@, image_ok),
        pairs_view(r.images@) == prompt_images(files_view(files@), bytes_view(bytes@), image_ok),
{
    let ghost fv = files_view(files@);
    let ghost bv = bytes_view(bytes@);
    let mut body = chars_of(text);
    let mut images: Vec<(String, String)> = Vec::new();
    let mut i: usize = 0;
    proof {
        assert(fv.take(0) =~= Seq::<(Seq<char>, Option<Seq<char>>)>::empty());
        assert(pairs_view(images@) =~= Seq::<(Seq<char>, Seq<char>)>::empty());
    }
    while i < files.len()
        invariant
            i <= files.len() == bytes.len(),
            fv == files_view(files@),
            bv == bytes_view(bytes@),
            body@ == prompt_text(text@, fv.take(i as int), bv.take(i as int), cwd@, image_ok),
            pairs_view(images@) == prompt_images(fv.take(i as int), bv.take(i as int), image_ok),
        decreases files.len() - i,
    {
        let ghost ft = fv.take(i + 1);
        let ghost bt = bv.take(i + 1);
        proof {
            assert(ft.drop_last() =~= fv.take(i as int));
            assert(bt.take(i as int) =~= bv.take(i as int));
            assert(ft[i as int] == files@[i as int]@);
            assert(bt[i as int] == bv[i as int]);
        }
        let mime_is_image = match &files[i].mime {
            Some(m) => starts_with_str(&chars_of(m.as_str()), "image/"),
            None => {
                proof {
                    reveal_strlit("image/");
                }
                false
            },
        };
        let as_image = image_ok && mime_is_image && bytes[i].is_some();
        assert(as_image == sent_as_image(ft[i as int], bt[i as int], image_ok));
        if as_image {
            let data = match &bytes[i] {
                Some(b) => base64_encode(b.as_slice()),
                None => String::new(),
            };
            let mime = match &files[i].mime {
                Some(m) => m.clone(),
                None => String::new(),
            };
            let ghost before = images@;
            images.push((mime, data));
            proof {
                assert(pairs_view(images@) =~= pairs_view(before).push((mime@, data@)));
            }
        } else {
            let mut tag: Vec<char> = Vec::new();
            tag.push('@');
            let rel = match strip_path_prefix(files[i].path.as_str(), cwd) {
                Some(r) => r,
                None => files[i].path.clone(),
            };
            let rv = chars_of(rel.as_str());
            extend(&mut tag, &rv);
            assert(tag@ == file_tag(ft[i as int].0, cwd@));
            if !contains_chars(&body, &tag) {
                if body.len() > 0 && body[body.len() - 1] != '\n' {
                    body.push('\n');
                }
                extend(&mut body, &tag);
            }
        }
        i += 1;
    }
    proof {
        assert(fv.take(files.len() as int) =~= fv);
        assert(bv.take(files.len() as int) =~= bv);
    }
    PromptContent { text: string_of(&body), images }
}

} // verus!
