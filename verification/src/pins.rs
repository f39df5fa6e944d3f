//! Pinned sessions and session titles.
use vstd::prelude::*;
use crate::pathx::{join, join_str, parent, parent_of};
use crate::text::{chars_of, string_of, trim, trim_str, is_control, is_control_char};

verus! {

/// The longest session title, in characters.
pub const TITLE_MAX: usize = 200;

/// Why a title or a pin was refused.
#[derive(Debug, Clone, Copy, PartialEq, Eq, Structural)]
pub enum SessionError {
    TitleEmpty,
    TitleTooLong,
    TitleControlChars,
    InvalidSessionId,
}

/// A session title: trimmed, not empty, at most `TITLE_MAX` characters, no
/// control characters.
pub open spec fn valid_title_spec(raw: Seq<char>) -> Result<Seq<char>, SessionError> {
    let t = trim(raw);
    if t.len() == 0 {
        Err(SessionError::TitleEmpty)
    } else if t.len() > TITLE_MAX {
        Err(SessionError::TitleTooLong)
    } else if exists|i: int| 0 <= i < t.len() && is_control(#[trigger] t[i]) {
        Err(SessionError::TitleControlChars)
    } else {
        Ok(t)
    }
}

pub open spec fn sres_view(r: Result<String, SessionError>) -> Result<Seq<char>, SessionError> {
    match r {
        Ok(s) => Ok(s@),
        Err(e) => Err(e),
    }
}

/// A session title.
pub fn valid_title(raw: &str) -> (r: Result<String, SessionError>)
    ensures
        sres_view(r) == valid_title_spec(raw@),
{
    let t = trim_str(raw);
    if t.len() == 0 {
        return Err(SessionError::TitleEmpty);
    }
    if t.len() > TITLE_MAX {
        return Err(SessionError::TitleTooLong);
    }
    let mut i: usize = 0;
    while i < t.len()
        invariant
            i <= t@.len(),
            t@ == trim(raw@),
            0 < t@.len() <= TITLE_MAX,
            forall|k: int| 0 <= k < i ==> !is_control(#[trigger] t@[k]),
        decreases t.len() - i,
    {
        if is_control_char(t[i]) {
            assert(is_control(t@[i as int]));
            return Err(SessionError::TitleControlChars);
        }
        i += 1;
    }
    Ok(string_of(&t))
}

/// A hexadecimal digit of either case.
pub open spec fn uuid_hex(c: char) -> bool {
    ('0' <= c && c <= '9') || ('a' <= c && c <= 'f') || ('A' <= c && c <= 'F')
}

/// The hyphenated form: 36 characters, hyphens at 8, 13, 18 and 23,
/// hexadecimal digits elsewhere.
pub open spec fn uuid_hyphenated(s: Seq<char>) -> bool {
    s.len() == 36 && forall|i: int|
        0 <= i < 36 ==> if i == 8 || i == 13 || i == 18 || i == 23 {
            #[trigger] s[i] == '-'
        } else {
            uuid_hex(s[i])
        }
}

/// Whether `uuid::Uuid::parse_str` accepts the text: 32 hexadecimal
/// digits, the hyphenated form, the hyphenated form in braces, or
/// `urn:uuid:` (any ASCII case) and the hyphenated form.
pub open spec fn uuid_text(s: Seq<char>) -> bool {
    ||| s.len() == 32 && forall|i: int| 0 <= i < 32 ==> uuid_hex(#[trigger] s[i])
    ||| uuid_hyphenated(s)
    ||| s.len() == 38 && s[0] == '{' && s[37] == '}' && uuid_hyphenated(s.subrange(1, 37))
    ||| s.len() == 45 && crate::text::lower_ascii(s.take(9)) == "urn:uuid:"@ && uuid_hyphenated(s.skip(9))
}

/// Calls `uuid::Uuid::parse_str`. As the crate's parser (`try_parse`)
/// reads the text's bytes: 32 bytes are the simple form, 36 the hyphenated
/// one, 38 the braced one and 45 the URN; every other byte must be a
/// hexadecimal digit (a non-ASCII character never is).
#[verifier::external_body]
pub(crate) fn parses_as_uuid(s: &str) -> (r: bool)
    ensures
        r == uuid_text(s@),
{
    uuid::Uuid::parse_str(s).is_ok()
}

pub open spec fn strs_view(v: Seq<String>) -> Seq<Seq<char>> {
    Seq::new(v.len(), |i: int| v[i]@)
}

/// The stored pins that are session ids, in order.
pub open spec fn pins_filter(v: Seq<Seq<char>>) -> Seq<Seq<char>>
    decreases v.len(),
{
    if v.len() == 0 {
        Seq::empty()
    } else if uuid_text(v.last()) {
        pins_filter(v.drop_last()).push(v.last())
    } else {
        pins_filter(v.drop_last())
    }
}

/// The stored pins that are session ids, in order.
pub fn load_pins(ids: &[String]) -> (r: Vec<String>)
    ensures
        strs_view(r@) == pins_filter(strs_view(ids@)),
{
    let ghost v = strs_view(ids@);
    let mut out: Vec<String> = Vec::new();
    let mut i: usize = 0;
    proof {
        assert(v.take(0) =~= Seq::<Seq<char>>::empty());
        assert(strs_view(out@) =~= Seq::<Seq<char>>::empty());
    }
    while i < ids.len()
        invariant
            i <= ids@.len(),
            v == strs_view(ids@),
            strs_view(out@) == pins_filter(v.take(i as int)),
        decreases ids.len() - i,
    {
        proof {
            assert(v.take(i + 1).drop_last() =~= v.take(i as int));
            assert(v.take(i + 1).last() == ids@[i as int]@);
        }
        if parses_as_uuid(ids[i].as_str()) {
            let ghost before = strs_view(out@);
            out.push(ids[i].clone());
            proof {
                assert(strs_view(out@) =~= before.push(ids@[i as int]@));
            }
        }
        i += 1;
    }
    proof {
        assert(v.take(ids@.len() as int) =~= v);
    }
    out
}

/// Whether a session is pinned.
pub fn is_pinned(pins: &[String], id: &str) -> (r: bool)
    ensures
        r == strs_view(pins@).contains(id@),
{
    let ghost v = strs_view(pins@);
    let mut i: usize = 0;
    while i < pins.len()
        invariant
            i <= pins@.len(),
            v == strs_view(pins@),
            forall|k: int| 0 <= k < i ==> v[k] != id@,
        decreases pins.len() - i,
    {
        if crate::text::str_eq(pins[i].as_str(), id) {
            assert(v[i as int] == id@);
            return true;
        }
        i += 1;
    }
    false
}

/// The pins without `id`.
pub open spec fn without(v: Seq<Seq<char>>, id: Seq<char>) -> Seq<Seq<char>> {
    v.filter(|x: Seq<char>| x != id)
}

/// The pins after pinning or unpinning a session: it is removed, and when
/// pinned, put first. Ids that are not session ids are refused.
pub fn set_pinned(pins: &[String], id: &str, pinned: bool) -> (r: Result<Vec<String>, SessionError>)
    ensures
        !uuid_text(id@) ==> r == Err::<Vec<String>, SessionError>(SessionError::InvalidSessionId),
        uuid_text(id@) ==> (r matches Ok(v) && strs_view(v@) == (if pinned {
            seq![id@] + without(strs_view(pins@), id@)
        } else {
            without(strs_view(pins@), id@)
        })),
{
    if !parses_as_uuid(id) {
        return Err(SessionError::InvalidSessionId);
    }
    let ghost v = strs_view(pins@);
    let mut out: Vec<String> = Vec::new();
    if pinned {
        out.push(id.to_string());
    }
    let ghost head: Seq<Seq<char>> = if pinned {
        seq![id@]
    } else {
        Seq::empty()
    };
    proof {
        assert(strs_view(out@) =~= head);
        assert(v.take(0).filter(|x: Seq<char>| x != id@) =~= Seq::<Seq<char>>::empty());
    }
    let mut i: usize = 0;
    while i < pins.len()
        invariant
            i <= pins@.len(),
            v == strs_view(pins@),
            strs_view(out@) == head + v.take(i as int).filter(|x: Seq<char>| x != id@),
        decreases pins.len() - i,
    {
        proof {
            assert(v.take(i + 1).drop_last() =~= v.take(i as int));
            assert(v.take(i + 1).last() == pins@[i as int]@);
            v.take(i as int).lemma_filter_push(pins@[i as int]@, |x: Seq<char>| x != id@);
            assert(v.take(i as int).push(pins@[i as int]@) =~= v.take(i + 1));
        }
        if !crate::text::str_eq(pins[i].as_str(), id) {
            let ghost before = strs_view(out@);
            out.push(pins[i].clone());
            proof {
                assert(strs_view(out@) =~= before.push(pins@[i as int]@));
            }
        }
        i += 1;
    }
    proof {
        assert(v.take(pins@.len() as int) =~= v);
    }
    Ok(out)
}

/// Where the pins are kept: `pins.json` beside the grok agent's pid file.
pub fn pins_path_from_agent_pid(agent_pid_file: &str) -> (r: String)
    ensures
        r@ == (match parent(agent_pid_file@) {
            Some(p) => join(p, "pins.json"@),
            None => "pins.json"@,
        }),
{
    match parent_of(agent_pid_file) {
        Some(p) => join_str(p.as_str(), "pins.json"),
        None => "pins.json".to_string(),
    }
}


/// After a session is pinned it is pinned, and first; after it is unpinned
/// it is not pinned.
pub proof fn law_pin_then_is_pinned(pins: Seq<Seq<char>>, id: Seq<char>)
    ensures
        (seq![id] + without(pins, id)).contains(id),
        (seq![id] + without(pins, id))[0] == id,
        !without(pins, id).contains(id),
{
    let w = without(pins, id);
    assert((seq![id] + w)[0] == id);
    if w.contains(id) {
        let i = choose|i: int| 0 <= i < w.len() && w[i] == id;
        pins.lemma_filter_pred(|x: Seq<char>| x != id, i);
    }
}

} // verus!
