//! Login token comparison and signed session cookies.
//!
//! A cookie value is `<exp>.<hex tag>`, where `exp` is the Unix second at
//! which it lapses and the tag is HMAC-SHA256 of the decimal `exp` under the
//! server's cookie key.
use vstd::prelude::*;
use crate::numfmt::{idec, parse_signed, parse_i64, i64_chars, parse_unsigned, parse_u16, dec, u64_chars};
use crate::pathx::{split, split_chars, views, rpos_char, rpos};
use crate::text::{
    chars_of, string_of, extend, extend_str, trim, trim_chars, fpos, fpos_char, starts_with,
    starts_with_chars, starts_with_str, slice_of,
};
use hmac::Mac;
use subtle::ConstantTimeEq;

verus! {

/// Lifetime of a session cookie, in seconds (seven days).
pub const COOKIE_TTL_SECS: i64 = 604800;

/// HMAC-SHA256 of `msg` under `key`, as computed by the `hmac` and `sha2` crates.
pub uninterp spec fn hmac_sha256(key: Seq<u8>, msg: Seq<u8>) -> Seq<u8>;

/// `hmac::Hmac::<sha2::Sha256>::new_from_slice(key)`, `update(msg)`, `finalize()`:
/// the tag is the named HMAC of `msg` under `key`, and SHA-256 tags are 32 bytes.
#[verifier::external_body]
fn hmac_tag(key: &[u8], msg: &[u8]) -> (tag: Vec<u8>)
    ensures
        tag@ == hmac_sha256(key@, msg@),
        tag@.len() == 32,
{
    let mut mac = hmac::Hmac::<sha2::Sha256>::new_from_slice(key).expect("HMAC takes any key length");
    mac.update(msg);
    mac.finalize().into_bytes().to_vec()
}

/// `hmac::Mac::verify_slice`: accepts `tag` exactly when it equals the HMAC
/// of `msg` under `key` (a tag of another length is refused, and every HMAC
/// tag has the output length).
#[verifier::external_body]
fn hmac_check(key: &[u8], msg: &[u8], tag: &[u8]) -> (ok: bool)
    ensures
        ok == (tag@ == hmac_sha256(key@, msg@)),
{
    let mut mac = hmac::Hmac::<sha2::Sha256>::new_from_slice(key).expect("HMAC takes any key length");
    mac.update(msg);
    mac.verify_slice(tag).is_ok()
}

/// `subtle::ConstantTimeEq::ct_eq` on byte slices: true exactly when the
/// slices have the same length and bytes.
#[verifier::external_body]
fn ct_eq_bytes(a: &[u8], b: &[u8]) -> (r: bool)
    ensures
        r == (a@ == b@),
{
    bool::from(a.ct_eq(b))
}

pub open spec fn hex_digit(n: int) -> char {
    if n < 10 {
        (48 + n) as char
    } else {
        (87 + n) as char
    }
}

/// Lower-case hex text of bytes, two digits per byte.
pub open spec fn hex_lower(b: Seq<u8>) -> Seq<char>
    decreases b.len(),
{
    if b.len() == 0 {
        Seq::empty()
    } else {
        hex_lower(b.drop_last()) + seq![hex_digit((b.last() / 16) as int), hex_digit((b.last() % 16) as int)]
    }
}

pub open spec fn hex_val(c: char) -> Option<int> {
    if '0' <= c && c <= '9' {
        Some((c as int) - 48)
    } else if 'a' <= c && c <= 'f' {
        Some((c as int) - 87)
    } else if 'A' <= c && c <= 'F' {
        Some((c as int) - 55)
    } else {
        None
    }
}

/// Bytes of hex text: even length, digits of either case.
pub open spec fn hex_decode_spec(s: Seq<char>) -> Option<Seq<u8>>
    decreases s.len(),
{
    if s.len() == 0 {
        Some(Seq::empty())
    } else if s.len() == 1 {
        None
    } else {
        match (hex_decode_spec(s.take(s.len() - 2)), hex_val(s[s.len() - 2]), hex_val(s.last())) {
            (Some(p), Some(h), Some(l)) => Some(p.push((h * 16 + l) as u8)),
            _ => None,
        }
    }
}

/// `hex::encode`: lower-case hex text of `data`.
#[verifier::external_body]
pub(crate) fn hex_encode(data: &[u8]) -> (s: String)
    ensures
        s@ == hex_lower(data@),
{
    hex::encode(data)
}

/// `hex::decode`: the bytes of `s` when it is even-length hex text.
#[verifier::external_body]
pub(crate) fn hex_decode(s: &str) -> (r: Option<Vec<u8>>)
    ensures
        match hex_decode_spec(s@) {
            Some(b) => r matches Some(v) && v@ == b,
            None => r is None,
        },
{
    hex::decode(s).ok()
}

/// ASCII text as bytes.
pub open spec fn ascii_bytes(s: Seq<char>) -> Seq<u8> {
    s.map_values(|c: char| c as u8)
}

pub(crate) fn to_ascii_bytes(s: &[char]) -> (r: Vec<u8>)
    ensures
        r@ == ascii_bytes(s@),
{
    let mut out: Vec<u8> = Vec::new();
    let mut i: usize = 0;
    while i < s.len()
        invariant
            i <= s.len(),
            out@ == ascii_bytes(s@.take(i as int)),
        decreases s.len() - i,
    {
        out.push(s[i] as u8);
        proof {
            assert(ascii_bytes(s@.take(i + 1)) =~= ascii_bytes(s@.take(i as int)).push(
                s@[i as int] as u8,
            ));
        }
        i += 1;
    }
    proof {
        assert(s@.take(s.len() as int) == s@);
    }
    out
}

/// Whether two tokens are equal, compared in constant time when their
/// lengths match.
pub fn constant_time_eq(a: &str, b: &str) -> (r: bool)
    ensures
        r == (a@ == b@),
{
    let aa = a.as_bytes();
    let bb = b.as_bytes();
    proof {
        vstd::utf8::encode_utf8_decode_utf8(a@);
        vstd::utf8::encode_utf8_decode_utf8(b@);
    }
    if aa.len() != bb.len() {
        let dummy: Vec<u8> = vec_of_zeros(aa.len());
        let _ = ct_eq_bytes(aa, dummy.as_slice());
        return false;
    }
    ct_eq_bytes(aa, bb)
}

fn vec_of_zeros(n: usize) -> (v: Vec<u8>)
    ensures
        v@.len() == n,
{
    let mut v: Vec<u8> = Vec::new();
    while v.len() < n
        invariant
            v@.len() <= n,
        decreases n - v.len(),
    {
        v.push(0);
    }
    v
}

/// The cookie value `sign_cookie` issues at `now`.
pub open spec fn signed_value(key: Seq<u8>, now: int) -> Seq<char> {
    let payload = idec(now + COOKIE_TTL_SECS);
    payload + seq!['.'] + hex_lower(hmac_sha256(key, ascii_bytes(payload)))
}

/// Whether `value` is a cookie that `key` signed and that has not lapsed at `now`.
pub open spec fn cookie_valid(key: Seq<u8>, value: Seq<char>, now: int) -> bool {
    match fpos(value, '.') {
        None => false,
        Some(i) => {
            let exp_s = value.take(i);
            let sig_hex = value.skip(i + 1);
            match parse_signed(exp_s) {
                None => false,
                Some(exp) => exp >= now && match hex_decode_spec(sig_hex) {
                    Some(sig) => sig == hmac_sha256(key, ascii_bytes(exp_s)),
                    None => false,
                },
            }
        },
    }
}

/// Issues a session cookie value that lapses `COOKIE_TTL_SECS` after `now_unix`.
pub fn sign_cookie(key: &[u8; 32], now_unix: i64) -> (r: String)
    requires
        now_unix + COOKIE_TTL_SECS <= i64::MAX,
    ensures
        r@ == signed_value(key@, now_unix as int),
{
    let exp = now_unix + COOKIE_TTL_SECS;
    let payload = i64_chars(exp);
    let bytes = to_ascii_bytes(&payload);
    let tag = hmac_tag(key.as_slice(), &bytes);
    let hex = hex_encode(&tag);
    let mut out = payload;
    out.push('.');
    extend_str(&mut out, hex.as_str());
    string_of(&out)
}

/// Checks a cookie value against the key and the current time.
pub fn verify_cookie(key: &[u8; 32], value: &str, now_unix: i64) -> (r: bool)
    ensures
        r == cookie_valid(key@, value@, now_unix as int),
{
    let v = chars_of(value);
    let i = match fpos_char(&v, '.') {
        Some(i) => i,
        None => {
            return false;
        },
    };
    let exp_s = slice_of(&v, 0, i);
    let sig_hex = slice_of(&v, i + 1, v.len());
    proof {
        assert(exp_s@ =~= v@.take(i as int));
        assert(sig_hex@ =~= v@.skip(i + 1));
    }
    let exp = match parse_i64(&exp_s) {
        Some(e) => e,
        None => {
            return false;
        },
    };
    if exp < now_unix {
        return false;
    }
    let sig_text = string_of(&sig_hex);
    let sig = match hex_decode(sig_text.as_str()) {
        Some(s) => s,
        None => {
            return false;
        },
    };
    let msg = to_ascii_bytes(&exp_s);
    hmac_check(key.as_slice(), &msg, &sig)
}

proof fn lemma_hex_digit_val(n: int)
    requires
        0 <= n < 16,
    ensures
        hex_val(hex_digit(n)) == Some(n),
        hex_digit(n) != '.',
{
}

/// Hex text decodes back to the bytes it encodes.
pub proof fn lemma_hex_roundtrip(b: Seq<u8>)
    ensures
        hex_decode_spec(hex_lower(b)) == Some(b),
        hex_lower(b).len() == 2 * b.len(),
        !hex_lower(b).contains('.'),
    decreases b.len(),
{
    if b.len() > 0 {
        let p = b.drop_last();
        lemma_hex_roundtrip(p);
        let x = b.last();
        let hi = x / 16;
        let lo = x % 16;
        lemma_hex_digit_val(hi as int);
        lemma_hex_digit_val(lo as int);
        let s = hex_lower(b);
        assert(s == hex_lower(p) + seq![hex_digit(hi as int), hex_digit(lo as int)]);
        assert(s.take(s.len() - 2) =~= hex_lower(p));
        assert(s[s.len() - 2] == hex_digit(hi as int));
        assert(s.last() == hex_digit(lo as int));
        assert((hi * 16 + lo) as u8 == x);
        assert(p.push(x) =~= b);
        assert(!s.contains('.')) by {
            if s.contains('.') {
                let k = choose|k: int| 0 <= k < s.len() && s[k] == '.';
                if k < s.len() - 2 {
                    assert(hex_lower(p)[k] == '.');
                }
            }
        }
    } else {
        assert(hex_lower(b) =~= Seq::<char>::empty());
    }
}

/// A cookie that `sign_cookie` issued at `now` is accepted at time `t`
/// exactly while `t` is not past its lapse time, `now + COOKIE_TTL_SECS`.
pub proof fn law_signed_cookie_accepted_until_expiry(key: Seq<u8>, now: i64, t: i64)
    requires
        now + COOKIE_TTL_SECS <= i64::MAX,
    ensures
        cookie_valid(key, signed_value(key, now as int), t as int) == (t <= now + COOKIE_TTL_SECS),
{
    let exp = (now + COOKIE_TTL_SECS) as i64;
    let payload = idec(exp as int);
    crate::numfmt::lemma_i64_roundtrip(exp);
    let tag = hmac_sha256(key, ascii_bytes(payload));
    lemma_hex_roundtrip(tag);
    let v = signed_value(key, now as int);
    assert(!payload.contains('.')) by {
        if payload.contains('.') {
            let k = choose|k: int| 0 <= k < payload.len() && payload[k] == '.';
            lemma_idec_no_dot(exp as int, k);
        }
    }
    crate::text::lemma_fpos_none(payload, '.');
    assert(v.take(payload.len() as int) =~= payload);
    assert(v[payload.len() as int] == '.');
    crate::text::lemma_fpos_extend(v, payload.len() as int, '.');
    assert(v.skip(payload.len() as int + 1) =~= hex_lower(tag));
}

proof fn lemma_idec_no_dot(x: int, k: int)
    requires
        0 <= k < idec(x).len(),
    ensures
        idec(x)[k] != '.',
{
    if x < 0 {
        let m = (-x) as nat;
        crate::numfmt::lemma_dec_roundtrip(m);
        if k > 0 {
            assert(idec(x)[k] == dec(m)[k - 1]);
        }
    } else {
        crate::numfmt::lemma_dec_roundtrip(x as nat);
    }
}

pub open spec fn port_text(h: Seq<char>) -> Seq<char> {
    match rpos(h, ']') {
        Some(i) => crate::text::strip_leading(h.skip(i + 1), ':'),
        None => match rpos(h, ':') {
            Some(i) => h.skip(i + 1),
            None => Seq::empty(),
        },
    }
}

/// The port of a `host:port` or `[v6]:port` listen address.
pub open spec fn port_spec(bind: Seq<char>) -> Option<int> {
    let h = trim(bind);
    if h.len() == 0 {
        None
    } else if rpos(h, ']') is None && rpos(h, ':') is None {
        None
    } else {
        parse_unsigned(port_text(h), 65535)
    }
}

/// Port of a listen address such as `0.0.0.0:9888` or `[::]:9888`.
pub fn port_of_bind(bind: &str) -> (r: Option<u16>)
    ensures
        match port_spec(bind@) {
            Some(p) => r == Some(p as u16),
            None => r is None,
        },
{
    let bv = chars_of(bind);
    let h = trim_chars(&bv);
    if h.len() == 0 {
        return None;
    }
    match rpos_char(&h, ']') {
        Some(i) => {
            let rest = slice_of(&h, i + 1, h.len());
            proof {
                assert(rest@ =~= h@.skip(i + 1));
            }
            let digits = crate::text::strip_leading_chars(&rest, ':');
            parse_u16(&digits)
        },
        None => match rpos_char(&h, ':') {
            Some(i) => {
                let rest = slice_of(&h, i + 1, h.len());
                proof {
                    assert(rest@ =~= h@.skip(i + 1));
                }
                parse_u16(&rest)
            },
            None => None,
        },
    }
}

proof fn lemma_port_range(bind: Seq<char>)
    ensures
        port_spec(bind) matches Some(p) ==> 0 <= p <= 65535,
{
    let h = trim(bind);
    let t = port_text(h);
    let digits = if t.len() > 0 && t[0] == '+' {
        t.drop_first()
    } else {
        t
    };
    if crate::numfmt::all_digits(digits) {
        crate::numfmt::lemma_dec_val_nonneg(digits);
    }
}

pub open spec fn cookie_name_spec(bind: Seq<char>) -> Seq<char> {
    match port_spec(bind) {
        Some(p) => if p > 0 { "ggok_"@ + dec(p as nat) } else { "ggok"@ },
        None => "ggok"@,
    }
}

/// Cookie name for a listen address: `ggok_<port>`, or `ggok` without a port.
pub fn cookie_name_for_bind(bind: &str) -> (r: String)
    ensures
        r@ == cookie_name_spec(bind@),
{
    proof {
        lemma_port_range(bind@);
    }
    match port_of_bind(bind) {
        Some(port) => {
            if port > 0 {
                let mut out: Vec<char> = Vec::new();
                extend_str(&mut out, "ggok_");
                let d = u64_chars(port as u64);
                extend(&mut out, &d);
                string_of(&out)
            } else {
                string_of(&chars_of("ggok"))
            }
        },
        None => string_of(&chars_of("ggok")),
    }
}

/// The value of the first `;`-separated part of a cookie header that starts
/// with `name=`, after trimming.
pub open spec fn cookie_in(parts: Seq<Seq<char>>, prefix: Seq<char>) -> Option<Seq<char>>
    decreases parts.len(),
{
    if parts.len() == 0 {
        None
    } else if starts_with(trim(parts[0]), prefix) {
        Some(trim(parts[0]).skip(prefix.len() as int))
    } else {
        cookie_in(parts.drop_first(), prefix)
    }
}

/// Reads cookie `name` from a `Cookie` header.
pub fn cookie_from_header(header: Option<&str>, name: &str) -> (r: Option<String>)
    ensures
        match header {
            None => r is None,
            Some(h) => match cookie_in(split(h@, ';'), name@ + "="@) {
                Some(v) => r matches Some(s) && s@ == v,
                None => r is None,
            },
        },
{
    let h = header?;
    let hv = chars_of(h);
    let mut prefix = chars_of(name);
    extend_str(&mut prefix, "=");
    let parts = split_chars(&hv, ';');
    let ghost all = views(parts@);
    let mut i: usize = 0;
    proof {
        assert(all.skip(0) == all);
    }
    while i < parts.len()
        invariant
            i <= parts.len(),
            all == views(parts@),
            all == split(h@, ';'),
            header == Some(h),
            prefix@ == name@ + "="@,
            cookie_in(all, prefix@) == cookie_in(all.skip(i as int), prefix@),
        decreases parts.len() - i,
    {
        let part = trim_chars(&parts[i]);
        proof {
            assert(all.skip(i as int)[0] == parts@[i as int]@);
            assert(all.skip(i as int).drop_first() == all.skip(i + 1));
        }
        if starts_with_chars(&part, &prefix) {
            let v = slice_of(&part, prefix.len(), part.len());
            proof {
                assert(v@ =~= part@.skip(prefix@.len() as int));
                assert(all.skip(i as int).len() > 0);
                assert(cookie_in(all.skip(i as int), prefix@) == Some(v@));
            }
            return Some(string_of(&v));
        }
        i += 1;
    }
    None
}

pub open spec fn bearer_spec(h: Seq<char>) -> Option<Seq<char>> {
    if starts_with(h, "Bearer "@) {
        Some(h.skip(7))
    } else if starts_with(h, "bearer "@) {
        Some(h.skip(7))
    } else {
        None
    }
}

/// The token of an `Authorization: Bearer <token>` header.
pub fn bearer_token(header: Option<&str>) -> (r: Option<String>)
    ensures
        match header {
            None => r is None,
            Some(h) => match bearer_spec(h@) {
                Some(t) => r matches Some(s) && s@ == t,
                None => r is None,
            },
        },
{
    let h = header?;
    let hv = chars_of(h);
    proof {
        reveal_strlit("Bearer ");
        reveal_strlit("bearer ");
    }
    if starts_with_str(&hv, "Bearer ") || starts_with_str(&hv, "bearer ") {
        let t = slice_of(&hv, 7, hv.len());
        proof {
            assert(t@ =~= hv@.skip(7));
        }
        Some(string_of(&t))
    } else {
        None
    }
}

/// HTTP status and body for a request without valid credentials.
pub fn unauthorized() -> (r: (u16, &'static str))
    ensures
        r.0 == 401 && r.1@ == "unauthorized"@,
{
    (401, "unauthorized")
}

/// HTTP status and body once a client has failed to log in too often.
pub fn too_many() -> (r: (u16, &'static str))
    ensures
        r.0 == 429 && r.1@ == "too many login attempts"@,
{
    (429, "too many login attempts")
}

/// The `Set-Cookie` value of a session cookie: `name=value`, then
/// `HttpOnly`, `SameSite=Lax`, `Path=/` and `Max-Age` in seconds.
pub open spec fn session_cookie_text(name: Seq<char>, value: Seq<char>, max_age: int) -> Seq<char> {
    name + "="@ + value + "; HttpOnly; SameSite=Lax; Path=/; Max-Age="@ + crate::numfmt::idec(max_age)
}

/// Builds a `cookie::Cookie` with `Cookie::new(name, value)`, HttpOnly,
/// SameSite Lax, path `/` and the max age, and formats it with `Display`.
/// As the crate's source writes it, that is `name=value` followed by
/// `; HttpOnly; SameSite=Lax; Path=/; Max-Age=` and the whole seconds
/// (nothing is percent-encoded).
#[verifier::external_body]
fn cookie_header(name: &str, value: &str, max_age_secs: i64) -> (r: String)
    ensures
        r@ == session_cookie_text(name@, value@, max_age_secs as int),
{
    let mut c = cookie::Cookie::new(name.to_string(), value.to_string());
    c.set_http_only(true);
    c.set_same_site(cookie::SameSite::Lax);
    c.set_path("/");
    c.set_max_age(cookie::time::Duration::seconds(max_age_secs));
    c.to_string()
}

/// The session cookie a login sets: it lasts [`COOKIE_TTL_SECS`].
pub fn build_session_cookie(name: &str, value: &str) -> (r: String)
    ensures
        r@ == session_cookie_text(name@, value@, COOKIE_TTL_SECS as int),
{
    cookie_header(name, value, COOKIE_TTL_SECS)
}

/// The cookie a logout sets: empty and already expired.
pub fn clear_session_cookie(name: &str) -> (r: String)
    ensures
        r@ == session_cookie_text(name@, Seq::empty(), 0),
{
    proof {
        reveal_strlit("");
    }
    let r = cookie_header(name, "", 0);
    proof {
        assert(""@ =~= Seq::<char>::empty());
    }
    r
}

} // verus!
