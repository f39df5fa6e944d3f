//! The signed-in account shown in the header: the e-mail address found in
//! grok's `auth.json`, masked.
use vstd::prelude::*;
use crate::parse::{FieldVal, field_of, get_field};
use crate::text::{chars_of, string_of, extend, extend_str, trim, trim_str, fpos, fpos_char, starts_with, ends_with, is_ws, slice_of};

verus! {

/// The part before and after the first `@`.
pub open spec fn split_at_sign(s: Seq<char>) -> Option<(Seq<char>, Seq<char>)> {
    match fpos(s, '@') {
        Some(i) => Some((s.take(i), s.skip(i + 1))),
        None => None,
    }
}

/// Whether a text looks like an e-mail address: something before the `@`, a
/// host with an inner dot, no whitespace (after trimming).
pub open spec fn looks_email_spec(raw: Seq<char>) -> bool {
    let s = trim(raw);
    match split_at_sign(s) {
        None => false,
        Some((user, host)) => user.len() > 0 && host.contains('.') && !(host.len() > 0 && host[0]
            == '.') && !(host.len() > 0 && host.last() == '.') && !(exists|i: int|
            0 <= i < s.len() && is_ws(#[trigger] s[i])),
    }
}

/// Whether a text looks like an e-mail address.
pub fn looks_email(raw: &str) -> (r: bool)
    ensures
        r == looks_email_spec(raw@),
{
    let s = trim_str(raw);
    match fpos_char(&s, '@') {
        None => false,
        Some(i) => {
            let user_len = i;
            let host = slice_of(&s, i + 1, s.len());
            proof {
                assert(s@.subrange(i + 1, s@.len() as int) =~= s@.skip(i + 1));
            }
            let mut ws = false;
            let mut k: usize = 0;
            while k < s.len()
                invariant
                    k <= s@.len(),
                    ws == exists|m: int| 0 <= m < k && is_ws(#[trigger] s@[m]),
                decreases s.len() - k,
            {
                if crate::text::is_whitespace(s[k]) {
                    ws = true;
                }
                k += 1;
            }
            user_len > 0 && crate::text::has_char(&host, '.') && !(host.len() > 0 && host[0] == '.')
                && !(host.len() > 0 && host[host.len() - 1] == '.') && !ws
        },
    }
}

/// An e-mail address masked for display: the first letter of the user and
/// `***`, then the host (`*` for a one-letter user); `***` where there is
/// no `@` or no host.
pub open spec fn mask_email_spec(raw: Seq<char>) -> Seq<char> {
    let s = trim(raw);
    match split_at_sign(s) {
        None => "***"@,
        Some((user, host)) => if host.len() == 0 {
            "***"@
        } else if user.len() >= 2 {
            seq![user[0]] + "***"@ + seq!['@'] + host
        } else {
            "*"@ + seq!['@'] + host
        },
    }
}

/// An e-mail address masked for display.
pub fn mask_email(raw: &str) -> (r: String)
    ensures
        r@ == mask_email_spec(raw@),
{
    let s = trim_str(raw);
    match fpos_char(&s, '@') {
        None => "***".to_string(),
        Some(i) => {
            let host = slice_of(&s, i + 1, s.len());
            proof {
                assert(s@.subrange(i + 1, s@.len() as int) =~= s@.skip(i + 1));
            }
            if host.len() == 0 {
                return "***".to_string();
            }
            let mut out: Vec<char> = Vec::new();
            if i >= 2 {
                out.push(s[0]);
                extend_str(&mut out, "***");
            } else {
                extend_str(&mut out, "*");
            }
            out.push('@');
            extend(&mut out, &host);
            proof {
                let user = s@.take(i as int);
                if i >= 2 {
                    assert(user[0] == s@[0]);
                    assert(out@ =~= seq![user[0]] + "***"@ + seq!['@'] + host@);
                } else {
                    assert(out@ =~= "*"@ + seq!['@'] + host@);
                }
            }
            string_of(&out)
        },
    }
}

/// A string field, trimmed, where it is not empty.
pub open spec fn email_field(v: FieldVal, key: Seq<char>) -> Option<Seq<char>> {
    match v {
        FieldVal::Object(fs) => match field_of(fs@, key) {
            Some(FieldVal::Str(s)) => if trim(s@).len() > 0 {
                Some(trim(s@))
            } else {
                None
            },
            _ => None,
        },
        _ => None,
    }
}

fn email_field_of(v: &FieldVal) -> (r: Option<Vec<char>>)
    ensures
        match r {
            Some(e) => email_field(*v, "email"@) == Some(e@),
            None => email_field(*v, "email"@) is None,
        },
{
    match v {
        FieldVal::Object(fs) => match get_field(fs.as_slice(), "email") {
            Some(FieldVal::Str(s)) => {
                let t = trim_str(s.as_str());
                if t.len() > 0 {
                    Some(t)
                } else {
                    None
                }
            },
            _ => None,
        },
        _ => None,
    }
}

/// The first e-mail address in the credentials: their own `email`, else the
/// first key that looks like an address (trimmed), or the `email` of the
/// credential under it.
pub open spec fn first_email(fs: Seq<(String, FieldVal)>) -> Option<Seq<char>>
    decreases fs.len(),
{
    if fs.len() == 0 {
        None
    } else if looks_email_spec(fs[0].0@) {
        Some(trim(fs[0].0@))
    } else if email_field(fs[0].1, "email"@) matches Some(e) && looks_email_spec(e) {
        email_field(fs[0].1, "email"@)
    } else {
        first_email(fs.drop_first())
    }
}

pub open spec fn auth_email(v: FieldVal) -> Option<Seq<char>> {
    if email_field(v, "email"@) matches Some(e) && looks_email_spec(e) {
        email_field(v, "email"@)
    } else {
        match v {
            FieldVal::Object(fs) => first_email(fs@),
            _ => None,
        }
    }
}

/// The account's e-mail address, masked, from the content of `auth.json`.
pub fn local_email(auth: &FieldVal) -> (r: Option<String>)
    ensures
        match auth_email(*auth) {
            Some(e) => r matches Some(m) && m@ == mask_email_spec(e),
            None => r is None,
        },
{
    let top = email_field_of(auth);
    match top {
        Some(e) => {
            let es = string_of(&e);
            if looks_email(es.as_str()) {
                return Some(mask_email(es.as_str()));
            }
        },
        None => {},
    }
    match auth {
        FieldVal::Object(fs) => {
            let mut i: usize = 0;
            proof {
                assert(fs@.subrange(0, fs@.len() as int) =~= fs@);
            }
            assert(auth_email(*auth) == first_email(fs@));
            while i < fs.len()
                invariant
                    i <= fs@.len(),
                    auth_email(*auth) == first_email(fs@),
                    first_email(fs@) == first_email(fs@.subrange(i as int, fs@.len() as int)),
                decreases fs.len() - i,
            {
                let ghost rest = fs@.subrange(i as int, fs@.len() as int);
                assert(rest[0] == fs@[i as int]);
                if looks_email(fs[i].0.as_str()) {
                    let t = trim_str(fs[i].0.as_str());
                    let ts = string_of(&t);
                    return Some(mask_email(ts.as_str()));
                }
                match email_field_of(&fs[i].1) {
                    Some(e) => {
                        let es = string_of(&e);
                        if looks_email(es.as_str()) {
                            return Some(mask_email(es.as_str()));
                        }
                    },
                    None => {},
                }
                proof {
                    assert(rest.drop_first() =~= fs@.subrange(i + 1, fs@.len() as int));
                }
                i += 1;
            }
            None
        },
        _ => None,
    }
}


pub open spec fn upper_ascii(s: Seq<char>) -> Seq<char> {
    s.map_values(|c: char| crate::text::ascii_upper(c))
}

fn upper_chars(v: &[char]) -> (r: Vec<char>)
    ensures
        r@ == upper_ascii(v@),
{
    let mut out: Vec<char> = Vec::new();
    let mut i: usize = 0;
    while i < v.len()
        invariant
            i <= v.len(),
            out@ == upper_ascii(v@).take(i as int),
        decreases v.len() - i,
    {
        let c = v[i];
        let u = if 'a' <= c && c <= 'z' {
            ((c as u8) - 32) as char
        } else {
            c
        };
        out.push(u);
        proof {
            assert(out@ =~= upper_ascii(v@).take(i + 1));
        }
        i += 1;
    }
    proof {
        assert(upper_ascii(v@).take(i as int) =~= upper_ascii(v@));
    }
    out
}

/// The name of a usage period: `weekly`, `monthly` or `daily` where the
/// period's name holds `WEEK`, `MONTH` or `DAY` (any case, in that order of
/// preference); else the name in lower case.
pub open spec fn period_spec(raw: Seq<char>) -> Seq<char> {
    let u = upper_ascii(raw);
    if crate::text::contains(u, "WEEK"@) {
        "weekly"@
    } else if crate::text::contains(u, "MONTH"@) {
        "monthly"@
    } else if crate::text::contains(u, "DAY"@) {
        "daily"@
    } else {
        crate::text::lower_ascii(raw)
    }
}

pub fn period_label(raw: &str) -> (r: String)
    ensures
        r@ == period_spec(raw@),
{
    let v = chars_of(raw);
    let u = upper_chars(&v);
    if crate::text::contains_str(&u, "WEEK") {
        "weekly".to_string()
    } else if crate::text::contains_str(&u, "MONTH") {
        "monthly".to_string()
    } else if crate::text::contains_str(&u, "DAY") {
        "daily".to_string()
    } else {
        string_of(&crate::text::lower_chars(&v))
    }
}

/// The letters and digits of `s`, in lower case.
pub open spec fn alnum_lower(s: Seq<char>) -> Seq<char>
    decreases s.len(),
{
    if s.len() == 0 {
        Seq::empty()
    } else if crate::text::is_ascii_alnum(s.last()) {
        alnum_lower(s.drop_last()).push(crate::text::ascii_lower(s.last()))
    } else {
        alnum_lower(s.drop_last())
    }
}

/// The display name of a subscription tier, matched on its letters and
/// digits in any case; an unknown tier keeps its name.
pub open spec fn tier_spec(raw: Seq<char>) -> Seq<char> {
    let k = alnum_lower(raw);
    if k == "grokpro"@ || k == "supergrok"@ {
        "SuperGrok"@
    } else if k == "groklite"@ || k == "supergroklite"@ {
        "SuperGrok Lite"@
    } else if k == "grokplus"@ || k == "supergrokplus"@ {
        "SuperGrok Plus"@
    } else if k == "grokheavy"@ || k == "supergrokheavy"@ {
        "SuperGrok Heavy"@
    } else if k == "xpremium"@ {
        "X Premium"@
    } else if k == "xpremiumplus"@ {
        "X Premium+"@
    } else if k == "xbasic"@ {
        "X Basic"@
    } else if k == "free"@ {
        "Free"@
    } else {
        raw
    }
}

pub fn tier_label(raw: &str) -> (r: String)
    ensures
        r@ == tier_spec(raw@),
{
    let v = chars_of(raw);
    let mut k: Vec<char> = Vec::new();
    let mut i: usize = 0;
    proof {
        assert(v@.take(0) =~= Seq::<char>::empty());
    }
    while i < v.len()
        invariant
            i <= v.len(),
            k@ == alnum_lower(v@.take(i as int)),
        decreases v.len() - i,
    {
        proof {
            assert(v@.take(i + 1).drop_last() =~= v@.take(i as int));
            assert(v@.take(i + 1).last() == v@[i as int]);
        }
        if crate::text::is_ascii_alphanumeric(v[i]) {
            k.push(crate::text::to_ascii_lower(v[i]));
        }
        i += 1;
    }
    proof {
        assert(v@.take(i as int) =~= v@);
    }
    let e = |lit: &str| -> (b: bool)
        ensures
            b == (k@ == lit@),
    { crate::text::eq_str(&k, lit) };
    if e("grokpro") || e("supergrok") {
        "SuperGrok".to_string()
    } else if e("groklite") || e("supergroklite") {
        "SuperGrok Lite".to_string()
    } else if e("grokplus") || e("supergrokplus") {
        "SuperGrok Plus".to_string()
    } else if e("grokheavy") || e("supergrokheavy") {
        "SuperGrok Heavy".to_string()
    } else if e("xpremium") {
        "X Premium".to_string()
    } else if e("xpremiumplus") {
        "X Premium+".to_string()
    } else if e("xbasic") {
        "X Basic".to_string()
    } else if e("free") {
        "Free".to_string()
    } else {
        raw.to_string()
    }
}

/// A value for a double-quoted curl config string: `\` and `"` escaped,
/// line breaks dropped.
pub open spec fn escape_dq_spec(s: Seq<char>) -> Seq<char>
    decreases s.len(),
{
    if s.len() == 0 {
        Seq::empty()
    } else {
        let c = s.last();
        escape_dq_spec(s.drop_last()) + (if c == '\\' || c == '"' {
            seq!['\\', c]
        } else if c == '\n' || c == '\r' {
            Seq::empty()
        } else {
            seq![c]
        })
    }
}

pub fn escape_curl_dq(s: &str) -> (r: String)
    ensures
        r@ == escape_dq_spec(s@),
{
    let v = chars_of(s);
    let mut out: Vec<char> = Vec::new();
    let mut i: usize = 0;
    proof {
        assert(v@.take(0) =~= Seq::<char>::empty());
    }
    while i < v.len()
        invariant
            i <= v.len(),
            out@ == escape_dq_spec(v@.take(i as int)),
        decreases v.len() - i,
    {
        let c = v[i];
        proof {
            assert(v@.take(i + 1).drop_last() =~= v@.take(i as int));
            assert(v@.take(i + 1).last() == c);
        }
        let ghost before = out@;
        if c == '\\' || c == '"' {
            out.push('\\');
            out.push(c);
            proof {
                assert(out@ =~= before + seq!['\\', c]);
            }
        } else if c == '\n' || c == '\r' {
            proof {
                assert(out@ =~= before + Seq::<char>::empty());
            }
        } else {
            out.push(c);
            proof {
                assert(out@ =~= before + seq![c]);
            }
        }
        i += 1;
    }
    proof {
        assert(v@.take(i as int) =~= v@);
    }
    string_of(&out)
}

/// The curl config that sends the usage request: the token as a bearer
/// token, JSON accepted, and grok's client marker.
pub open spec fn curl_config_spec(token: Seq<char>) -> Seq<char> {
    "header = \"Authorization: Bearer "@ + escape_dq_spec(token)
        + "\"\nheader = \"Accept: application/json\"\nheader = \"X-XAI-Token-Auth: xai-grok-cli\"\n"@
}

pub fn curl_header_config(token: &str) -> (r: String)
    ensures
        r@ == curl_config_spec(token@),
{
    let mut out = chars_of("header = \"Authorization: Bearer ");
    let e = escape_curl_dq(token);
    extend_str(&mut out, e.as_str());
    extend_str(
        &mut out,
        "\"\nheader = \"Accept: application/json\"\nheader = \"X-XAI-Token-Auth: xai-grok-cli\"\n",
    );
    string_of(&out)
}

/// The usage panel from the account's profile and its credits reply, where
/// each could be fetched. The percentages are left as the text of the number
/// (or string) found, for the caller to read as floating point.
pub struct AccountText {
    pub ok: bool,
    pub error: Option<String>,
    pub tier: Option<String>,
    pub tier_label: Option<String>,
    pub email: Option<String>,
    pub period: Option<String>,
    pub used_percent: Option<String>,
    pub resets_at: Option<String>,
    pub period_start: Option<String>,
    /// Each product's name (`product` where it has none) and its usage text.
    pub products: Vec<(String, Option<String>)>,
}

/// The value under `key` of an object.
pub open spec fn obj_field(v: FieldVal, key: Seq<char>) -> Option<FieldVal> {
    match v {
        FieldVal::Object(fs) => field_of(fs@, key),
        _ => None,
    }
}

/// The text of a percentage: a string as it is, a number by its text.
pub open spec fn percent_text(v: Option<FieldVal>) -> Option<Seq<char>> {
    match v {
        Some(FieldVal::Str(s)) => Some(s@),
        Some(x) => crate::ask::number_text(x),
        None => None,
    }
}

/// Where the credit figures stand: the reply's `config`, else the reply itself.
pub open spec fn credits_cfg(credits: Option<FieldVal>) -> Option<FieldVal> {
    match credits {
        Some(b) => match obj_field(b, "config"@) {
            Some(c) => Some(c),
            None => Some(b),
        },
        None => None,
    }
}

pub open spec fn first_of(a: Option<Seq<char>>, b: Option<Seq<char>>) -> Option<Seq<char>> {
    match a {
        Some(x) => Some(x),
        None => b,
    }
}

/// A period bound: from `currentPeriod` where it is there (else the
/// configuration's own key), else the configuration's own key.
pub open spec fn period_bound(cfg: Option<FieldVal>, inner: Seq<char>, outer: Seq<char>) -> Option<Seq<char>> {
    match cfg {
        Some(c) => match obj_field(c, "currentPeriod"@) {
            Some(p) => first_of(email_field(p, inner), email_field(c, outer)),
            None => email_field(c, outer),
        },
        None => None,
    }
}

pub open spec fn period_of(cfg: Option<FieldVal>) -> Option<Seq<char>> {
    match cfg {
        Some(c) => match obj_field(c, "currentPeriod"@) {
            Some(p) => match email_field(p, "type"@) {
                Some(t) => Some(period_spec(t)),
                None => None,
            },
            None => None,
        },
        None => None,
    }
}

/// The rows of `productUsage`, where it is an array.
pub open spec fn product_rows(cfg: Option<FieldVal>) -> Seq<FieldVal> {
    match cfg {
        Some(c) => match obj_field(c, "productUsage"@) {
            Some(FieldVal::Array(a)) => a@,
            _ => Seq::empty(),
        },
        None => Seq::empty(),
    }
}

pub open spec fn product_view(row: FieldVal) -> (Seq<char>, Option<Seq<char>>) {
    (
        match email_field(row, "product"@) {
            Some(p) => p,
            None => "product"@,
        },
        percent_text(obj_field(row, "usagePercent"@)),
    )
}

pub open spec fn products_view(v: Seq<(String, Option<String>)>) -> Seq<(Seq<char>, Option<Seq<char>>)> {
    v.map_values(|p: (String, Option<String>)| (p.0@, crate::types::opt_view(p.1)))
}

pub open spec fn opt_ref(o: Option<&FieldVal>) -> Option<FieldVal> {
    match o {
        Some(v) => Some(*v),
        None => None,
    }
}

pub open spec fn profile_text(profile: Option<FieldVal>, key: Seq<char>) -> Option<Seq<char>> {
    match profile {
        Some(u) => email_field(u, key),
        None => None,
    }
}

fn obj_get<'a>(v: &'a FieldVal, key: &str) -> (r: Option<&'a FieldVal>)
    ensures
        match r {
            Some(x) => obj_field(*v, key@) == Some(*x),
            None => obj_field(*v, key@) is None,
        },
{
    match v {
        FieldVal::Object(fs) => get_field(fs.as_slice(), key),
        _ => None,
    }
}

fn text_field_of(v: &FieldVal, key: &str) -> (r: Option<String>)
    ensures
        crate::types::opt_view(r) == email_field(*v, key@),
{
    match obj_get(v, key) {
        Some(FieldVal::Str(s)) => {
            let t = trim_str(s.as_str());
            if t.len() > 0 {
                Some(string_of(&t))
            } else {
                None
            }
        },
        _ => None,
    }
}

fn percent_of(v: Option<&FieldVal>) -> (r: Option<String>)
    ensures
        crate::types::opt_view(r) == percent_text(opt_ref(v)),
{
    match v {
        Some(FieldVal::Str(s)) => Some(s.clone()),
        Some(x) => match crate::ask::number_text_of(x) {
            Some(t) => Some(string_of(&t)),
            None => None,
        },
        None => None,
    }
}

fn pick_text(a: Option<String>, b: Option<String>) -> (r: Option<String>)
    ensures
        crate::types::opt_view(r) == first_of(crate::types::opt_view(a), crate::types::opt_view(b)),
{
    match a {
        Some(x) => Some(x),
        None => b,
    }
}

fn bound_of(cfg: Option<&FieldVal>, inner: &str, outer: &str) -> (r: Option<String>)
    ensures
        crate::types::opt_view(r) == period_bound(opt_ref(cfg), inner@, outer@),
{
    match cfg {
        Some(c) => match obj_get(c, "currentPeriod") {
            Some(p) => pick_text(text_field_of(p, inner), text_field_of(c, outer)),
            None => text_field_of(c, outer),
        },
        None => None,
    }
}

/// The usage panel from what the profile and credits requests returned.
pub fn merge_account(profile: Option<&FieldVal>, credits: Option<&FieldVal>) -> (r: AccountText)
    ensures
        r.ok == (profile is Some || credits is Some),
        r.ok ==> r.error is None,
        !r.ok ==> (r.error matches Some(e) && e@ == "couldn't load usage"@),
        crate::types::opt_view(r.tier) == profile_text(opt_ref(profile), "subscriptionTier"@),
        crate::types::opt_view(r.tier_label) == (match profile_text(opt_ref(profile), "subscriptionTier"@) {
            Some(t) => Some(tier_spec(t)),
            None => None,
        }),
        crate::types::opt_view(r.email) == (match profile_text(opt_ref(profile), "email"@) {
            Some(e) => Some(mask_email_spec(e)),
            None => None,
        }),
        crate::types::opt_view(r.period) == period_of(credits_cfg(opt_ref(credits))),
        crate::types::opt_view(r.used_percent) == (match credits_cfg(opt_ref(credits)) {
            Some(c) => percent_text(obj_field(c, "creditUsagePercent"@)),
            None => None,
        }),
        crate::types::opt_view(r.period_start) == period_bound(
            credits_cfg(opt_ref(credits)),
            "start"@,
            "billingPeriodStart"@,
        ),
        crate::types::opt_view(r.resets_at) == period_bound(
            credits_cfg(opt_ref(credits)),
            "end"@,
            "billingPeriodEnd"@,
        ),
        products_view(r.products@) == product_rows(credits_cfg(opt_ref(credits))).map_values(
            |row: FieldVal| product_view(row),
        ),
{
    let ok = profile.is_some() || credits.is_some();
    let (tier, tier_label, email) = match profile {
        Some(u) => {
            let t = text_field_of(u, "subscriptionTier");
            let l = match &t {
                Some(x) => Some(tier_label(x.as_str())),
                None => None,
            };
            let e = match text_field_of(u, "email") {
                Some(x) => Some(mask_email(x.as_str())),
                None => None,
            };
            (t, l, e)
        },
        None => (None, None, None),
    };
    let cfg: Option<&FieldVal> = match credits {
        Some(b) => match obj_get(b, "config") {
            Some(c) => Some(c),
            None => Some(b),
        },
        None => None,
    };
    assert(opt_ref(cfg) == credits_cfg(opt_ref(credits)));
    let period = match cfg {
        Some(c) => match obj_get(c, "currentPeriod") {
            Some(p) => match text_field_of(p, "type") {
                Some(t) => Some(period_label(t.as_str())),
                None => None,
            },
            None => None,
        },
        None => None,
    };
    let used_percent = match cfg {
        Some(c) => percent_of(obj_get(c, "creditUsagePercent")),
        None => None,
    };
    let period_start = bound_of(cfg, "start", "billingPeriodStart");
    let resets_at = bound_of(cfg, "end", "billingPeriodEnd");
    let mut products: Vec<(String, Option<String>)> = Vec::new();
    let rows: Option<&Vec<FieldVal>> = match cfg {
        Some(c) => match obj_get(c, "productUsage") {
            Some(FieldVal::Array(a)) => Some(a),
            _ => None,
        },
        None => None,
    };
    let ghost want = product_rows(opt_ref(cfg)).map_values(|row: FieldVal| product_view(row));
    match rows {
        Some(a) => {
            assert(product_rows(opt_ref(cfg)) == a@);
            let mut i: usize = 0;
            while i < a.len()
                invariant
                    i <= a.len(),
                    want == a@.map_values(|row: FieldVal| product_view(row)),
                    products@.len() == i,
                    products_view(products@) == want.take(i as int),
                decreases a.len() - i,
            {
                let name = match text_field_of(&a[i], "product") {
                    Some(p) => p,
                    None => "product".to_string(),
                };
                let pct = percent_of(obj_get(&a[i], "usagePercent"));
                let ghost entry = (name@, crate::types::opt_view(pct));
                assert(entry == product_view(a@[i as int]));
                assert(want[i as int] == product_view(a@[i as int]));
                let ghost before = products@;
                products.push((name, pct));
                proof {
                    assert(products_view(products@) =~= products_view(before).push(entry));
                    assert(want.take(i + 1) =~= want.take(i as int).push(want[i as int]));
                }
                i += 1;
            }
            proof {
                assert(want.take(a.len() as int) =~= want);
            }
        },
        None => {
            proof {
                assert(products_view(products@) =~= want);
            }
        },
    }
    let error = if ok {
        None
    } else {
        Some("couldn't load usage".to_string())
    };
    AccountText {
        ok,
        error,
        tier,
        tier_label,
        email,
        period,
        used_percent,
        resets_at,
        period_start,
        products,
    }
}

/// Whether a credential's `expires_at` (a non-empty RFC 3339 text) is at or
/// before `now` (seconds since the epoch); an unreadable date never expires.
pub open spec fn expired_spec(cred: FieldVal, now: i64) -> bool {
    match obj_field(cred, "expires_at"@) {
        Some(FieldVal::Str(s)) => s@.len() > 0 && match crate::parse::rfc3339_ms(s@) {
            Some(ms) => ms / 1000 <= now,
            None => false,
        },
        _ => false,
    }
}

/// The first credential's `key` (trimmed, not empty) that has not expired;
/// where all have, the last of them (else `fallback`).
pub open spec fn bearer_from(creds: Seq<(String, FieldVal)>, fallback: Option<Seq<char>>, now: i64) -> Option<Seq<char>>
    decreases creds.len(),
{
    if creds.len() == 0 {
        fallback
    } else {
        match email_field(creds[0].1, "key"@) {
            None => bearer_from(creds.drop_first(), fallback, now),
            Some(k) => if !expired_spec(creds[0].1, now) {
                Some(k)
            } else {
                bearer_from(creds.drop_first(), Some(k), now)
            },
        }
    }
}

/// The token the usage requests send: `XAI_API_KEY` (trimmed) where it is
/// set and not blank, else a key from the credentials of `auth.json`.
pub open spec fn bearer_spec(env_key: Option<Seq<char>>, auth: Option<FieldVal>, now: i64) -> Option<Seq<char>> {
    match env_key {
        Some(k) if trim(k).len() > 0 => Some(trim(k)),
        _ => match auth {
            Some(FieldVal::Object(fs)) => bearer_from(fs@, None, now),
            _ => None,
        },
    }
}

fn expired_exec(cred: &FieldVal, now: i64) -> (r: bool)
    ensures
        r == expired_spec(*cred, now),
{
    match obj_get(cred, "expires_at") {
        Some(FieldVal::Str(s)) => {
            if s.as_str().is_empty() {
                return false;
            }
            match crate::parse::rfc3339_millis(s.as_str()) {
                Some(ms) => {
                    let secs = if ms >= 0 {
                        ms / 1000
                    } else {
                        -((-(ms + 1)) / 1000) - 1
                    };
                    proof {
                        if ms < 0 {
                            assert(secs == ms / 1000) by (nonlinear_arith)
                                requires
                                    ms < 0,
                                    secs == -((-(ms + 1)) / 1000) - 1,
                            ;
                        }
                    }
                    secs <= now
                },
                None => false,
            }
        },
        _ => false,
    }
}

/// The token the usage requests send, from `XAI_API_KEY`, else the
/// credentials in `auth.json` at `now` (seconds since the epoch).
pub fn pick_bearer(env_key: Option<&str>, auth: Option<&FieldVal>, now: i64) -> (r: Option<String>)
    ensures
        crate::types::opt_view(r) == bearer_spec(crate::files::opt_str_view(env_key), opt_ref(auth), now),
{
    match env_key {
        Some(k) => {
            let t = trim_str(k);
            if t.len() > 0 {
                return Some(string_of(&t));
            }
        },
        None => {},
    }
    let fs = match auth {
        Some(FieldVal::Object(fs)) => fs,
        _ => {
            return None;
        },
    };
    let mut fallback: Option<String> = None;
    let mut i: usize = 0;
    proof {
        assert(fs@.skip(0) =~= fs@);
    }
    assert(bearer_spec(crate::files::opt_str_view(env_key), opt_ref(auth), now) == bearer_from(fs@, None, now));
    while i < fs.len()
        invariant
            i <= fs.len(),
            bearer_spec(crate::files::opt_str_view(env_key), opt_ref(auth), now) == bearer_from(fs@, None, now),
            bearer_from(fs@, None, now) == bearer_from(fs@.skip(i as int), crate::types::opt_view(fallback), now),
        decreases fs.len() - i,
    {
        proof {
            assert(fs@.skip(i as int)[0] == fs@[i as int]);
            assert(fs@.skip(i as int).drop_first() =~= fs@.skip(i + 1));
        }
        match text_field_of(&fs[i].1, "key") {
            Some(k) => {
                if !expired_exec(&fs[i].1, now) {
                    return Some(k);
                }
                fallback = Some(k);
            },
            None => {},
        }
        i += 1;
    }
    proof {
        assert(fs@.skip(i as int) =~= Seq::<(String, FieldVal)>::empty());
    }
    fallback
}

/// The usage service when `GROK_CLI_CHAT_PROXY_BASE_URL` names none.
pub const DEFAULT_PROXY: &'static str = "https://cli-chat-proxy.grok.com/v1";

/// The base URL of the usage service: the variable where it is not blank,
/// else the default; trimmed, without trailing slashes.
pub open spec fn proxy_base_spec(env: Option<Seq<char>>) -> Seq<char> {
    let raw = match env {
        Some(e) if trim(e).len() > 0 => e,
        _ => DEFAULT_PROXY@,
    };
    crate::text::strip_trailing(trim(raw), '/')
}

pub fn proxy_base(env: Option<&str>) -> (r: String)
    ensures
        r@ == proxy_base_spec(crate::files::opt_str_view(env)),
{
    let raw: Vec<char> = match env {
        Some(e) => {
            let t = trim_str(e);
            if t.len() > 0 {
                chars_of(e)
            } else {
                chars_of(DEFAULT_PROXY)
            }
        },
        None => chars_of(DEFAULT_PROXY),
    };
    let t = crate::text::trim_chars(&raw);
    string_of(&crate::text::strip_trailing_chars(&t, '/'))
}

/// The two usage requests: the profile with its subscription, and the credits.
pub fn usage_urls(base: &str) -> (r: (String, String))
    ensures
        r.0@ == base@ + "/user?include=subscription"@,
        r.1@ == base@ + "/billing?format=credits"@,
{
    let mut a = chars_of(base);
    extend_str(&mut a, "/user?include=subscription");
    let mut b = chars_of(base);
    extend_str(&mut b, "/billing?format=credits");
    (string_of(&a), string_of(&b))
}

/// The message a failed usage request shows, from what curl wrote to
/// stderr: `auth expired` where it names status 401 or 403; `couldn't load
/// usage` where it wrote nothing; else its text (trimmed), cut to 160
/// characters.
pub open spec fn usage_error_spec(stderr: Seq<char>) -> Seq<char> {
    let e = trim(stderr);
    if crate::text::contains(e, "401"@) || crate::text::contains(e, "403"@) {
        "auth expired"@
    } else if e.len() == 0 {
        "couldn't load usage"@
    } else {
        crate::parse::truncate_spec(e, 160)
    }
}

pub fn usage_error(stderr: &str) -> (r: String)
    ensures
        r@ == usage_error_spec(stderr@),
{
    let e = trim_str(stderr);
    if crate::text::contains_str(&e, "401") || crate::text::contains_str(&e, "403") {
        return "auth expired".to_string();
    }
    if e.len() == 0 {
        return "couldn't load usage".to_string();
    }
    let es = string_of(&e);
    crate::parse::truncate(es.as_str(), 160)
}

/// Whether the cached usage panel is still fresh: for a minute after a
/// success, for 15 seconds after a failure; a panel whose time of loading is
/// not known (`age_ms` is `None`) is stale.
pub fn account_fresh(age_ms: Option<u64>, ok: bool) -> (r: bool)
    ensures
        r == (match age_ms {
            Some(a) => a <= (if ok {
                60000u64
            } else {
                15000u64
            }),
            None => false,
        }),
{
    match age_ms {
        Some(a) => a <= if ok {
            60000
        } else {
            15000
        },
        None => false,
    }
}

} // verus!
