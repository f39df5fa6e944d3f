//! Facts about the machine read from what the system prints: the
//! effective user id and where the grok binary lives. Running the commands
//! and looking at the file system is left to the caller.
use vstd::prelude::*;
use crate::numfmt::{parse_unsigned, parse_u32};
use crate::pathx::{join, join_str, views};
use crate::prefs::{lines, lines_of};
use crate::text::{chars_of, slice_of, starts_with, starts_with_str, string_of, trim, trim_str, words, words_of};

verus! {

/// The first line of `ls` that starts with `Uid:`.
pub open spec fn uid_line(ls: Seq<Seq<char>>) -> Option<Seq<char>>
    decreases ls.len(),
{
    if ls.len() == 0 {
        None
    } else if starts_with(ls[0], "Uid:"@) {
        Some(ls[0])
    } else {
        uid_line(ls.drop_first())
    }
}

/// The effective user id in a `/proc/self/status` text: the second number
/// on the first `Uid:` line, as `u32`; `None` when that line has no such
/// number, or there is no such line.
pub open spec fn status_uid_spec(raw: Seq<char>) -> Option<u32> {
    match uid_line(lines(raw)) {
        None => None,
        Some(l) => {
            let w = words(l.skip(4));
            if w.len() < 2 {
                None
            } else {
                match parse_unsigned(w[1], u32::MAX as int) {
                    Some(v) => Some(v as u32),
                    None => None,
                }
            }
        },
    }
}

/// The effective user id from the text of `/proc/self/status`.
pub fn uid_from_status(raw: &str) -> (r: Option<u32>)
    ensures
        r == status_uid_spec(raw@),
{
    let chars = chars_of(raw);
    let ls = lines_of(&chars);
    let ghost lv = views(ls@);
    let mut i: usize = 0;
    proof {
        reveal_strlit("Uid:");
        assert(lv.skip(0) =~= lv);
    }
    while i < ls.len()
        invariant
            i <= ls.len(),
            lv == views(ls@),
            lv == lines(raw@),
            uid_line(lv) == uid_line(lv.skip(i as int)),
            "Uid:"@.len() == 4,
        decreases ls.len() - i,
    {
        let line = &ls[i];
        proof {
            assert(lv.skip(i as int)[0] == line@);
            assert(lv.skip(i as int).drop_first() =~= lv.skip(i + 1));
        }
        if starts_with_str(line, "Uid:") {
            let rest = slice_of(line, 4, line.len());
            proof {
                assert(rest@ =~= line@.skip(4));
            }
            let w = words_of(&rest);
            if w.len() < 2 {
                return None;
            }
            proof {
                assert(views(w@)[1] == w@[1]@);
            }
            return parse_u32(&w[1]);
        }
        i += 1;
    }
    proof {
        assert(lv.skip(i as int) =~= Seq::<Seq<char>>::empty());
    }
    None
}

/// The user id that `id -u` printed: the trimmed text as `u32`.
pub fn uid_from_id_output(out: &str) -> (r: Option<u32>)
    ensures
        r == (match parse_unsigned(trim(out@), u32::MAX as int) {
            Some(v) => Some(v as u32),
            None => None::<u32>,
        }),
{
    let t = trim_str(out);
    parse_u32(&t)
}

/// The path `which` printed, when it succeeded and printed one: its output trimmed.
pub fn which_path(success: bool, stdout: &str) -> (r: Option<String>)
    ensures
        !success ==> r is None,
        success && trim(stdout@).len() == 0 ==> r is None,
        success && trim(stdout@).len() > 0 ==> (r matches Some(p) && p@ == trim(stdout@)),
{
    if !success {
        return None;
    }
    let t = trim_str(stdout);
    if t.len() == 0 {
        return None;
    }
    Some(string_of(&t))
}

/// Where to look for grok when `which` does not know it: under `HOME`
/// (`.grok/bin`, `.local/bin`, `.cargo/bin`), under `GROK_HOME` (`bin`, and
/// itself), then Homebrew's and the local `bin`. An unset variable adds
/// nothing; a set one is used as it is.
pub open spec fn candidates_spec(home: Option<String>, grok_home: Option<String>) -> Seq<Seq<char>> {
    let a: Seq<Seq<char>> = match home {
        Some(h) => seq![join(h@, ".grok/bin/grok"@), join(h@, ".local/bin/grok"@), join(h@, ".cargo/bin/grok"@)],
        None => Seq::empty(),
    };
    let b: Seq<Seq<char>> = match grok_home {
        Some(g) => seq![join(g@, "bin/grok"@), join(g@, "grok"@)],
        None => Seq::empty(),
    };
    a + b + seq!["/opt/homebrew/bin/grok"@, "/usr/local/bin/grok"@]
}

pub fn grok_bin_candidates(home: Option<String>, grok_home: Option<String>) -> (r: Vec<String>)
    ensures
        r@.map_values(|s: String| s@) == candidates_spec(home, grok_home),
{
    let mut out: Vec<String> = Vec::new();
    match &home {
        Some(h) => {
            out.push(join_str(h.as_str(), ".grok/bin/grok"));
            out.push(join_str(h.as_str(), ".local/bin/grok"));
            out.push(join_str(h.as_str(), ".cargo/bin/grok"));
        },
        None => {},
    }
    match &grok_home {
        Some(g) => {
            out.push(join_str(g.as_str(), "bin/grok"));
            out.push(join_str(g.as_str(), "grok"));
        },
        None => {},
    }
    out.push("/opt/homebrew/bin/grok".to_string());
    out.push("/usr/local/bin/grok".to_string());
    proof {
        assert(out@.map_values(|s: String| s@) =~= candidates_spec(home, grok_home));
    }
    out
}

/// The index of the first `true` in `s`.
pub open spec fn first_true(s: Seq<bool>) -> Option<int>
    decreases s.len(),
{
    if s.len() == 0 {
        None
    } else if s[0] {
        Some(0)
    } else {
        match first_true(s.drop_first()) {
            Some(i) => Some(i + 1),
            None => None,
        }
    }
}

proof fn lemma_first_true_range(s: Seq<bool>)
    ensures
        first_true(s) matches Some(i) ==> 0 <= i < s.len() && s[i],
    decreases s.len(),
{
    if s.len() > 0 && !s[0] {
        lemma_first_true_range(s.drop_first());
    }
}

/// The grok binary to run when none is configured. Where `/proc` exists
/// (Linux) it is plainly `grok`, found on `PATH` when run. Elsewhere it is
/// what `which grok` found, else the first candidate that is a file
/// (`is_file[i]` for `candidates[i]`), else `grok`.
pub fn resolve_default_grok_bin(
    has_proc: bool,
    which_found: Option<String>,
    candidates: &[String],
    is_file: &[bool],
) -> (r: String)
    requires
        candidates.len() == is_file.len(),
    ensures
        has_proc ==> r@ == "grok"@,
        !has_proc && which_found is Some ==> r == which_found->Some_0,
        !has_proc && which_found is None ==> r@ == (match first_true(is_file@) {
            Some(i) => candidates@[i]@,
            None => "grok"@,
        }),
{
    if has_proc {
        return "grok".to_string();
    }
    match which_found {
        Some(p) => {
            return p;
        },
        None => {},
    }
    let mut i: usize = 0;
    proof {
        assert(is_file@.skip(0) =~= is_file@);
    }
    while i < is_file.len()
        invariant
            i <= is_file.len() == candidates.len(),
            !has_proc,
            which_found is None,
            first_true(is_file@) == (match first_true(is_file@.skip(i as int)) {
                Some(k) => Some(k + i),
                None => None,
            }),
        decreases is_file.len() - i,
    {
        proof {
            assert(is_file@.skip(i as int)[0] == is_file@[i as int]);
            assert(is_file@.skip(i as int).drop_first() =~= is_file@.skip(i + 1));
        }
        if is_file[i] {
            let c = candidates[i].clone();
            proof {
                assert(first_true(is_file@.skip(i as int)) == Some(0int));
            }
            return c;
        }
        i += 1;
    }
    proof {
        assert(is_file@.skip(i as int) =~= Seq::<bool>::empty());
    }
    "grok".to_string()
}

} // verus!
