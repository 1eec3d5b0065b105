//! Filesystem paths as text, joined the way a Unix `PathBuf::push` joins.

use vstd::prelude::*;

verus! {

/// Joining `comp` onto `base`: an absolute `comp` replaces `base`; otherwise
/// a `/` separates the two unless `base` is empty or already ends in `/`.
pub open spec fn path_join(base: Seq<char>, comp: Seq<char>) -> Seq<char> {
    if comp.len() > 0 && comp[0] == '/' {
        comp
    } else if base.len() == 0 || base.last() == '/' {
        base + comp
    } else {
        base + seq!['/'] + comp
    }
}

/// `String::push`: the text with `c` appended.
#[verifier::external_body]
pub(crate) fn push_char(s: &mut String, c: char)
    ensures
        final(s)@ == old(s)@.push(c),
{
    s.push(c);
}

/// `base` joined with `comp` (see [`path_join`]).
pub fn join_path(base: &str, comp: &str) -> (r: String)
    ensures
        r@ == path_join(base@, comp@),
{
    let clen = comp.unicode_len();
    if clen > 0 && comp.get_char(0) == '/' {
        return comp.to_owned();
    }
    let mut out = base.to_owned();
    let blen = base.unicode_len();
    if blen > 0 && base.get_char(blen - 1) != '/' {
        push_char(&mut out, '/');
    }
    out.append(comp);
    out
}

/// The two candidate configuration roots under the home directory (`.`
/// when it is unknown): the current `.conga` and the legacy `.gasket`.
pub fn config_dir_candidates(home: Option<&str>) -> (r: (String, String))
    ensures
        r.0@ == path_join(home_or_dot(home), ".conga"@),
        r.1@ == path_join(home_or_dot(home), ".gasket"@),
{
    let base = match home {
        Some(h) => h,
        None => ".",
    };
    (join_path(base, ".conga"), join_path(base, ".gasket"))
}

/// The home directory's text, `.` when it is unknown.
pub open spec fn home_or_dot(home: Option<&str>) -> Seq<char> {
    match home {
        Some(h) => h@,
        None => "."@,
    }
}

/// The configuration root: the legacy root while only it exists (so
/// existing sessions stay readable), the current root otherwise.
pub fn choose_config_dir(current: String, legacy: String, current_exists: bool, legacy_exists: bool) -> (r: String)
    ensures
        r@ == if !current_exists && legacy_exists {
            legacy@
        } else {
            current@
        },
{
    if !current_exists && legacy_exists {
        legacy
    } else {
        current
    }
}

} // verus!
