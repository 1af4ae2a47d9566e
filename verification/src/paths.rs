//! Paths, held as strings: the forms the supervisor compares and joins.
//!
//! What a path means (absolute or not, joining, component-wise equality,
//! prefix stripping, extensions) is std's own, with its rules for each
//! platform, behind trusted wrappers; the file system queries too.

use vstd::prelude::*;

verus! {

/// Whether `p` is absolute (`Path::is_absolute`: on Unix it starts at
/// the root; on Windows it has a prefix and a root).
pub uninterp spec fn absolute_path(p: Seq<char>) -> bool;

/// `base` extended by `p` (`Path::join`).
pub uninterp spec fn joined_path(base: Seq<char>, p: Seq<char>) -> Seq<char>;

/// Calls `Path::is_absolute`; the result is named `absolute_path`.
#[verifier::external_body]
pub(crate) fn path_is_absolute(p: &str) -> (r: bool)
    ensures
        r == absolute_path(p@),
{
    std::path::Path::new(p).is_absolute()
}

/// Calls `Path::join`; the result is named `joined_path`. As std documents
/// it (`PathBuf::push`), an absolute `p` replaces `base`. Joining the
/// result onto an absolute `base` once more gives the result again: where
/// the result is absolute it replaces `base`; where it is not (on Windows,
/// a `p` with a prefix but no root, such as `D:x`, replaces `base` and
/// stays as it is) it replaces `base` in the same way again.
#[verifier::external_body]
fn join_paths(base: &str, p: &str) -> (r: String)
    ensures
        r@ == joined_path(base@, p@),
        absolute_path(p@) ==> r@ == p@,
        absolute_path(base@) ==> joined_path(base@, r@) == r@,
{
    std::path::Path::new(base).join(p).to_string_lossy().into_owned()
}

/// The absolute form of `p`: unchanged when absolute or when no working
/// directory is known, else joined onto the working directory.
pub open spec fn resolve_abs_spec(p: Seq<char>, cwd: Option<Seq<char>>) -> Seq<char> {
    if absolute_path(p) {
        p
    } else {
        match cwd {
            Some(c) => joined_path(c, p),
            None => p,
        }
    }
}

pub open spec fn opt_str_view(o: Option<&str>) -> Option<Seq<char>> {
    match o {
        Some(s) => Some(s@),
        None => None,
    }
}

pub open spec fn opt_string_view(o: Option<String>) -> Option<Seq<char>> {
    match o {
        Some(s) => Some(s@),
        None => None,
    }
}

/// Borrows the string inside an option.
pub fn opt_as_str(o: &Option<String>) -> (r: Option<&str>)
    ensures
        opt_str_view(r) == opt_string_view(*o),
{
    match o {
        Some(s) => Some(s.as_str()),
        None => None,
    }
}

/// Resolves `path` to absolute form: as it is when already absolute,
/// else joined onto `cwd`; without a `cwd` the path is returned unchanged.
/// With no `cwd` or an absolute one, resolving the result again against
/// the same `cwd` gives the result back.
pub fn resolve_abs(path: &str, cwd: Option<&str>) -> (r: String)
    ensures
        r@ == resolve_abs_spec(path@, opt_str_view(cwd)),
        match cwd {
            Some(c) => absolute_path(c@) ==> resolve_abs_spec(r@, Some(c@)) == r@,
            None => resolve_abs_spec(r@, None) == r@,
        },
{
    if path_is_absolute(path) {
        path.to_owned()
    } else {
        match cwd {
            Some(c) => join_paths(c, path),
            None => path.to_owned(),
        }
    }
}

/// An absolute path resolves to itself, and so does any path when no
/// working directory is known; hence resolving a path whose resolved form
/// is absolute a second time changes nothing.
pub proof fn law_resolve_abs_idempotent(p: Seq<char>, cwd: Option<Seq<char>>)
    requires
        cwd is None || absolute_path(resolve_abs_spec(p, cwd)),
    ensures
        resolve_abs_spec(resolve_abs_spec(p, cwd), cwd) == resolve_abs_spec(p, cwd),
{
}

/// What `Path == Path` (component-wise equality) answers for `a` and `b`.
pub uninterp spec fn path_equality(a: Seq<char>, b: Seq<char>) -> bool;

/// Whether two paths are equal component by component. Path equality is
/// an equivalence (`Path: Eq`): the same text is the same path, and the
/// order of the two does not matter.
pub open spec fn same_path(a: Seq<char>, b: Seq<char>) -> bool {
    a == b || path_equality(a, b) || path_equality(b, a)
}

/// What is left of `path` once the components of `base` are stripped from
/// its front (`Path::strip_prefix`), or `None` when `base` is no prefix.
pub uninterp spec fn stripped_prefix(path: Seq<char>, base: Seq<char>) -> Option<Seq<char>>;

/// The extension of the file name of `p` (`Path::extension`).
pub uninterp spec fn extension_of(p: Seq<char>) -> Option<Seq<char>>;

/// Calls `Path::eq`; the result is named `path_equality`. As `Path: Eq`
/// is an equivalence, the result is also that of the swapped comparison,
/// and true for the same text: together, `same_path`.
#[verifier::external_body]
pub(crate) fn paths_equal(a: &str, b: &str) -> (r: bool)
    ensures
        r == path_equality(a@, b@),
        r == same_path(a@, b@),
{
    std::path::Path::new(a) == std::path::Path::new(b)
}

/// Calls `Path::strip_prefix`; the result is named `stripped_prefix`. As
/// std documents it, what is left, joined onto `base`, gives the path.
#[verifier::external_body]
fn strip_path_prefix(path: &str, base: &str) -> (r: Option<String>)
    ensures
        opt_string_view(r) == stripped_prefix(path@, base@),
        r matches Some(rest) ==> same_path(joined_path(base@, rest@), path@),
{
    match std::path::Path::new(path).strip_prefix(base) {
        Ok(rest) => Some(rest.to_string_lossy().into_owned()),
        Err(_) => None,
    }
}

/// Calls `Path::extension`; the result is named `extension_of`.
#[verifier::external_body]
pub(crate) fn path_extension(p: &str) -> (r: Option<String>)
    ensures
        opt_string_view(r) == extension_of(p@),
{
    match std::path::Path::new(p).extension() {
        Some(e) => Some(e.to_string_lossy().into_owned()),
        None => None,
    }
}

/// That the file system, asked for the canonical form of `p`
/// (`Path::canonicalize`), answered `c` (`None` for a failure). A relation,
/// not a function: the same path may be answered differently at another
/// moment, so nothing ties two answers for one path together.
pub uninterp spec fn canonical_answer(p: Seq<char>, c: Option<Seq<char>>) -> bool;

/// That the file system, asked whether `p` is a directory
/// (`Path::is_dir`), answered `b`. A relation, as `canonical_answer` is.
pub uninterp spec fn dir_answer(p: Seq<char>, b: bool) -> bool;

/// Calls `Path::canonicalize`. What comes back depends on the file system
/// at the moment of the call: the result is recorded as the answer given
/// for `p`, and std documents only that a result is the absolute form of
/// the path; nothing more is stated of it.
#[verifier::external_body]
pub(crate) fn canonical_form(p: &str) -> (r: Option<String>)
    ensures
        canonical_answer(p@, opt_string_view(r)),
        r matches Some(c) ==> absolute_path(c@),
{
    match std::path::Path::new(p).canonicalize() {
        Ok(c) => Some(c.to_string_lossy().into_owned()),
        Err(_) => None,
    }
}

/// Calls `Path::is_dir`. What comes back depends on the file system at
/// the moment of the call: it is recorded as the answer given for `p`,
/// and nothing more is stated of it.
#[verifier::external_body]
pub(crate) fn is_directory(p: &str) -> (r: bool)
    ensures
        dir_answer(p@, r),
{
    std::path::Path::new(p).is_dir()
}

/// `path` relative to `cwd` when `cwd` is one of its prefixes, else as it is.
pub open spec fn relative_spec(path: Seq<char>, cwd: Option<Seq<char>>) -> Seq<char> {
    match cwd {
        Some(c) => match stripped_prefix(path, c) {
            Some(rest) => rest,
            None => path,
        },
        None => path,
    }
}

/// Converts a path to one relative to the working directory `cwd`; falls
/// back to the path itself when it does not lie under `cwd` or no `cwd`
/// is known.
pub fn relative(path: &str, cwd: Option<&str>) -> (r: String)
    ensures
        r@ == relative_spec(path@, opt_str_view(cwd)),
        match cwd {
            Some(c) => stripped_prefix(path@, c@) is Some ==> same_path(joined_path(c@, r@), path@),
            None => true,
        },
{
    match cwd {
        Some(c) => match strip_path_prefix(path, c) {
            Some(rest) => rest,
            None => path.to_owned(),
        },
        None => path.to_owned(),
    }
}

/// Whether an event path designates a watched target: with no target,
/// never; when both canonical forms are known they are compared;
/// otherwise the raw paths are.
pub open spec fn path_match_spec(
    event_path: Seq<char>,
    event_canonical: Option<Seq<char>>,
    target_raw: Option<Seq<char>>,
    target_canonical: Option<Seq<char>>,
) -> bool {
    match target_raw {
        None => false,
        Some(t) => match (event_canonical, target_canonical) {
            (Some(e), Some(tc)) => same_path(e, tc),
            _ => same_path(event_path, t),
        },
    }
}

/// Decides whether `event_path` designates the target, given what
/// canonicalization of the event path and of the target gave.
pub fn is_path_match(
    event_path: &str,
    event_canonical: Option<&str>,
    target_raw: Option<&str>,
    target_canonical: Option<&str>,
) -> (r: bool)
    ensures
        r == path_match_spec(
            event_path@,
            opt_str_view(event_canonical),
            opt_str_view(target_raw),
            opt_str_view(target_canonical),
        ),
{
    match target_raw {
        None => false,
        Some(t) => match (event_canonical, target_canonical) {
            (Some(e), Some(tc)) => paths_equal(e, tc),
            _ => paths_equal(event_path, t),
        },
    }
}

/// What a comparison of an event path with a target gives: the result is
/// the decision over the event's canonical form `ec` (`None` when it could
/// not be had) and the target's cached form afterwards. With a target,
/// `ec` is what the file system answered for the event path; the cache is
/// filled only when it was empty and the event path had a canonical form,
/// and then with what the file system answered for the target (staying
/// empty when that failed). Without a target nothing is asked and nothing
/// changes.
pub open spec fn match_outcome(
    event_path: Seq<char>,
    ec: Option<Seq<char>>,
    target_raw: Option<Seq<char>>,
    cache_before: Option<Seq<char>>,
    cache_after: Option<Seq<char>>,
    r: bool,
) -> bool {
    &&& r == path_match_spec(event_path, ec, target_raw, cache_after)
    &&& match target_raw {
        None => cache_after == cache_before,
        Some(t) => {
            &&& canonical_answer(event_path, ec)
            &&& if ec is Some && cache_before is None {
                canonical_answer(t, cache_after)
            } else {
                cache_after == cache_before
            }
        },
    }
}

/// Compares an event path with the trigger path (or, in the same way, with
/// the configuration file's path), through canonical paths where both can
/// be had, else through the paths as written. The target's canonical form
/// is cached in `trigger_canonical` on first success (the file may not
/// exist yet at startup); the event path is canonicalized on each call.
pub fn is_trigger(
    event_path: &str,
    trigger_canonical: &mut Option<String>,
    trigger_raw: &Option<String>,
) -> (r: bool)
    ensures
        trigger_raw is None ==> !r && *final(trigger_canonical) == *old(trigger_canonical),
        *old(trigger_canonical) is Some ==> *final(trigger_canonical) == *old(trigger_canonical),
        *final(trigger_canonical) is None ==> r == match trigger_raw {
            Some(t) => same_path(event_path@, t@),
            None => false,
        },
        exists|ec: Option<Seq<char>>|
            #[trigger] match_outcome(
                event_path@,
                ec,
                opt_string_view(*trigger_raw),
                opt_string_view(*old(trigger_canonical)),
                opt_string_view(*final(trigger_canonical)),
                r,
            ),
{
    let t = match trigger_raw {
        Some(t) => t,
        None => {
            assert(match_outcome(
                event_path@,
                None,
                None,
                opt_string_view(*trigger_canonical),
                opt_string_view(*trigger_canonical),
                false,
            ));
            return false;
        },
    };
    let ghost cache0 = opt_string_view(*trigger_canonical);
    let ec = canonical_form(event_path);
    if ec.is_some() {
        if trigger_canonical.is_none() {
            *trigger_canonical = canonical_form(t.as_str());
        }
    }
    let r = is_path_match(event_path, opt_as_str(&ec), Some(t.as_str()), opt_as_str(trigger_canonical));
    assert(match_outcome(
        event_path@,
        opt_string_view(ec),
        opt_string_view(*trigger_raw),
        cache0,
        opt_string_view(*trigger_canonical),
        r,
    ));
    r
}

} // verus!
