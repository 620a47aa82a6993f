//! The parts of a path that the archive layout uses: a path's last component
//! and the directory above it, as `std::path::Path` finds them on the running
//! platform.

use std::path::Path;
use vstd::prelude::*;
use vstd::string::StringExecFns;

verus! {

/// `part` occurs in `whole` as a contiguous run of characters.
pub open spec fn is_part_of(part: Seq<char>, whole: Seq<char>) -> bool {
    exists|i: int| 0 <= i && i + part.len() <= whole.len() && #[trigger] whole.subrange(i, i + part.len()) == part
}

/// A path of a single plain component on every platform: not empty, not
/// `.` or `..`, and without `/`, `\` or `:`.
pub open spec fn is_plain_name(p: Seq<char>) -> bool {
    &&& p.len() > 0
    &&& p != seq!['.']
    &&& p != seq!['.', '.']
    &&& forall|i: int| 0 <= i < p.len() ==> #[trigger] p[i] != '/' && p[i] != '\\' && p[i] != ':'
}

/// `/` on every platform, and `\` where std also takes it as a separator.
pub open spec fn is_separator(c: char) -> bool {
    c == '/' || c == '\\'
}

/// Position of the last `/` in `p`, or -1 when there is none.
pub open spec fn last_slash(p: Seq<char>) -> int
    decreases p.len(),
{
    if p.len() == 0 {
        -1
    } else if p.last() == '/' {
        p.len() - 1
    } else {
        last_slash(p.drop_last())
    }
}

/// What follows the last `/` of `p` (all of `p` when it has none).
pub open spec fn last_segment(p: Seq<char>) -> Seq<char> {
    p.subrange(last_slash(p) + 1, p.len() as int)
}

/// What precedes the last `/` of `p` (nothing when it has none).
pub open spec fn before_last_segment(p: Seq<char>) -> Seq<char> {
    if last_slash(p) < 0 {
        Seq::empty()
    } else {
        p.subrange(0, last_slash(p))
    }
}

/// `p` has no prefix (drive, UNC, device or verbatim) on any platform: it
/// holds no `:` and does not start with two separators.
pub open spec fn has_no_prefix(p: Seq<char>) -> bool {
    &&& forall|i: int| 0 <= i < p.len() ==> #[trigger] p[i] != ':'
    &&& !(p.len() >= 2 && is_separator(p[0]) && is_separator(p[1]))
}

/// On every platform, the last component of `p` is what follows its last
/// `/`: `p` has no prefix, no `\`, and ends in a plain name.
pub open spec fn ends_in_plain_name(p: Seq<char>) -> bool {
    &&& has_no_prefix(p)
    &&& forall|i: int| 0 <= i < p.len() ==> #[trigger] p[i] != '\\'
    &&& is_plain_name(last_segment(p))
}

/// The component of `p` that starts at `i` is a plain name's start: not
/// empty, not `.` and not `..`.
pub open spec fn starts_plain_component(p: Seq<char>, i: int) -> bool {
    &&& p[i] != '/'
    &&& !(p[i] == '.' && (i + 1 == p.len() || p[i + 1] == '/'))
    &&& !(p[i] == '.' && i + 1 < p.len() && p[i + 1] == '.' && (i + 2 == p.len() || p[i + 2]
        == '/'))
}

/// A relative path of plain names joined by single `/`, such as
/// `src/lib/a.rs`.
pub open spec fn is_plain_path(p: Seq<char>) -> bool {
    &&& p.len() > 0
    &&& p.last() != '/'
    &&& forall|i: int| 0 <= i < p.len() ==> #[trigger] p[i] != '\\' && p[i] != ':'
    &&& forall|i: int|
        0 <= i < p.len() && (i == 0 || p[i - 1] == '/') ==> #[trigger] starts_plain_component(p, i)
}

/// `r` is `rest` joined onto `base` by `Path::join`, whichever separator the
/// platform adds.
pub open spec fn is_join_of(r: Seq<char>, base: Seq<char>, rest: Seq<char>) -> bool {
    if base.len() == 0 {
        r == rest
    } else if base.last() == '/' {
        r == base + rest
    } else if base.last() == '\\' {
        r == base + rest || r == base + seq!['/'] + rest
    } else {
        r == base + seq!['/'] + rest || r == base + seq!['\\'] + rest
    }
}

pub proof fn lemma_last_slash(p: Seq<char>)
    ensures
        -1 <= last_slash(p) < p.len(),
        last_slash(p) >= 0 ==> p[last_slash(p)] == '/',
        forall|j: int| last_slash(p) < j < p.len() ==> p[j] != '/',
    decreases p.len(),
{
    if p.len() > 0 && p.last() != '/' {
        lemma_last_slash(p.drop_last());
        assert forall|j: int| last_slash(p) < j < p.len() implies p[j] != '/' by {
            if j < p.len() - 1 {
                assert(p[j] == p.drop_last()[j]);
            }
        }
    }
}

/// A plain path ends in a plain name, on every platform.
pub proof fn lemma_plain_path_ends_in_plain_name(p: Seq<char>)
    requires
        is_plain_path(p),
    ensures
        ends_in_plain_name(p),
{
    lemma_last_slash(p);
    let k = last_slash(p) + 1;
    let s = last_segment(p);
    assert(p[0] != '\\' && p[0] != ':');
    assert(starts_plain_component(p, 0));
    assert(starts_plain_component(p, k));
    assert(k < p.len());
    assert forall|i: int| 0 <= i < s.len() implies #[trigger] s[i] != '/' && s[i] != '\\' && s[i]
        != ':' by {
        assert(s[i] == p[k + i]);
    }
    if s.len() == 1 {
        assert(s != seq!['.']) by {
            assert(s[0] == p[k]);
        }
    }
    if s.len() == 2 {
        assert(s != seq!['.', '.']) by {
            assert(s[0] == p[k]);
            assert(s[1] == p[k + 1]);
        }
    }
}

/// Calls `Path::file_name` on `path`, the name converted with
/// `to_string_lossy` (no loss: `path` is UTF-8). Claims: a name is never
/// empty and is a slice of `path`, which is how std takes it; and when the
/// path has no prefix and no `\` and ends in a plain name, that name is its
/// file name, since `/` separates components on every platform
/// (`Path::new("/work/my-project").file_name()` is `"my-project"`). Which
/// component of other paths is last depends on the platform and is not
/// stated.
#[verifier::external_body]
pub(crate) fn path_file_name(path: &str) -> (r: Option<String>)
    ensures
        r matches Some(name) ==> name@.len() > 0 && is_part_of(name@, path@),
        ends_in_plain_name(path@) ==> r is Some && r->0@ == last_segment(path@),
{
    match Path::new(path).file_name() {
        Some(name) => Some(name.to_string_lossy().into_owned()),
        None => None,
    }
}

/// Calls `Path::parent` on `path`, converted with `to_string_lossy` (no loss:
/// `path` is UTF-8). Claims: the parent is a leading slice of `path`, which
/// is how std takes it; and the parent of a plain path is what precedes its
/// last `/`, or the empty path when it has none (`Path::new("src/a.rs")`
/// has parent `"src"`, `Path::new("a.rs")` has parent `""`). Where the parent
/// of other paths ends depends on the platform and is not stated.
#[verifier::external_body]
pub(crate) fn path_parent(path: &str) -> (r: Option<String>)
    ensures
        is_plain_path(path@) ==> r is Some && r->0@ == before_last_segment(path@),
        r matches Some(parent) ==> parent@.len() <= path@.len() && parent@ == path@.subrange(
            0,
            parent@.len() as int,
        ),
{
    match Path::new(path).parent() {
        Some(parent) => Some(parent.to_string_lossy().into_owned()),
        None => None,
    }
}

/// `p` is a bare drive such as `C:`, which Windows joins without a
/// separator.
pub open spec fn is_bare_drive(p: Seq<char>) -> bool {
    &&& p.len() == 2
    &&& p[1] == ':'
    &&& ('a' <= p[0] <= 'z' || 'A' <= p[0] <= 'Z')
}

/// `p` starts with a verbatim prefix (`\\?\`, either separator), whose
/// paths Windows rebuilds when joining.
pub open spec fn is_verbatim(p: Seq<char>) -> bool {
    &&& p.len() >= 4
    &&& is_separator(p[0])
    &&& is_separator(p[1])
    &&& p[2] == '?'
    &&& is_separator(p[3])
}

/// `Path::join` appends to `p` on every platform, with at most one separator
/// between: `p` is neither a bare drive nor verbatim.
pub open spec fn joins_plainly(p: Seq<char>) -> bool {
    !is_bare_drive(p) && !is_verbatim(p)
}

/// A base directory that stays plain after a plain name is joined to it:
/// not a bare drive and not starting with two separators (UNC, device or
/// verbatim). `C:\Users\u` and `/home/u` are such bases.
pub open spec fn is_ordinary_base(p: Seq<char>) -> bool {
    &&& !is_bare_drive(p)
    &&& !(p.len() >= 2 && is_separator(p[0]) && is_separator(p[1]))
}

/// A plain name is a plain path of one component.
pub proof fn lemma_plain_name_is_plain_path(p: Seq<char>)
    requires
        is_plain_name(p),
    ensures
        is_plain_path(p),
{
    assert(p.last() == p[p.len() - 1]);
    assert forall|i: int|
        0 <= i < p.len() && (i == 0 || p[i - 1] == '/') implies #[trigger] starts_plain_component(
        p,
        i,
    ) by {
        if i > 0 {
            assert(p[i - 1] != '/');
        }
        if p.len() == 1 && p[0] == '.' {
            assert(p =~= seq!['.']);
        }
        if p.len() == 2 && p[0] == '.' && p[1] == '.' {
            assert(p =~= seq!['.', '.']);
        }
    }
}

/// Joining a plain name to an ordinary base gives a path that joins plainly.
pub proof fn lemma_join_stays_plain(base: Seq<char>, rest: Seq<char>, r: Seq<char>)
    requires
        is_ordinary_base(base),
        is_plain_name(rest),
        is_join_of(r, base, rest),
    ensures
        joins_plainly(r),
{
    assert(rest[0] != '/' && rest[0] != '\\' && rest[0] != ':');
    if rest.len() > 1 {
        assert(rest[1] != '/' && rest[1] != '\\' && rest[1] != ':');
    }
    if base.len() == 0 {
        assert(r == rest);
    } else if base.len() == 1 {
        assert(r[0] == base[0]);
        if r == base + rest {
            assert(r[1] == rest[0]);
        } else {
            assert(r[2] == rest[0]);
            if r.len() > 3 {
                assert(r[3] == rest[1]);
            }
        }
    } else {
        assert(r[0] == base[0] && r[1] == base[1]);
    }
}

/// Calls `Path::join`, converted with `to_string_lossy` (no loss: both parts
/// are UTF-8). Claims: when `base` is neither a bare drive nor verbatim and
/// `rest` is empty or a plain path, `rest` is appended to `base` after one
/// separator, unless `base` is empty or already ends in one, as
/// `PathBuf::push` does; the separator added is the platform's own (`/`, or
/// `\` on Windows), so either is allowed.
#[verifier::external_body]
pub(crate) fn path_join(base: &str, rest: &str) -> (r: String)
    ensures
        joins_plainly(base@) && (rest@.len() == 0 || is_plain_path(rest@)) ==> is_join_of(
            r@,
            base@,
            rest@,
        ),
{
    Path::new(base).join(rest).to_string_lossy().into_owned()
}

/// The directory that the copies of a file go to: the project's directory
/// below the archive's root, and the file's directory below that.
pub fn archive_dir(export_root: &str, project: &str, sub_dir: &str) -> (r: String)
    ensures
        is_ordinary_base(export_root@) && is_plain_name(project@) && (sub_dir@.len() == 0
            || is_plain_path(sub_dir@)) ==> exists|project_dir: Seq<char>|
            #[trigger] is_join_of(project_dir, export_root@, project@) && is_join_of(
                r@,
                project_dir,
                sub_dir@,
            ),
{
    let project_dir = path_join(export_root, project);
    proof {
        if is_ordinary_base(export_root@) && is_plain_name(project@) {
            lemma_plain_name_is_plain_path(project@);
            lemma_join_stays_plain(export_root@, project@, project_dir@);
        }
    }
    let r = path_join(project_dir.as_str(), sub_dir);
    proof {
        if is_ordinary_base(export_root@) && is_plain_name(project@) && (sub_dir@.len() == 0
            || is_plain_path(sub_dir@)) {
            assert(is_join_of(project_dir@, export_root@, project@));
        }
    }
    r
}

/// The directory the archive is written to when no directory is configured:
/// `Desktop/cycloops-code` below the home directory, or below `.` when there
/// is no home directory.
pub open spec fn home_or_dot(home: Option<Seq<char>>) -> Seq<char> {
    match home {
        Some(h) => h,
        None => seq!['.'],
    }
}

/// The views of an optional text.
pub open spec fn opt_view(o: Option<&str>) -> Option<Seq<char>> {
    match o {
        Some(t) => Some(t@),
        None => None,
    }
}

/// The configured directory, when it is set and not empty.
pub open spec fn configured_root(dir: Option<Seq<char>>) -> Option<Seq<char>> {
    match dir {
        Some(d) => if d.len() > 0 {
            Some(d)
        } else {
            None
        },
        None => None,
    }
}

/// The archive's root directory: `dir` when it is set and not empty,
/// otherwise `Desktop/cycloops-code` below the home directory (below `.`
/// when there is none), stated for every home directory that is an
/// ordinary base. Both separators that `Path::join` may add are allowed.
pub fn export_root_path(dir: Option<&str>, home: Option<&str>) -> (r: String)
    ensures
        match configured_root(opt_view(dir)) {
            Some(d) => r@ == d,
            None => {
                let base = home_or_dot(opt_view(home));
                is_ordinary_base(base) ==> exists|desktop: Seq<char>|
                    #[trigger] is_join_of(desktop, base, "Desktop"@) && is_join_of(
                        r@,
                        desktop,
                        "cycloops-code"@,
                    )
            },
        },
{
    if let Some(d) = dir {
        if !d.is_empty() {
            return String::from_str(d);
        }
    }
    let base = match home {
        Some(h) => h,
        None => {
            proof { reveal_strlit("."); }
            "."
        },
    };
    proof {
        reveal_strlit("Desktop");
        reveal_strlit("cycloops-code");
        assert("Desktop"@ =~= seq!['D', 'e', 's', 'k', 't', 'o', 'p']);
        assert("cycloops-code"@ =~= seq![
            'c', 'y', 'c', 'l', 'o', 'o', 'p', 's', '-', 'c', 'o', 'd', 'e',
        ]);
        assert(is_plain_name("Desktop"@));
        assert(is_plain_name("cycloops-code"@));
    }
    proof {
        lemma_plain_name_is_plain_path("Desktop"@);
        lemma_plain_name_is_plain_path("cycloops-code"@);
        if is_ordinary_base(base@) {
            assert(joins_plainly(base@));
        }
    }
    let desktop = path_join(base, "Desktop");
    proof {
        if is_ordinary_base(base@) {
            lemma_join_stays_plain(base@, "Desktop"@, desktop@);
        }
    }
    let r = path_join(desktop.as_str(), "cycloops-code");
    proof {
        assert(base@ == home_or_dot(opt_view(home)));
        if is_ordinary_base(base@) {
            assert(is_join_of(desktop@, base@, "Desktop"@));
            assert(is_join_of(r@, desktop@, "cycloops-code"@));
        }
    }
    r
}

} // verus!
