//! Which of a turn's changed files get archived, and where.

use vstd::prelude::*;
use vstd::string::StringExecFns;
use crate::paths::{
    before_last_segment, ends_in_plain_name, is_part_of, is_plain_path, last_segment,
    lemma_plain_path_ends_in_plain_name, path_file_name, path_parent,
};
use crate::stamp::views_of;
use crate::text::{is_blank, is_white_space, law_blank_means_all_white_space, trim, trimmed};

verus! {

/// One file to archive: its path relative to the repository root, its file
/// name, and the directory of that path (below the project's archive
/// directory) that its copies go to.
pub struct ArchiveTarget {
    pub rel_path: String,
    pub file_name: String,
    pub sub_dir: String,
}

/// What a turn archives: under which model label, in which project
/// directory, and which files.
pub struct TurnPlan {
    pub model: String,
    pub project: String,
    pub targets: Vec<ArchiveTarget>,
}

/// The label recorded for the model: the model's name without surrounding
/// white space, or `"unknown"` when nothing is left.
pub open spec fn model_label_of(model: Seq<char>) -> Seq<char> {
    if is_blank(model) {
        "unknown"@
    } else {
        trimmed(model)
    }
}

/// The project directory's name: the repository root's own name when it has
/// a non-empty one, else `"unnamed-project"`.
pub open spec fn project_label_of(name: Option<Seq<char>>) -> Seq<char> {
    match name {
        Some(n) => if n.len() > 0 {
            n
        } else {
            "unnamed-project"@
        },
        None => "unnamed-project"@,
    }
}

/// The `k`-th changed path is archived (if it names a file): it is not
/// blank, and no earlier entry is the same path, so each path is taken once,
/// at its first occurrence.
pub open spec fn is_export_candidate(files: Seq<Seq<char>>, k: int) -> bool {
    &&& 0 <= k < files.len()
    &&& !is_blank(files[k])
    &&& forall|j: int| 0 <= j < k ==> files[j] != files[k]
}

/// Exactly the changed paths with a character other than white space are
/// taken, each at its first occurrence, whatever they look like otherwise
/// (hidden files such as `.gitignore` included).
pub proof fn law_candidates_are_first_non_blank_occurrences(files: Seq<Seq<char>>, k: int)
    requires
        0 <= k < files.len(),
    ensures
        is_export_candidate(files, k) <==> (exists|i: int|
            0 <= i < files[k].len() && !is_white_space(#[trigger] files[k][i])) && (forall|j: int|
            0 <= j < k ==> files[j] != files[k]),
{
    law_blank_means_all_white_space(files[k]);
}

/// `path` is one of the changed paths to archive.
pub open spec fn is_candidate_path(files: Seq<Seq<char>>, path: Seq<char>) -> bool {
    exists|k: int| is_export_candidate(files, k) && files[k] == path
}

/// Some target archives the plain path `path` under its last name, in the
/// directory that its leading names give.
pub open spec fn has_plain_target(targets: Seq<ArchiveTarget>, path: Seq<char>) -> bool {
    exists|i: int|
        0 <= i < targets.len() && #[trigger] targets[i].rel_path@ == path && targets[i].file_name@
            == last_segment(path) && targets[i].sub_dir@ == before_last_segment(path)
}

proof fn lemma_plain_target_kept(before: Seq<ArchiveTarget>, after: Seq<ArchiveTarget>, path: Seq<char>)
    requires
        has_plain_target(before, path),
        before.len() <= after.len(),
        forall|i: int| 0 <= i < before.len() ==> after[i] == before[i],
    ensures
        has_plain_target(after, path),
{
    let i = choose|i: int|
        0 <= i < before.len() && #[trigger] before[i].rel_path@ == path && before[i].file_name@
            == last_segment(path) && before[i].sub_dir@ == before_last_segment(path);
    assert(after[i] == before[i]);
}

/// The position among the changed paths at which `path` first occurs as a
/// path to archive.
pub open spec fn candidate_index_of(files: Seq<Seq<char>>, path: Seq<char>) -> int {
    choose|k: int| is_export_candidate(files, k) && files[k] == path
}

/// A path to archive occurs as such at one position only.
pub proof fn lemma_candidate_unique(files: Seq<Seq<char>>, k1: int, k2: int)
    requires
        is_export_candidate(files, k1),
        is_export_candidate(files, k2),
        files[k1] == files[k2],
    ensures
        k1 == k2,
{
}

proof fn lemma_candidate_index(files: Seq<Seq<char>>, k: int)
    requires
        is_export_candidate(files, k),
    ensures
        candidate_index_of(files, files[k]) == k,
{
    let c = candidate_index_of(files, files[k]);
    lemma_candidate_unique(files, k, c);
}

/// The label recorded for `model`.
pub fn model_label(model: &str) -> (r: String)
    ensures
        r@ == model_label_of(model@),
{
    let t = trim(model);
    if t.is_empty() {
        proof { reveal_strlit("unknown"); }
        String::from_str("unknown")
    } else {
        String::from_str(t)
    }
}

/// The project directory's name, given the repository root's own name.
pub fn project_label(name: Option<String>) -> (r: String)
    ensures
        r@ == project_label_of(
            match name {
                Some(n) => Some(n@),
                None => None,
            },
        ),
{
    match name {
        Some(n) => {
            if n.as_str().is_empty() {
                String::from_str("unnamed-project")
            } else {
                n
            }
        },
        None => String::from_str("unnamed-project"),
    }
}

/// The project directory's name for the repository at `repo_root`: the
/// root's last component, or `"unnamed-project"` when it has none.
pub fn project_name(repo_root: &str) -> (r: String)
    ensures
        r@.len() > 0,
        r@ == "unnamed-project"@ || is_part_of(r@, repo_root@),
        ends_in_plain_name(repo_root@) ==> r@ == last_segment(repo_root@),
{
    proof { reveal_strlit("unnamed-project"); }
    project_label(path_file_name(repo_root))
}

/// Positions, in order, of the changed paths to archive.
pub fn export_candidates(changed_files: &[String]) -> (r: Vec<usize>)
    ensures
        forall|i: int| 0 <= i < r@.len() ==> is_export_candidate(views_of(changed_files@), #[trigger] r@[i] as int),
        forall|i: int, j: int| 0 <= i < j < r@.len() ==> r@[i] < r@[j],
        forall|k: int| #[trigger] is_export_candidate(views_of(changed_files@), k) ==> r@.contains(k as usize),
{
    let ghost files = views_of(changed_files@);
    let mut r: Vec<usize> = Vec::new();
    let n = changed_files.len();
    for k in 0..n
        invariant
            n == changed_files@.len(),
            files == views_of(changed_files@),
            forall|i: int| 0 <= i < r@.len() ==> is_export_candidate(files, #[trigger] r@[i] as int),
            forall|i: int| 0 <= i < r@.len() ==> #[trigger] r@[i] < k,
            forall|i: int, j: int| 0 <= i < j < r@.len() ==> r@[i] < r@[j],
            forall|m: int| 0 <= m < k && #[trigger] is_export_candidate(files, m) ==> r@.contains(m as usize),
    {
        let path = &changed_files[k];
        assert(files[k as int] == path@);
        let blank = trim(path.as_str()).is_empty();
        let mut seen = false;
        let mut j: usize = 0;
        while j < k && !seen
            invariant
                n == changed_files@.len(),
                files == views_of(changed_files@),
                k < n,
                j <= k,
                files[k as int] == path@,
                seen ==> exists|m: int| 0 <= m < k && files[m] == files[k as int],
                !seen ==> forall|m: int| 0 <= m < j ==> files[m] != files[k as int],
            decreases k - j,
        {
            assert(files[j as int] == changed_files@[j as int]@);
            if changed_files[j] == *path {
                seen = true;
            }
            j = j + 1;
        }
        let ghost old_r = r@;
        if !blank && !seen {
            r.push(k);
            assert(r@[r@.len() - 1] == k);
        }
        assert forall|m: int| 0 <= m < k + 1 && #[trigger] is_export_candidate(files, m) implies r@.contains(m as usize) by {
            if m == k {
                assert(!blank);
                assert(!seen);
                assert(r@[r@.len() - 1] == k);
            } else {
                assert(old_r.contains(m as usize));
                let idx = choose|idx: int| 0 <= idx < old_r.len() && old_r[idx] == m as usize;
                assert(r@[idx] == old_r[idx]);
            }
        }
    }
    r
}

/// The target for one changed path, given what `Path::file_name` and
/// `Path::parent` found in it: none when the path names no file, and copies
/// go below the path's parent directory, or directly into the project's
/// directory when it has none.
pub fn target_for(rel_path: &str, file_name: Option<String>, parent: Option<String>) -> (r: Option<
    ArchiveTarget,
>)
    ensures
        match file_name {
            None => r is None,
            Some(name) => r matches Some(t) && t.rel_path@ == rel_path@ && t.file_name@ == name@
                && t.sub_dir@ == match parent {
                Some(p) => p@,
                None => Seq::<char>::empty(),
            },
        },
{
    match file_name {
        None => None,
        Some(name) => {
            let sub_dir = match parent {
                Some(p) => p,
                None => String::new(),
            };
            Some(ArchiveTarget { rel_path: String::from_str(rel_path), file_name: name, sub_dir })
        },
    }
}

/// Plans the archiving of a turn: nothing when archiving is switched off or
/// nothing changed; otherwise each changed path once, at its first
/// occurrence and in order, skipping blank paths and paths that name no file.
pub fn plan_turn(disabled: bool, repo_root: &str, model: &str, changed_files: &[String]) -> (r:
    TurnPlan)
    ensures
        r.model@ == model_label_of(model@),
        r.project@.len() > 0,
        r.project@ == "unnamed-project"@ || is_part_of(r.project@, repo_root@),
        ends_in_plain_name(repo_root@) ==> r.project@ == last_segment(repo_root@),
        forall|i: int, j: int|
            0 <= i < j < r.targets@.len() ==> candidate_index_of(
                views_of(changed_files@),
                #[trigger] r.targets@[i].rel_path@,
            ) < candidate_index_of(views_of(changed_files@), #[trigger] r.targets@[j].rel_path@),
        disabled || changed_files@.len() == 0 ==> r.targets@.len() == 0,
        forall|i: int|
            0 <= i < r.targets@.len() ==> is_candidate_path(
                views_of(changed_files@),
                #[trigger] r.targets@[i].rel_path@,
            ),
        forall|i: int, j: int|
            0 <= i < j < r.targets@.len() ==> r.targets@[i].rel_path@ != r.targets@[j].rel_path@,
        !disabled ==> forall|k: int|
            #[trigger] is_export_candidate(views_of(changed_files@), k) && is_plain_path(
                views_of(changed_files@)[k],
            ) ==> has_plain_target(r.targets@, views_of(changed_files@)[k]),
        forall|i: int|
            0 <= i < r.targets@.len() ==> {
                let t = #[trigger] r.targets@[i];
                &&& t.file_name@.len() > 0
                &&& is_part_of(t.file_name@, t.rel_path@)
                &&& t.sub_dir@.len() <= t.rel_path@.len()
                &&& t.sub_dir@ == t.rel_path@.subrange(0, t.sub_dir@.len() as int)
            },
{
    let label = model_label(model);
    let project = project_name(repo_root);
    let mut targets: Vec<ArchiveTarget> = Vec::new();
    if disabled || changed_files.len() == 0 {
        return TurnPlan { model: label, project, targets };
    }
    let ghost files = views_of(changed_files@);
    let candidates = export_candidates(changed_files);
    let mut c: usize = 0;
    while c < candidates.len()
        invariant
            files == views_of(changed_files@),
            c <= candidates@.len(),
            forall|i: int| 0 <= i < candidates@.len() ==> is_export_candidate(files, #[trigger] candidates@[i] as int),
            forall|i: int, j: int| 0 <= i < j < candidates@.len() ==> candidates@[i] < candidates@[j],
            forall|i: int| 0 <= i < targets@.len() ==> exists|m: int|
                0 <= m < c && #[trigger] targets@[i].rel_path@ == files[candidates@[m] as int],
            forall|i: int, j: int|
                0 <= i < j < targets@.len() ==> targets@[i].rel_path@ != targets@[j].rel_path@,
            forall|i: int, j: int|
                0 <= i < j < targets@.len() ==> candidate_index_of(
                    files,
                    #[trigger] targets@[i].rel_path@,
                ) < candidate_index_of(files, #[trigger] targets@[j].rel_path@),
            forall|m: int|
                0 <= m < c && is_plain_path(#[trigger] files[candidates@[m] as int])
                    ==> has_plain_target(targets@, files[candidates@[m] as int]),
            forall|i: int|
                0 <= i < targets@.len() ==> {
                    let t = #[trigger] targets@[i];
                    &&& t.file_name@.len() > 0
                    &&& is_part_of(t.file_name@, t.rel_path@)
                    &&& t.sub_dir@.len() <= t.rel_path@.len()
                    &&& t.sub_dir@ == t.rel_path@.subrange(0, t.sub_dir@.len() as int)
                },
        decreases candidates@.len() - c,
    {
        let k = candidates[c];
        let rel_path = changed_files[k].as_str();
        assert(files[k as int] == rel_path@);
        let ghost old_targets = targets@;
        proof {
            if is_plain_path(rel_path@) {
                lemma_plain_path_ends_in_plain_name(rel_path@);
            }
        }
        let name = path_file_name(rel_path);
        let parent = path_parent(rel_path);
        match target_for(rel_path, name, parent) {
            Some(t) => {
                proof {
                    lemma_candidate_index(files, candidates@[c as int] as int);
                    assert forall|i: int| 0 <= i < targets@.len() implies targets@[i].rel_path@
                        != t.rel_path@ && candidate_index_of(files, targets@[i].rel_path@)
                        < candidate_index_of(files, t.rel_path@) by {
                        let m = choose|m: int|
                            0 <= m < c && #[trigger] targets@[i].rel_path@ == files[candidates@[m] as int];
                        assert(candidates@[m] < candidates@[c as int]);
                        assert(is_export_candidate(files, candidates@[c as int] as int));
                        lemma_candidate_index(files, candidates@[m] as int);
                    }
                }
                targets.push(t);
                proof {
                    let last = targets@.len() - 1;
                    assert(targets@[last].rel_path@ == files[candidates@[c as int] as int]);
                    assert forall|i: int, j: int|
                        0 <= i < j < targets@.len() implies candidate_index_of(
                        files,
                        #[trigger] targets@[i].rel_path@,
                    ) < candidate_index_of(files, #[trigger] targets@[j].rel_path@) by {
                        if j < last {
                            assert(targets@[i] == old_targets[i] && targets@[j] == old_targets[j]);
                        } else {
                            assert(targets@[i] == old_targets[i]);
                        }
                    }
                }
            },
            None => {},
        }
        proof {
            assert forall|m: int|
                0 <= m < c + 1 && is_plain_path(#[trigger] files[candidates@[m] as int])
                    implies has_plain_target(targets@, files[candidates@[m] as int]) by {
                if m < c {
                    lemma_plain_target_kept(old_targets, targets@, files[candidates@[m] as int]);
                } else {
                    assert(targets@[targets@.len() - 1].rel_path@ == files[candidates@[m] as int]);
                }
            }
        }
        c = c + 1;
    }
    assert forall|k: int|
        #[trigger] is_export_candidate(files, k) && is_plain_path(files[k]) implies has_plain_target(
            targets@,
            files[k],
        ) by {
        assert(candidates@.contains(k as usize));
        let m = choose|m: int| 0 <= m < candidates@.len() && candidates@[m] == k as usize;
        assert(is_plain_path(files[candidates@[m] as int]));
    }
    assert forall|i: int| 0 <= i < targets@.len() implies is_candidate_path(
        files,
        #[trigger] targets@[i].rel_path@,
    ) by {
        let m = choose|m: int| 0 <= m < c && #[trigger] targets@[i].rel_path@ == files[candidates@[m] as int];
        assert(is_export_candidate(files, candidates@[m] as int));
    }
    TurnPlan { model: label, project, targets }
}

/// The files a turn-end hook archives: the modified ones, then the new ones.
pub fn hook_changed_files(modified: Vec<String>, new_files: Vec<String>) -> (r: Vec<String>)
    ensures
        r@ == modified@ + new_files@,
{
    let mut r = modified;
    let mut rest = new_files;
    r.append(&mut rest);
    r
}

} // verus!
