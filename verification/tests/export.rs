use bitloops::paths::{archive_dir, export_root_path};
use std::collections::{BTreeMap, BTreeSet};

use bitloops::machine::{begin, expects, step, ArchiveAction, ArchiveEvent, ArchiveOutcome, ArchiveStage};
use bitloops::plan::{export_candidates, hook_changed_files, plan_turn, target_for, TurnPlan};
use bitloops::record::{archived_code, encode_record};
use bitloops::stamp::parse_archive_stamp;

/// An in-memory file system: files by '/'-joined path, and directories.
#[derive(Default)]
struct MemFs {
    files: BTreeMap<String, String>,
    dirs: BTreeSet<String>,
    clock: (u64, u32),
    fail_dirs: bool,
}

fn join(a: &str, b: &str) -> String {
    if a.is_empty() {
        b.to_string()
    } else if b.is_empty() {
        a.to_string()
    } else {
        format!("{a}/{b}")
    }
}

impl MemFs {
    fn names_in(&self, dir: &str) -> Vec<String> {
        let prefix = format!("{dir}/");
        self.files
            .keys()
            .filter_map(|path| path.strip_prefix(&prefix))
            .filter(|rest| !rest.contains('/'))
            .map(|rest| rest.to_string())
            .collect()
    }

    fn archived(&self, dir: &str, file_name: &str) -> Vec<String> {
        let mut entries: Vec<((u64, u64), String)> = self
            .names_in(dir)
            .into_iter()
            .filter_map(|name| parse_archive_stamp(&name, file_name).map(|stamp| (stamp, name)))
            .collect();
        entries.sort();
        entries
            .into_iter()
            .map(|(_, name)| {
                let text = &self.files[&join(dir, &name)];
                let json: serde_json::Value = serde_json::from_str(text).unwrap();
                json["code"].as_str().unwrap().to_string()
            })
            .collect()
    }

    fn json_in(&self, dir: &str) -> Vec<serde_json::Value> {
        self.names_in(dir)
            .iter()
            .filter(|name| name.ends_with(".json"))
            .map(|name| serde_json::from_str(&self.files[&join(dir, name)]).unwrap())
            .collect()
    }

    /// Runs one turn, as the application does, and returns each file's outcome.
    fn export_turn(&mut self, disabled: bool, repo_root: &str, export_root: &str, model: &str, changed: &[&str]) -> Vec<ArchiveOutcome> {
        let changed: Vec<String> = changed.iter().map(|s| s.to_string()).collect();
        let turn: TurnPlan = plan_turn(disabled, repo_root, model, &changed);
        let mut outcomes = Vec::new();
        for target in &turn.targets {
            let dest_dir = archive_dir(export_root, &turn.project, &target.sub_dir);
            let dest_dir = dest_dir.trim_end_matches('/').to_string();
            let (mut stage, mut action) = begin();
            let outcome = loop {
                let event = match action {
                    ArchiveAction::ReadSource => ArchiveEvent::SourceRead {
                        contents: self.files.get(&join(repo_root, &target.rel_path)).cloned(),
                    },
                    ArchiveAction::ListArchive => ArchiveEvent::ArchiveListed { names: self.names_in(&dest_dir) },
                    ArchiveAction::ReadArchived { name } => ArchiveEvent::ArchivedRead {
                        contents: self.files.get(&join(&dest_dir, &name)).cloned(),
                    },
                    ArchiveAction::CreateDir => {
                        if !self.fail_dirs {
                            self.dirs.insert(dest_dir.clone());
                        }
                        ArchiveEvent::DirCreated { ok: !self.fail_dirs }
                    }
                    ArchiveAction::ReadClock => {
                        self.clock.1 += 3000;
                        ArchiveEvent::ClockRead { secs: self.clock.0, micros: self.clock.1 }
                    }
                    ArchiveAction::Write { name, contents } => {
                        self.files.insert(join(&dest_dir, &name), contents);
                        ArchiveEvent::Written { ok: true }
                    }
                    ArchiveAction::Finish { outcome } => break outcome,
                };
                assert!(expects(&stage, &event));
                (stage, action) = step(target, &turn.model, stage, event);
            };
            assert!(matches!(stage, ArchiveStage::Finished { .. }));
            outcomes.push(outcome);
        }
        outcomes
    }
}

fn new_fs() -> MemFs {
    MemFs { clock: (1789891344, 0), ..MemFs::default() }
}

#[test]
fn writes_one_json_file_per_changed_file_with_final_content_and_model() {
    let mut fs = new_fs();
    fs.files.insert("/tmp/repo/src/a.rs".into(), "fn a() {}\n".into());
    fs.files.insert("/tmp/repo/b.rs".into(), "fn b() {}\n".into());
    let outcomes = fs.export_turn(false, "/tmp/repo", "/tmp/export", "sonnet-5", &["src/a.rs", "b.rs"]);
    assert_eq!(outcomes, vec![ArchiveOutcome::Archived, ArchiveOutcome::Archived]);

    let a_files = fs.json_in("/tmp/export/repo/src");
    assert_eq!(a_files.len(), 1, "expected exactly one exported file for src/a.rs");
    assert_eq!(a_files[0]["model"], "sonnet-5");
    assert_eq!(a_files[0]["code"], "fn a() {}\n");

    let b_files = fs.json_in("/tmp/export/repo");
    assert_eq!(b_files.len(), 1, "expected exactly one exported file for b.rs");
    assert_eq!(b_files[0]["code"], "fn b() {}\n");
}

#[test]
fn disable_env_var_suppresses_export() {
    let mut fs = new_fs();
    fs.files.insert("/tmp/repo-disabled/a.rs".into(), "fn a() {}\n".into());
    let outcomes = fs.export_turn(true, "/tmp/repo-disabled", "/tmp/export-disabled", "gpt-5.4", &["a.rs"]);
    assert!(outcomes.is_empty());
    assert!(fs.dirs.is_empty(), "export dir should not be created when disabled");
    assert_eq!(fs.files.len(), 1);
}

#[test]
fn unchanged_file_is_not_archived_again_but_changed_or_reverted_content_is() {
    let mut fs = new_fs();
    let repo = "/tmp/repo-dedupe";
    let dest = "/tmp/export-dedupe/repo-dedupe";
    let file = "/tmp/repo-dedupe/a.rs";

    fs.files.insert(file.into(), "v1".into());
    fs.export_turn(false, repo, "/tmp/export-dedupe", "m", &["a.rs"]);
    let again = fs.export_turn(false, repo, "/tmp/export-dedupe", "m", &["a.rs"]);
    assert_eq!(again, vec![ArchiveOutcome::Unchanged]);
    assert_eq!(fs.archived(dest, "a.rs"), ["v1"]);

    fs.files.insert(file.into(), "v2".into());
    fs.export_turn(false, repo, "/tmp/export-dedupe", "m", &["a.rs"]);
    assert_eq!(fs.archived(dest, "a.rs"), ["v1", "v2"]);

    fs.files.insert(file.into(), "v1".into());
    fs.export_turn(false, repo, "/tmp/export-dedupe", "m", &["a.rs"]);
    assert_eq!(fs.archived(dest, "a.rs"), ["v1", "v2", "v1"]);
}

#[test]
fn missing_model_falls_back_to_unknown_label() {
    let mut fs = new_fs();
    fs.files.insert("/tmp/repo-nomodel/a.rs".into(), "fn a() {}\n".into());
    fs.export_turn(false, "/tmp/repo-nomodel", "/tmp/export-nomodel", "   ", &["a.rs"]);
    let json = fs.json_in("/tmp/export-nomodel/repo-nomodel");
    assert_eq!(json.len(), 1);
    assert_eq!(json[0]["model"], "unknown");
}

#[test]
fn duplicate_and_blank_paths_are_exported_once() {
    let mut fs = new_fs();
    fs.files.insert("/r/a.rs".into(), "A".into());
    fs.files.insert("/r/b.rs".into(), "B".into());
    let outcomes = fs.export_turn(false, "/r", "/x", "m", &["a.rs", "  ", "b.rs", "a.rs", "", "b.rs"]);
    assert_eq!(outcomes.len(), 2);
    assert_eq!(fs.archived("/x/r", "a.rs"), ["A"]);
    assert_eq!(fs.archived("/x/r", "b.rs"), ["B"]);
}

#[test]
fn unreadable_file_is_skipped_and_others_are_archived() {
    let mut fs = new_fs();
    fs.files.insert("/r/b.rs".into(), "B".into());
    let outcomes = fs.export_turn(false, "/r", "/x", "m", &["gone.rs", "b.rs"]);
    assert_eq!(outcomes, vec![ArchiveOutcome::Unreadable, ArchiveOutcome::Archived]);
}

#[test]
fn failed_directory_creation_skips_the_file() {
    let mut fs = new_fs();
    fs.fail_dirs = true;
    fs.files.insert("/r/a.rs".into(), "A".into());
    let outcomes = fs.export_turn(false, "/r", "/x", "m", &["a.rs"]);
    assert_eq!(outcomes, vec![ArchiveOutcome::DirFailed]);
    assert_eq!(fs.files.len(), 1);
}

#[test]
fn only_the_newest_archived_copy_is_compared() {
    let mut fs = new_fs();
    fs.files.insert("/r/a.rs".into(), "old".into());
    fs.files.insert("/x/r/5-000000__a.rs.json".into(), encode_record("m", "old").unwrap());
    fs.files.insert("/x/r/6-000000__a.rs.json".into(), encode_record("m", "newer").unwrap());
    let outcomes = fs.export_turn(false, "/r", "/x", "m", &["a.rs"]);
    assert_eq!(outcomes, vec![ArchiveOutcome::Archived]);
    assert_eq!(fs.archived("/x/r", "a.rs"), ["old", "newer", "old"]);
}

#[test]
fn unreadable_newest_copy_means_the_file_is_archived() {
    let mut fs = new_fs();
    fs.files.insert("/r/a.rs".into(), "same".into());
    fs.files.insert("/x/r/5-000000__a.rs.json".into(), "not json".into());
    let outcomes = fs.export_turn(false, "/r", "/x", "m", &["a.rs"]);
    assert_eq!(outcomes, vec![ArchiveOutcome::Archived]);
}

#[test]
fn record_is_pretty_json_with_code_and_model() {
    let text = encode_record("writer-1", "line \"1\"\n\ttab").unwrap();
    assert_eq!(text, "{\n  \"code\": \"line \\\"1\\\"\\n\\ttab\",\n  \"model\": \"writer-1\"\n}");
    let json: serde_json::Value = serde_json::from_str(&text).unwrap();
    assert_eq!(json["model"], "writer-1");
    assert_eq!(json["code"], "line \"1\"\n\ttab");
}

#[test]
fn archived_code_reads_the_code_member() {
    assert_eq!(archived_code("{\"code\": \"x\", \"model\": \"m\"}"), Some("x".to_string()));
    assert_eq!(archived_code("{\"code\": 5}"), None);
    assert_eq!(archived_code("{\"model\": \"m\"}"), None);
    assert_eq!(archived_code("[\"code\"]"), None);
    assert_eq!(archived_code("not json"), None);
    assert_eq!(archived_code("{\"code\": \"a\", \"code\": \"b\"}"), Some("b".to_string()));
    let text = encode_record("m", "é\u{0}").unwrap();
    assert_eq!(archived_code(&text), Some("é\u{0}".to_string()));
}

#[test]
fn candidates_are_first_occurrences_of_non_blank_paths() {
    let files: Vec<String> = ["a", " ", "b", "a", "\t", "c", "b"].iter().map(|s| s.to_string()).collect();
    assert_eq!(export_candidates(&files), vec![0, 2, 5]);
    assert!(export_candidates(&[]).is_empty());
}

#[test]
fn plan_splits_paths_into_file_name_and_directory() {
    let changed: Vec<String> = ["src/lib/a.rs", "b.rs", "..", "dir/"].iter().map(|s| s.to_string()).collect();
    let turn = plan_turn(false, "/home/u/proj", " m ", &changed);
    assert_eq!(turn.model, "m");
    assert_eq!(turn.project, "proj");
    let got: Vec<(String, String, String)> = turn
        .targets
        .iter()
        .map(|t| (t.rel_path.clone(), t.file_name.clone(), t.sub_dir.clone()))
        .collect();
    assert_eq!(
        got,
        vec![
            ("src/lib/a.rs".to_string(), "a.rs".to_string(), "src/lib".to_string()),
            ("b.rs".to_string(), "b.rs".to_string(), String::new()),
            ("dir/".to_string(), "dir".to_string(), String::new()),
        ]
    );
    assert!(plan_turn(false, "/r", "m", &[]).targets.is_empty());
}

#[test]
fn target_needs_a_file_name() {
    assert!(target_for("..", None, Some(String::new())).is_none());
    let t = target_for("a/b", Some("b".to_string()), None).unwrap();
    assert_eq!((t.rel_path.as_str(), t.file_name.as_str(), t.sub_dir.as_str()), ("a/b", "b", ""));
}

#[test]
fn hook_archives_modified_then_new_files() {
    let r = hook_changed_files(vec!["a".into(), "b".into()], vec!["c".into()]);
    assert_eq!(r, vec!["a".to_string(), "b".to_string(), "c".to_string()]);
}

#[test]
fn nested_path_is_archived_under_its_directory_in_the_default_root() {
    let root = export_root_path(None, Some("/home/u"));
    assert_eq!(root, "/home/u/Desktop/cycloops-code");
    let mut fs = MemFs { clock: (1789900000, 123456 - 3000), ..MemFs::default() };
    fs.files.insert("/work/my-project/src/app.rs".into(), "fn main() {}\n".into());
    let outcomes = fs.export_turn(false, "/work/my-project", &root, "sonnet-5", &["src/app.rs"]);
    assert_eq!(outcomes, vec![ArchiveOutcome::Archived]);
    let path = "/home/u/Desktop/cycloops-code/my-project/src/1789900000-123456__app.rs.json";
    let json: serde_json::Value = serde_json::from_str(&fs.files[path]).unwrap();
    assert_eq!(json["model"], "sonnet-5");
    assert_eq!(json["code"], "fn main() {}\n");
    assert_eq!(fs.files.len(), 2);
}

#[test]
fn duplicate_path_with_padded_model_gives_one_new_file() {
    let mut fs = new_fs();
    fs.files.insert("/r/a.rs".into(), "x".into());
    let outcomes = fs.export_turn(false, "/r", "/e", "  gpt-5.4 \n", &["a.rs", "a.rs", "   "]);
    assert_eq!(outcomes, vec![ArchiveOutcome::Archived]);
    let json = fs.json_in("/e/r");
    assert_eq!(json.len(), 1);
    assert_eq!(json[0]["model"], "gpt-5.4");
    assert_eq!(json[0]["code"], "x");
}

#[test]
fn second_export_with_another_model_writes_nothing() {
    let mut fs = new_fs();
    fs.files.insert("/r/a.rs".into(), "x".into());
    fs.files.insert("/r/lib/b.rs".into(), "y".into());
    fs.export_turn(false, "/r", "/e", "m1", &["a.rs", "lib/b.rs"]);
    let count = fs.files.len();
    let outcomes = fs.export_turn(false, "/r", "/e", "m2", &["a.rs", "lib/b.rs"]);
    assert_eq!(outcomes, vec![ArchiveOutcome::Unchanged, ArchiveOutcome::Unchanged]);
    assert_eq!(fs.files.len(), count);
}
