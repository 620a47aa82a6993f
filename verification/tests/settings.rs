use bitloops::paths::export_root_path;
use bitloops::plan::{model_label, project_label, project_name};
use bitloops::settings::{archiver_only, env_flag_set};
use bitloops::text::trim;

#[test]
fn archiver_only_is_the_default() {
    assert!(archiver_only(None), "an unconfigured install must archive and nothing else");
}

#[test]
fn full_cli_opts_out() {
    assert!(!archiver_only(Some("1")));
}

#[test]
fn blank_value_is_not_an_opt_out() {
    assert!(
        archiver_only(Some("   ")),
        "a blank value is an unset variable, not a request for full mode"
    );
}

#[test]
fn any_unicode_white_space_counts_as_blank_for_full_cli() {
    assert!(archiver_only(Some("\t\n\u{3000}\u{2028}")));
    assert!(archiver_only(Some("")));
    assert!(!archiver_only(Some(" yes ")));
}

#[test]
fn env_flag_is_set_by_any_non_empty_value() {
    assert!(!env_flag_set(None));
    assert!(!env_flag_set(Some("")));
    assert!(env_flag_set(Some(" ")));
    assert!(env_flag_set(Some("1")));
}

#[test]
fn trim_removes_unicode_white_space_at_both_ends() {
    assert_eq!(trim("  a b \t"), "a b");
    assert_eq!(trim("\u{a0}x\u{205f}"), "x");
    assert_eq!(trim("   "), "");
    assert_eq!(trim(""), "");
    assert_eq!(trim("é"), "é");
    assert_eq!(trim("\u{200b}x"), "\u{200b}x");
}

#[test]
fn model_label_trims_and_falls_back_to_unknown() {
    assert_eq!(model_label("  sonnet-5 "), "sonnet-5");
    assert_eq!(model_label("   "), "unknown");
    assert_eq!(model_label(""), "unknown");
    assert_eq!(model_label("gpt-5.4"), "gpt-5.4");
}

#[test]
fn project_label_falls_back_to_unnamed_project() {
    assert_eq!(project_label(Some("repo".to_string())), "repo");
    assert_eq!(project_label(Some(String::new())), "unnamed-project");
    assert_eq!(project_label(None), "unnamed-project");
    assert_eq!(project_name("/tmp/work/my-repo"), "my-repo");
    assert_eq!(project_name("/"), "unnamed-project");
    assert_eq!(project_name(""), "unnamed-project");
}

#[test]
fn export_root_prefers_a_non_empty_configured_directory() {
    assert_eq!(export_root_path(Some("/data/archive"), Some("/home/u")), "/data/archive");
    assert_eq!(export_root_path(Some(""), Some("/home/u")), "/home/u/Desktop/cycloops-code");
    assert_eq!(export_root_path(None, None), "./Desktop/cycloops-code");
    assert_eq!(export_root_path(None, Some("/")), "/Desktop/cycloops-code");
    assert_eq!(export_root_path(None, Some("")), "Desktop/cycloops-code");
}

#[test]
fn project_name_is_the_roots_last_component() {
    assert_eq!(project_name("/work/my-project"), "my-project");
    assert_eq!(project_name("relative/dir/proj"), "proj");
}

#[test]
fn archive_dir_joins_root_project_and_directory() {
    assert_eq!(bitloops::paths::archive_dir("/e", "proj", "src/lib"), "/e/proj/src/lib");
    assert_eq!(bitloops::paths::archive_dir("/e/", "proj", "src"), "/e/proj/src");
    assert_eq!(bitloops::paths::archive_dir("/e", "proj", ""), "/e/proj/");
    assert_eq!(bitloops::paths::export_root_path(None, Some("/home/a:b")), "/home/a:b/Desktop/cycloops-code");
}
