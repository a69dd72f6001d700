use alpacka::installer::{
    build_command, finished_state, git_descriptor, install_target, split_words, starting_state,
    BuildLine, OutputStream, Severity, StateEvent, StateEventKind, StringPathBuf,
};
use alpacka::manifest::{LoaderData, Plugin};
use alpacka::smith::{Git, LoadCause, LoaderType, MaterializeStep};
use std::path::{Path, PathBuf};

#[test]
fn test_string_path_buf_deref() {
    let spb = StringPathBuf::new(Path::new("/tmp/test.txt").to_str().unwrap().to_string());
    let pb: PathBuf = PathBuf::from(spb.as_str());
    assert_eq!(pb, Path::new("/tmp/test.txt").to_path_buf());
}

#[test]
fn test_string_path_buf_new() {
    let spb = StringPathBuf::new(Path::new("/tmp/test.txt").to_str().unwrap().to_string());
    assert_eq!(PathBuf::from(spb.as_str()), Path::new("/tmp/test.txt").to_path_buf());
}

fn plugin(optional: bool, rename: Option<&str>, smith: &str) -> Plugin {
    Plugin {
        name: "telescope.nvim".to_string(),
        unresolved_name: "github:nvim-telescope/telescope.nvim".to_string(),
        rename: rename.map(|r| r.to_string()),
        optional,
        dependencies: vec![],
        smith: smith.to_string(),
        build: String::new(),
        loader_data: LoaderData::Git(LoaderType {
            commit_hash: "0123".to_string(),
            remote: "https://github.com/nvim-telescope/telescope.nvim.git".to_string(),
        }),
    }
}

#[test]
fn target_path_uses_start_opt_and_rename() {
    let root = StringPathBuf::new("/data/pack/alpacka/".to_string());
    let start = install_target(&root, &plugin(false, None, "git"));
    assert_eq!(start.as_str(), "/data/pack/alpacka/start/telescope.nvim");
    let opt = install_target(&root, &plugin(true, Some("ts"), "git"));
    assert_eq!(opt.as_str(), "/data/pack/alpacka/opt/ts");
    let bare = StringPathBuf::new("/data".to_string());
    assert_eq!(install_target(&bare, &plugin(false, None, "git")).as_str(), "/data/start/telescope.nvim");
}

#[test]
fn build_splits_into_program_and_args() {
    let c = build_command("echo hello").unwrap();
    assert_eq!(c.program, "echo");
    assert_eq!(c.args, vec!["hello".to_string()]);
    let c = build_command("  make\t-j 4 \n").unwrap();
    assert_eq!(c.program, "make");
    assert_eq!(c.args, vec!["-j".to_string(), "4".to_string()]);
}

#[test]
fn empty_build_spawns_nothing() {
    assert!(build_command("").is_none());
    assert!(build_command("  \t ").is_none());
}

#[test]
fn words_split_on_unicode_whitespace() {
    assert_eq!(split_words("a\u{3000}b\u{a0}c"), vec!["a", "b", "c"]);
    assert_eq!(split_words("one"), vec!["one"]);
    assert!(split_words("").is_empty());
}

#[test]
fn build_output_is_tagged_with_plugin() {
    let out = BuildLine::new("telescope.nvim", OutputStream::Stdout, "hello".to_string());
    assert_eq!(out.text, "hello");
    assert_eq!(out.plugin, "telescope.nvim");
    assert_eq!(out.severity(), Severity::Info);
    assert_eq!(out.message(), "STDOUT from telescope.nvim: hello");
    let err = BuildLine::new("x", OutputStream::Stderr, "oops".to_string());
    assert_eq!(err.severity(), Severity::Warning);
    assert_eq!(err.message(), "STDERR from x: oops");
}

#[test]
fn descriptor_of_other_loader_is_refused() {
    let git = Git::new();
    assert!(git_descriptor(&git, &plugin(false, None, "git")).is_ok());
    let e = git_descriptor(&git, &plugin(false, None, "npm")).unwrap_err();
    assert_eq!(e.cause, LoadCause::WrongLoader);
    assert_eq!(e.name, "telescope.nvim");
}

#[test]
fn state_labels_and_transitions() {
    assert_eq!(StateEventKind::Installing.label(), "  Installing");
    assert_eq!(StateEventKind::UpToDate.label(), "  Up to date");
    assert_eq!(StateEventKind::Failed("boom".to_string()).label(), "Error occured: boom");
    assert_eq!(starting_state(MaterializeStep::Clone), StateEventKind::Installing);
    assert_eq!(starting_state(MaterializeStep::Reset), StateEventKind::Updating);
    assert_eq!(starting_state(MaterializeStep::Done), StateEventKind::UpToDate);
    assert_eq!(finished_state(&StateEventKind::Installing), StateEventKind::Installed);
    assert_eq!(finished_state(&StateEventKind::Updating), StateEventKind::Updated);
    let ev = StateEvent::new("pkg", StateEventKind::Removed);
    assert_eq!(ev.name, "pkg");
    assert_eq!(ev.kind, StateEventKind::Removed);
}
