use daw::vcs::{
    add_remote, commit, current_branch, git_command_line, git_lfs_available, init_git,
    merge_gitignore, pull, push, status, stdout_lines, trim, GitAction, GitEvent, GitRemote,
    GitStatus, GitStep, VcsError, GITIGNORE, LFS_ATTRIBUTES,
};

fn run_args(step: &GitStep<impl std::fmt::Debug>) -> Vec<String> {
    match step {
        GitStep::Next(GitAction::Run(args)) => args.clone(),
        other => panic!("expected a git command, got {other:?}"),
    }
}

fn failure() -> VcsError {
    VcsError::Git { command: "git x".to_owned(), code: Some(1), stderr: "boom\n".to_owned() }
}

#[test]
fn reports_status_without_repository() {
    assert_eq!(status(&vec![]), GitStep::Next(GitAction::CheckRepository));
    let step = status(&vec![GitEvent::Repository(false)]);
    assert_eq!(step, GitStep::Finished(Ok(GitStatus { repository_exists: false, lines: Vec::new() })));
}

#[test]
fn reports_status_lines_of_repository() {
    let events = vec![GitEvent::Repository(true)];
    assert_eq!(run_args(&status(&events)), vec!["status", "--short"]);
    let events = vec![GitEvent::Repository(true), GitEvent::Output(" M a\r\n?? b\n".to_owned())];
    assert_eq!(
        status(&events),
        GitStep::Finished(Ok(GitStatus { repository_exists: true, lines: vec![" M a".to_owned(), "?? b".to_owned()] }))
    );
}

#[test]
fn initializes_with_gitignore_and_lfs() {
    let mut events = Vec::new();
    assert_eq!(run_args(&init_git(&events)), vec!["init"]);
    events.push(GitEvent::Output(String::new()));
    assert_eq!(init_git(&events), GitStep::Next(GitAction::EnsureGitignore));
    events.push(GitEvent::Written);
    assert_eq!(run_args(&init_git(&events)), vec!["lfs", "version"]);
    let mut without_lfs = events.clone_events();
    without_lfs.push(GitEvent::Failed(failure()));
    assert_eq!(init_git(&without_lfs), GitStep::Finished(Ok(())));
    events.push(GitEvent::Output("git-lfs/3".to_owned()));
    assert_eq!(init_git(&events), GitStep::Next(GitAction::WriteLfsAttributes));
    events.push(GitEvent::Written);
    assert_eq!(init_git(&events), GitStep::Finished(Ok(())));
    assert_eq!(init_git(&vec![GitEvent::Failed(failure())]), GitStep::Finished(Err(failure())));
}

trait CloneEvents {
    fn clone_events(&self) -> Vec<GitEvent>;
}

impl CloneEvents for Vec<GitEvent> {
    fn clone_events(&self) -> Vec<GitEvent> {
        self.iter()
            .map(|e| match e {
                GitEvent::Repository(b) => GitEvent::Repository(*b),
                GitEvent::Output(o) => GitEvent::Output(o.clone()),
                GitEvent::Failed(f) => GitEvent::Failed(f.clone()),
                GitEvent::Written => GitEvent::Written,
            })
            .collect()
    }
}

#[test]
fn adds_local_remote() {
    assert_eq!(run_args(&add_remote("origin", "/srv/repo.git", &vec![])), vec!["remote"]);
    let listed = vec![GitEvent::Output("upstream\n".to_owned())];
    assert_eq!(
        run_args(&add_remote("origin", "/srv/repo.git", &listed)),
        vec!["remote", "add", "origin", "/srv/repo.git"]
    );
    let listed = vec![GitEvent::Output("origin\nupstream\n".to_owned())];
    assert_eq!(
        run_args(&add_remote("origin", "/srv/repo.git", &listed)),
        vec!["remote", "set-url", "origin", "/srv/repo.git"]
    );
    let done = vec![GitEvent::Output("origin\n".to_owned()), GitEvent::Output(String::new())];
    assert_eq!(
        add_remote("origin", "/srv/repo.git", &done),
        GitStep::Finished(Ok(GitRemote { name: "origin".to_owned(), url: "/srv/repo.git".to_owned() }))
    );
}

#[test]
fn commits_pushes_and_pulls() {
    assert_eq!(run_args(&commit("initial project", &vec![])), vec!["add", "."]);
    assert_eq!(
        run_args(&commit("initial project", &vec![GitEvent::Output(String::new())])),
        vec!["-c", "user.name=DAW", "-c", "user.email=daw@example.invalid", "commit", "-m", "initial project"]
    );
    assert_eq!(
        commit("m", &vec![GitEvent::Output(String::new()), GitEvent::Failed(failure())]),
        GitStep::Finished(Err(failure()))
    );
    assert_eq!(run_args(&push("origin", "main", &vec![])), vec!["push", "-u", "origin", "main"]);
    assert_eq!(run_args(&pull("origin", "main", &vec![])), vec!["pull", "--ff-only", "origin", "main"]);
    assert_eq!(push("origin", "main", &vec![GitEvent::Output(String::new())]), GitStep::Finished(Ok(())));
}

#[test]
fn reads_current_branch_and_lfs() {
    assert_eq!(run_args(&current_branch(&vec![])), vec!["branch", "--show-current"]);
    assert_eq!(
        current_branch(&vec![GitEvent::Output("  main\n".to_owned())]),
        GitStep::Finished(Ok("main".to_owned()))
    );
    assert_eq!(git_lfs_available(&vec![GitEvent::Failed(failure())]), GitStep::Finished(Ok(false)));
    assert_eq!(git_lfs_available(&vec![GitEvent::Output("v".to_owned())]), GitStep::Finished(Ok(true)));
}

#[test]
fn writes_lfs_attributes() {
    assert!(LFS_ATTRIBUTES.contains("*.wav filter=lfs"));
    assert!(LFS_ATTRIBUTES.contains("*.aiff filter=lfs"));
}

#[test]
fn merges_gitignore_entries() {
    assert_eq!(merge_gitignore(None), GITIGNORE);
    assert_eq!(merge_gitignore(Some("cache/\n")), "cache/\nexports/\n.DS_Store\n");
    assert_eq!(merge_gitignore(Some(GITIGNORE)), GITIGNORE);
    assert_eq!(merge_gitignore(Some("target\n.DS_Store\r\n")), "target\n.DS_Store\r\ncache/\nexports/\n");
}

#[test]
fn splits_and_trims_output() {
    assert_eq!(stdout_lines(""), Vec::<String>::new());
    assert_eq!(stdout_lines("a\n\nb"), vec!["a", "", "b"]);
    assert_eq!(stdout_lines("a\r\nb\r"), vec!["a", "b\r"]);
    assert_eq!(trim(" \t x y \n"), "x y");
    assert_eq!(trim("   "), "");
}

#[test]
fn formats_git_failures() {
    assert_eq!(
        git_command_line(&vec!["remote".to_owned(), "add".to_owned(), "o".to_owned()]),
        "git remote add o"
    );
    assert_eq!(failure().message(), "git command failed: git x (exit code 1)\nboom");
    let quiet = VcsError::Git { command: "git y".to_owned(), code: None, stderr: "  \n".to_owned() };
    assert_eq!(quiet.message(), "git command failed: git y");
    let negative = VcsError::Git { command: "git z".to_owned(), code: Some(-2), stderr: String::new() };
    assert_eq!(negative.message(), "git command failed: git z (exit code -2)");
}

#[test]
fn initializes_and_commits_local_repository() {
    let init_events = vec![GitEvent::Output(String::new()), GitEvent::Written, GitEvent::Failed(failure())];
    assert_eq!(init_git(&init_events), GitStep::Finished(Ok(())));

    let branch = match current_branch(&vec![GitEvent::Output("main\n".to_owned())]) {
        GitStep::Finished(Ok(b)) => b,
        other => panic!("expected a branch, got {other:?}"),
    };
    let dirty_events = vec![GitEvent::Repository(true), GitEvent::Output("?? project.daw.json\n".to_owned())];
    let dirty = match status(&dirty_events) {
        GitStep::Finished(Ok(s)) => s,
        other => panic!("expected a status, got {other:?}"),
    };
    let committed = commit(
        "initial project",
        &vec![GitEvent::Output(String::new()), GitEvent::Output("[main (root-commit) 1a2b3c4] initial project\n".to_owned())],
    );
    let clean = match status(&vec![GitEvent::Repository(true), GitEvent::Output(String::new())]) {
        GitStep::Finished(Ok(s)) => s,
        other => panic!("expected a status, got {other:?}"),
    };

    assert!(!branch.is_empty());
    assert!(dirty.repository_exists);
    assert!(!dirty.lines.is_empty());
    assert_eq!(committed, GitStep::Finished(Ok(())));
    assert!(clean.lines.is_empty());
}
