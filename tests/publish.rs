use ghp_upload::context::Context;
use ghp_upload::procedure::{
    advance, entries_to_remove, progress, redirect_page_name, start, subtree_dir, Action, Phase,
};
use ghp_upload::publish::{decide, is_listed, Config, Decision, Op, Outcome, PublishError, SkipReason};

fn config(branches: &[&str], publish_tags: bool) -> Config {
    Config {
        deploy_branch: "gh-pages".to_string(),
        publish_branches: branches.iter().map(|b| b.to_string()).collect(),
        publish_tags,
        token: None,
        message: "ghp-upload script".to_string(),
        source_dir: "./target/doc".to_string(),
        clobber_index: false,
    }
}

fn context(branch: Option<&str>, tag: Option<&str>, origin: Option<&str>, untrusted: bool) -> Context {
    Context {
        branch: branch.map(|s| s.to_string()),
        tag: tag.map(|s| s.to_string()),
        origin: origin.map(|s| s.to_string()),
        untrusted,
    }
}

fn published(d: Result<Decision, PublishError>) -> (String, String) {
    match d {
        Ok(Decision::Publish { ref_name, origin }) => (ref_name, origin),
        _ => panic!("expected a publish decision"),
    }
}

/// Runs the procedure, feeding it the given results in turn, and collects the actions.
fn run(mirror_exists: bool, results: &[(bool, Option<i32>)]) -> Vec<Action> {
    let (mut phase, action) = start(mirror_exists);
    let mut actions = vec![action];
    for &(ok, code) in results {
        if phase == Phase::Finished {
            break;
        }
        let (next, action) = advance(phase, ok, code);
        phase = next;
        actions.push(action);
    }
    actions
}

#[test]
fn untrusted_build_is_skipped_whatever_else() {
    for publish_tags in [false, true] {
        let cfg = config(&["master"], publish_tags);
        for c in [
            context(Some("master"), None, Some("o"), true),
            context(None, Some("v1"), Some("o"), true),
            context(None, None, None, true),
        ] {
            assert!(matches!(decide(&c, &cfg), Ok(Decision::Skip(SkipReason::Untrusted))));
        }
    }
}

#[test]
fn configured_branch_is_published() {
    let cfg = config(&["master"], false);
    let (r, o) = published(decide(&context(Some("master"), None, Some("git@x"), false), &cfg));
    assert_eq!(r, "master");
    assert_eq!(o, "git@x");
}

#[test]
fn other_branch_is_skipped() {
    let cfg = config(&["master"], false);
    assert!(matches!(
        decide(&context(Some("feature"), None, Some("o"), false), &cfg),
        Ok(Decision::Skip(SkipReason::NotConfigured))
    ));
}

#[test]
fn tag_is_published_under_its_name_when_tags_are() {
    let cfg = config(&["master"], true);
    let (r, _) = published(decide(&context(Some("HEAD"), Some("v1.2"), Some("o"), false), &cfg));
    assert_eq!(r, "v1.2");
    let (r, _) = published(decide(&context(None, Some("v1.2"), Some("o"), false), &cfg));
    assert_eq!(r, "v1.2");
}

#[test]
fn tag_build_is_skipped_when_tags_are_not() {
    let cfg = config(&["master"], false);
    assert!(matches!(
        decide(&context(Some("HEAD"), Some("v1.2"), Some("o"), false), &cfg),
        Ok(Decision::Skip(SkipReason::NotConfigured))
    ));
}

#[test]
fn missing_ref_or_origin_is_an_error() {
    let cfg = config(&["master"], false);
    assert_eq!(
        decide(&context(None, Some("v1"), Some("o"), false), &cfg).err(),
        Some(PublishError::NoRefDetermined)
    );
    assert_eq!(
        decide(&context(Some("dev"), None, None, false), &cfg).err(),
        Some(PublishError::NoOriginDetermined)
    );
}

#[test]
fn listed_branch_needs_exact_name() {
    let names = vec!["master".to_string(), "release-1.x".to_string()];
    assert!(is_listed(&names, "release-1.x"));
    assert!(!is_listed(&names, "release"));
    assert!(!is_listed(&Vec::new(), "master"));
}

#[test]
fn first_publish_creates_the_deploy_branch() {
    let actions = run(
        false,
        &[
            (false, Some(128)),
            (true, Some(0)),
            (true, Some(0)),
            (true, None),
            (true, None),
            (true, Some(0)),
            (false, Some(1)),
            (true, Some(0)),
            (true, Some(0)),
        ],
    );
    assert_eq!(
        actions,
        vec![
            Action::Clone,
            Action::Init,
            Action::CreateBranch,
            Action::PrepareSubtree,
            Action::Copy,
            Action::StageAll,
            Action::CheckStaged,
            Action::Commit,
            Action::Push,
            Action::Finish(Outcome::Published),
        ]
    );
    let cfg = config(&["master"], false);
    let (r, _) = published(decide(&context(Some("master"), None, Some("o"), false), &cfg));
    assert_eq!(subtree_dir("target/ghp", &r), "target/ghp/master");
}

#[test]
fn unchanged_rerun_is_up_to_date_without_push() {
    let actions = run(true, &[(true, Some(0)), (true, None), (true, None), (true, Some(0)), (true, Some(0))]);
    assert_eq!(
        actions,
        vec![
            Action::Pull,
            Action::PrepareSubtree,
            Action::Copy,
            Action::StageAll,
            Action::CheckStaged,
            Action::Finish(Outcome::UpToDate),
        ]
    );
    assert!(!actions.contains(&Action::Push));
    assert!(!actions.contains(&Action::Commit));
}

#[test]
fn successful_clone_goes_straight_to_the_subtree() {
    let actions = run(false, &[(true, Some(0))]);
    assert_eq!(actions, vec![Action::Clone, Action::PrepareSubtree]);
}

#[test]
fn required_step_failure_aborts_with_its_code() {
    assert_eq!(
        run(true, &[(false, Some(1))]),
        vec![Action::Pull, Action::Abort(PublishError::Failed(Op::Pull, Some(1)))]
    );
    assert_eq!(
        run(false, &[(false, Some(128)), (false, Some(2))]),
        vec![Action::Clone, Action::Init, Action::Abort(PublishError::Failed(Op::Init, Some(2)))]
    );
    assert_eq!(advance(Phase::CreatingBranch, false, Some(3)).1, Action::Abort(PublishError::Failed(Op::CreateBranch, Some(3))));
    assert_eq!(advance(Phase::Preparing, false, None).1, Action::Abort(PublishError::Failed(Op::PrepareSubtree, None)));
    assert_eq!(advance(Phase::Copying, false, None).1, Action::Abort(PublishError::Failed(Op::Copy, None)));
    assert_eq!(advance(Phase::Staging, false, Some(1)).1, Action::Abort(PublishError::Failed(Op::Stage, Some(1))));
    assert_eq!(advance(Phase::Checking, false, Some(129)).1, Action::Abort(PublishError::Failed(Op::CheckStaged, Some(129))));
    assert_eq!(advance(Phase::Checking, false, None).1, Action::Abort(PublishError::Failed(Op::CheckStaged, None)));
    assert_eq!(
        advance(Phase::Pushing, false, Some(1)),
        (Phase::Finished, Action::Abort(PublishError::Failed(Op::Push, Some(1))))
    );
}

#[test]
fn clean_keeps_exactly_the_redirect_page() {
    let entries = vec![
        "index.html".to_string(),
        "index.hmtl".to_string(),
        "main.css".to_string(),
        "crate".to_string(),
    ];
    assert_eq!(redirect_page_name(), "index.html");
    assert_eq!(
        entries_to_remove(&entries, false, redirect_page_name()),
        vec!["index.hmtl".to_string(), "main.css".to_string(), "crate".to_string()]
    );
    assert_eq!(entries_to_remove(&entries, true, redirect_page_name()), entries);
    assert_eq!(entries_to_remove(&Vec::new(), false, redirect_page_name()), Vec::<String>::new());
}

#[test]
fn subtrees_of_two_branches_are_apart() {
    let a = subtree_dir("target/ghp", "master");
    let b = subtree_dir("target/ghp", "release-1.x");
    assert_eq!(b, "target/ghp/release-1.x");
    assert!(!format!("{}/", b).starts_with(&format!("{}/", a)));
    assert!(!format!("{}/", a).starts_with(&format!("{}/", b)));
}

#[test]
fn progress_reports_each_new_mebibyte() {
    assert_eq!(progress(0, 0), None);
    assert_eq!(progress(1048575, 0), None);
    assert_eq!(progress(1048576, 0), Some(1));
    assert_eq!(progress(3 * 1048576 + 5, 1), Some(3));
    assert_eq!(progress(2 * 1048576, 2), None);
    assert_eq!(progress(u64::MAX, 0), Some(17592186044415));
}

#[test]
fn failed_commit_is_an_error_not_up_to_date() {
    assert_eq!(
        advance(Phase::Committing, false, Some(128)),
        (Phase::Finished, Action::Abort(PublishError::Failed(Op::Commit, Some(128))))
    );
    let actions = run(true, &[(true, Some(0)), (true, None), (true, None), (true, Some(0)), (false, Some(1)), (false, Some(128))]);
    assert_eq!(actions.last(), Some(&Action::Abort(PublishError::Failed(Op::Commit, Some(128)))));
    assert!(!actions.contains(&Action::Finish(Outcome::UpToDate)));
}

#[test]
fn staged_changes_lead_to_commit() {
    assert_eq!(advance(Phase::Checking, false, Some(1)), (Phase::Committing, Action::Commit));
    assert_eq!(advance(Phase::Checking, true, Some(0)), (Phase::Finished, Action::Finish(Outcome::UpToDate)));
}
