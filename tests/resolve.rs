use ghp_upload::context::{
    effective_token, embed_token, local_origin, resolve_ci, upstream_remote, with_fallbacks, CiVar,
    Context, Env, ResolveError,
};

fn travis_env(tag: &str, branch: &str, pull_request: &str, secure: &str) -> Env {
    let mut env = Env::new();
    env.set("CI", "true");
    env.set("TRAVIS", "true");
    env.set("TRAVIS_TAG", tag);
    env.set("TRAVIS_BRANCH", branch);
    env.set("TRAVIS_PULL_REQUEST", pull_request);
    env.set("TRAVIS_SECURE_ENV_VARS", secure);
    env.set("TRAVIS_REPO_SLUG", "owner/repo");
    env
}

#[test]
fn env_later_value_wins() {
    let mut env = Env::new();
    assert_eq!(env.get("A"), None);
    env.set("A", "1");
    env.set("B", "2");
    env.set("A", "3");
    assert_eq!(env.get("A"), Some("3".to_string()));
    assert_eq!(env.get("B"), Some("2".to_string()));
    assert_eq!(env.get("C"), None);
}

#[test]
fn no_ci_resolves_nothing() {
    let mut env = Env::new();
    env.set("TRAVIS", "true");
    env.set("TRAVIS_BRANCH", "master");
    let c = resolve_ci(&env, Some("tok")).unwrap();
    assert!(c.branch.is_none() && c.tag.is_none() && c.origin.is_none());
    assert!(!c.untrusted);
}

#[test]
fn unsupported_ci_resolves_nothing() {
    let mut env = Env::new();
    env.set("CI", "true");
    env.set("TRAVIS_BRANCH", "master");
    let c = resolve_ci(&env, None).unwrap();
    assert!(c.branch.is_none() && c.tag.is_none() && c.origin.is_none());
}

#[test]
fn branch_build_without_token_uses_ssh() {
    let env = travis_env("", "master", "false", "true");
    let c = resolve_ci(&env, None).unwrap();
    assert_eq!(c.branch, Some("master".to_string()));
    assert_eq!(c.tag, None);
    assert_eq!(c.origin, Some("git@github.com:owner/repo.git".to_string()));
    assert!(!c.untrusted);
}

#[test]
fn branch_build_with_token_uses_https() {
    let env = travis_env("", "dev", "false", "true");
    let c = resolve_ci(&env, Some("SECRET")).unwrap();
    assert_eq!(c.branch, Some("dev".to_string()));
    assert_eq!(c.origin, Some("https://SECRET@github.com/owner/repo.git".to_string()));
}

#[test]
fn masked_secrets_with_token_is_a_security_fault() {
    let env = travis_env("", "master", "false", "false");
    assert_eq!(resolve_ci(&env, Some("SECRET")).err(), Some(ResolveError::SecurityFault));
}

#[test]
fn masked_secrets_without_token_is_fine() {
    let env = travis_env("", "master", "7", "false");
    let c = resolve_ci(&env, None).unwrap();
    assert!(c.untrusted);
}

#[test]
fn token_needs_the_secure_flag() {
    let mut env = Env::new();
    env.set("CI", "true");
    env.set("TRAVIS", "true");
    assert_eq!(
        resolve_ci(&env, Some("SECRET")).err(),
        Some(ResolveError::MissingVariable(CiVar::SecureEnvVars))
    );
    assert_eq!(resolve_ci(&env, None).err(), Some(ResolveError::MissingVariable(CiVar::Tag)));
}

#[test]
fn missing_slug_is_reported() {
    let mut env = Env::new();
    env.set("CI", "true");
    env.set("TRAVIS", "true");
    env.set("TRAVIS_TAG", "");
    env.set("TRAVIS_BRANCH", "master");
    env.set("TRAVIS_PULL_REQUEST", "false");
    assert_eq!(resolve_ci(&env, None).err(), Some(ResolveError::MissingVariable(CiVar::RepoSlug)));
}

#[test]
fn tag_build_sets_tag_and_not_branch() {
    let env = travis_env("v1.0.0", "v1.0.0", "false", "true");
    let c = resolve_ci(&env, None).unwrap();
    assert_eq!(c.tag, Some("v1.0.0".to_string()));
    assert_eq!(c.branch, None);
}

#[test]
fn pull_request_is_untrusted() {
    let env = travis_env("", "master", "42", "true");
    assert!(resolve_ci(&env, None).unwrap().untrusted);
}

#[test]
fn upstream_names_its_remote() {
    assert_eq!(upstream_remote("origin/master\n"), "origin");
    assert_eq!(upstream_remote("upstream/feature/x"), "upstream");
    assert_eq!(upstream_remote("  lonely \n"), "lonely");
}

#[test]
fn token_goes_into_github_urls() {
    assert_eq!(
        embed_token("https://github.com/owner/repo.git", "T0K").unwrap(),
        "https://T0K@github.com/owner/repo.git"
    );
    assert_eq!(
        embed_token("git@github.com:owner/repo.git", "T0K").unwrap(),
        "https://T0K@github.com/owner/repo.git"
    );
}

#[test]
fn non_github_remote_is_refused_with_a_token() {
    assert_eq!(
        embed_token("https://gitlab.com/owner/repo.git", "T0K").err(),
        Some(ResolveError::UnsupportedRemote)
    );
    assert_eq!(embed_token("https://github.com/", "T0K").err(), Some(ResolveError::UnsupportedRemote));
    assert_eq!(
        local_origin("ssh://example.org/repo.git\n", Some("T0K")).err(),
        Some(ResolveError::UnsupportedRemote)
    );
}

#[test]
fn local_origin_without_token_is_verbatim() {
    assert_eq!(
        local_origin("ssh://example.org/repo.git\n", None).unwrap(),
        "ssh://example.org/repo.git"
    );
    assert_eq!(
        local_origin(" https://github.com/a/b.git\n", Some("T")).unwrap(),
        "https://T@github.com/a/b.git"
    );
}

#[test]
fn fallbacks_fill_only_unset_fields() {
    let c = Context {
        branch: None,
        tag: Some("v2".to_string()),
        origin: Some("ci-origin".to_string()),
        untrusted: true,
    };
    let r = with_fallbacks(c, Some("HEAD".to_string()), Some("local-origin".to_string()));
    assert_eq!(r.branch, Some("HEAD".to_string()));
    assert_eq!(r.tag, Some("v2".to_string()));
    assert_eq!(r.origin, Some("ci-origin".to_string()));
    assert!(r.untrusted);
}

#[test]
fn token_falls_back_to_environment() {
    let mut env = Env::new();
    assert_eq!(effective_token(None, &env), None);
    env.set("GH_TOKEN", "from-env");
    assert_eq!(effective_token(None, &env), Some("from-env".to_string()));
    assert_eq!(effective_token(Some("given".to_string()), &env), Some("given".to_string()));
}

#[test]
fn masked_secrets_make_a_branch_build_untrusted() {
    let env = travis_env("", "master", "false", "false");
    let c = resolve_ci(&env, None).unwrap();
    assert!(c.untrusted);
    assert_eq!(c.branch, Some("master".to_string()));
}

#[test]
fn unmasked_secrets_keep_a_branch_build_trusted() {
    let env = travis_env("", "master", "false", "true");
    assert!(!resolve_ci(&env, None).unwrap().untrusted);
}
