use vstd::prelude::*;

use crate::text::{
    find_first, find_last, first_index, last_index, lemma_first_from_occurs,
    lemma_last_upto_occurs, same_text, trim, trimmed,
};

verus! {

/// The environment variables of a run, as (name, value) pairs; a later pair wins over an
/// earlier one of the same name.
pub struct Env {
    vars: Vec<(String, String)>,
}

/// The value of `key` among the first `i` pairs, taking the last that matches.
pub open spec fn lookup_before(vars: Seq<(Seq<char>, Seq<char>)>, key: Seq<char>, i: int) -> Option<Seq<char>>
    decreases i,
{
    if i <= 0 || i > vars.len() {
        None
    } else if vars[i - 1].0 == key {
        Some(vars[i - 1].1)
    } else {
        lookup_before(vars, key, i - 1)
    }
}

/// The value of `key` in a list of variables.
pub open spec fn lookup(vars: Seq<(Seq<char>, Seq<char>)>, key: Seq<char>) -> Option<Seq<char>> {
    lookup_before(vars, key, vars.len() as int)
}

/// The view of an optional string.
pub open spec fn opt_view(o: Option<String>) -> Option<Seq<char>> {
    match o {
        Some(s) => Some(s@),
        None => None,
    }
}

impl View for Env {
    type V = Seq<(Seq<char>, Seq<char>)>;

    closed spec fn view(&self) -> Seq<(Seq<char>, Seq<char>)> {
        self.vars@.map_values(|p: (String, String)| (p.0@, p.1@))
    }
}

proof fn lemma_lookup_prefix(a: Seq<(Seq<char>, Seq<char>)>, b: Seq<(Seq<char>, Seq<char>)>, key: Seq<char>, i: int)
    requires
        0 <= i <= a.len(),
        i <= b.len(),
        forall|j: int| 0 <= j < i ==> a[j] == b[j],
    ensures
        lookup_before(a, key, i) == lookup_before(b, key, i),
    decreases i,
{
    if i > 0 {
        lemma_lookup_prefix(a, b, key, i - 1);
    }
}

impl Env {
    /// The value that `key` has here.
    pub open spec fn var(&self, key: Seq<char>) -> Option<Seq<char>> {
        lookup(self@, key)
    }

    /// An environment with no variables.
    pub fn new() -> (r: Env)
        ensures
            forall|k: Seq<char>| r.var(k) is None,
    {
        Env { vars: Vec::new() }
    }

    /// Sets `key` to `value`, leaving the other variables as they are.
    pub fn set(&mut self, key: &str, value: &str)
        ensures
            final(self).var(key@) == Some(value@),
            forall|k: Seq<char>| k != key@ ==> final(self).var(k) == old(self).var(k),
    {
        let ghost before = self@;
        self.vars.push((String::from_str(key), String::from_str(value)));
        assert(self@.len() == before.len() + 1);
        assert forall|k: Seq<char>| k != key@ implies #[trigger] self.var(k) == lookup(before, k) by {
            lemma_lookup_prefix(self@, before, k, before.len() as int);
        }
    }

    /// The value of `key`, if it is set.
    pub fn get(&self, key: &str) -> (r: Option<String>)
        ensures
            opt_view(r) == self.var(key@),
    {
        let mut i: usize = self.vars.len();
        while i > 0
            invariant
                i <= self.vars.len(),
                self.var(key@) == lookup_before(self@, key@, i as int),
            decreases i,
        {
            let pair = &self.vars[i - 1];
            if same_text(pair.0.as_str(), key) {
                return Some(pair.1.clone());
            }
            i -= 1;
        }
        None
    }
}

/// A variable that the supported CI provider always sets.
#[derive(Clone, Copy, Debug, PartialEq, Eq, Structural)]
pub enum CiVar {
    SecureEnvVars,
    Tag,
    Branch,
    PullRequest,
    RepoSlug,
}

impl CiVar {
    /// The variable's name in the environment.
    pub open spec fn spec_name(self) -> Seq<char> {
        match self {
            CiVar::SecureEnvVars => "TRAVIS_SECURE_ENV_VARS"@,
            CiVar::Tag => "TRAVIS_TAG"@,
            CiVar::Branch => "TRAVIS_BRANCH"@,
            CiVar::PullRequest => "TRAVIS_PULL_REQUEST"@,
            CiVar::RepoSlug => "TRAVIS_REPO_SLUG"@,
        }
    }

    /// The variable's name in the environment.
    pub fn name(self) -> (r: &'static str)
        ensures
            r@ == self.spec_name(),
    {
        match self {
            CiVar::SecureEnvVars => "TRAVIS_SECURE_ENV_VARS",
            CiVar::Tag => "TRAVIS_TAG",
            CiVar::Branch => "TRAVIS_BRANCH",
            CiVar::PullRequest => "TRAVIS_PULL_REQUEST",
            CiVar::RepoSlug => "TRAVIS_REPO_SLUG",
        }
    }
}

/// Why the context of a run could not be resolved.
#[derive(Clone, Copy, Debug, PartialEq, Eq, Structural)]
pub enum ResolveError {
    /// A token is configured, yet the CI provider withholds its secure variables from this
    /// build: the token is likely exposed somewhere else.
    SecurityFault,
    /// A variable that the detected CI provider always sets is absent.
    MissingVariable(CiVar),
    /// A token is configured but the remote is not a GitHub one, so there is no place in
    /// its URL for the token.
    UnsupportedRemote,
}

/// What is known of the run: the branch and tag being built, the URL to push to (with
/// the token in it, if there is one), and whether the build is untrusted.
pub struct Context {
    pub branch: Option<String>,
    pub tag: Option<String>,
    pub origin: Option<String>,
    pub untrusted: bool,
}

/// The model of a [`Context`].
pub struct ContextModel {
    pub branch: Option<Seq<char>>,
    pub tag: Option<Seq<char>>,
    pub origin: Option<Seq<char>>,
    pub untrusted: bool,
}

impl View for Context {
    type V = ContextModel;

    open spec fn view(&self) -> ContextModel {
        ContextModel {
            branch: opt_view(self.branch),
            tag: opt_view(self.tag),
            origin: opt_view(self.origin),
            untrusted: self.untrusted,
        }
    }
}

/// The context with nothing resolved yet.
pub open spec fn empty_context() -> ContextModel {
    ContextModel { branch: None, tag: None, origin: None, untrusted: false }
}

/// The HTTPS push URL of a GitHub repository, with the token as credentials.
pub open spec fn https_origin(token: Seq<char>, slug: Seq<char>) -> Seq<char> {
    "https://"@ + token + "@github.com/"@ + slug + ".git"@
}

/// The SSH push URL of a GitHub repository.
pub open spec fn ssh_origin(slug: Seq<char>) -> Seq<char> {
    "git@github.com:"@ + slug + ".git"@
}

/// The context that the CI environment gives, before any fallback to local version control.
/// A build is untrusted when it builds a pull request or when the provider withholds its
/// secure variables; with a token configured, the latter is a security fault instead.
pub open spec fn ci_context(env: Seq<(Seq<char>, Seq<char>)>, token: Option<Seq<char>>) -> Result<ContextModel, ResolveError> {
    let var = |v: CiVar| lookup(env, v.spec_name());
    if lookup(env, "CI"@) is None || lookup(env, "TRAVIS"@) is None {
        Ok(empty_context())
    } else if token is Some && var(CiVar::SecureEnvVars) is None {
        Err(ResolveError::MissingVariable(CiVar::SecureEnvVars))
    } else if token is Some && var(CiVar::SecureEnvVars) == Some("false"@) {
        Err(ResolveError::SecurityFault)
    } else if var(CiVar::Tag) is None {
        Err(ResolveError::MissingVariable(CiVar::Tag))
    } else if var(CiVar::Tag)->0.len() == 0 && var(CiVar::Branch) is None {
        Err(ResolveError::MissingVariable(CiVar::Branch))
    } else if var(CiVar::PullRequest) is None {
        Err(ResolveError::MissingVariable(CiVar::PullRequest))
    } else if var(CiVar::RepoSlug) is None {
        Err(ResolveError::MissingVariable(CiVar::RepoSlug))
    } else {
        let tag = var(CiVar::Tag)->0;
        let slug = var(CiVar::RepoSlug)->0;
        Ok(ContextModel {
            branch: if tag.len() > 0 { None } else { var(CiVar::Branch) },
            tag: if tag.len() > 0 { Some(tag) } else { None },
            origin: Some(
                match token {
                    Some(t) => https_origin(t, slug),
                    None => ssh_origin(slug),
                },
            ),
            untrusted: var(CiVar::PullRequest) != Some("false"@) || var(CiVar::SecureEnvVars) == Some(
                "false"@,
            ),
        })
    }
}

fn required(env: &Env, v: CiVar) -> (r: Result<String, ResolveError>)
    ensures
        match r {
            Ok(s) => env.var(v.spec_name()) == Some(s@),
            Err(e) => env.var(v.spec_name()) is None && e == ResolveError::MissingVariable(v),
        },
{
    match env.get(v.name()) {
        Some(s) => Ok(s),
        None => Err(ResolveError::MissingVariable(v)),
    }
}

fn https_url(token: &str, slug: &str) -> (r: String)
    ensures
        r@ == https_origin(token@, slug@),
{
    let mut r = String::from_str("https://");
    r.append(token);
    r.append("@github.com/");
    r.append(slug);
    r.append(".git");
    r
}

fn ssh_url(slug: &str) -> (r: String)
    ensures
        r@ == ssh_origin(slug@),
{
    let mut r = String::from_str("git@github.com:");
    r.append(slug);
    r.append(".git");
    r
}

/// Resolves what the CI environment tells of the run. Outside CI, or under a CI provider
/// that is not supported, nothing is resolved here.
pub fn resolve_ci(env: &Env, token: Option<&str>) -> (r: Result<Context, ResolveError>)
    ensures
        match r {
            Ok(c) => ci_context(env@, opt_str_view(token)) == Ok::<ContextModel, ResolveError>(c@),
            Err(e) => ci_context(env@, opt_str_view(token)) == Err::<ContextModel, ResolveError>(e),
        },
{
    let empty = Context { branch: None, tag: None, origin: None, untrusted: false };
    if env.get("CI").is_none() || env.get("TRAVIS").is_none() {
        return Ok(empty);
    }
    if token.is_some() {
        let secure = required(env, CiVar::SecureEnvVars)?;
        if same_text(secure.as_str(), "false") {
            return Err(ResolveError::SecurityFault);
        }
    }
    let tag = required(env, CiVar::Tag)?;
    let mut context = empty;
    if tag.unicode_len() > 0 {
        context.tag = Some(tag);
    } else {
        context.branch = Some(required(env, CiVar::Branch)?);
    }
    let pull_request = required(env, CiVar::PullRequest)?;
    let secrets_masked = match env.get(CiVar::SecureEnvVars.name()) {
        Some(secure) => same_text(secure.as_str(), "false"),
        None => false,
    };
    context.untrusted = !same_text(pull_request.as_str(), "false") || secrets_masked;
    let slug = required(env, CiVar::RepoSlug)?;
    context.origin = Some(
        match token {
            Some(t) => https_url(t, slug.as_str()),
            None => ssh_url(slug.as_str()),
        },
    );
    Ok(context)
}

/// The view of an optional string slice.
pub open spec fn opt_str_view(o: Option<&str>) -> Option<Seq<char>> {
    match o {
        Some(s) => Some(s@),
        None => None,
    }
}

/// The remote named by an upstream ref such as `origin/master`: what precedes its first `/`.
pub open spec fn remote_of(upstream: Seq<char>) -> Seq<char> {
    let u = trimmed(upstream);
    match first_index(u, "/"@) {
        Some(i) => u.subrange(0, i),
        None => u,
    }
}

/// Names the remote of the current branch's upstream, from what version control reports.
pub fn upstream_remote(upstream: &str) -> (r: String)
    ensures
        r@ == remote_of(upstream@),
{
    let u = trim(upstream);
    match find_first(u.as_str(), "/") {
        Some(i) => {
            proof {
                lemma_first_from_occurs(u@, "/"@, 0);
            }
            String::from_str(u.as_str().substring_char(0, i))
        },
        None => u,
    }
}

/// The URL of a GitHub remote with the token put in: the repository slug stands between
/// `github.com` and one separator after it, and the last `.git`.
pub open spec fn token_origin(url: Seq<char>, token: Seq<char>) -> Option<Seq<char>> {
    match (first_index(url, "github.com"@), last_index(url, ".git"@)) {
        (Some(host), Some(suffix)) => if host + "github.com"@.len() + 1 <= suffix {
            Some(https_origin(token, url.subrange(host + "github.com"@.len() + 1, suffix)))
        } else {
            None
        },
        _ => None,
    }
}

/// Rewrites a GitHub remote URL into an HTTPS one that carries the token.
pub fn embed_token(url: &str, token: &str) -> (r: Result<String, ResolveError>)
    ensures
        match r {
            Ok(s) => token_origin(url@, token@) == Some(s@),
            Err(e) => token_origin(url@, token@) is None && e == ResolveError::UnsupportedRemote,
        },
{
    let host = "github.com";
    let hl = host.unicode_len();
    match (find_first(url, host), find_last(url, ".git")) {
        (Some(h), Some(d)) => {
            proof {
                lemma_last_upto_occurs(url@, ".git"@, url@.len() - ".git"@.len());
            }
            if h <= d && hl < d - h {
                let slug = url.substring_char(h + hl + 1, d);
                Ok(https_url(token, slug))
            } else {
                Err(ResolveError::UnsupportedRemote)
            }
        },
        _ => Err(ResolveError::UnsupportedRemote),
    }
}

/// The push URL from the fetch URL of the upstream's remote: with a token, the GitHub URL
/// rewritten to carry it; without one, the URL as it is.
pub open spec fn local_origin_of(url: Seq<char>, token: Option<Seq<char>>) -> Option<Seq<char>> {
    match token {
        Some(t) => token_origin(trimmed(url), t),
        None => Some(trimmed(url)),
    }
}

/// Derives the push URL from the fetch URL that version control reports for the remote.
pub fn local_origin(url: &str, token: Option<&str>) -> (r: Result<String, ResolveError>)
    ensures
        match r {
            Ok(s) => local_origin_of(url@, opt_str_view(token)) == Some(s@),
            Err(e) => local_origin_of(url@, opt_str_view(token)) is None && e == ResolveError::UnsupportedRemote,
        },
{
    let u = trim(url);
    match token {
        Some(t) => embed_token(u.as_str(), t),
        None => Ok(u),
    }
}

/// The first of two optional values that is present.
pub open spec fn or_else<T>(first: Option<T>, second: Option<T>) -> Option<T> {
    match first {
        Some(x) => Some(x),
        None => second,
    }
}

/// Fills what the CI environment left unset with what local version control gave.
pub fn with_fallbacks(context: Context, branch: Option<String>, origin: Option<String>) -> (r: Context)
    ensures
        r@ == (ContextModel {
            branch: or_else(context@.branch, opt_view(branch)),
            origin: or_else(context@.origin, opt_view(origin)),
            ..context@
        }),
{
    Context {
        branch: match context.branch {
            Some(b) => Some(b),
            None => branch,
        },
        tag: context.tag,
        origin: match context.origin {
            Some(o) => Some(o),
            None => origin,
        },
        untrusted: context.untrusted,
    }
}

/// The token to use: the one given on the command line, else the one in `GH_TOKEN`.
pub fn effective_token(given: Option<String>, env: &Env) -> (r: Option<String>)
    ensures
        opt_view(r) == or_else(opt_view(given), env.var("GH_TOKEN"@)),
{
    match given {
        Some(t) => Some(t),
        None => env.get("GH_TOKEN"),
    }
}

/// A configured token with secure variables withheld by the CI provider is a security
/// fault, whatever the other variables say.
pub proof fn lemma_masked_secrets_fault(env: Seq<(Seq<char>, Seq<char>)>, token: Seq<char>)
    requires
        lookup(env, "CI"@) is Some,
        lookup(env, "TRAVIS"@) is Some,
        lookup(env, CiVar::SecureEnvVars.spec_name()) == Some("false"@),
    ensures
        ci_context(env, Some(token)) == Err::<ContextModel, ResolveError>(ResolveError::SecurityFault),
{
}

/// A build whose secure variables are withheld is untrusted, whatever its pull-request flag.
pub proof fn lemma_masked_secrets_untrusted(env: Seq<(Seq<char>, Seq<char>)>, token: Option<Seq<char>>)
    requires
        lookup(env, CiVar::SecureEnvVars.spec_name()) == Some("false"@),
        lookup(env, "CI"@) is Some,
        lookup(env, "TRAVIS"@) is Some,
        ci_context(env, token) is Ok,
    ensures
        ci_context(env, token)->Ok_0.untrusted,
{
}

/// In a tag build the tag is resolved, and the branch is left to the local fallback.
pub proof fn lemma_tag_resolved(env: Seq<(Seq<char>, Seq<char>)>, token: Option<Seq<char>>, tag: Seq<char>)
    requires
        lookup(env, "CI"@) is Some,
        lookup(env, "TRAVIS"@) is Some,
        lookup(env, CiVar::Tag.spec_name()) == Some(tag),
        tag.len() > 0,
        ci_context(env, token) is Ok,
    ensures
        ci_context(env, token)->Ok_0.tag == Some(tag),
        ci_context(env, token)->Ok_0.branch is None,
{
}

} // verus!
