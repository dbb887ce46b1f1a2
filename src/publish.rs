use vstd::prelude::*;

use crate::context::{Context, ContextModel};
use crate::text::same_text;

verus! {

/// What the command line settles for a run.
pub struct Config {
    /// The branch that hosts the published pages.
    pub deploy_branch: String,
    /// The source branches whose builds are published.
    pub publish_branches: Vec<String>,
    /// Whether tag builds are published.
    pub publish_tags: bool,
    /// The access token, if any.
    pub token: Option<String>,
    /// The message of the commit that publishes.
    pub message: String,
    /// The directory whose contents are published.
    pub source_dir: String,
    /// Whether the subtree's redirect page is removed like any other entry.
    pub clobber_index: bool,
}

/// The views of a list of strings.
pub open spec fn views(v: Seq<String>) -> Seq<Seq<char>> {
    v.map_values(|s: String| s@)
}

/// Why a build is not published.
#[derive(Clone, Copy, Debug, PartialEq, Eq, Structural)]
pub enum SkipReason {
    /// The build runs untrusted code, such as a pull request from a fork.
    Untrusted,
    /// Neither the tag nor the branch of the build is to be published.
    NotConfigured,
}

/// How a run ended, when it did not fail.
#[derive(Clone, Copy, Debug, PartialEq, Eq, Structural)]
pub enum Outcome {
    Skipped(SkipReason),
    /// The published content did not change: nothing was committed or pushed.
    UpToDate,
    /// A new commit was made and pushed.
    Published,
}

/// A step of publishing that can fail.
#[derive(Clone, Copy, Debug, PartialEq, Eq, Structural)]
pub enum Op {
    Init,
    CreateBranch,
    Pull,
    PrepareSubtree,
    Copy,
    Stage,
    CheckStaged,
    Commit,
    Push,
}

/// Why a run failed.
#[derive(Clone, Copy, Debug, PartialEq, Eq, Structural)]
pub enum PublishError {
    /// Neither a publishable tag nor a branch was resolved.
    NoRefDetermined,
    /// No URL to push to was resolved.
    NoOriginDetermined,
    /// A step failed, with the exit code it reported, if any.
    Failed(Op, Option<i32>),
}

/// What to do with a build.
pub enum Decision {
    Skip(SkipReason),
    /// Publish into the subtree named `ref_name`, and push to `origin`.
    Publish { ref_name: String, origin: String },
}

/// The model of a [`Decision`].
pub enum DecisionModel {
    Skip(SkipReason),
    Publish { ref_name: Seq<char>, origin: Seq<char> },
}

impl View for Decision {
    type V = DecisionModel;

    open spec fn view(&self) -> DecisionModel {
        match self {
            Decision::Skip(r) => DecisionModel::Skip(*r),
            Decision::Publish { ref_name, origin } => DecisionModel::Publish {
                ref_name: ref_name@,
                origin: origin@,
            },
        }
    }
}

/// The decision for a build: untrusted builds are skipped first of all; a tag build is
/// published under its tag when tags are; else the branch is published if it is one of
/// the configured ones. Missing a ref or an origin otherwise is an error.
pub open spec fn decision_of(c: ContextModel, branches: Seq<Seq<char>>, publish_tags: bool) -> Result<DecisionModel, PublishError> {
    let tag_path = publish_tags && c.tag is Some;
    if c.untrusted {
        Ok(DecisionModel::Skip(SkipReason::Untrusted))
    } else if !tag_path && c.branch is None {
        Err(PublishError::NoRefDetermined)
    } else if c.origin is None {
        Err(PublishError::NoOriginDetermined)
    } else if tag_path {
        Ok(DecisionModel::Publish { ref_name: c.tag->0, origin: c.origin->0 })
    } else if branches.contains(c.branch->0) {
        Ok(DecisionModel::Publish { ref_name: c.branch->0, origin: c.origin->0 })
    } else {
        Ok(DecisionModel::Skip(SkipReason::NotConfigured))
    }
}

/// Whether `name` is one of `names`.
pub fn is_listed(names: &Vec<String>, name: &str) -> (r: bool)
    ensures
        r == views(names@).contains(name@),
{
    let mut i: usize = 0;
    while i < names.len()
        invariant
            i <= names.len(),
            forall|j: int| 0 <= j < i ==> names@[j]@ != name@,
        decreases names.len() - i,
    {
        if same_text(names[i].as_str(), name) {
            assert(views(names@)[i as int] == name@);
            return true;
        }
        i += 1;
    }
    assert forall|j: int| 0 <= j < views(names@).len() implies views(names@)[j] != name@ by {
        assert(names@[j]@ != name@);
    }
    false
}

/// Decides whether and where to publish the build.
pub fn decide(context: &Context, config: &Config) -> (r: Result<Decision, PublishError>)
    ensures
        match r {
            Ok(d) => decision_of(context@, views(config.publish_branches@), config.publish_tags) == Ok::<DecisionModel, PublishError>(d@),
            Err(e) => decision_of(context@, views(config.publish_branches@), config.publish_tags) == Err::<DecisionModel, PublishError>(e),
        },
{
    if context.untrusted {
        return Ok(Decision::Skip(SkipReason::Untrusted));
    }
    let tag_path = config.publish_tags && context.tag.is_some();
    if !tag_path && context.branch.is_none() {
        return Err(PublishError::NoRefDetermined);
    }
    let origin = match &context.origin {
        Some(o) => o,
        None => {
            return Err(PublishError::NoOriginDetermined);
        },
    };
    if tag_path {
        match &context.tag {
            Some(t) => Ok(Decision::Publish { ref_name: t.clone(), origin: origin.clone() }),
            None => Err(PublishError::NoRefDetermined),
        }
    } else {
        match &context.branch {
            Some(b) => if is_listed(&config.publish_branches, b.as_str()) {
                Ok(Decision::Publish { ref_name: b.clone(), origin: origin.clone() })
            } else {
                Ok(Decision::Skip(SkipReason::NotConfigured))
            },
            None => Err(PublishError::NoRefDetermined),
        }
    }
}

/// An untrusted build is skipped, whatever its branch, tag and configuration.
pub proof fn lemma_untrusted_is_skipped(c: ContextModel, branches: Seq<Seq<char>>, publish_tags: bool)
    requires
        c.untrusted,
    ensures
        decision_of(c, branches, publish_tags) == Ok::<DecisionModel, PublishError>(DecisionModel::Skip(SkipReason::Untrusted)),
{
}

/// With tags published, a tag build is published under its tag, whatever the branch; with
/// tags not published, a tag build whose branch is not configured is skipped.
pub proof fn lemma_tag_precedence(c: ContextModel, branches: Seq<Seq<char>>, publish_tags: bool)
    requires
        !c.untrusted,
        c.tag is Some,
        c.origin is Some,
    ensures
        publish_tags ==> decision_of(c, branches, publish_tags) == Ok::<DecisionModel, PublishError>(
            DecisionModel::Publish { ref_name: c.tag->0, origin: c.origin->0 }),
        (!publish_tags && c.branch is Some && !branches.contains(c.branch->0)) ==> decision_of(c, branches, publish_tags)
            == Ok::<DecisionModel, PublishError>(DecisionModel::Skip(SkipReason::NotConfigured)),
{
}

} // verus!
