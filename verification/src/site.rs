//! The whole site, from the source directory to the index page.
//!
//! As for a post, each stage is a value with one method that takes what the
//! file system gave and returns the next step. A failure before the posts
//! ends the build; a post that fails does not.

use crate::config::{
    is_load_message, load_config, toml_document, ConfigError, ConfigValue, Configuration,
};
use crate::index::{build_index, listing_html, newest_first, PostRecord};
use crate::post::{follows_probe, PostBuildError, PostStep, Probing};
use vstd::prelude::*;

verus! {

/// Why the site could not be built.
#[derive(Debug)]
pub enum SiteBuildError {
    /// The site's configuration could not be read or is no valid TOML.
    CannotLoadConfig(String),
    /// The template could not be read.
    CannotLoadPrelude(String),
    /// The directory of the posts does not exist.
    CannotLoadPosts(String),
    /// The file system failed.
    GeneralIOError(String),
    /// The site's configuration lacks this key.
    MissingRequiredKey(String),
}

/// A build whose output directory is being created.
pub struct CreatingRoot {}

/// A build whose site configuration is being read.
pub struct LoadingSite {}

/// A build whose site resources are being mirrored.
pub struct MirroringResources {
    pub config: Configuration,
}

/// A build whose template is being read.
pub struct LoadingPrelude {
    pub config: Configuration,
}

/// A build whose post directories are being listed.
pub struct ListingPosts {
    pub config: Configuration,
    pub prelude: String,
}

/// A build that goes through its post directories. `posts` are their base
/// names in the order of the listing, `next` is the index of the one at
/// work, and `records` are those of the posts done so far. Where the listing
/// broke off, `interrupted` holds why.
pub struct BuildingPosts {
    pub config: Configuration,
    pub prelude: String,
    pub posts: Vec<String>,
    pub next: usize,
    pub records: Vec<PostRecord>,
    pub interrupted: Option<String>,
}

/// A build whose index page is being written.
pub struct WritingIndex {}

/// What the listing of the posts' directory gave.
pub enum PostsListing {
    /// The directory does not exist.
    Missing,
    /// The directory could not be listed.
    Unreadable(String),
    /// The base names of its subdirectories.
    Found(Vec<String>),
    /// The base names of the subdirectories that were found before an entry
    /// could not be read, and why it could not.
    Interrupted(Vec<String>, String),
}

/// What to do next for the site, with the stage that takes the outcome.
pub enum SiteStep {
    /// Create the output directory.
    CreateOutputRoot(CreatingRoot),
    /// Read `site.toml`.
    ReadSiteConfig(LoadingSite),
    /// Mirror the site's `res` directory to the output, if there is one.
    MirrorResources(MirroringResources),
    /// Read `prelude.html`.
    ReadPrelude(LoadingPrelude),
    /// List the subdirectories of `posts`.
    ListPosts(ListingPosts),
    /// Work on the post directory `posts[next]` of the stage.
    ProcessPost(BuildingPosts),
    /// Tell the operator that the post failed, then go on.
    ReportFailure(BuildingPosts, PostBuildError),
    /// Write the page to `index.html` in the output directory.
    WriteIndex(WritingIndex, String),
    /// Nothing: the build is done.
    Done(Result<(), SiteBuildError>),
}

/// The step that follows the loading of the site's configuration, where
/// `config` is the configuration, or nothing if it could not be loaded.
pub open spec fn follows_site_config(
    step: SiteStep,
    config: Option<Map<Seq<char>, ConfigValue>>,
) -> bool {
    match config {
        None => step matches SiteStep::Done(Err(SiteBuildError::CannotLoadConfig(_))),
        Some(c) => if !c.contains_key("Site"@) {
            step matches SiteStep::Done(Err(SiteBuildError::MissingRequiredKey(k))) && k@
                == "Site"@
        } else {
            step matches SiteStep::MirrorResources(next) && next.config@ == c
        },
    }
}

/// The step with which a build goes on once the post at work is done: the
/// next post directory, or the index page when none is left. Where the
/// listing broke off, the build fails in place of the index page.
pub open spec fn continues(step: SiteStep, stage: BuildingPosts) -> bool {
    if stage.next < stage.posts@.len() {
        step == SiteStep::ProcessPost(stage)
    } else {
        match stage.interrupted {
            Some(m) => step == SiteStep::Done(Err(SiteBuildError::GeneralIOError(m))),
            None => step matches SiteStep::WriteIndex(_, page) && page@ == listing_html(
                newest_first(stage.records@),
            ),
        }
    }
}

/// The records among `outcomes`, in their order: what a run of posts leaves
/// for the index.
pub open spec fn kept(outcomes: Seq<Result<PostRecord, PostBuildError>>) -> Seq<PostRecord>
    decreases outcomes.len(),
{
    if outcomes.len() == 0 {
        Seq::empty()
    } else {
        match outcomes.last() {
            Ok(record) => kept(outcomes.drop_last()).push(record),
            Err(_) => kept(outcomes.drop_last()),
        }
    }
}

/// Whether the operator is to be told of `outcome`: of every failure but
/// that of a directory that is no post.
pub open spec fn is_reported(outcome: Result<PostRecord, PostBuildError>) -> bool {
    outcome is Err && !(outcome->Err_0 is PostFilesMissing)
}

/// What is kept of two runs of posts is what is kept of the first, then
/// what is kept of the second.
pub proof fn lemma_kept_of_runs(
    before: Seq<Result<PostRecord, PostBuildError>>,
    after: Seq<Result<PostRecord, PostBuildError>>,
)
    ensures
        kept(before + after) == kept(before) + kept(after),
    decreases after.len(),
{
    if after.len() == 0 {
        assert(before + after =~= before);
    } else {
        lemma_kept_of_runs(before, after.drop_last());
        assert((before + after).drop_last() =~= before + after.drop_last());
    }
}

/// Failure isolation: a post that fails leaves no record, and takes none
/// from the posts before and after it.
pub proof fn lemma_failed_post_costs_nothing(
    before: Seq<Result<PostRecord, PostBuildError>>,
    error: PostBuildError,
    after: Seq<Result<PostRecord, PostBuildError>>,
)
    ensures
        kept(before.push(Err(error)) + after) == kept(before) + kept(after),
{
    lemma_kept_of_runs(before.push(Err(error)), after);
    assert(before.push(Err(error)).drop_last() =~= before);
}

/// A post directory without its content file, or without its configuration
/// file, ends at the probe with no record. Its outcome is not reported and
/// leaves nothing in the index, and the outcomes of the directories before
/// and after it are kept as if it had not been there.
pub proof fn lemma_incomplete_directory_is_passed_over(
    stage: Probing,
    has_config: bool,
    has_content: bool,
    before: Seq<Result<PostRecord, PostBuildError>>,
    after: Seq<Result<PostRecord, PostBuildError>>,
)
    requires
        !has_config || !has_content,
    ensures
        follows_probe(stage, has_config, has_content) matches PostStep::Done(outcome)
            && outcome is Err && !is_reported(outcome) && kept(before.push(outcome) + after)
            == kept(before) + kept(after),
{
    lemma_failed_post_costs_nothing(before, PostBuildError::PostFilesMissing, after);
}

/// Begins the build of a site.
pub fn build_site() -> (step: SiteStep)
    ensures
        step == SiteStep::CreateOutputRoot(CreatingRoot {  }),
{
    SiteStep::CreateOutputRoot(CreatingRoot {  })
}

impl CreatingRoot {
    /// Takes the outcome of creating the output directory.
    pub fn root_created(self, outcome: Result<(), String>) -> (step: SiteStep)
        ensures
            step == match outcome {
                Ok(_) => SiteStep::ReadSiteConfig(LoadingSite {  }),
                Err(m) => SiteStep::Done(Err(SiteBuildError::GeneralIOError(m))),
            },
    {
        match outcome {
            Ok(_) => SiteStep::ReadSiteConfig(LoadingSite {  }),
            Err(m) => SiteStep::Done(Err(SiteBuildError::GeneralIOError(m))),
        }
    }
}

impl LoadingSite {
    /// Takes what reading the site's configuration file gave: its text, or
    /// the reader's message. The build goes on where the text is valid TOML
    /// with the key `Site`.
    pub fn config_read(self, contents: Result<String, String>) -> (step: SiteStep)
        ensures
            follows_site_config(
                step,
                match contents {
                    Ok(text) => toml_document(text@),
                    Err(_) => None,
                },
            ),
            step matches SiteStep::Done(Err(SiteBuildError::CannotLoadConfig(m)))
                ==> is_load_message(m@, contents),
    {
        let loaded = load_config(contents);
        self.config_loaded(loaded)
    }

    /// Takes the loaded configuration, or why it could not be loaded. The
    /// build goes on where it has the key `Site`.
    pub fn config_loaded(self, loaded: Result<Configuration, ConfigError>) -> (step: SiteStep)
        ensures
            follows_site_config(
                step,
                match loaded {
                    Ok(c) => Some(c@),
                    Err(_) => None,
                },
            ),
            loaded matches Err(e) ==> step matches SiteStep::Done(
                Err(SiteBuildError::CannotLoadConfig(m)),
            ) && m@ == e.message(),
    {
        match loaded {
            Err(e) => SiteStep::Done(Err(SiteBuildError::CannotLoadConfig(e.into_message()))),
            Ok(config) => {
                if config.contains_key("Site") {
                    SiteStep::MirrorResources(MirroringResources { config })
                } else {
                    SiteStep::Done(Err(SiteBuildError::MissingRequiredKey("Site".to_owned())))
                }
            },
        }
    }
}

impl MirroringResources {
    /// Takes the outcome of mirroring the site's resources.
    pub fn resources_mirrored(self, outcome: Result<(), String>) -> (step: SiteStep)
        ensures
            step == match outcome {
                Ok(_) => SiteStep::ReadPrelude(LoadingPrelude { config: self.config }),
                Err(m) => SiteStep::Done(Err(SiteBuildError::GeneralIOError(m))),
            },
    {
        match outcome {
            Ok(_) => SiteStep::ReadPrelude(LoadingPrelude { config: self.config }),
            Err(m) => SiteStep::Done(Err(SiteBuildError::GeneralIOError(m))),
        }
    }
}

impl LoadingPrelude {
    /// Takes what reading the template gave: its text, or the reader's
    /// message. Without the template no post can be built.
    pub fn prelude_read(self, contents: Result<String, String>) -> (step: SiteStep)
        ensures
            step == match contents {
                Ok(prelude) => SiteStep::ListPosts(ListingPosts { config: self.config, prelude }),
                Err(m) => SiteStep::Done(Err(SiteBuildError::CannotLoadPrelude(m))),
            },
    {
        match contents {
            Ok(prelude) => SiteStep::ListPosts(ListingPosts { config: self.config, prelude }),
            Err(m) => SiteStep::Done(Err(SiteBuildError::CannotLoadPrelude(m))),
        }
    }
}

impl ListingPosts {
    /// Takes the listing of the posts' directory. The build goes through the
    /// directories in the order of the listing. Where the listing broke off,
    /// the directories found before that are worked on, and then the build
    /// fails.
    pub fn posts_listed(self, listing: PostsListing) -> (step: SiteStep)
        ensures
            match listing {
                PostsListing::Missing => step matches SiteStep::Done(
                    Err(SiteBuildError::CannotLoadPosts(m)),
                ) && m@ == "Posts directory does not exist"@,
                PostsListing::Unreadable(m) => step == SiteStep::Done(
                    Err(SiteBuildError::GeneralIOError(m)),
                ),
                PostsListing::Found(posts) => exists|records: Vec<PostRecord>|
                    records@.len() == 0 && #[trigger] continues(
                        step,
                        BuildingPosts {
                            config: self.config,
                            prelude: self.prelude,
                            posts,
                            next: 0,
                            records,
                            interrupted: None,
                        },
                    ),
                PostsListing::Interrupted(posts, m) => exists|records: Vec<PostRecord>|
                    records@.len() == 0 && #[trigger] continues(
                        step,
                        BuildingPosts {
                            config: self.config,
                            prelude: self.prelude,
                            posts,
                            next: 0,
                            records,
                            interrupted: Some(m),
                        },
                    ),
            },
    {
        match listing {
            PostsListing::Missing => SiteStep::Done(
                Err(SiteBuildError::CannotLoadPosts("Posts directory does not exist".to_owned())),
            ),
            PostsListing::Unreadable(m) => SiteStep::Done(Err(SiteBuildError::GeneralIOError(m))),
            PostsListing::Found(posts) => {
                let stage = BuildingPosts {
                    config: self.config,
                    prelude: self.prelude,
                    posts,
                    next: 0,
                    records: Vec::new(),
                    interrupted: None,
                };
                stage.proceed()
            },
            PostsListing::Interrupted(posts, m) => {
                let stage = BuildingPosts {
                    config: self.config,
                    prelude: self.prelude,
                    posts,
                    next: 0,
                    records: Vec::new(),
                    interrupted: Some(m),
                };
                stage.proceed()
            },
        }
    }
}

impl BuildingPosts {
    /// `next` is the stage with the post at work done and `records` in
    /// place of its records.
    pub open spec fn advanced(self, records: Seq<PostRecord>, next: BuildingPosts) -> bool {
        next.config == self.config && next.prelude == self.prelude && next.posts == self.posts
            && next.interrupted == self.interrupted && next.records@ == records && next.next == if self.next < self.posts@.len() {
            self.next + 1
        } else {
            self.next as int
        }
    }

    /// The next post directory, or the end of the build when none is left.
    fn proceed(self) -> (step: SiteStep)
        ensures
            continues(step, self),
    {
        if self.next < self.posts.len() {
            SiteStep::ProcessPost(self)
        } else {
            match self.interrupted {
                Some(m) => SiteStep::Done(Err(SiteBuildError::GeneralIOError(m))),
                None => SiteStep::WriteIndex(WritingIndex {  }, build_index(self.records)),
            }
        }
    }

    /// Takes what the work on the post directory `posts[next]` gave. A
    /// record is kept. A directory that is no post is passed over without a
    /// word. Any other failure is to be reported, and costs the index
    /// nothing but that post: the build goes on with the next directory.
    pub fn post_finished(self, outcome: Result<PostRecord, PostBuildError>) -> (step: SiteStep)
        ensures
            if is_reported(outcome) {
                step matches SiteStep::ReportFailure(next, reported) && reported == outcome->Err_0
                    && self.advanced(self.records@ + kept(seq![outcome]), next)
            } else {
                exists|next: BuildingPosts|
                    self.advanced(self.records@ + kept(seq![outcome]), next) && #[trigger] continues(
                        step,
                        next,
                    )
            },
    {
        let mut stage = self;
        if stage.next < stage.posts.len() {
            stage.next = stage.next + 1;
        }
        let ghost left = self.records@ + kept(seq![outcome]);
        proof {
            reveal_with_fuel(kept, 2);
            assert(seq![outcome].drop_last() =~= Seq::empty());
        }
        match outcome {
            Ok(record) => {
                stage.records.push(record);
                proof {
                    assert(stage.records@ =~= left);
                }
                stage.proceed()
            },
            Err(PostBuildError::PostFilesMissing) => {
                proof {
                    assert(stage.records@ =~= left);
                }
                stage.proceed()
            },
            Err(e) => {
                proof {
                    assert(stage.records@ =~= left);
                }
                SiteStep::ReportFailure(stage, e)
            },
        }
    }

    /// Goes on after a failed post has been reported.
    pub fn failure_reported(self) -> (step: SiteStep)
        ensures
            continues(step, self),
    {
        self.proceed()
    }
}

impl WritingIndex {
    /// Takes the outcome of writing the index page.
    pub fn index_written(self, outcome: Result<(), String>) -> (step: SiteStep)
        ensures
            step == match outcome {
                Ok(_) => SiteStep::Done(Ok(())),
                Err(m) => SiteStep::Done(Err(SiteBuildError::GeneralIOError(m))),
            },
    {
        match outcome {
            Ok(_) => SiteStep::Done(Ok(())),
            Err(m) => SiteStep::Done(Err(SiteBuildError::GeneralIOError(m))),
        }
    }
}

} // verus!
