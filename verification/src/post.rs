//! One post, from its directory to its record.
//!
//! The work on a post alternates between the file system and decisions. The
//! decisions are here: each stage is a value, and each stage has one method
//! that takes what the file system gave and returns the next step. The caller
//! does what a step asks for and hands the outcome to the stage inside it.

use crate::clock::{display_time, is_time_text, now_seconds};
use crate::config::{
    is_load_message, load_config, toml_document, ConfigError, ConfigValue, Configuration,
};
use crate::index::PostRecord;
use crate::markdown::{markdown_html, to_html};
use crate::staleness::{is_up_to_date, newest_modification_time, FileTree, Timestamp};
use crate::template::{
    content_token, date_token, has_no_opening, lemma_content_then_title,
    lemma_unresolved_tag_fails, lookup, prepared, process_template, resolved, scan_tags, tag_name,
    TemplateError,
};
use crate::text::{contains, replace_all};
use vstd::prelude::*;

verus! {

/// Why a post gave no record.
#[derive(Debug)]
pub enum PostBuildError {
    /// The directory lacks the configuration file or the content file: it is
    /// no post. This is no failure.
    PostFilesMissing,
    /// The configuration file could not be read or is no valid TOML.
    ConfigLoadError(String),
    /// The configuration lacks this key.
    MissingRequiredKey(String),
    /// The content file could not be read.
    ContentReadError(String),
    /// The template names a key that no configuration has.
    TemplateBuildError(TemplateError),
    /// The file system failed while the post was scanned or written.
    GeneralIOError(String),
}

/// A post directory that has not been looked at.
pub struct Probing {
    pub name: String,
}

/// A post whose configuration file is being read.
pub struct LoadingConfig {
    pub name: String,
}

/// A post with a valid configuration, whose content file is being read.
pub struct ReadingContent {
    pub name: String,
    pub config: Configuration,
    pub title: String,
    pub description: String,
}

/// A post with its content rendered, whose source and output are being
/// scanned for their newest files.
pub struct Scanning {
    pub name: String,
    pub config: Configuration,
    pub title: String,
    pub description: String,
    pub html: String,
}

/// A stale post, whose output directory is being created.
pub struct CreatingDirectory {
    pub name: String,
    pub config: Configuration,
    pub title: String,
    pub description: String,
    pub html: String,
}

/// A post whose page is being written and whose resources are being
/// mirrored.
pub struct Publishing {
    pub name: String,
    pub title: String,
    pub description: String,
}

/// What to do next for a post, with the stage that takes the outcome.
pub enum PostStep {
    /// Find out whether `post.toml` and `content.md` exist.
    ProbeFiles(Probing),
    /// Read `post.toml`.
    ReadConfig(LoadingConfig),
    /// Read `content.md`.
    ReadContent(ReadingContent),
    /// Scan the post's source directory and its output directory.
    ScanTrees(Scanning),
    /// Create the post's output directory.
    CreateDirectory(CreatingDirectory),
    /// Write the page to `index.html` in the output directory, then mirror
    /// the post's `res` directory there if it has one.
    Publish(Publishing, String),
    /// Nothing: the post is done.
    Done(Result<PostRecord, PostBuildError>),
}

/// The step that follows the loading of a post's configuration, where
/// `config` is the configuration, or nothing if it could not be loaded.
pub open spec fn follows_config(
    step: PostStep,
    stage: LoadingConfig,
    config: Option<Map<Seq<char>, ConfigValue>>,
) -> bool {
    match config {
        None => step matches PostStep::Done(Err(PostBuildError::ConfigLoadError(_))),
        Some(c) => if !c.contains_key("Title"@) {
            step matches PostStep::Done(Err(PostBuildError::MissingRequiredKey(k))) && k@
                == "Title"@
        } else if !c.contains_key("Description"@) {
            step matches PostStep::Done(Err(PostBuildError::MissingRequiredKey(k))) && k@
                == "Description"@
        } else {
            step matches PostStep::ReadContent(next) && next.name == stage.name && next.config@
                == c && next.title@ == c["Title"@].text() && next.description@
                == c["Description"@].text()
        },
    }
}

/// The step that follows the resolution of the template with outcome
/// `outcome`: the page is published, or the post fails with the key that
/// could not be resolved. Nothing is published of a template that failed.
pub open spec fn follows_template(
    step: PostStep,
    stage: CreatingDirectory,
    outcome: Result<Seq<char>, Seq<char>>,
) -> bool {
    match outcome {
        Ok(page) => step matches PostStep::Publish(next, text) && text@ == page && next.name
            == stage.name && next.title == stage.title && next.description == stage.description,
        Err(key) => step matches PostStep::Done(Err(PostBuildError::TemplateBuildError(e)))
            && e.key() == key,
    }
}

/// A template with a placeholder whose key no configuration has gives no
/// page to publish: the post ends there with the error that names the first
/// such key, and nothing of it is written.
pub proof fn lemma_unresolved_template_publishes_nothing(
    step: PostStep,
    stage: CreatingDirectory,
    prelude: Seq<char>,
    site: Map<Seq<char>, ConfigValue>,
    date: Seq<char>,
    i: int,
)
    requires
        follows_template(step, stage, resolved(prelude, stage.config@, site, stage.html@, date)),
        0 <= i < scan_tags(prepared(prelude, stage.html@, date), 0).len(),
        lookup(
            stage.config@,
            site,
            tag_name(scan_tags(prepared(prelude, stage.html@, date), 0)[i]),
        ) is None,
    ensures
        !(step is Publish),
        step matches PostStep::Done(Err(PostBuildError::TemplateBuildError(e)))
            && resolved(prelude, stage.config@, site, stage.html@, date) == Err::<
            Seq<char>,
            Seq<char>,
        >(e.key()),
{
    lemma_unresolved_tag_fails(prelude, stage.config@, site, stage.html@, date);
}

/// The step that follows the probe of a post directory: a directory that
/// lacks the configuration file or the content file is no post.
pub open spec fn follows_probe(stage: Probing, has_config: bool, has_content: bool) -> PostStep {
    if has_config && has_content {
        PostStep::ReadConfig(LoadingConfig { name: stage.name })
    } else {
        PostStep::Done(Err(PostBuildError::PostFilesMissing))
    }
}

/// Begins the work on the post directory with base name `name`.
pub fn process_post(name: String) -> (step: PostStep)
    ensures
        step == PostStep::ProbeFiles(Probing { name }),
{
    PostStep::ProbeFiles(Probing { name })
}

impl Probing {
    /// Takes whether the configuration file and the content file exist. A
    /// directory that lacks either is no post.
    pub fn probed(self, has_config: bool, has_content: bool) -> (step: PostStep)
        ensures
            step == follows_probe(self, has_config, has_content),
    {
        if has_config && has_content {
            PostStep::ReadConfig(LoadingConfig { name: self.name })
        } else {
            PostStep::Done(Err(PostBuildError::PostFilesMissing))
        }
    }
}

impl LoadingConfig {
    /// Takes what reading the configuration file gave: its text, or the
    /// reader's message. The post goes on where the text is valid TOML with
    /// the keys `Title` and `Description`.
    pub fn config_read(self, contents: Result<String, String>) -> (step: PostStep)
        ensures
            follows_config(
                step,
                self,
                match contents {
                    Ok(text) => toml_document(text@),
                    Err(_) => None,
                },
            ),
            step matches PostStep::Done(Err(PostBuildError::ConfigLoadError(m)))
                ==> is_load_message(m@, contents),
    {
        let loaded = load_config(contents);
        self.config_loaded(loaded)
    }

    /// Takes the loaded configuration, or why it could not be loaded. The
    /// post goes on where it has the keys `Title` and `Description`; the
    /// first of the two that is absent is reported.
    pub fn config_loaded(self, loaded: Result<Configuration, ConfigError>) -> (step: PostStep)
        ensures
            follows_config(
                step,
                self,
                match loaded {
                    Ok(c) => Some(c@),
                    Err(_) => None,
                },
            ),
            loaded matches Err(e) ==> step matches PostStep::Done(
                Err(PostBuildError::ConfigLoadError(m)),
            ) && m@ == e.message(),
    {
        match loaded {
            Err(e) => PostStep::Done(Err(PostBuildError::ConfigLoadError(e.into_message()))),
            Ok(config) => {
                let title = match config.get("Title") {
                    Some(v) => v.to_text(),
                    None => {
                        return PostStep::Done(
                            Err(PostBuildError::MissingRequiredKey("Title".to_owned())),
                        );
                    },
                };
                let description = match config.get("Description") {
                    Some(v) => v.to_text(),
                    None => {
                        return PostStep::Done(
                            Err(PostBuildError::MissingRequiredKey("Description".to_owned())),
                        );
                    },
                };
                PostStep::ReadContent(
                    ReadingContent { name: self.name, config, title, description },
                )
            },
        }
    }
}

/// The step that follows the reading of a post's content file.
pub open spec fn follows_content(
    step: PostStep,
    stage: ReadingContent,
    contents: Result<String, String>,
) -> bool {
    match contents {
        Ok(text) => step matches PostStep::ScanTrees(next) && next.name == stage.name
            && next.config == stage.config && next.title == stage.title && next.description
            == stage.description && next.html@ == markdown_html(text@),
        Err(m) => step == PostStep::Done(Err(PostBuildError::ContentReadError(m))),
    }
}

impl ReadingContent {
    /// Takes what reading the content file gave: its Markdown text, or the
    /// reader's message. The text is rendered to HTML.
    pub fn content_read(self, contents: Result<String, String>) -> (step: PostStep)
        ensures
            follows_content(step, self, contents),
    {
        match contents {
            Ok(text) => {
                let html = to_html(text.as_str());
                PostStep::ScanTrees(
                    Scanning {
                        name: self.name,
                        config: self.config,
                        title: self.title,
                        description: self.description,
                        html,
                    },
                )
            },
            Err(m) => PostStep::Done(Err(PostBuildError::ContentReadError(m))),
        }
    }
}

/// The newest time under what a scan of the output directory gave; a scan
/// that failed counts as an empty directory.
pub open spec fn output_time(output: Result<FileTree, String>) -> Timestamp {
    match output {
        Ok(tree) => tree.newest(),
        Err(_) => Timestamp::spec_epoch(),
    }
}

/// The step that follows the scans of a post's source directory and of its
/// output directory.
pub open spec fn follows_scan(
    step: PostStep,
    stage: Scanning,
    source: Result<FileTree, String>,
    output: Result<FileTree, String>,
) -> bool {
    match source {
        Err(m) => step == PostStep::Done(Err(PostBuildError::GeneralIOError(m))),
        Ok(tree) => if output_time(output).spec_is_after(&tree.newest()) {
            step matches PostStep::Done(Ok(record)) && record.name == stage.name && record.title
                == stage.title && record.description == stage.description && record.timestamp
                == output_time(output).secs && is_time_text(
                record.timestamp_display@,
                record.timestamp as int,
            )
        } else {
            step == PostStep::CreateDirectory(
                CreatingDirectory {
                    name: stage.name,
                    config: stage.config,
                    title: stage.title,
                    description: stage.description,
                    html: stage.html,
                },
            )
        },
    }
}

/// A post is skipped exactly when its output holds a file that is strictly
/// newer than every file of its source. A skipped post is done with the scan:
/// no directory is created and no page is written for it, so what was built
/// before stays as it is. A post whose source holds a file as new as the
/// newest of its output, or newer, is built again.
pub proof fn lemma_skipped_iff_output_newer(
    step: PostStep,
    stage: Scanning,
    source: FileTree,
    output: FileTree,
)
    requires
        follows_scan(step, stage, Ok(source), Ok(output)),
    ensures
        step is Done <==> output.newest().spec_is_after(&source.newest()),
        step is Done ==> step->Done_0 is Ok && output.has_file_time(output.newest()) && forall|
            t: Timestamp,
        |
            source.has_file_time(t) ==> output.newest().spec_is_after(&t),
        !(step is Done) ==> step is CreateDirectory,
{
    crate::staleness::lemma_newest_is_attained(output);
    crate::staleness::lemma_newest_is_attained(source);
    if step is Done {
        assert forall|t: Timestamp| source.has_file_time(t) implies output.newest().spec_is_after(
            &t,
        ) by {
            crate::staleness::lemma_newest_is_upper_bound(source, t);
        }
    }
}

/// The page of a post as it stands on disk once `step` has been carried
/// out, where `page` stood there before: only a step that publishes writes
/// the page.
pub open spec fn page_after(page: Seq<char>, step: PostStep) -> Seq<char> {
    match step {
        PostStep::Publish(_, text) => text@,
        _ => page,
    }
}

/// `probed`, `configured`, `rendered` and `scanned` are the steps of the work
/// on a post directory that holds both files, from the probe to the scan,
/// where the files hold `config` and `content` and the scans give `source`
/// and `output`.
pub open spec fn is_run_to_scan(
    stage: Probing,
    config: String,
    content: String,
    source: FileTree,
    output: FileTree,
    probed: PostStep,
    configured: PostStep,
    rendered: PostStep,
    scanned: PostStep,
) -> bool {
    &&& probed == follows_probe(stage, true, true)
    &&& probed matches PostStep::ReadConfig(loading) && follows_config(
        configured,
        loading,
        toml_document(config@),
    )
    &&& configured matches PostStep::ReadContent(reading) ==> follows_content(
        rendered,
        reading,
        Ok(content),
    )
    &&& rendered matches PostStep::ScanTrees(scanning) ==> follows_scan(
        scanned,
        scanning,
        Ok(source),
        Ok(output),
    )
}

/// Building again changes nothing: a post whose configuration is valid and
/// whose output is strictly newer than its source, as a build leaves it, is
/// done at the scan with a record of its own. No step on the way publishes,
/// so the page on disk stays as it was, character for character.
pub proof fn lemma_building_again_keeps_the_page(
    page: Seq<char>,
    stage: Probing,
    config: String,
    content: String,
    source: FileTree,
    output: FileTree,
    probed: PostStep,
    configured: PostStep,
    rendered: PostStep,
    scanned: PostStep,
)
    requires
        is_run_to_scan(
            stage,
            config,
            content,
            source,
            output,
            probed,
            configured,
            rendered,
            scanned,
        ),
        toml_document(config@) matches Some(c) && c.contains_key("Title"@) && c.contains_key(
            "Description"@,
        ),
        output.newest().spec_is_after(&source.newest()),
    ensures
        page_after(page_after(page_after(page_after(page, probed), configured), rendered), scanned)
            == page,
        scanned matches PostStep::Done(Ok(record)) && record.name == stage.name && record.title@
            == toml_document(config@)->0["Title"@].text() && record.description@ == toml_document(
            config@,
        )->0["Description"@].text() && record.timestamp == output.newest().secs,
{
}

/// From the files to the page: a post whose configuration is valid, and
/// which is stale, is published under the template that holds the
/// placeholder for the content and, straight behind it, the placeholder for
/// the title. Its page is then the HTML of its content followed at once by
/// the text of its title, with nothing between and nothing after. This holds
/// of every content whose HTML holds no opening of a placeholder.
pub proof fn lemma_page_is_content_then_title(
    stage: Probing,
    config: String,
    content: String,
    source: FileTree,
    output: FileTree,
    site: Map<Seq<char>, ConfigValue>,
    date: Seq<char>,
    probed: PostStep,
    configured: PostStep,
    rendered: PostStep,
    scanned: PostStep,
    resolved_step: PostStep,
)
    requires
        is_run_to_scan(
            stage,
            config,
            content,
            source,
            output,
            probed,
            configured,
            rendered,
            scanned,
        ),
        toml_document(config@) matches Some(c) && c.contains_key("Title"@) && c.contains_key(
            "Description"@,
        ),
        !output.newest().spec_is_after(&source.newest()),
        has_no_opening(markdown_html(content@)),
        scanned matches PostStep::CreateDirectory(creating) ==> follows_template(
            resolved_step,
            creating,
            resolved(
                "<GoupiContent/><GoupiTitle/>"@,
                creating.config@,
                site,
                creating.html@,
                date,
            ),
        ),
    ensures
        resolved_step matches PostStep::Publish(_, page) && page@ == markdown_html(content@)
            + toml_document(config@)->0["Title"@].text(),
{
    let c = toml_document(config@)->0;
    lemma_content_then_title(c, site, markdown_html(content@), date);
}

impl Scanning {
    /// Takes the scans of the post's source directory and of its output
    /// directory. The post is up to date where the newest file of the output
    /// is strictly newer than the newest file of the source: then nothing is
    /// rendered or written, and the record carries the output's time. In
    /// every other case, equal times among them, the post is built.
    pub fn scanned(self, source: Result<FileTree, String>, output: Result<FileTree, String>) -> (step:
        PostStep)
        ensures
            follows_scan(step, self, source, output),
    {
        let source_time = match source {
            Ok(tree) => newest_modification_time(&tree),
            Err(m) => {
                return PostStep::Done(Err(PostBuildError::GeneralIOError(m)));
            },
        };
        let built_time = match output {
            Ok(tree) => newest_modification_time(&tree),
            Err(_) => Timestamp::epoch(),
        };
        if is_up_to_date(source_time, built_time) {
            PostStep::Done(
                Ok(
                    PostRecord {
                        name: self.name,
                        title: self.title,
                        description: self.description,
                        timestamp: built_time.secs,
                        timestamp_display: display_time(built_time.secs),
                    },
                ),
            )
        } else {
            PostStep::CreateDirectory(
                CreatingDirectory {
                    name: self.name,
                    config: self.config,
                    title: self.title,
                    description: self.description,
                    html: self.html,
                },
            )
        }
    }
}

impl CreatingDirectory {
    /// Takes the outcome of creating the output directory, and resolves the
    /// template `prelude` with the post's HTML as content.
    pub fn directory_created(
        self,
        outcome: Result<(), String>,
        prelude: &str,
        site_config: &Configuration,
    ) -> (step: PostStep)
        ensures
            match outcome {
                Err(m) => step == PostStep::Done(Err(PostBuildError::GeneralIOError(m))),
                Ok(_) => {
                    &&& exists|date: Seq<char>, now: int|
                        #[trigger] is_time_text(date, now) && follows_template(
                            step,
                            self,
                            resolved(prelude@, self.config@, site_config@, self.html@, date),
                        )
                    &&& !contains(replace_all(prelude@, content_token(), self.html@), date_token())
                        ==> follows_template(
                        step,
                        self,
                        resolved(prelude@, self.config@, site_config@, self.html@, Seq::empty()),
                    )
                },
            },
    {
        match outcome {
            Err(m) => PostStep::Done(Err(PostBuildError::GeneralIOError(m))),
            Ok(_) => {
                let page = process_template(prelude, &self.config, site_config, self.html.as_str());
                self.template_resolved(page)
            },
        }
    }

    /// Takes the outcome of resolving the template: the page is published,
    /// or the post fails and nothing of it is written.
    pub fn template_resolved(self, page: Result<String, TemplateError>) -> (step: PostStep)
        ensures
            match page {
                Ok(text) => step == PostStep::Publish(
                    Publishing {
                        name: self.name,
                        title: self.title,
                        description: self.description,
                    },
                    text,
                ),
                Err(e) => step == PostStep::Done(Err(PostBuildError::TemplateBuildError(e))),
            },
    {
        match page {
            Ok(text) => PostStep::Publish(
                Publishing { name: self.name, title: self.title, description: self.description },
                text,
            ),
            Err(e) => PostStep::Done(Err(PostBuildError::TemplateBuildError(e))),
        }
    }
}

impl Publishing {
    /// Takes the outcome of writing the page and mirroring the resources.
    /// The record of a post that was built carries the time at which the
    /// build ended.
    pub fn published(self, outcome: Result<(), String>) -> (step: PostStep)
        ensures
            match outcome {
                Err(m) => step == PostStep::Done(Err(PostBuildError::GeneralIOError(m))),
                Ok(_) => step matches PostStep::Done(Ok(record)) && record.name == self.name
                    && record.title == self.title && record.description == self.description
                    && is_time_text(record.timestamp_display@, record.timestamp as int),
            },
    {
        match outcome {
            Err(m) => PostStep::Done(Err(PostBuildError::GeneralIOError(m))),
            Ok(_) => {
                let now = now_seconds();
                PostStep::Done(
                    Ok(
                        PostRecord {
                            name: self.name,
                            title: self.title,
                            description: self.description,
                            timestamp: now,
                            timestamp_display: display_time(now),
                        },
                    ),
                )
            },
        }
    }
}

} // verus!
