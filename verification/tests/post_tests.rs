use goupi::config::{ConfigError, ConfigValue, Configuration};
use goupi::post::{
    process_post, CreatingDirectory, LoadingConfig, PostBuildError, PostStep, Probing, Publishing,
    ReadingContent, Scanning,
};
use goupi::staleness::{FileTree, Timestamp};
use goupi::template::TemplateError;

const POST_TOML: &str = "Title = \"Hello\"\nDescription = \"World\"\n";

fn file(secs: i64) -> FileTree {
    FileTree::Directory(vec![FileTree::File(Some(Timestamp { secs, nanos: 0 }))])
}

fn site_config() -> Configuration {
    let mut c = Configuration::new();
    c.insert("Site".to_string(), ConfigValue::String("My site".to_string()));
    c
}

fn reading_content() -> ReadingContent {
    match process_post("hello".to_string()) {
        PostStep::ProbeFiles(stage) => match stage.probed(true, true) {
            PostStep::ReadConfig(stage) => match stage.config_read(Ok(POST_TOML.to_string())) {
                PostStep::ReadContent(stage) => stage,
                _ => panic!("the content was to be read"),
            },
            _ => panic!("the configuration was to be read"),
        },
        _ => panic!("the files were to be probed"),
    }
}

fn scanning(markdown: &str) -> Scanning {
    match reading_content().content_read(Ok(markdown.to_string())) {
        PostStep::ScanTrees(stage) => stage,
        _ => panic!("the trees were to be scanned"),
    }
}

fn creating_directory(markdown: &str) -> CreatingDirectory {
    match scanning(markdown).scanned(Ok(file(200)), Ok(FileTree::Missing)) {
        PostStep::CreateDirectory(stage) => stage,
        _ => panic!("the directory was to be created"),
    }
}

fn failure(step: PostStep) -> PostBuildError {
    match step {
        PostStep::Done(Err(e)) => e,
        _ => panic!("a failure was expected"),
    }
}

#[test]
fn work_on_a_post_begins_with_a_probe() {
    match process_post("hello".to_string()) {
        PostStep::ProbeFiles(stage) => assert_eq!(stage.name, "hello"),
        _ => panic!("the files were to be probed"),
    }
}

#[test]
fn directory_without_configuration_is_no_post() {
    let stage = Probing { name: "x".to_string() };
    assert!(matches!(failure(stage.probed(false, true)), PostBuildError::PostFilesMissing));
}

#[test]
fn directory_without_content_is_no_post() {
    let stage = Probing { name: "x".to_string() };
    assert!(matches!(failure(stage.probed(true, false)), PostBuildError::PostFilesMissing));
    let stage = Probing { name: "x".to_string() };
    assert!(matches!(failure(stage.probed(false, false)), PostBuildError::PostFilesMissing));
}

#[test]
fn directory_with_both_files_goes_on() {
    let stage = Probing { name: "x".to_string() };
    match stage.probed(true, true) {
        PostStep::ReadConfig(next) => assert_eq!(next.name, "x"),
        _ => panic!("the configuration was to be read"),
    }
}

#[test]
fn unreadable_configuration_fails_the_post() {
    let stage = LoadingConfig { name: "x".to_string() };
    match failure(stage.config_read(Err("permission denied".to_string()))) {
        PostBuildError::ConfigLoadError(m) => assert_eq!(m, "permission denied"),
        e => panic!("unexpected failure {:?}", e),
    }
}

#[test]
fn malformed_configuration_fails_the_post() {
    let stage = LoadingConfig { name: "x".to_string() };
    match failure(stage.config_read(Ok("Title = = 3".to_string()))) {
        PostBuildError::ConfigLoadError(m) => assert!(m.starts_with("Failed to parse TOML: ")),
        e => panic!("unexpected failure {:?}", e),
    }
    let stage = LoadingConfig { name: "x".to_string() };
    match failure(stage.config_loaded(Err(ConfigError::Malformed("why".to_string())))) {
        PostBuildError::ConfigLoadError(m) => assert_eq!(m, "Failed to parse TOML: why"),
        e => panic!("unexpected failure {:?}", e),
    }
}

#[test]
fn missing_title_is_reported() {
    let stage = LoadingConfig { name: "x".to_string() };
    match failure(stage.config_read(Ok("Description = \"World\"\n".to_string()))) {
        PostBuildError::MissingRequiredKey(k) => assert_eq!(k, "Title"),
        e => panic!("unexpected failure {:?}", e),
    }
}

#[test]
fn missing_description_is_reported() {
    let stage = LoadingConfig { name: "x".to_string() };
    match failure(stage.config_read(Ok("Title = \"Hello\"\n".to_string()))) {
        PostBuildError::MissingRequiredKey(k) => assert_eq!(k, "Description"),
        e => panic!("unexpected failure {:?}", e),
    }
}

#[test]
fn title_is_reported_first_when_both_keys_are_missing() {
    let stage = LoadingConfig { name: "x".to_string() };
    match failure(stage.config_read(Ok("Other = 1\n".to_string()))) {
        PostBuildError::MissingRequiredKey(k) => assert_eq!(k, "Title"),
        e => panic!("unexpected failure {:?}", e),
    }
}

#[test]
fn valid_configuration_gives_title_and_description() {
    let stage = reading_content();
    assert_eq!(stage.name, "hello");
    assert_eq!(stage.title, "Hello");
    assert_eq!(stage.description, "World");
    assert!(stage.config.contains_key("Title"));
}

#[test]
fn title_that_is_no_string_is_shown_in_its_string_form() {
    let stage = LoadingConfig { name: "x".to_string() };
    match stage.config_read(Ok("Title = 12\nDescription = [1]\n".to_string())) {
        PostStep::ReadContent(next) => {
            assert_eq!(next.title, "12");
            assert_eq!(next.description, "[array]");
        }
        _ => panic!("the content was to be read"),
    }
}

#[test]
fn unreadable_content_fails_the_post() {
    match failure(reading_content().content_read(Err("gone".to_string()))) {
        PostBuildError::ContentReadError(m) => assert_eq!(m, "gone"),
        e => panic!("unexpected failure {:?}", e),
    }
}

#[test]
fn content_is_rendered_to_html() {
    let stage = scanning("# Hi");
    assert_eq!(stage.html, "<h1>Hi</h1>");
    assert_eq!(stage.title, "Hello");
}

#[test]
fn raw_html_and_extensions_are_let_through() {
    assert_eq!(scanning("<div>\n\n# Hi\n\n</div>").html, "<div>\n<h1>Hi</h1>\n</div>");
    assert_eq!(scanning("~gone~").html, "<p><del>gone</del></p>");
    assert_eq!(
        scanning("[x](javascript:alert(1))").html,
        "<p><a href=\"javascript:alert(1)\">x</a></p>"
    );
}

#[test]
fn failed_scan_of_the_source_fails_the_post() {
    match failure(scanning("x").scanned(Err("unreadable".to_string()), Ok(file(5)))) {
        PostBuildError::GeneralIOError(m) => assert_eq!(m, "unreadable"),
        e => panic!("unexpected failure {:?}", e),
    }
}

#[test]
fn output_strictly_newer_than_source_is_skipped() {
    match scanning("# Hi").scanned(Ok(file(100)), Ok(file(101))) {
        PostStep::Done(Ok(record)) => {
            assert_eq!(record.name, "hello");
            assert_eq!(record.title, "Hello");
            assert_eq!(record.description, "World");
            assert_eq!(record.timestamp, 101);
            assert_eq!(record.timestamp_display.len(), 19);
        }
        _ => panic!("an up-to-date post must be skipped"),
    }
}

#[test]
fn skipped_record_carries_the_newest_output_time() {
    let output = FileTree::Directory(vec![
        FileTree::File(Some(Timestamp { secs: 150, nanos: 0 })),
        FileTree::Directory(vec![FileTree::File(Some(Timestamp { secs: 1_700_000_000, nanos: 5 }))]),
    ]);
    match scanning("x").scanned(Ok(file(100)), Ok(output)) {
        PostStep::Done(Ok(record)) => assert_eq!(record.timestamp, 1_700_000_000),
        _ => panic!("an up-to-date post must be skipped"),
    }
}

#[test]
fn skipped_record_shows_a_date_and_time() {
    match scanning("x").scanned(Ok(file(100)), Ok(file(1_700_000_000))) {
        PostStep::Done(Ok(record)) => {
            let shown: Vec<char> = record.timestamp_display.chars().collect();
            assert!(goupi::clock::has_date_time_form(&shown));
            assert!(record.timestamp_display.starts_with("2023-11-1"));
        }
        _ => panic!("an up-to-date post must be skipped"),
    }
}

#[test]
fn skipped_record_shows_the_seconds_where_the_calendar_ends() {
    match scanning("x").scanned(Ok(file(100)), Ok(file(i64::MAX))) {
        PostStep::Done(Ok(record)) => {
            assert_eq!(record.timestamp, i64::MAX);
            assert_eq!(record.timestamp_display, "9223372036854775807");
        }
        _ => panic!("an up-to-date post must be skipped"),
    }
}

#[test]
fn equal_times_force_a_rebuild() {
    assert!(matches!(
        scanning("x").scanned(Ok(file(100)), Ok(file(100))),
        PostStep::CreateDirectory(_)
    ));
}

#[test]
fn touched_source_forces_a_rebuild() {
    match scanning("# Hi").scanned(Ok(file(102)), Ok(file(101))) {
        PostStep::CreateDirectory(next) => {
            assert_eq!(next.name, "hello");
            assert_eq!(next.html, "<h1>Hi</h1>");
            assert_eq!(next.title, "Hello");
            assert_eq!(next.description, "World");
        }
        _ => panic!("a stale post must be built"),
    }
}

#[test]
fn missing_output_forces_a_build() {
    assert!(matches!(
        scanning("x").scanned(Ok(file(100)), Ok(FileTree::Missing)),
        PostStep::CreateDirectory(_)
    ));
}

#[test]
fn failed_scan_of_the_output_counts_as_no_output() {
    assert!(matches!(
        scanning("x").scanned(Ok(file(100)), Err("unreadable".to_string())),
        PostStep::CreateDirectory(_)
    ));
    assert!(matches!(
        scanning("x").scanned(Ok(FileTree::Missing), Err("unreadable".to_string())),
        PostStep::CreateDirectory(_)
    ));
}

#[test]
fn failure_to_create_the_directory_fails_the_post() {
    let step = creating_directory("x").directory_created(
        Err("read-only".to_string()),
        "<GoupiContent/>",
        &site_config(),
    );
    match failure(step) {
        PostBuildError::GeneralIOError(m) => assert_eq!(m, "read-only"),
        e => panic!("unexpected failure {:?}", e),
    }
}

#[test]
fn heading_is_followed_by_the_title() {
    let step = creating_directory("# Hi").directory_created(
        Ok(()),
        "<GoupiContent/><GoupiTitle/>",
        &site_config(),
    );
    match step {
        PostStep::Publish(next, page) => {
            assert_eq!(page, "<h1>Hi</h1>Hello");
            assert_eq!(next.name, "hello");
            assert_eq!(next.title, "Hello");
            assert_eq!(next.description, "World");
        }
        _ => panic!("the page was to be published"),
    }
}

#[test]
fn site_values_are_available_to_the_post() {
    let step = creating_directory("x").directory_created(
        Ok(()),
        "<GoupiSite/>|<GoupiDescription/>|<GoupiContent/>",
        &site_config(),
    );
    match step {
        PostStep::Publish(_, page) => assert_eq!(page, "My site|World|<p>x</p>"),
        _ => panic!("the page was to be published"),
    }
}

#[test]
fn unresolved_tag_fails_the_post_and_publishes_nothing() {
    let step = creating_directory("x").directory_created(
        Ok(()),
        "<GoupiContent/><GoupiNope/>",
        &site_config(),
    );
    match failure(step) {
        PostBuildError::TemplateBuildError(TemplateError::UnresolvedTag(k)) => assert_eq!(k, "Nope"),
        e => panic!("unexpected failure {:?}", e),
    }
}

#[test]
fn template_outcome_decides_the_step() {
    match creating_directory("x").template_resolved(Ok("page".to_string())) {
        PostStep::Publish(_, page) => assert_eq!(page, "page"),
        _ => panic!("the page was to be published"),
    }
    let step = creating_directory("x")
        .template_resolved(Err(TemplateError::UnresolvedTag("K".to_string())));
    assert!(matches!(failure(step), PostBuildError::TemplateBuildError(_)));
}

#[test]
fn failure_to_publish_fails_the_post() {
    let stage = Publishing {
        name: "n".to_string(),
        title: "t".to_string(),
        description: "d".to_string(),
    };
    match failure(stage.published(Err("disk full".to_string()))) {
        PostBuildError::GeneralIOError(m) => assert_eq!(m, "disk full"),
        e => panic!("unexpected failure {:?}", e),
    }
}

#[test]
fn built_post_is_recorded_with_the_current_time() {
    let stage = Publishing {
        name: "n".to_string(),
        title: "t".to_string(),
        description: "d".to_string(),
    };
    match stage.published(Ok(())) {
        PostStep::Done(Ok(record)) => {
            assert_eq!(record.name, "n");
            assert_eq!(record.title, "t");
            assert_eq!(record.description, "d");
            assert!(record.timestamp > 1_600_000_000);
            assert_eq!(record.timestamp_display.len(), 19);
            assert_eq!(&record.timestamp_display[4..5], "-");
            assert_eq!(&record.timestamp_display[13..14], ":");
        }
        _ => panic!("a record was expected"),
    }
}
