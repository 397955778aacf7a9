use image_export::document::{Canvas, Document, Frame, Node};
use image_export::format::{ImageFormat, Scale};
use image_export::matcher::SuggestionPolicy;
use image_export::outcome::{
    check_image_missing_error, container_missing_message, failure_message, missing_asset_message,
    ExportOutcome, ReportEvent, Stage,
};
use image_export::resolver::ExportError;
use image_export::run::{export_images, Action, ExportRun, Reply, Step};
use image_export::settings::ExportSettings;

fn text(s: &str) -> String {
    s.to_string()
}

fn names(list: &[&str]) -> Vec<String> {
    list.iter().map(|s| s.to_string()).collect()
}

fn document() -> Document {
    Document {
        canvases: vec![Canvas {
            name: text("Page 1"),
            frames: vec![Frame {
                name: text("Assets"),
                id: text("0:1"),
                children: Some(vec![
                    Node { name: text("ic_close"), id: text("1:1") },
                    Node { name: text("ic_close_v2"), id: text("1:2") },
                ]),
            }],
        }],
    }
}

fn settings(format: ImageFormat) -> ExportSettings {
    ExportSettings {
        file_id: text("FILE"),
        page_name: None,
        container_name: text("Assets"),
        res_dir: text("app/src/main/res"),
        scales: vec![
            Scale { label: text("mdpi"), factor_milli: 1000 },
            Scale { label: text("xhdpi"), factor_milli: 2000 },
        ],
        format,
        quality_milli: 85000,
        policy: SuggestionPolicy::standard(),
    }
}

fn start(list: &[&str], format: ImageFormat) -> ExportRun {
    export_images(&names(list), settings(format), &document()).unwrap()
}

fn done(value: &str) -> Reply {
    Reply::Done(text(value))
}

fn failed(cause: &str) -> Reply {
    Reply::Failed(text(cause))
}

/// Drives one task whose every stage answers, from the step that takes it
/// up to the step that ends it, and gives the file it was placed at.
fn export_one(run: &mut ExportRun, reencoded: bool) -> String {
    let step = run.advance(done(""));
    assert!(matches!(step.action, Action::RequestHandle { .. }));
    let step = run.advance(done("https://link"));
    assert!(matches!(step.action, Action::Download { .. }));
    let mut step = run.advance(done("/tmp/fetched"));
    if reencoded {
        assert!(matches!(step.action, Action::Reencode { .. }));
        step = run.advance(done("/tmp/encoded"));
    }
    assert!(matches!(step.action, Action::CreateDir { .. }));
    let step = run.advance(done(""));
    let to = match step.action {
        Action::MoveFile { to, .. } => to,
        other => panic!("{:?}", other),
    };
    let step = run.advance(done(""));
    assert_eq!(step.action, Action::Continue);
    to
}

#[test]
fn export_fails_when_the_container_is_not_found() {
    let mut wanted = settings(ImageFormat::Png);
    wanted.container_name = text("Icons");
    let res = export_images(&names(&["ic_close"]), wanted, &document());
    assert_eq!(res.err(), Some(ExportError::ContainerNotFound(text("Icons"))));
}

#[test]
fn export_fails_when_the_page_has_no_such_container() {
    let mut wanted = settings(ImageFormat::Png);
    wanted.page_name = Some(text("Page 2"));
    let res = export_images(&names(&["ic_close"]), wanted, &document());
    assert_eq!(res.err(), Some(ExportError::ContainerNotFound(text("Assets"))));
}

#[test]
fn a_new_run_has_its_plan_and_no_outcomes() {
    let run = start(&["ic_close", "ic_close_v2"], ImageFormat::Png);
    assert!(!run.is_finished());
    assert_eq!(run.tasks().len(), 4);
    assert_eq!(run.tasks()[1].name, "ic_close");
    assert_eq!(run.tasks()[1].scale_label, "xhdpi");
    assert_eq!(run.tasks()[2].name, "ic_close_v2");
    assert_eq!(run.outcomes().len(), 0);
    assert_eq!(run.index().len(), 2);
}

#[test]
fn raster_export_walks_through_every_stage() {
    let mut run = start(&["ic_close"], ImageFormat::Png);
    assert_eq!(run.tasks().len(), 2);

    let step = run.advance(done(""));
    assert_eq!(
        step,
        Step {
            events: vec![ReportEvent::FetchingAsset(text("ic_close"), text("mdpi"))],
            action: Action::RequestHandle {
                file_id: text("FILE"),
                node_id: text("1:1"),
                scale_factor_milli: 1000,
                format: ImageFormat::Png,
            },
        }
    );
    let step = run.advance(done("https://link/1"));
    assert_eq!(
        step,
        Step {
            events: vec![ReportEvent::DownloadingAsset(text("ic_close"), text("mdpi"))],
            action: Action::Download {
                url: text("https://link/1"),
                res_name: text("ic_close"),
                scale_label: text("mdpi"),
                format: ImageFormat::Png,
            },
        }
    );
    let step = run.advance(done("/tmp/a.png"));
    assert_eq!(
        step,
        Step {
            events: vec![],
            action: Action::CreateDir { dir: text("app/src/main/res/drawable-mdpi") },
        }
    );
    let step = run.advance(done(""));
    assert_eq!(
        step,
        Step {
            events: vec![],
            action: Action::MoveFile {
                from: text("/tmp/a.png"),
                to: text("app/src/main/res/drawable-mdpi/ic_close.png"),
            },
        }
    );
    let step = run.advance(done(""));
    assert_eq!(
        step,
        Step {
            events: vec![ReportEvent::AssetExported(text("ic_close"), text("mdpi"))],
            action: Action::Continue,
        }
    );
    assert_eq!(run.outcomes(), &vec![Some(ExportOutcome::Success)]);

    let step = run.advance(done(""));
    assert_eq!(
        step.action,
        Action::RequestHandle {
            file_id: text("FILE"),
            node_id: text("1:1"),
            scale_factor_milli: 2000,
            format: ImageFormat::Png,
        }
    );
    run.advance(done("https://link/2"));
    run.advance(done("/tmp/b.png"));
    let step = run.advance(done(""));
    assert_eq!(
        step.action,
        Action::MoveFile {
            from: text("/tmp/b.png"),
            to: text("app/src/main/res/drawable-xhdpi/ic_close.png"),
        }
    );
    run.advance(done(""));
    assert!(!run.is_finished());

    let step = run.advance(done(""));
    assert_eq!(step, Step { events: vec![ReportEvent::Done], action: Action::Stop });
    assert!(run.is_finished());
    assert_eq!(run.outcomes(), &vec![Some(ExportOutcome::Success), Some(ExportOutcome::Success)]);
}

#[test]
fn a_finished_run_stays_finished() {
    let mut run = start(&[], ImageFormat::Png);
    let step = run.advance(done(""));
    assert_eq!(step, Step { events: vec![ReportEvent::Done], action: Action::Stop });
    let step = run.advance(failed("late"));
    assert_eq!(step, Step { events: vec![], action: Action::Stop });
    assert!(run.is_finished());
    assert_eq!(run.outcomes().len(), 0);
}

#[test]
fn a_raster_run_without_scales_has_nothing_to_do() {
    let mut wanted = settings(ImageFormat::Png);
    wanted.scales = Vec::new();
    let mut run = export_images(&names(&["ic_close", "nope"]), wanted, &document()).unwrap();
    assert_eq!(run.tasks().len(), 0);
    let step = run.advance(done(""));
    assert_eq!(step, Step { events: vec![ReportEvent::Done], action: Action::Stop });
}

#[test]
fn a_typo_is_answered_with_the_nearest_name() {
    let mut run = start(&["ic_clos"], ImageFormat::Png);
    let step = run.advance(done(""));
    assert_eq!(
        step,
        Step {
            events: vec![ReportEvent::MissingAsset(
                text("ic_clos"),
                text("Assets"),
                Some(names(&["ic_close"])),
            )],
            action: Action::Continue,
        }
    );
    assert_eq!(
        run.outcomes(),
        &vec![
            Some(ExportOutcome::MissingAsset {
                name: text("ic_clos"),
                container: text("Assets"),
                suggestions: Some(names(&["ic_close"])),
            }),
            None,
        ]
    );
    let step = run.advance(done(""));
    assert_eq!(step, Step { events: vec![ReportEvent::Done], action: Action::Stop });
}

#[test]
fn a_typo_with_a_wider_cutoff_ranks_the_nearest_first() {
    let mut wanted = settings(ImageFormat::Png);
    wanted.policy = SuggestionPolicy { max_distance: 4, max_suggestions: 5 };
    let mut doc = document();
    doc.canvases[0].frames[0].children.as_mut().unwrap().reverse();
    let mut run = export_images(&names(&["ic_clos"]), wanted, &doc).unwrap();
    let step = run.advance(done(""));
    assert_eq!(
        step.events,
        vec![ReportEvent::MissingAsset(
            text("ic_clos"),
            text("Assets"),
            Some(names(&["ic_close", "ic_close_v2"])),
        )]
    );
}

#[test]
fn a_missing_image_without_near_names_has_no_suggestions() {
    let mut run = start(&["background"], ImageFormat::Svg);
    let step = run.advance(done(""));
    assert_eq!(
        step.events,
        vec![ReportEvent::MissingAsset(text("background"), text("Assets"), None)]
    );
    assert_eq!(
        run.outcomes(),
        &vec![Some(ExportOutcome::MissingAsset {
            name: text("background"),
            container: text("Assets"),
            suggestions: None,
        })]
    );
}

#[test]
fn a_missing_image_is_given_up_at_every_scale() {
    let mut run = start(&["nope", "ic_close"], ImageFormat::Png);
    let step = run.advance(done(""));
    assert_eq!(step.action, Action::Continue);
    assert_eq!(run.outcomes().len(), 2);
    assert!(matches!(run.outcomes()[0], Some(ExportOutcome::MissingAsset { .. })));
    assert_eq!(run.outcomes()[1], None);

    let first = export_one(&mut run, false);
    assert_eq!(first, "app/src/main/res/drawable-mdpi/ic_close.png");
    let second = export_one(&mut run, false);
    assert_eq!(second, "app/src/main/res/drawable-xhdpi/ic_close.png");
    let step = run.advance(done(""));
    assert_eq!(step.action, Action::Stop);
    assert_eq!(run.outcomes().len(), 4);
    assert_eq!(run.outcomes()[2], Some(ExportOutcome::Success));
    assert_eq!(run.outcomes()[3], Some(ExportOutcome::Success));
}

#[test]
fn a_name_asked_for_twice_is_looked_up_twice() {
    let mut run = start(&["nope", "nope"], ImageFormat::Png);
    run.advance(done(""));
    run.advance(done(""));
    let step = run.advance(done(""));
    assert_eq!(step.action, Action::Stop);
    assert_eq!(run.outcomes().len(), 4);
    assert!(matches!(run.outcomes()[0], Some(ExportOutcome::MissingAsset { .. })));
    assert_eq!(run.outcomes()[1], None);
    assert!(matches!(run.outcomes()[2], Some(ExportOutcome::MissingAsset { .. })));
    assert_eq!(run.outcomes()[3], None);
}

#[test]
fn a_failure_at_one_scale_leaves_the_next_scale_alone() {
    let mut run = start(&["ic_close"], ImageFormat::Png);
    run.advance(done(""));
    let step = run.advance(failed("timeout"));
    assert_eq!(
        step,
        Step {
            events: vec![ReportEvent::TransientError(text(
                "Cannot get a download link for `ic_close`: timeout"
            ))],
            action: Action::Continue,
        }
    );
    assert_eq!(
        run.outcomes(),
        &vec![Some(ExportOutcome::TransientFailure { stage: Stage::Handle, cause: text("timeout") })]
    );
    let placed = export_one(&mut run, false);
    assert_eq!(placed, "app/src/main/res/drawable-xhdpi/ic_close.png");
    assert_eq!(run.outcomes()[1], Some(ExportOutcome::Success));
    assert_eq!(run.advance(done("")).action, Action::Stop);
}

#[test]
fn each_stage_can_fail_on_its_own() {
    let stages = [Stage::Handle, Stage::Download, Stage::Reencode, Stage::CreateDir, Stage::Move];
    for (at, stage) in stages.iter().enumerate() {
        let mut run = start(&["ic_close"], ImageFormat::Webp);
        run.advance(done(""));
        for _ in 0..at {
            run.advance(done("/tmp/x"));
        }
        let step = run.advance(failed("boom"));
        assert_eq!(step.action, Action::Continue);
        assert_eq!(step.events.len(), 1);
        assert_eq!(
            step.events[0],
            ReportEvent::TransientError(failure_message(*stage, &text("ic_close"), &text("boom")))
        );
        assert_eq!(
            run.outcomes(),
            &vec![Some(ExportOutcome::TransientFailure { stage: *stage, cause: text("boom") })]
        );
        let step = run.advance(done(""));
        assert_eq!(
            step.events,
            vec![ReportEvent::FetchingAsset(text("ic_close"), text("xhdpi"))]
        );
    }
}

#[test]
fn a_reencoded_format_gets_one_more_stage() {
    let mut run = start(&["ic_close_v2"], ImageFormat::Webp);
    run.advance(done(""));
    run.advance(done("https://link"));
    let step = run.advance(done("/tmp/a.png"));
    assert_eq!(
        step,
        Step {
            events: vec![ReportEvent::ReencodingAsset(text("ic_close_v2"), text("mdpi"))],
            action: Action::Reencode { file: text("/tmp/a.png"), quality_milli: 85000 },
        }
    );
    let step = run.advance(done("/tmp/a.webp"));
    assert_eq!(
        step,
        Step {
            events: vec![ReportEvent::AssetReencoded(text("ic_close_v2"), text("mdpi"))],
            action: Action::CreateDir { dir: text("app/src/main/res/drawable-mdpi") },
        }
    );
    let step = run.advance(done(""));
    assert_eq!(
        step.action,
        Action::MoveFile {
            from: text("/tmp/a.webp"),
            to: text("app/src/main/res/drawable-mdpi/ic_close_v2.webp"),
        }
    );
}

#[test]
fn a_vector_export_has_one_task_and_one_directory() {
    let mut run = start(&["ic_close"], ImageFormat::Svg);
    assert_eq!(run.tasks().len(), 1);
    assert_eq!(run.tasks()[0].scale_label, "");
    let step = run.advance(done(""));
    assert_eq!(
        step,
        Step {
            events: vec![ReportEvent::FetchingAsset(text("ic_close"), text(""))],
            action: Action::RequestHandle {
                file_id: text("FILE"),
                node_id: text("1:1"),
                scale_factor_milli: 1000,
                format: ImageFormat::Svg,
            },
        }
    );
    run.advance(done("https://link"));
    let step = run.advance(done("/tmp/a.svg"));
    assert_eq!(step.action, Action::CreateDir { dir: text("app/src/main/res/drawable") });
    let step = run.advance(done(""));
    assert_eq!(
        step.action,
        Action::MoveFile {
            from: text("/tmp/a.svg"),
            to: text("app/src/main/res/drawable/ic_close.svg"),
        }
    );
    run.advance(done(""));
    assert_eq!(run.advance(done("")).action, Action::Stop);
}

#[test]
fn the_resource_name_names_the_file() {
    let mut doc = document();
    doc.canvases[0].frames[0].children =
        Some(vec![Node { name: text("Icons/Arrow Left"), id: text("9:9") }]);
    let mut run =
        export_images(&names(&["Icons/Arrow Left"]), settings(ImageFormat::Png), &doc).unwrap();
    let placed = export_one(&mut run, false);
    assert_eq!(placed, "app/src/main/res/drawable-mdpi/icons_arrow_left.png");
}

#[test]
fn check_missing_reports_and_stops() {
    let mut events = vec![ReportEvent::ContainerFound];
    let outcome = ExportOutcome::MissingAsset {
        name: text("a"),
        container: text("Assets"),
        suggestions: Some(names(&["b", "c"])),
    };
    assert!(check_image_missing_error(&outcome, &mut events));
    assert_eq!(
        events,
        vec![
            ReportEvent::ContainerFound,
            ReportEvent::MissingAsset(text("a"), text("Assets"), Some(names(&["b", "c"]))),
        ]
    );
    let outcome =
        ExportOutcome::MissingAsset { name: text("a"), container: text("F"), suggestions: None };
    assert!(check_image_missing_error(&outcome, &mut events));
    assert_eq!(events.len(), 3);
    assert_eq!(events[2], ReportEvent::MissingAsset(text("a"), text("F"), None));
}

#[test]
fn check_missing_lets_other_outcomes_pass() {
    let mut events = Vec::new();
    assert!(!check_image_missing_error(&ExportOutcome::Success, &mut events));
    let outcome = ExportOutcome::TransientFailure { stage: Stage::Move, cause: text("denied") };
    assert!(!check_image_missing_error(&outcome, &mut events));
    assert_eq!(events, Vec::new());
}

#[test]
fn missing_message_says_whether_names_follow() {
    assert_eq!(
        missing_asset_message(&text("ic_clos"), &text("Assets"), false),
        "An image `ic_clos` is missing in frame `Assets`"
    );
    assert_eq!(
        missing_asset_message(&text("ic_clos"), &text("Assets"), true),
        "An image `ic_clos` is missing in frame `Assets`, but there are images with similar names:"
    );
}

#[test]
fn failure_message_names_the_stage_and_the_image() {
    let cause = text("disk full");
    let name = text("logo");
    assert_eq!(
        failure_message(Stage::Handle, &name, &cause),
        "Cannot get a download link for `logo`: disk full"
    );
    assert_eq!(failure_message(Stage::Download, &name, &cause), "Cannot download `logo`: disk full");
    assert_eq!(failure_message(Stage::Reencode, &name, &cause), "Cannot convert `logo`: disk full");
    assert_eq!(
        failure_message(Stage::CreateDir, &name, &cause),
        "Cannot create the directory for `logo`: disk full"
    );
    assert_eq!(
        failure_message(Stage::Move, &name, &cause),
        "Cannot move into place `logo`: disk full"
    );
}

#[test]
fn a_run_ends_whatever_the_replies() {
    let mut run = start(&["ic_close", "nope", "ic_close_v2"], ImageFormat::Webp);
    let bound = run.tasks().len() * 7 + 6;
    let mut steps = 0;
    loop {
        let reply = if steps % 3 == 0 { failed("no") } else { done("/tmp/x") };
        let step = run.advance(reply);
        steps += 1;
        assert!(steps <= bound);
        if step.action == Action::Stop {
            break;
        }
    }
    assert!(run.is_finished());
    assert_eq!(run.outcomes().len(), run.tasks().len());
    assert!(matches!(run.outcomes()[2], Some(ExportOutcome::MissingAsset { .. })));
    assert_eq!(run.outcomes()[3], None);
    for at in [0, 1, 4, 5] {
        assert!(matches!(
            run.outcomes()[at],
            Some(ExportOutcome::Success) | Some(ExportOutcome::TransientFailure { .. })
        ));
    }
}

#[test]
fn the_reply_is_not_read_between_two_tasks() {
    let mut run = start(&["ic_close"], ImageFormat::Png);
    let step = run.advance(failed("ignored"));
    assert_eq!(step.events, vec![ReportEvent::FetchingAsset(text("ic_close"), text("mdpi"))]);
    assert_eq!(run.outcomes().len(), 0);
}

#[test]
fn a_reencoded_export_reports_the_start_and_the_end_of_the_conversion() {
    let mut run = start(&["ic_close"], ImageFormat::Webp);
    let mut events = Vec::new();
    let replies = ["", "https://link", "/tmp/a.png", "/tmp/a.webp", "", ""];
    for value in replies {
        let step = run.advance(done(value));
        events.extend(step.events);
    }
    assert_eq!(
        events,
        vec![
            ReportEvent::FetchingAsset(text("ic_close"), text("mdpi")),
            ReportEvent::DownloadingAsset(text("ic_close"), text("mdpi")),
            ReportEvent::ReencodingAsset(text("ic_close"), text("mdpi")),
            ReportEvent::AssetReencoded(text("ic_close"), text("mdpi")),
            ReportEvent::AssetExported(text("ic_close"), text("mdpi")),
        ]
    );
    assert_eq!(run.outcomes(), &vec![Some(ExportOutcome::Success)]);
}

#[test]
fn a_plain_export_reports_no_conversion() {
    for format in [ImageFormat::Png, ImageFormat::Svg] {
        let mut run = start(&["ic_close"], format);
        let mut events = Vec::new();
        let replies = ["", "https://link", "/tmp/a", "", ""];
        for value in replies {
            let step = run.advance(done(value));
            events.extend(step.events);
        }
        let label = if format == ImageFormat::Svg { "" } else { "mdpi" };
        assert_eq!(
            events,
            vec![
                ReportEvent::FetchingAsset(text("ic_close"), text(label)),
                ReportEvent::DownloadingAsset(text("ic_close"), text(label)),
                ReportEvent::AssetExported(text("ic_close"), text(label)),
            ]
        );
    }
}

#[test]
fn a_failed_conversion_reports_no_end_of_it() {
    let mut run = start(&["ic_close"], ImageFormat::Webp);
    run.advance(done(""));
    run.advance(done("https://link"));
    run.advance(done("/tmp/a.png"));
    let step = run.advance(failed("bad image"));
    assert_eq!(
        step,
        Step {
            events: vec![ReportEvent::TransientError(text(
                "Cannot convert `ic_close`: bad image"
            ))],
            action: Action::Continue,
        }
    );
}

#[test]
fn container_message_names_the_frame() {
    assert_eq!(
        container_missing_message(&text("Assets")),
        "The frame `Assets` is not found in the document"
    );
}
