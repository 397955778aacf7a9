use vstd::prelude::*;
use vstd::string::StringExecFns;
use crate::text::texts;

verus! {

/// The steps of one task that depend on the world outside.
#[derive(Clone, Copy, PartialEq, Eq, Structural, Debug)]
pub enum Stage {
    Handle,
    Download,
    Reencode,
    CreateDir,
    Move,
}

/// How one task ended.
#[derive(Clone, Debug, PartialEq, Eq)]
pub enum ExportOutcome {
    Success,
    /// The container holds no child of the requested name.
    MissingAsset { name: String, container: String, suggestions: Option<Vec<String>> },
    /// A stage could not be carried out; other tasks are not touched by it.
    TransientFailure { stage: Stage, cause: String },
}

pub enum OutcomeView {
    Success,
    MissingAsset { name: Seq<char>, container: Seq<char>, suggestions: Option<Seq<Seq<char>>> },
    TransientFailure { stage: Stage, cause: Seq<char> },
}

/// The contents of an optional list of strings.
pub open spec fn list_view(list: Option<Vec<String>>) -> Option<Seq<Seq<char>>> {
    match list {
        Some(v) => Some(texts(v@)),
        None => None,
    }
}

impl View for ExportOutcome {
    type V = OutcomeView;

    open spec fn view(&self) -> OutcomeView {
        match *self {
            ExportOutcome::Success => OutcomeView::Success,
            ExportOutcome::MissingAsset { name, container, suggestions } => OutcomeView::MissingAsset {
                name: name@,
                container: container@,
                suggestions: list_view(suggestions),
            },
            ExportOutcome::TransientFailure { stage, cause } => OutcomeView::TransientFailure {
                stage,
                cause: cause@,
            },
        }
    }
}

/// What is reported while an export runs, in the order in which it happens.
#[derive(Clone, Debug, PartialEq, Eq)]
pub enum ReportEvent {
    ReadingConfig,
    FetchingDocument,
    DocumentFetched,
    ContainerFound,
    FetchingAsset(String, String),
    DownloadingAsset(String, String),
    ReencodingAsset(String, String),
    AssetReencoded(String, String),
    AssetExported(String, String),
    MissingAsset(String, String, Option<Vec<String>>),
    TransientError(String),
    Done,
    FatalError(String),
}

pub enum EventView {
    ReadingConfig,
    FetchingDocument,
    DocumentFetched,
    ContainerFound,
    FetchingAsset(Seq<char>, Seq<char>),
    DownloadingAsset(Seq<char>, Seq<char>),
    ReencodingAsset(Seq<char>, Seq<char>),
    AssetReencoded(Seq<char>, Seq<char>),
    AssetExported(Seq<char>, Seq<char>),
    MissingAsset(Seq<char>, Seq<char>, Option<Seq<Seq<char>>>),
    TransientError(Seq<char>),
    Done,
    FatalError(Seq<char>),
}

impl View for ReportEvent {
    type V = EventView;

    open spec fn view(&self) -> EventView {
        match *self {
            ReportEvent::ReadingConfig => EventView::ReadingConfig,
            ReportEvent::FetchingDocument => EventView::FetchingDocument,
            ReportEvent::DocumentFetched => EventView::DocumentFetched,
            ReportEvent::ContainerFound => EventView::ContainerFound,
            ReportEvent::FetchingAsset(name, scale) => EventView::FetchingAsset(name@, scale@),
            ReportEvent::DownloadingAsset(name, scale) => EventView::DownloadingAsset(
                name@,
                scale@,
            ),
            ReportEvent::ReencodingAsset(name, scale) => EventView::ReencodingAsset(name@, scale@),
            ReportEvent::AssetReencoded(name, scale) => EventView::AssetReencoded(name@, scale@),
            ReportEvent::AssetExported(name, scale) => EventView::AssetExported(name@, scale@),
            ReportEvent::MissingAsset(name, container, suggestions) => EventView::MissingAsset(
                name@,
                container@,
                list_view(suggestions),
            ),
            ReportEvent::TransientError(text) => EventView::TransientError(text@),
            ReportEvent::Done => EventView::Done,
            ReportEvent::FatalError(text) => EventView::FatalError(text@),
        }
    }
}

/// The views of the events of `v`, in order.
pub open spec fn event_views(v: Seq<ReportEvent>) -> Seq<EventView> {
    Seq::new(v.len(), |i: int| v[i]@)
}

/// A copy of a list of strings.
pub fn clone_names(names: &Vec<String>) -> (out: Vec<String>)
    ensures
        texts(out@) == texts(names@),
{
    let mut out: Vec<String> = Vec::new();
    let mut i: usize = 0;
    while i < names.len()
        invariant
            i <= names@.len(),
            out@.len() == i,
            forall|t: int| 0 <= t < i ==> (#[trigger] out@[t])@ == names@[t]@,
        decreases names@.len() - i,
    {
        out.push(names[i].clone());
        i += 1;
    }
    assert(texts(out@) =~= texts(names@));
    out
}

/// What is said of an image that the container does not hold.
pub open spec fn missing_text(name: Seq<char>, container: Seq<char>, suggested: bool) -> Seq<char> {
    let plain = "An image `"@ + name + "` is missing in frame `"@ + container + "`"@;
    if suggested {
        plain + ", but there are images with similar names:"@
    } else {
        plain
    }
}

/// The sentence that tells of a missing image; `suggested` says whether a
/// list of similar names follows it.
pub fn missing_asset_message(name: &String, container: &String, suggested: bool) -> (text: String)
    ensures
        text@ == missing_text(name@, container@, suggested),
{
    let mut text = String::from_str("An image `");
    text.append(name.as_str());
    text.append("` is missing in frame `");
    text.append(container.as_str());
    text.append("`");
    if suggested {
        text.append(", but there are images with similar names:");
    }
    text
}

/// What is said where no frame bears the container's name.
pub open spec fn container_missing_text(container: Seq<char>) -> Seq<char> {
    "The frame `"@ + container + "` is not found in the document"@
}

/// The sentence that tells that no frame bears the container's name.
pub fn container_missing_message(container: &String) -> (text: String)
    ensures
        text@ == container_missing_text(container@),
{
    let mut text = String::from_str("The frame `");
    text.append(container.as_str());
    text.append("` is not found in the document");
    text
}

/// How the failure of a stage begins to be told.
pub open spec fn stage_text(stage: Stage) -> Seq<char> {
    match stage {
        Stage::Handle => "Cannot get a download link for `"@,
        Stage::Download => "Cannot download `"@,
        Stage::Reencode => "Cannot convert `"@,
        Stage::CreateDir => "Cannot create the directory for `"@,
        Stage::Move => "Cannot move into place `"@,
    }
}

/// What is said of the failure of `stage` for the image `name`.
pub open spec fn failure_text(stage: Stage, name: Seq<char>, cause: Seq<char>) -> Seq<char> {
    stage_text(stage) + name + "`: "@ + cause
}

/// The sentence that tells of the failure of `stage` for the image `name`.
pub fn failure_message(stage: Stage, name: &String, cause: &String) -> (text: String)
    ensures
        text@ == failure_text(stage, name@, cause@),
{
    let mut text = match stage {
        Stage::Handle => String::from_str("Cannot get a download link for `"),
        Stage::Download => String::from_str("Cannot download `"),
        Stage::Reencode => String::from_str("Cannot convert `"),
        Stage::CreateDir => String::from_str("Cannot create the directory for `"),
        Stage::Move => String::from_str("Cannot move into place `"),
    };
    text.append(name.as_str());
    text.append("`: ");
    text.append(cause.as_str());
    text
}

/// Reports an image that is missing, and says whether to give the image up.
///
/// Where `outcome` tells of a missing image, that is added to `events` and
/// the answer is `true`: the other scales of the image are not to be tried.
/// Any other outcome leaves `events` as they are, and the answer is `false`.
pub fn check_image_missing_error(outcome: &ExportOutcome, events: &mut Vec<ReportEvent>) -> (stop:
    bool)
    ensures
        stop == (outcome@ is MissingAsset),
        match outcome@ {
            OutcomeView::MissingAsset { name, container, suggestions } => event_views(
                final(events)@,
            ) == event_views(old(events)@).push(
                EventView::MissingAsset(name, container, suggestions),
            ),
            _ => final(events)@ == old(events)@,
        },
{
    match outcome {
        ExportOutcome::MissingAsset { name, container, suggestions } => {
            let offered = match suggestions {
                Some(list) => Some(clone_names(list)),
                None => None,
            };
            let event = ReportEvent::MissingAsset(name.clone(), container.clone(), offered);
            events.push(event);
            assert(event_views(events@) =~= event_views(old(events)@).push(event@));
            true
        },
        _ => false,
    }
}

} // verus!
