use vstd::prelude::*;
use crate::document::{
    child_index, children_of, distinct_names, is_first_named, none_named, scoped_frames, Document,
};
use crate::format::ImageFormat;
use crate::index::NameIndex;
use crate::machine::{
    begin, consistent, current, drop_asset, fail, finish_task, lemma_begin_consistent,
    lemma_cursor, lemma_step_consistent, missing_outcome, place, step, take_up, ActionView,
    PhaseView, ReplyView, RunView, StepView,
};
use crate::matcher::suggest;
use crate::outcome::{
    check_image_missing_error, clone_names, event_views, failure_message, ExportOutcome,
    OutcomeView, ReportEvent, Stage,
};
use crate::paths::{image_drawable_dir, image_file_path};
use crate::planner::{plan, task_views, ExportTask};
use crate::resolver::{resolve, ExportError};
use crate::settings::ExportSettings;
use crate::text::texts;

verus! {

/// What a run is waiting for.
#[derive(Clone, Debug, PartialEq, Eq)]
pub enum Phase {
    /// Between two tasks: nothing was asked of the world outside.
    Ready,
    AwaitHandle,
    AwaitDownload,
    AwaitReencode,
    /// The image was fetched to `file`; its directory is being made.
    AwaitDirectory { file: String },
    AwaitMove,
    Finished,
}

impl View for Phase {
    type V = PhaseView;

    open spec fn view(&self) -> PhaseView {
        match *self {
            Phase::Ready => PhaseView::Ready,
            Phase::AwaitHandle => PhaseView::AwaitHandle,
            Phase::AwaitDownload => PhaseView::AwaitDownload,
            Phase::AwaitReencode => PhaseView::AwaitReencode,
            Phase::AwaitDirectory { file } => PhaseView::AwaitDirectory { file: file@ },
            Phase::AwaitMove => PhaseView::AwaitMove,
            Phase::Finished => PhaseView::Finished,
        }
    }
}

/// What the world outside answered to the last request: what was asked for
/// (a link, or the file that holds the image; nothing for a directory or a
/// move), or why it could not be had.
#[derive(Clone, Debug, PartialEq, Eq)]
pub enum Reply {
    Done(String),
    Failed(String),
}

impl View for Reply {
    type V = ReplyView;

    open spec fn view(&self) -> ReplyView {
        match *self {
            Reply::Done(value) => ReplyView::Done(value@),
            Reply::Failed(cause) => ReplyView::Failed(cause@),
        }
    }
}

/// What is asked of the world outside.
#[derive(Clone, Debug, PartialEq, Eq)]
pub enum Action {
    /// Ask for a link from which the image can be fetched.
    RequestHandle { file_id: String, node_id: String, scale_factor_milli: u32, format: ImageFormat },
    /// Fetch the image to a file of its own.
    Download { url: String, res_name: String, scale_label: String, format: ImageFormat },
    /// Make the image in `file` into the format asked for.
    Reencode { file: String, quality_milli: u32 },
    /// Make the directory, unless it is there.
    CreateDir { dir: String },
    /// Put the file into place, in the stead of what may be there.
    MoveFile { from: String, to: String },
    /// Nothing: take the next step.
    Continue,
    /// The run is over.
    Stop,
}

impl View for Action {
    type V = ActionView;

    open spec fn view(&self) -> ActionView {
        match *self {
            Action::RequestHandle {
                file_id,
                node_id,
                scale_factor_milli,
                format,
            } => ActionView::RequestHandle {
                file_id: file_id@,
                node_id: node_id@,
                scale_factor_milli,
                format,
            },
            Action::Download { url, res_name, scale_label, format } => ActionView::Download {
                url: url@,
                res_name: res_name@,
                scale_label: scale_label@,
                format,
            },
            Action::Reencode { file, quality_milli } => ActionView::Reencode {
                file: file@,
                quality_milli,
            },
            Action::CreateDir { dir } => ActionView::CreateDir { dir: dir@ },
            Action::MoveFile { from, to } => ActionView::MoveFile { from: from@, to: to@ },
            Action::Continue => ActionView::Continue,
            Action::Stop => ActionView::Stop,
        }
    }
}

/// What a step hands out: what to report, in order, and what to do next.
#[derive(Clone, Debug, PartialEq, Eq)]
pub struct Step {
    pub events: Vec<ReportEvent>,
    pub action: Action,
}

impl View for Step {
    type V = StepView;

    open spec fn view(&self) -> StepView {
        StepView { events: event_views(self.events@), action: self.action@ }
    }
}

/// The views of the entries of a log, in order.
pub open spec fn log_views(log: Seq<Option<ExportOutcome>>) -> Seq<Option<OutcomeView>> {
    Seq::new(
        log.len(),
        |i: int|
            match log[i] {
                Some(outcome) => Some(outcome@),
                None => None,
            },
    )
}

/// One export, from its plan to its end. It asks for one thing at a time
/// and is told how that went.
pub struct ExportRun {
    settings: ExportSettings,
    index: NameIndex,
    names: Vec<String>,
    tasks: Vec<ExportTask>,
    per: usize,
    asset: usize,
    scale: usize,
    cursor: usize,
    phase: Phase,
    log: Vec<Option<ExportOutcome>>,
}

impl View for ExportRun {
    type V = RunView;

    closed spec fn view(&self) -> RunView {
        RunView {
            settings: self.settings@,
            index: self.index@,
            keys: self.index.keys(),
            names: texts(self.names@),
            tasks: task_views(self.tasks@),
            per: self.per as nat,
            asset: self.asset as nat,
            scale: self.scale as nat,
            cursor: self.cursor as nat,
            phase: self.phase@,
            log: log_views(self.log@),
        }
    }
}

impl ExportRun {
    /// The run is consistent, and so is what it holds.
    pub closed spec fn wf(&self) -> bool {
        &&& self.index.wf()
        &&& consistent(self@)
    }

    /// A run that is well formed is consistent.
    pub proof fn lemma_consistent(&self)
        requires
            self.wf(),
        ensures
            consistent(self@),
    {
    }

    /// Whether the run is over.
    pub fn is_finished(&self) -> (b: bool)
        ensures
            b == (self@.phase is Finished),
    {
        match self.phase {
            Phase::Finished => true,
            _ => false,
        }
    }

    /// The tasks of the run, in the order in which they are taken up.
    pub fn tasks(&self) -> (tasks: &Vec<ExportTask>)
        ensures
            task_views(tasks@) == self@.tasks,
    {
        &self.tasks
    }

    /// How each task that is done with ended, in the order of the tasks;
    /// `None` for a task that was passed over.
    pub fn outcomes(&self) -> (log: &Vec<Option<ExportOutcome>>)
        ensures
            log_views(log@) == self@.log,
    {
        &self.log
    }

    /// The names that the container holds, with what they lead to.
    pub fn index(&self) -> (index: &NameIndex)
        ensures
            index@ == self@.index,
            index.keys() == self@.keys,
    {
        &self.index
    }

    /// Ends the current task with `outcome`.
    fn finish(&mut self, outcome: ExportOutcome)
        requires
            old(self).wf(),
            old(self)@.asset < old(self)@.names.len(),
        ensures
            final(self)@ == finish_task(old(self)@, outcome@),
            final(self).index == old(self).index,
    {
        proof {
            lemma_cursor(self@);
        }
        let total: usize = self.tasks.len();
        let count: usize = self.names.len();
        assert(self.cursor < total);
        assert(self.asset < count);
        self.log.push(Some(outcome));
        self.cursor = self.cursor + 1;
        if self.scale + 1 == self.per {
            self.asset = self.asset + 1;
            self.scale = 0;
        } else {
            self.scale = self.scale + 1;
        }
        self.phase = Phase::Ready;
        assert(self@.log =~= old(self)@.log.push(Some(outcome@)));
    }

    /// Ends the current task with `outcome` and passes over the tasks that
    /// are left of the same image.
    fn give_up(&mut self, outcome: ExportOutcome)
        requires
            old(self).wf(),
            old(self)@.asset < old(self)@.names.len(),
        ensures
            final(self)@ == drop_asset(old(self)@, outcome@),
            final(self).index == old(self).index,
    {
        proof {
            lemma_cursor(self@);
        }
        let ghost before = self@;
        let ghost first = old(self)@.log.push(Some(outcome@));
        let total: usize = self.tasks.len();
        let count: usize = self.names.len();
        assert(before.cursor + (before.per - before.scale) <= total);
        assert(self.asset < count);
        self.log.push(Some(outcome));
        self.cursor = self.cursor + 1;
        self.scale = self.scale + 1;
        assert(self@.log =~= first);
        while self.scale < self.per
            invariant
                self.scale <= self.per,
                self.per == before.per,
                self.asset == before.asset,
                before.scale < self.scale,
                self.cursor == before.cursor + (self.scale - before.scale),
                before.cursor + (before.per - before.scale) <= total,
                self.asset < count,
                self@.log == first + Seq::new(
                    (self.scale - before.scale - 1) as nat,
                    |i: int| None::<OutcomeView>,
                ),
                self@.settings == before.settings,
                self@.index == before.index,
                self@.keys == before.keys,
                self@.names == before.names,
                self@.tasks == before.tasks,
                self.index == old(self).index,
            decreases self.per - self.scale,
        {
            let ghost log = self@.log;
            self.log.push(None);
            self.cursor = self.cursor + 1;
            self.scale = self.scale + 1;
            assert(self@.log =~= log.push(None));
            assert(log.push(None::<OutcomeView>) =~= first + Seq::new(
                (self.scale - before.scale - 1) as nat,
                |i: int| None::<OutcomeView>,
            ));
        }
        self.asset = self.asset + 1;
        self.scale = 0;
        self.phase = Phase::Ready;
    }

    /// A stage of the current task failed.
    fn fail_at(&mut self, stage: Stage, cause: String) -> (next: Step)
        requires
            old(self).wf(),
            old(self)@.asset < old(self)@.names.len(),
        ensures
            final(self)@ == fail(old(self)@, stage, cause@).0,
            next@ == fail(old(self)@, stage, cause@).1,
            final(self).index == old(self).index,
    {
        proof {
            lemma_cursor(self@);
        }
        let text = failure_message(stage, &self.tasks[self.cursor].name, &cause);
        let mut events: Vec<ReportEvent> = Vec::new();
        events.push(ReportEvent::TransientError(text));
        self.finish(ExportOutcome::TransientFailure { stage, cause });
        let next = Step { events, action: Action::Continue };
        assert(next@.events =~= fail(old(self)@, stage, cause@).1.events);
        next
    }

    /// The image of the current task lies in `file`: `events` tell how it
    /// came there, and its directory is asked for.
    fn place_from(&mut self, file: String, events: Vec<ReportEvent>) -> (next: Step)
        requires
            old(self).wf(),
            old(self)@.asset < old(self)@.names.len(),
        ensures
            final(self)@ == place(old(self)@, file@, event_views(events@)).0,
            next@ == place(old(self)@, file@, event_views(events@)).1,
            final(self).index == old(self).index,
    {
        proof {
            lemma_cursor(self@);
        }
        let dir = image_drawable_dir(&self.settings.res_dir, &self.tasks[self.cursor]);
        self.phase = Phase::AwaitDirectory { file };
        Step { events, action: Action::CreateDir { dir } }
    }

    /// Takes up the task at the cursor.
    fn take_up_next(&mut self) -> (next: Step)
        requires
            old(self).wf(),
            old(self)@.phase is Ready,
        ensures
            final(self)@ == take_up(old(self)@).0,
            next@ == take_up(old(self)@).1,
            final(self).index == old(self).index,
    {
        let mut events: Vec<ReportEvent> = Vec::new();
        proof {
            lemma_cursor(self@);
        }
        if self.cursor >= self.tasks.len() {
            self.phase = Phase::Finished;
            events.push(ReportEvent::Done);
            let next = Step { events, action: Action::Stop };
            assert(next@.events =~= take_up(old(self)@).1.events);
            return next;
        }
        let task = &self.tasks[self.cursor];
        assert(task@ == current(self@));
        match self.index.get(&task.name) {
            Some(id) => {
                events.push(
                    ReportEvent::FetchingAsset(task.name.clone(), task.scale_label.clone()),
                );
                let action = Action::RequestHandle {
                    file_id: self.settings.file_id.clone(),
                    node_id: id.clone(),
                    scale_factor_milli: task.scale_factor_milli,
                    format: self.settings.format,
                };
                self.phase = Phase::AwaitHandle;
                let next = Step { events, action };
                assert(next@.events =~= take_up(old(self)@).1.events);
                next
            },
            None => {
                let candidates = self.index.names();
                let found = suggest(task.name.as_str(), &candidates, &self.settings.policy);
                let outcome = ExportOutcome::MissingAsset {
                    name: task.name.clone(),
                    container: self.settings.container_name.clone(),
                    suggestions: found,
                };
                assert(outcome@ == missing_outcome(self@));
                // A missing image is reported here, and its other scales are given up.
                if check_image_missing_error(&outcome, &mut events) {
                    assert(event_views(events@) =~= take_up(old(self)@).1.events);
                    self.give_up(outcome);
                } else {
                    self.finish(outcome);
                }
                Step { events, action: Action::Continue }
            },
        }
    }

    /// Takes one step: reads how the last request went, says what to
    /// report, and asks for the next thing. Between two tasks, and so at
    /// the start, the reply is not read.
    pub fn advance(&mut self, reply: Reply) -> (next: Step)
        requires
            old(self).wf(),
        ensures
            final(self).wf(),
            final(self)@ == step(old(self)@, reply@).0,
            next@ == step(old(self)@, reply@).1,
    {
        proof {
            lemma_step_consistent(self@, reply@);
            lemma_cursor(self@);
        }
        let stage = match &self.phase {
            Phase::Finished => {
                let next = Step { events: Vec::new(), action: Action::Stop };
                assert(next@.events =~= Seq::<crate::outcome::EventView>::empty());
                return next;
            },
            Phase::Ready => {
                return self.take_up_next();
            },
            Phase::AwaitHandle => Stage::Handle,
            Phase::AwaitDownload => Stage::Download,
            Phase::AwaitReencode => Stage::Reencode,
            Phase::AwaitDirectory { .. } => Stage::CreateDir,
            Phase::AwaitMove => Stage::Move,
        };
        let value = match reply {
            Reply::Failed(cause) => {
                return self.fail_at(stage, cause);
            },
            Reply::Done(value) => value,
        };
        let task = &self.tasks[self.cursor];
        assert(task@ == current(self@));
        match stage {
            Stage::Handle => {
                let mut events: Vec<ReportEvent> = Vec::new();
                events.push(
                    ReportEvent::DownloadingAsset(task.name.clone(), task.scale_label.clone()),
                );
                let action = Action::Download {
                    url: value,
                    res_name: task.res_name.clone(),
                    scale_label: task.scale_label.clone(),
                    format: self.settings.format,
                };
                self.phase = Phase::AwaitDownload;
                let next = Step { events, action };
                assert(next@.events =~= step(old(self)@, reply@).1.events);
                next
            },
            Stage::Download => {
                if self.settings.format.is_reencoded() {
                    let mut events: Vec<ReportEvent> = Vec::new();
                    events.push(
                        ReportEvent::ReencodingAsset(task.name.clone(), task.scale_label.clone()),
                    );
                    let action = Action::Reencode {
                        file: value,
                        quality_milli: self.settings.quality_milli,
                    };
                    self.phase = Phase::AwaitReencode;
                    let next = Step { events, action };
                    assert(next@.events =~= step(old(self)@, reply@).1.events);
                    next
                } else {
                    let events: Vec<ReportEvent> = Vec::new();
                    assert(event_views(events@) =~= Seq::<crate::outcome::EventView>::empty());
                    self.place_from(value, events)
                }
            },
            Stage::Reencode => {
                let mut events: Vec<ReportEvent> = Vec::new();
                events.push(
                    ReportEvent::AssetReencoded(task.name.clone(), task.scale_label.clone()),
                );
                assert(event_views(events@) =~= seq![
                    crate::outcome::EventView::AssetReencoded(task.name@, task.scale_label@),
                ]);
                self.place_from(value, events)
            },
            Stage::CreateDir => {
                let dir = image_drawable_dir(&self.settings.res_dir, task);
                let to = image_file_path(&dir, task);
                let from = match &self.phase {
                    Phase::AwaitDirectory { file } => file.clone(),
                    _ => String::new(),
                };
                self.phase = Phase::AwaitMove;
                let next = Step { events: Vec::new(), action: Action::MoveFile { from, to } };
                assert(next@.events =~= Seq::<crate::outcome::EventView>::empty());
                next
            },
            Stage::Move => {
                let mut events: Vec<ReportEvent> = Vec::new();
                events.push(
                    ReportEvent::AssetExported(task.name.clone(), task.scale_label.clone()),
                );
                self.finish(ExportOutcome::Success);
                let next = Step { events, action: Action::Continue };
                assert(next@.events =~= step(old(self)@, reply@).1.events);
                next
            },
        }
    }
}

/// Sets an export up: finds the container in `document`, indexes its
/// children, and plans one task for every name of `image_names` and every
/// scale. The run that comes back has taken no step yet.
///
/// Fails exactly when no frame on a searched canvas bears the container's
/// name; nothing is planned then.
pub fn export_images(image_names: &Vec<String>, settings: ExportSettings, document: &Document) -> (res:
    Result<ExportRun, ExportError>)
    ensures
        match res {
            Ok(run) => run.wf() && exists|i: int|
                is_first_named(
                    scoped_frames(document.canvases@, settings@.page),
                    settings@.container,
                    i,
                ) && run@ == begin(
                    settings@,
                    child_index(children_of(scoped_frames(document.canvases@, settings@.page)[i])),
                    distinct_names(
                        children_of(scoped_frames(document.canvases@, settings@.page)[i]),
                    ),
                    texts(image_names@),
                ),
            Err(ExportError::ContainerNotFound(name)) => name@ == settings@.container && none_named(
                scoped_frames(document.canvases@, settings@.page),
                settings@.container,
            ),
        },
{
    let index = match resolve(document, &settings.container_name, &settings.page_name) {
        Ok(index) => index,
        Err(e) => {
            return Err(e);
        },
    };
    let ghost wanted = settings@;
    let ghost frames = scoped_frames(document.canvases@, settings@.page);
    let ghost place = choose|i: int|
        is_first_named(frames, wanted.container, i) && index@ == child_index(
            children_of(frames[i]),
        ) && index.keys() == distinct_names(children_of(frames[i]));
    let names = clone_names(image_names);
    let tasks = plan(&names, &settings.scales, settings.format);
    let per: usize = if settings.format.is_svg() { 1 } else { settings.scales.len() };
    let asset: usize = if per == 0 { names.len() } else { 0 };
    proof {
        index.lemma_keys();
        lemma_begin_consistent(settings@, index@, index.keys(), texts(names@));
    }
    let run = ExportRun {
        settings,
        index,
        names,
        tasks,
        per,
        asset,
        scale: 0,
        cursor: 0,
        phase: Phase::Ready,
        log: Vec::new(),
    };
    assert(run@.log =~= Seq::<Option<OutcomeView>>::empty());
    assert(run@ == begin(
        wanted,
        child_index(children_of(frames[place])),
        distinct_names(children_of(frames[place])),
        texts(image_names@),
    ));
    Ok(run)
}

} // verus!
