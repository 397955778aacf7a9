use vstd::prelude::*;
use vstd::arithmetic::div_mod::{lemma_fundamental_div_mod, lemma_fundamental_div_mod_converse};
use crate::format::{effective_scales, needs_reencoding, ImageFormat};
use crate::matcher::suggestions;
use crate::outcome::{failure_text, EventView, OutcomeView, Stage};
use crate::paths::{drawable_dir, file_path};
use crate::planner::{lemma_planned_at, planned, task_for, TaskView};
use crate::settings::SettingsView;

verus! {

/// What a run is waiting for.
pub enum PhaseView {
    /// Between two tasks: nothing was asked of the world outside.
    Ready,
    AwaitHandle,
    AwaitDownload,
    AwaitReencode,
    /// The image was fetched to `file`; its directory is being made.
    AwaitDirectory { file: Seq<char> },
    AwaitMove,
    Finished,
}

/// What the world outside answered to the last request.
pub enum ReplyView {
    Done(Seq<char>),
    Failed(Seq<char>),
}

/// What is asked of the world outside.
pub enum ActionView {
    RequestHandle {
        file_id: Seq<char>,
        node_id: Seq<char>,
        scale_factor_milli: u32,
        format: ImageFormat,
    },
    Download { url: Seq<char>, res_name: Seq<char>, scale_label: Seq<char>, format: ImageFormat },
    Reencode { file: Seq<char>, quality_milli: u32 },
    CreateDir { dir: Seq<char> },
    MoveFile { from: Seq<char>, to: Seq<char> },
    Continue,
    Stop,
}

pub struct StepView {
    pub events: Seq<EventView>,
    pub action: ActionView,
}

/// A run as the contracts see it: what was asked for, the plan, and how far
/// the run has come.
pub struct RunView {
    pub settings: SettingsView,
    pub index: Map<Seq<char>, Seq<char>>,
    pub keys: Seq<Seq<char>>,
    pub names: Seq<Seq<char>>,
    pub tasks: Seq<TaskView>,
    /// How many tasks every name has.
    pub per: nat,
    /// The name whose tasks are being worked on, and which of its tasks.
    pub asset: nat,
    pub scale: nat,
    /// The task that is being worked on: all before it are done with.
    pub cursor: nat,
    pub phase: PhaseView,
    /// How each task before `cursor` ended; `None` for one passed over.
    pub log: Seq<Option<OutcomeView>>,
}

pub open spec fn awaiting(phase: PhaseView) -> bool {
    !(phase is Ready) && !(phase is Finished)
}

/// The entry for task `k` fits the index: an image that the container holds
/// succeeded or failed at a stage; one that it does not hold was found
/// missing at the first of its tasks, and its other tasks were passed over.
pub open spec fn entry_fits(v: RunView, k: int) -> bool {
    if v.index.contains_key(v.tasks[k].name) {
        v.log[k] is Some && !(v.log[k].unwrap() is MissingAsset)
    } else if k % (v.per as int) == 0 {
        v.log[k] is Some && v.log[k].unwrap() is MissingAsset
    } else {
        v.log[k] is None
    }
}

/// What holds of a run at every moment.
pub open spec fn consistent(v: RunView) -> bool {
    &&& v.tasks == planned(v.names, v.settings.scales, v.settings.format)
    &&& v.per == effective_scales(v.settings.scales, v.settings.format).len()
    &&& v.keys.no_duplicates()
    &&& forall|name: Seq<char>| v.index.contains_key(name) <==> v.keys.contains(name)
    &&& v.log.len() == v.cursor
    &&& v.cursor == v.asset * v.per + v.scale
    &&& v.asset <= v.names.len()
    &&& if v.asset < v.names.len() {
        v.scale < v.per
    } else {
        v.scale == 0
    }
    &&& v.scale > 0 ==> v.index.contains_key(v.names[v.asset as int])
    &&& awaiting(v.phase) ==> v.asset < v.names.len() && v.index.contains_key(
        v.names[v.asset as int],
    )
    &&& v.phase is Finished ==> v.asset == v.names.len()
    &&& forall|k: int| 0 <= k < v.log.len() ==> entry_fits(v, k)
}

/// A run before its first step: nothing is done with, and the first task
/// is the next to take up.
pub open spec fn begin(
    settings: SettingsView,
    index: Map<Seq<char>, Seq<char>>,
    keys: Seq<Seq<char>>,
    names: Seq<Seq<char>>,
) -> RunView {
    let per = effective_scales(settings.scales, settings.format).len();
    RunView {
        settings,
        index,
        keys,
        names,
        tasks: planned(names, settings.scales, settings.format),
        per,
        asset: if per == 0 { names.len() } else { 0 },
        scale: 0,
        cursor: 0,
        phase: PhaseView::Ready,
        log: Seq::empty(),
    }
}

/// The task that is being worked on.
pub open spec fn current(v: RunView) -> TaskView {
    v.tasks[v.cursor as int]
}

/// The run after the current task ended with `outcome`: the next task is
/// the one that follows.
pub open spec fn finish_task(v: RunView, outcome: OutcomeView) -> RunView {
    let last = v.scale + 1 == v.per;
    RunView {
        log: v.log.push(Some(outcome)),
        cursor: v.cursor + 1,
        asset: if last { v.asset + 1 } else { v.asset },
        scale: if last { 0 } else { v.scale + 1 },
        phase: PhaseView::Ready,
        ..v
    }
}

/// The run after the current image was found missing: the other tasks of
/// the image are passed over, and the next task is the first of the next
/// image.
pub open spec fn drop_asset(v: RunView, outcome: OutcomeView) -> RunView {
    RunView {
        log: v.log.push(Some(outcome)) + Seq::new(
            (v.per - v.scale - 1) as nat,
            |i: int| None::<OutcomeView>,
        ),
        cursor: (v.cursor + v.per - v.scale) as nat,
        asset: v.asset + 1,
        scale: 0,
        phase: PhaseView::Ready,
        ..v
    }
}

/// The outcome for the current image where the container does not hold it.
pub open spec fn missing_outcome(v: RunView) -> OutcomeView {
    let found = suggestions(current(v).name, v.keys, v.settings.cutoff, v.settings.limit);
    OutcomeView::MissingAsset {
        name: current(v).name,
        container: v.settings.container,
        suggestions: if found.len() == 0 { None } else { Some(found) },
    }
}

/// A stage of the current task failed.
pub open spec fn fail(v: RunView, stage: Stage, cause: Seq<char>) -> (RunView, StepView) {
    (
        finish_task(v, OutcomeView::TransientFailure { stage, cause }),
        StepView {
            events: seq![EventView::TransientError(failure_text(stage, current(v).name, cause))],
            action: ActionView::Continue,
        },
    )
}

/// The image of the current task lies in `file`, ready to be placed:
/// `events` tell how it came there, and its directory is asked for.
pub open spec fn place(v: RunView, file: Seq<char>, events: Seq<EventView>) -> (
    RunView,
    StepView,
) {
    (
        RunView { phase: PhaseView::AwaitDirectory { file }, ..v },
        StepView {
            events,
            action: ActionView::CreateDir {
                dir: drawable_dir(v.settings.res_dir, current(v).scale_label, v.settings.format),
            },
        },
    )
}

/// The run takes up the task at the cursor.
pub open spec fn take_up(v: RunView) -> (RunView, StepView) {
    if v.cursor >= v.tasks.len() {
        (
            RunView { phase: PhaseView::Finished, ..v },
            StepView { events: seq![EventView::Done], action: ActionView::Stop },
        )
    } else if v.index.contains_key(current(v).name) {
        (
            RunView { phase: PhaseView::AwaitHandle, ..v },
            StepView {
                events: seq![EventView::FetchingAsset(current(v).name, current(v).scale_label)],
                action: ActionView::RequestHandle {
                    file_id: v.settings.file_id,
                    node_id: v.index[current(v).name],
                    scale_factor_milli: current(v).scale_factor_milli,
                    format: v.settings.format,
                },
            },
        )
    } else {
        let outcome = missing_outcome(v);
        (
            drop_asset(v, outcome),
            StepView {
                events: seq![
                    EventView::MissingAsset(
                        current(v).name,
                        v.settings.container,
                        outcome->MissingAsset_suggestions,
                    ),
                ],
                action: ActionView::Continue,
            },
        )
    }
}

/// One step of a run: the state after `reply`, what is to be reported, and
/// what is asked next. Between two tasks the reply is not read.
pub open spec fn step(v: RunView, reply: ReplyView) -> (RunView, StepView) {
    match v.phase {
        PhaseView::Finished => (
            v,
            StepView { events: Seq::empty(), action: ActionView::Stop },
        ),
        PhaseView::Ready => take_up(v),
        PhaseView::AwaitHandle => match reply {
            ReplyView::Failed(cause) => fail(v, Stage::Handle, cause),
            ReplyView::Done(url) => (
                RunView { phase: PhaseView::AwaitDownload, ..v },
                StepView {
                    events: seq![
                        EventView::DownloadingAsset(current(v).name, current(v).scale_label),
                    ],
                    action: ActionView::Download {
                        url,
                        res_name: current(v).res_name,
                        scale_label: current(v).scale_label,
                        format: v.settings.format,
                    },
                },
            ),
        },
        PhaseView::AwaitDownload => match reply {
            ReplyView::Failed(cause) => fail(v, Stage::Download, cause),
            ReplyView::Done(file) => if needs_reencoding(v.settings.format) {
                (
                    RunView { phase: PhaseView::AwaitReencode, ..v },
                    StepView {
                        events: seq![
                            EventView::ReencodingAsset(current(v).name, current(v).scale_label),
                        ],
                        action: ActionView::Reencode { file, quality_milli: v.settings.quality_milli },
                    },
                )
            } else {
                place(v, file, Seq::empty())
            },
        },
        PhaseView::AwaitReencode => match reply {
            ReplyView::Failed(cause) => fail(v, Stage::Reencode, cause),
            ReplyView::Done(file) => place(
                v,
                file,
                seq![EventView::AssetReencoded(current(v).name, current(v).scale_label)],
            ),
        },
        PhaseView::AwaitDirectory { file } => match reply {
            ReplyView::Failed(cause) => fail(v, Stage::CreateDir, cause),
            ReplyView::Done(_) => (
                RunView { phase: PhaseView::AwaitMove, ..v },
                StepView {
                    events: Seq::empty(),
                    action: ActionView::MoveFile {
                        from: file,
                        to: file_path(
                            drawable_dir(v.settings.res_dir, current(v).scale_label, v.settings.format),
                            current(v).res_name,
                            v.settings.format,
                        ),
                    },
                },
            ),
        },
        PhaseView::AwaitMove => match reply {
            ReplyView::Failed(cause) => fail(v, Stage::Move, cause),
            ReplyView::Done(_) => (
                finish_task(v, OutcomeView::Success),
                StepView {
                    events: seq![
                        EventView::AssetExported(current(v).name, current(v).scale_label),
                    ],
                    action: ActionView::Continue,
                },
            ),
        },
    }
}

/// Task `j` of the image that is being worked on: where it stands in the
/// plan, and that it bears the image's name.
pub proof fn lemma_task_of_asset(v: RunView, i: int, j: int)
    requires
        v.tasks == planned(v.names, v.settings.scales, v.settings.format),
        v.per == effective_scales(v.settings.scales, v.settings.format).len(),
        0 <= i < v.names.len(),
        0 <= j < v.per,
    ensures
        0 <= i * v.per + j < v.tasks.len(),
        (i + 1) * v.per <= v.tasks.len(),
        (i + 1) * v.per == i * v.per + v.per,
        v.tasks[i * v.per + j] == task_for(
            v.names[i],
            effective_scales(v.settings.scales, v.settings.format)[j],
            v.settings.format,
        ),
        v.tasks[i * v.per + j].name == v.names[i],
        (i * v.per + j) % (v.per as int) == j,
        (i * v.per + j) / (v.per as int) == i,
{
    let per = v.per as int;
    lemma_planned_at(v.names, v.settings.scales, v.settings.format, i, j);
    lemma_planned_at(v.names, v.settings.scales, v.settings.format, i, per - 1);
    assert((i + 1) * per == i * per + per) by (nonlinear_arith);
    lemma_fundamental_div_mod_converse(i * per + j, per, i, j);
}

/// Where the cursor stands: on a task of the plan exactly while an image
/// is left, and then on the task of that image at the scale that is being
/// worked on.
pub proof fn lemma_cursor(v: RunView)
    requires
        consistent(v),
    ensures
        v.tasks.len() == v.names.len() * v.per,
        v.cursor <= v.tasks.len(),
        v.asset < v.names.len() <==> v.cursor < v.tasks.len(),
        v.asset < v.names.len() ==> {
            &&& (v.asset + 1) * v.per <= v.tasks.len()
            &&& (v.asset + 1) * v.per == v.asset * v.per + v.per
            &&& current(v) == task_for(
                v.names[v.asset as int],
                effective_scales(v.settings.scales, v.settings.format)[v.scale as int],
                v.settings.format,
            )
            &&& current(v).name == v.names[v.asset as int]
            &&& v.cursor % v.per == v.scale
        },
{
    if v.asset < v.names.len() {
        lemma_task_of_asset(v, v.asset as int, v.scale as int);
    }
}

/// A run is consistent before its first step.
pub proof fn lemma_begin_consistent(
    settings: SettingsView,
    index: Map<Seq<char>, Seq<char>>,
    keys: Seq<Seq<char>>,
    names: Seq<Seq<char>>,
)
    requires
        keys.no_duplicates(),
        forall|name: Seq<char>| index.contains_key(name) <==> keys.contains(name),
    ensures
        consistent(begin(settings, index, keys, names)),
{
    let v = begin(settings, index, keys, names);
    assert(v.asset * v.per == 0) by (nonlinear_arith)
        requires
            v.asset == 0 || v.per == 0,
    ;
}

/// A step leaves a run consistent.
pub proof fn lemma_step_consistent(v: RunView, reply: ReplyView)
    requires
        consistent(v),
    ensures
        consistent(step(v, reply).0),
{
    let w = step(v, reply).0;
    let per = v.per as int;
    lemma_cursor(v);
    if v.phase is Finished {
    } else if v.phase is Ready {
        if v.cursor >= v.tasks.len() {
            assert forall|k: int| 0 <= k < w.log.len() implies entry_fits(w, k) by {
                assert(entry_fits(v, k));
            }
        } else if v.index.contains_key(current(v).name) {
            assert forall|k: int| 0 <= k < w.log.len() implies entry_fits(w, k) by {
                assert(entry_fits(v, k));
            }
        } else {
            assert(v.scale == 0);
            assert forall|k: int| 0 <= k < w.log.len() implies entry_fits(w, k) by {
                if k < v.cursor {
                    assert(entry_fits(v, k));
                    assert(w.log[k] == v.log[k]);
                } else {
                    lemma_task_of_asset(v, v.asset as int, k - v.cursor);
                }
            }
        }
    } else {
        if w.cursor == v.cursor {
            assert forall|k: int| 0 <= k < w.log.len() implies entry_fits(w, k) by {
                assert(entry_fits(v, k));
            }
        } else {
            assert(w.log.len() == v.cursor + 1);
            assert forall|k: int| 0 <= k < w.log.len() implies entry_fits(w, k) by {
                if k < v.cursor {
                    assert(entry_fits(v, k));
                    assert(w.log[k] == v.log[k]);
                }
            }
        }
    }
}

/// An image that the container does not hold is never exported and never
/// fails at a stage: its first task finds it missing, and its other tasks
/// are passed over.
pub proof fn lemma_missing_asset_dropped(v: RunView, k: int)
    requires
        consistent(v),
        0 <= k < v.log.len(),
        !v.index.contains_key(v.tasks[k].name),
    ensures
        v.log[k] != Some(OutcomeView::Success),
        !(v.log[k] is Some && v.log[k].unwrap() is TransientFailure),
        k % (v.per as int) == 0 ==> v.log[k] is Some && v.log[k].unwrap() is MissingAsset,
        k % (v.per as int) != 0 ==> v.log[k] is None,
        v.tasks[k - k % (v.per as int)].name == v.tasks[k].name,
        v.log[k - k % (v.per as int)] is Some,
        v.log[k - k % (v.per as int)].unwrap() is MissingAsset,
{
    let per = v.per as int;
    assert(entry_fits(v, k));
    lemma_cursor(v);
    assert(per > 0) by {
        if per == 0 {
            assert(v.names.len() * 0 == 0);
        }
    }
    let i = k / per;
    let j = k % per;
    lemma_fundamental_div_mod(k, per);
    assert(per * i == i * per) by (nonlinear_arith);
    assert(0 <= i) by (nonlinear_arith)
        requires
            0 <= k,
            0 < per,
            i == k / per,
    ;
    assert(i < v.names.len()) by (nonlinear_arith)
        requires
            k == i * per + j,
            0 <= j,
            k < v.names.len() * per,
            0 < per,
    ;
    lemma_task_of_asset(v, i, j);
    lemma_task_of_asset(v, i, 0);
    assert(entry_fits(v, i * per));
}

/// A failure at a stage ends that task alone. The run goes on with the
/// task that follows; where that is another scale of the same image and
/// each of its stages answers, it ends in success.
pub proof fn lemma_failure_spares_siblings(
    v: RunView,
    cause: Seq<char>,
    url: Seq<char>,
    fetched: Seq<char>,
    encoded: Seq<char>,
)
    requires
        consistent(v),
        awaiting(v.phase),
        v.scale + 1 < v.per,
    ensures
        ({
            let nothing = ReplyView::Done(Seq::empty());
            let failed = step(v, ReplyView::Failed(cause)).0;
            let taken_up = step(failed, nothing).0;
            let linked = step(taken_up, ReplyView::Done(url)).0;
            let loaded = step(linked, ReplyView::Done(fetched)).0;
            let made = if needs_reencoding(v.settings.format) {
                step(loaded, ReplyView::Done(encoded)).0
            } else {
                loaded
            };
            let housed = step(made, nothing).0;
            let placed = step(housed, nothing).0;
            &&& failed.log == v.log.push(failed.log[v.cursor as int])
            &&& failed.log[v.cursor as int] is Some
            &&& failed.log[v.cursor as int].unwrap() is TransientFailure
            &&& failed.cursor == v.cursor + 1
            &&& current(failed).name == current(v).name
            &&& placed.log == failed.log.push(Some(OutcomeView::Success))
        }),
{
    lemma_task_of_asset(v, v.asset as int, v.scale as int);
    lemma_task_of_asset(v, v.asset as int, (v.scale + 1) as int);
    let failed = step(v, ReplyView::Failed(cause)).0;
    lemma_step_consistent(v, ReplyView::Failed(cause));
    assert(failed.log =~= v.log.push(failed.log[v.cursor as int]));
}

/// How many steps a run can still take at most.
pub open spec fn steps_left(v: RunView) -> int {
    let waiting: int = match v.phase {
        PhaseView::Ready => 6,
        PhaseView::AwaitHandle => 5,
        PhaseView::AwaitDownload => 4,
        PhaseView::AwaitReencode => 3,
        PhaseView::AwaitDirectory { .. } => 2,
        PhaseView::AwaitMove => 1,
        PhaseView::Finished => 0,
    };
    (v.tasks.len() - v.cursor) * 7 + waiting
}

/// Every step brings a run nearer to its end: whatever the replies, a run
/// is over after finitely many steps.
pub proof fn lemma_step_progress(v: RunView, reply: ReplyView)
    requires
        consistent(v),
        !(v.phase is Finished),
    ensures
        0 <= steps_left(step(v, reply).0) < steps_left(v),
        step(v, reply).0.cursor <= v.tasks.len(),
{
    lemma_cursor(v);
    lemma_step_consistent(v, reply);
    let w = step(v, reply).0;
    lemma_cursor(w);
}

} // verus!
