//! The PDF export as a sequence of steps.
//!
//! An export is linear: five stages, each announced to the caller before its
//! work begins, and no retries. The work itself (writing files, driving the
//! browser) is done by the caller; this module decides which step comes next
//! and how a failure ends the export.

use vstd::prelude::*;
use vstd::string::StringExecFns;

verus! {

/// One of the five stages that an export announces.
#[derive(Clone, Copy, Debug, PartialEq, Eq, Structural)]
pub enum ExportStage {
    /// Rendering the note as an HTML page and writing it to a temporary file.
    Html,
    /// Starting the headless browser.
    Browser,
    /// Loading the temporary page into the browser.
    Load,
    /// Printing the loaded page to PDF bytes.
    Pdf,
    /// Writing the PDF to its destination and cleaning up.
    Complete,
}

/// What the caller is told when a stage begins.
#[derive(Clone, Debug, PartialEq, Eq)]
pub struct ProgressEvent {
    /// The stage's short name.
    pub stage: String,
    /// A message for the user.
    pub message: String,
    /// How far the export has come, in percent.
    pub progress: u8,
}

/// The mathematical content of a [`ProgressEvent`].
pub struct ProgressEventView {
    pub stage: Seq<char>,
    pub message: Seq<char>,
    pub progress: nat,
}

impl View for ProgressEvent {
    type V = ProgressEventView;

    open spec fn view(&self) -> ProgressEventView {
        ProgressEventView {
            stage: self.stage@,
            message: self.message@,
            progress: self.progress as nat,
        }
    }
}

impl ExportStage {
    /// The position of the stage among the five, from zero.
    pub open spec fn position(self) -> nat {
        match self {
            ExportStage::Html => 0,
            ExportStage::Browser => 1,
            ExportStage::Load => 2,
            ExportStage::Pdf => 3,
            ExportStage::Complete => 4,
        }
    }

    /// The stage's short name.
    pub open spec fn spec_name(self) -> Seq<char> {
        match self {
            ExportStage::Html => "html"@,
            ExportStage::Browser => "browser"@,
            ExportStage::Load => "load"@,
            ExportStage::Pdf => "pdf"@,
            ExportStage::Complete => "complete"@,
        }
    }

    /// The message shown to the user while the stage runs.
    pub open spec fn spec_message(self) -> Seq<char> {
        match self {
            ExportStage::Html => "生成HTML文档..."@,
            ExportStage::Browser => "启动浏览器引擎..."@,
            ExportStage::Load => "加载文档内容..."@,
            ExportStage::Pdf => "生成PDF文件..."@,
            ExportStage::Complete => "导出完成！"@,
        }
    }

    /// The percentage announced with the stage: a fifth more for each stage.
    pub open spec fn spec_progress(self) -> nat {
        20 * (self.position() + 1)
    }

    /// The stage that follows, if any.
    pub open spec fn spec_next(self) -> Option<ExportStage> {
        match self {
            ExportStage::Html => Some(ExportStage::Browser),
            ExportStage::Browser => Some(ExportStage::Load),
            ExportStage::Load => Some(ExportStage::Pdf),
            ExportStage::Pdf => Some(ExportStage::Complete),
            ExportStage::Complete => None,
        }
    }

    /// What the caller is told when the stage begins.
    pub open spec fn spec_event(self) -> ProgressEventView {
        ProgressEventView {
            stage: self.spec_name(),
            message: self.spec_message(),
            progress: self.spec_progress(),
        }
    }

    /// The stage's short name.
    pub fn name(self) -> (name: &'static str)
        ensures
            name@ == self.spec_name(),
    {
        match self {
            ExportStage::Html => "html",
            ExportStage::Browser => "browser",
            ExportStage::Load => "load",
            ExportStage::Pdf => "pdf",
            ExportStage::Complete => "complete",
        }
    }

    /// The message shown to the user while the stage runs.
    pub fn message(self) -> (message: &'static str)
        ensures
            message@ == self.spec_message(),
    {
        match self {
            ExportStage::Html => "生成HTML文档...",
            ExportStage::Browser => "启动浏览器引擎...",
            ExportStage::Load => "加载文档内容...",
            ExportStage::Pdf => "生成PDF文件...",
            ExportStage::Complete => "导出完成！",
        }
    }

    /// The percentage announced with the stage.
    pub fn progress(self) -> (percent: u8)
        ensures
            percent == self.spec_progress(),
    {
        match self {
            ExportStage::Html => 20,
            ExportStage::Browser => 40,
            ExportStage::Load => 60,
            ExportStage::Pdf => 80,
            ExportStage::Complete => 100,
        }
    }

    /// The stage that follows, if any.
    pub fn next(self) -> (next: Option<ExportStage>)
        ensures
            next == self.spec_next(),
    {
        match self {
            ExportStage::Html => Some(ExportStage::Browser),
            ExportStage::Browser => Some(ExportStage::Load),
            ExportStage::Load => Some(ExportStage::Pdf),
            ExportStage::Pdf => Some(ExportStage::Complete),
            ExportStage::Complete => None,
        }
    }

    /// What the caller is told when the stage begins.
    pub fn event(self) -> (event: ProgressEvent)
        ensures
            event@ == self.spec_event(),
    {
        ProgressEvent {
            stage: String::from_str(self.name()),
            message: String::from_str(self.message()),
            progress: self.progress(),
        }
    }
}

/// One unit of work in an export. Each is performed by the caller, who
/// reports back whether it succeeded.
#[derive(Clone, Copy, Debug, PartialEq, Eq, Structural)]
pub enum ExportStep {
    /// Tell the caller that a stage begins.
    Report(ExportStage),
    /// Find the data directory, creating it if need be.
    ResolveDataDir,
    /// Write the rendered page to the temporary file in the data directory.
    WriteHtml,
    /// Start a headless browser with default settings.
    LaunchBrowser,
    /// Open a tab in the browser.
    OpenTab,
    /// Point the tab at the temporary file.
    Navigate,
    /// Block until the navigation has completed.
    AwaitNavigation,
    /// Wait for [`SETTLE_DELAY_MS`] so that rendering can finish.
    Settle,
    /// Print the page to PDF bytes with [`print_settings`].
    PrintPdf,
    /// Write the PDF bytes to the destination.
    WritePdf,
    /// Delete the temporary file; a failure here is ignored.
    RemoveHtml,
}

/// Where an export stands.
#[derive(Clone, Debug, PartialEq, Eq)]
pub enum ExportState {
    /// The given step is to be performed next.
    Running(ExportStep),
    /// Every step has been performed.
    Done,
    /// A step failed; the export has ended with this message.
    Failed(String),
}

/// The mathematical content of an [`ExportState`].
pub enum ExportStateView {
    Running(ExportStep),
    Done,
    Failed(Seq<char>),
}

impl View for ExportState {
    type V = ExportStateView;

    open spec fn view(&self) -> ExportStateView {
        match self {
            ExportState::Running(step) => ExportStateView::Running(*step),
            ExportState::Done => ExportStateView::Done,
            ExportState::Failed(message) => ExportStateView::Failed(message@),
        }
    }
}

/// How long to wait after navigation before printing, in milliseconds.
pub const SETTLE_DELAY_MS: u64 = 500;

impl ExportStep {
    /// The stage that the step is part of.
    pub open spec fn stage(self) -> ExportStage {
        match self {
            ExportStep::Report(stage) => stage,
            ExportStep::ResolveDataDir | ExportStep::WriteHtml => ExportStage::Html,
            ExportStep::LaunchBrowser | ExportStep::OpenTab => ExportStage::Browser,
            ExportStep::Navigate | ExportStep::AwaitNavigation | ExportStep::Settle => {
                ExportStage::Load
            },
            ExportStep::PrintPdf => ExportStage::Pdf,
            ExportStep::WritePdf | ExportStep::RemoveHtml => ExportStage::Complete,
        }
    }

    /// The step that follows when this one has been performed, if any.
    pub open spec fn successor(self) -> Option<ExportStep> {
        match self {
            ExportStep::Report(ExportStage::Html) => Some(ExportStep::ResolveDataDir),
            ExportStep::ResolveDataDir => Some(ExportStep::WriteHtml),
            ExportStep::WriteHtml => Some(ExportStep::Report(ExportStage::Browser)),
            ExportStep::Report(ExportStage::Browser) => Some(ExportStep::LaunchBrowser),
            ExportStep::LaunchBrowser => Some(ExportStep::OpenTab),
            ExportStep::OpenTab => Some(ExportStep::Report(ExportStage::Load)),
            ExportStep::Report(ExportStage::Load) => Some(ExportStep::Navigate),
            ExportStep::Navigate => Some(ExportStep::AwaitNavigation),
            ExportStep::AwaitNavigation => Some(ExportStep::Settle),
            ExportStep::Settle => Some(ExportStep::Report(ExportStage::Pdf)),
            ExportStep::Report(ExportStage::Pdf) => Some(ExportStep::PrintPdf),
            ExportStep::PrintPdf => Some(ExportStep::Report(ExportStage::Complete)),
            ExportStep::Report(ExportStage::Complete) => Some(ExportStep::WritePdf),
            ExportStep::WritePdf => Some(ExportStep::RemoveHtml),
            ExportStep::RemoveHtml => None,
        }
    }

    /// Whether the export goes on when the step fails.
    pub open spec fn failure_is_ignored(self) -> bool {
        self == ExportStep::RemoveHtml
    }

    /// The message with which the export ends when the step fails with
    /// `detail`.
    pub open spec fn failure_message(self, detail: Seq<char>) -> Seq<char> {
        if self == ExportStep::LaunchBrowser {
            "Failed to launch browser: "@ + detail
        } else {
            detail
        }
    }

    /// Where the export stands once the step has been performed.
    pub open spec fn proceed(self) -> ExportStateView {
        match self.successor() {
            Some(step) => ExportStateView::Running(step),
            None => ExportStateView::Done,
        }
    }

    /// Where the export stands once the step has ended with `outcome`.
    pub open spec fn after(self, outcome: Result<(), Seq<char>>) -> ExportStateView {
        match outcome {
            Ok(_) => self.proceed(),
            Err(detail) => if self.failure_is_ignored() {
                self.proceed()
            } else {
                ExportStateView::Failed(self.failure_message(detail))
            },
        }
    }
}

/// The mathematical content of a step's outcome.
pub open spec fn outcome_view(outcome: Result<(), String>) -> Result<(), Seq<char>> {
    match outcome {
        Ok(_) => Ok(()),
        Err(detail) => Err(detail@),
    }
}

/// The state in which every export starts: the first stage is announced.
pub open spec fn initial_state() -> ExportStateView {
    ExportStateView::Running(ExportStep::Report(ExportStage::Html))
}

/// Starts an export.
pub fn begin() -> (state: ExportState)
    ensures
        state@ == initial_state(),
{
    ExportState::Running(ExportStep::Report(ExportStage::Html))
}

fn step_after(step: ExportStep) -> (state: ExportState)
    ensures
        state@ == step.proceed(),
{
    match step {
        ExportStep::Report(ExportStage::Html) => ExportState::Running(ExportStep::ResolveDataDir),
        ExportStep::ResolveDataDir => ExportState::Running(ExportStep::WriteHtml),
        ExportStep::WriteHtml => ExportState::Running(ExportStep::Report(ExportStage::Browser)),
        ExportStep::Report(ExportStage::Browser) => ExportState::Running(
            ExportStep::LaunchBrowser,
        ),
        ExportStep::LaunchBrowser => ExportState::Running(ExportStep::OpenTab),
        ExportStep::OpenTab => ExportState::Running(ExportStep::Report(ExportStage::Load)),
        ExportStep::Report(ExportStage::Load) => ExportState::Running(ExportStep::Navigate),
        ExportStep::Navigate => ExportState::Running(ExportStep::AwaitNavigation),
        ExportStep::AwaitNavigation => ExportState::Running(ExportStep::Settle),
        ExportStep::Settle => ExportState::Running(ExportStep::Report(ExportStage::Pdf)),
        ExportStep::Report(ExportStage::Pdf) => ExportState::Running(ExportStep::PrintPdf),
        ExportStep::PrintPdf => ExportState::Running(ExportStep::Report(ExportStage::Complete)),
        ExportStep::Report(ExportStage::Complete) => ExportState::Running(ExportStep::WritePdf),
        ExportStep::WritePdf => ExportState::Running(ExportStep::RemoveHtml),
        ExportStep::RemoveHtml => ExportState::Done,
    }
}

/// Decides how the export goes on once `step` has ended with `outcome`.
///
/// A success leads to the next step, or ends the export after the last one.
/// A failure ends the export at once with the failure's message, which for
/// the browser launch is prefixed; only a failed removal of the temporary
/// file is passed over.
pub fn advance(step: ExportStep, outcome: Result<(), String>) -> (state: ExportState)
    ensures
        state@ == step.after(outcome_view(outcome)),
{
    match outcome {
        Ok(_) => step_after(step),
        Err(detail) => match step {
            ExportStep::RemoveHtml => step_after(step),
            ExportStep::LaunchBrowser => {
                let mut message = String::from_str("Failed to launch browser: ");
                message.append(detail.as_str());
                ExportState::Failed(message)
            },
            _ => ExportState::Failed(detail),
        },
    }
}

/// The steps of an export in which nothing fails, in the order in which they
/// are performed.
pub open spec fn plan() -> Seq<ExportStep> {
    seq![
        ExportStep::Report(ExportStage::Html),
        ExportStep::ResolveDataDir,
        ExportStep::WriteHtml,
        ExportStep::Report(ExportStage::Browser),
        ExportStep::LaunchBrowser,
        ExportStep::OpenTab,
        ExportStep::Report(ExportStage::Load),
        ExportStep::Navigate,
        ExportStep::AwaitNavigation,
        ExportStep::Settle,
        ExportStep::Report(ExportStage::Pdf),
        ExportStep::PrintPdf,
        ExportStep::Report(ExportStage::Complete),
        ExportStep::WritePdf,
        ExportStep::RemoveHtml,
    ]
}

/// The state of an export that has performed the first `done` steps of the
/// plan without a failure that counts.
pub open spec fn state_at(done: int) -> ExportStateView {
    if 0 <= done < plan().len() {
        ExportStateView::Running(plan()[done])
    } else {
        ExportStateView::Done
    }
}

/// The state reached from `state` when the steps performed from there on end
/// with `outcomes`, one after the other. Outcomes that come after the export
/// has ended change nothing.
pub open spec fn run(state: ExportStateView, outcomes: Seq<Result<(), Seq<char>>>)
    -> ExportStateView
    decreases outcomes.len(),
{
    if outcomes.len() == 0 {
        state
    } else {
        match state {
            ExportStateView::Running(step) => run(
                step.after(outcomes.first()),
                outcomes.drop_first(),
            ),
            _ => state,
        }
    }
}

/// The steps performed from `state` on when they end with `outcomes`.
pub open spec fn performed(state: ExportStateView, outcomes: Seq<Result<(), Seq<char>>>) -> Seq<
    ExportStep,
>
    decreases outcomes.len(),
{
    if outcomes.len() == 0 {
        Seq::empty()
    } else {
        match state {
            ExportStateView::Running(step) => seq![step] + performed(
                step.after(outcomes.first()),
                outcomes.drop_first(),
            ),
            _ => Seq::empty(),
        }
    }
}

/// The stages announced by `steps`, in order.
pub open spec fn announced(steps: Seq<ExportStep>) -> Seq<ExportStage>
    decreases steps.len(),
{
    if steps.len() == 0 {
        Seq::empty()
    } else {
        match steps.last() {
            ExportStep::Report(stage) => announced(steps.drop_last()).push(stage),
            _ => announced(steps.drop_last()),
        }
    }
}

/// Whether the export goes on after the step at position `at` of the plan
/// has ended with `outcome`.
pub open spec fn goes_on(at: int, outcome: Result<(), Seq<char>>) -> bool {
    outcome is Ok || plan()[at].failure_is_ignored()
}

/// Each step of the plan leads to the next one, and the last one to the end.
pub proof fn lemma_plan_is_followed(at: int)
    requires
        0 <= at < plan().len(),
    ensures
        plan().len() == 15,
        initial_state() == state_at(0),
        plan()[at].proceed() == state_at(at + 1),
{
}

/// A stage is announced before any of its work: every step of the plan
/// either announces its stage or follows a step of the same stage.
pub proof fn lemma_stage_is_announced_first(at: int)
    requires
        0 <= at < plan().len(),
    ensures
        plan()[at] == ExportStep::Report(plan()[at].stage()) || (at > 0 && plan()[at - 1].stage()
            == plan()[at].stage()),
{
}

/// As long as no step fails, bar those whose failure is ignored, an export
/// that has performed `done` steps of the plan performs the ones that follow
/// it in the plan.
pub proof fn lemma_run_follows_plan(done: int, outcomes: Seq<Result<(), Seq<char>>>)
    requires
        0 <= done,
        done + outcomes.len() <= plan().len(),
        forall|k: int| 0 <= k < outcomes.len() ==> goes_on(done + k, #[trigger] outcomes[k]),
    ensures
        run(state_at(done), outcomes) == state_at(done + outcomes.len()),
        performed(state_at(done), outcomes) == plan().subrange(done, done + outcomes.len()),
    decreases outcomes.len(),
{
    if outcomes.len() == 0 {
        assert(plan().subrange(done, done) =~= Seq::<ExportStep>::empty());
    } else {
        let rest = outcomes.drop_first();
        assert(goes_on(done, outcomes[0]));
        lemma_plan_is_followed(done);
        assert(plan()[done].after(outcomes.first()) == state_at(done + 1));
        assert forall|k: int| 0 <= k < rest.len() implies goes_on(
            done + 1 + k,
            #[trigger] rest[k],
        ) by {
            assert(rest[k] == outcomes[k + 1]);
        }
        lemma_run_follows_plan(done + 1, rest);
        assert(plan().subrange(done, done + outcomes.len()) =~= seq![plan()[done]]
            + plan().subrange(done + 1, done + 1 + rest.len()));
    }
}

/// An export in which no step fails, bar the removal of the temporary file,
/// performs the whole plan and ends as done. Its caller is told of the five
/// stages in order, with a fifth more progress each time.
pub proof fn lemma_successful_export(outcomes: Seq<Result<(), Seq<char>>>)
    requires
        outcomes.len() == plan().len(),
        forall|k: int| 0 <= k < outcomes.len() ==> goes_on(k, #[trigger] outcomes[k]),
    ensures
        run(initial_state(), outcomes) == ExportStateView::Done,
        performed(initial_state(), outcomes) == plan(),
        announced(plan()) == seq![
            ExportStage::Html,
            ExportStage::Browser,
            ExportStage::Load,
            ExportStage::Pdf,
            ExportStage::Complete,
        ],
        announced(plan()).map_values(|stage: ExportStage| stage.spec_progress()) == seq![
            20nat,
            40nat,
            60nat,
            80nat,
            100nat,
        ],
{
    lemma_run_follows_plan(0, outcomes);
    assert(plan().subrange(0, plan().len() as int) =~= plan());
    lemma_announced_in_plan();
    assert(announced(plan()).map_values(|stage: ExportStage| stage.spec_progress()) =~= seq![
        20nat,
        40nat,
        60nat,
        80nat,
        100nat,
    ]);
}

/// The first failure that counts ends the export with that failure's
/// message, and no step is performed after the one that failed.
pub proof fn lemma_failed_export(outcomes: Seq<Result<(), Seq<char>>>, detail: Seq<char>)
    requires
        0 < outcomes.len() <= plan().len(),
        forall|k: int| 0 <= k < outcomes.len() - 1 ==> goes_on(k, #[trigger] outcomes[k]),
        outcomes.last() == Err::<(), Seq<char>>(detail),
        !plan()[outcomes.len() - 1].failure_is_ignored(),
    ensures
        run(initial_state(), outcomes) == ExportStateView::Failed(
            plan()[outcomes.len() - 1].failure_message(detail),
        ),
        performed(initial_state(), outcomes) == plan().take(outcomes.len() as int),
{
    let before = outcomes.drop_last();
    let failed = seq![outcomes.last()];
    let at = before.len() as int;
    assert(outcomes =~= before + failed);
    assert forall|k: int| 0 <= k < before.len() implies goes_on(k, #[trigger] before[k]) by {
        assert(before[k] == outcomes[k]);
    }
    lemma_run_follows_plan(0, before);
    lemma_run_splits(initial_state(), before, failed);
    assert(failed.drop_first() =~= Seq::<Result<(), Seq<char>>>::empty());
    assert(run(state_at(at), failed) == run(
        plan()[at].after(failed.first()),
        failed.drop_first(),
    ));
    assert(performed(plan()[at].after(failed.first()), failed.drop_first())
        =~= Seq::<ExportStep>::empty());
    assert(performed(state_at(at), failed) =~= seq![plan()[at]]);
    assert(plan().take(outcomes.len() as int) =~= plan().subrange(0, at) + seq![plan()[at]]);
}

/// Once an export has ended, further outcomes change nothing and no step is
/// performed.
pub proof fn lemma_ended_export_stays(state: ExportStateView, outcomes: Seq<Result<(), Seq<char>>>)
    requires
        !(state is Running),
    ensures
        run(state, outcomes) == state,
        performed(state, outcomes) == Seq::<ExportStep>::empty(),
{
}

/// Running through `first` and then `second` is running through both.
pub proof fn lemma_run_splits(
    state: ExportStateView,
    first: Seq<Result<(), Seq<char>>>,
    second: Seq<Result<(), Seq<char>>>,
)
    ensures
        run(state, first + second) == run(run(state, first), second),
        performed(state, first + second) == performed(state, first) + performed(
            run(state, first),
            second,
        ),
    decreases first.len(),
{
    if first.len() == 0 {
        assert(first + second =~= second);
        assert(performed(state, first) + performed(run(state, first), second) =~= performed(
            state,
            second,
        ));
    } else {
        let both = first + second;
        assert(both.first() == first.first());
        assert(both.drop_first() =~= first.drop_first() + second);
        match state {
            ExportStateView::Running(step) => {
                let next = step.after(first.first());
                lemma_run_splits(next, first.drop_first(), second);
                assert(performed(state, both) =~= performed(state, first) + performed(
                    run(state, first),
                    second,
                ));
            },
            _ => {
                lemma_ended_export_stays(state, first);
                lemma_ended_export_stays(state, second);
                lemma_ended_export_stays(state, both);
            },
        }
    }
}

proof fn lemma_announced_in_plan()
    ensures
        announced(plan()) == seq![
            ExportStage::Html,
            ExportStage::Browser,
            ExportStage::Load,
            ExportStage::Pdf,
            ExportStage::Complete,
        ],
{
    let p = plan();
    assert(p.take(0) =~= Seq::<ExportStep>::empty());
    assert(announced(p.take(0)) =~= Seq::<ExportStage>::empty());
    lemma_announced_step(1);
    lemma_announced_step(2);
    lemma_announced_step(3);
    lemma_announced_step(4);
    lemma_announced_step(5);
    lemma_announced_step(6);
    lemma_announced_step(7);
    lemma_announced_step(8);
    lemma_announced_step(9);
    lemma_announced_step(10);
    lemma_announced_step(11);
    lemma_announced_step(12);
    lemma_announced_step(13);
    lemma_announced_step(14);
    lemma_announced_step(15);
    assert(p.take(15) =~= p);
    assert(announced(p) =~= seq![
        ExportStage::Html,
        ExportStage::Browser,
        ExportStage::Load,
        ExportStage::Pdf,
        ExportStage::Complete,
    ]);
}

proof fn lemma_announced_step(n: int)
    requires
        0 < n <= plan().len(),
    ensures
        announced(plan().take(n)) == match plan()[n - 1] {
            ExportStep::Report(stage) => announced(plan().take(n - 1)).push(stage),
            _ => announced(plan().take(n - 1)),
        },
{
    assert(plan().take(n).drop_last() =~= plan().take(n - 1));
    assert(plan().take(n).last() == plan()[n - 1]);
}

/// How the browser prints the page. Lengths are in hundredths of an inch and
/// the scale is in percent.
#[derive(Clone, Copy, Debug, PartialEq, Eq, Structural)]
pub struct PrintSettings {
    pub landscape: bool,
    pub display_header_footer: bool,
    pub print_background: bool,
    pub scale_percent: u32,
    pub paper_width: u32,
    pub paper_height: u32,
    pub margin_top: u32,
    pub margin_bottom: u32,
    pub margin_left: u32,
    pub margin_right: u32,
    pub prefer_css_page_size: bool,
}

/// The settings of every export: an A4 page in portrait, 8.27 by 11.69
/// inches, with margins of 0.4 inches, at full scale, with background
/// graphics and without header or footer, whatever page size the page's own
/// style sheet asks for.
pub open spec fn spec_print_settings() -> PrintSettings {
    PrintSettings {
        landscape: false,
        display_header_footer: false,
        print_background: true,
        scale_percent: 100,
        paper_width: 827,
        paper_height: 1169,
        margin_top: 40,
        margin_bottom: 40,
        margin_left: 40,
        margin_right: 40,
        prefer_css_page_size: false,
    }
}

/// The settings with which every export prints.
pub fn print_settings() -> (settings: PrintSettings)
    ensures
        settings == spec_print_settings(),
{
    PrintSettings {
        landscape: false,
        display_header_footer: false,
        print_background: true,
        scale_percent: 100,
        paper_width: 827,
        paper_height: 1169,
        margin_top: 40,
        margin_bottom: 40,
        margin_left: 40,
        margin_right: 40,
        prefer_css_page_size: false,
    }
}

/// The address under which the browser finds the local file at `path`.
pub fn file_url(path: &str) -> (url: String)
    ensures
        url@ == "file://"@ + path@,
{
    let mut url = String::from_str("file://");
    url.append(path);
    url
}

} // verus!
