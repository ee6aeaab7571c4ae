//! A run of a device's plan: which command goes to the device next, and how the run ends.
//!
//! A [`CastRun`] decides and nothing more. Whoever drives it carries out one command at a time and
//! hands back what came of it.
use crate::cast::{
    build_resume_load, find_media_app, load_request_for, plan_loads, App, AppId, AppView,
    LoadRequestData, LoadView, MediaInformation, MediaView, PlannedLoad, RequestView,
};
use crate::cast;
use crate::flags::Action;
use crate::text;
use crate::time::Duration;
use vstd::prelude::*;
use vstd::string::*;

verus! {

/// What was playing before a run interrupted it.
#[derive(Debug)]
pub struct ResumePoint {
    pub app_id: AppId,
    pub media: MediaInformation,
    /// The position in seconds: the bits of a double precision number.
    pub current_time: u64,
}

/// The model of a [`ResumePoint`].
pub struct ResumeView {
    pub app_id: AppId,
    pub media: MediaView,
    pub current_time: u64,
}

impl View for ResumePoint {
    type V = ResumeView;

    open spec fn view(&self) -> ResumeView {
        ResumeView {
            app_id: self.app_id,
            media: self.media@,
            current_time: self.current_time,
        }
    }
}

/// What an application says of a piece of media that it has loaded.
#[derive(Debug)]
pub struct MediaStatus {
    pub media: Option<MediaInformation>,
    /// The position in seconds: the bits of a double precision number.
    pub current_time: u64,
}

/// The model of a [`MediaStatus`].
pub struct StatusView {
    pub media: Option<MediaView>,
    pub current_time: u64,
}

impl View for MediaStatus {
    type V = StatusView;

    open spec fn view(&self) -> StatusView {
        StatusView {
            media: match self.media {
                Some(m) => Some(m@),
                None => None,
            },
            current_time: self.current_time,
        }
    }
}

/// Something to be done with the device.
#[derive(Debug)]
pub enum Command {
    /// Connect to the receiver at this address.
    Connect(String),
    /// Ask the receiver which applications run.
    ReadStatus,
    /// Open a virtual connection to a running application.
    JoinApp(App),
    /// Ask a running application what it plays.
    QueryMedia(App),
    /// Launch an application for this run.
    Launch(AppId),
    /// Take control of the media of the launched application.
    OpenController,
    /// Load media in the launched application.
    Load(LoadRequestData),
    /// Wait.
    Sleep(Duration),
    /// Report success to whoever waits, and go on in the background.
    Detach,
    /// Stop the launched application.
    StopApp,
    /// Launch again the application that ran before.
    Relaunch(AppId),
    /// Take control of the media of the application that was launched again.
    OpenRelaunched,
    /// Load media in the application that was launched again.
    LoadRelaunched(LoadRequestData),
    /// Close the connection to the receiver.
    Disconnect,
}

/// The model of a [`Command`].
pub enum CommandView {
    Connect(Seq<char>),
    ReadStatus,
    JoinApp(AppView),
    QueryMedia(AppView),
    Launch(AppId),
    OpenController,
    Load(RequestView),
    Sleep(Duration),
    Detach,
    StopApp,
    Relaunch(AppId),
    OpenRelaunched,
    LoadRelaunched(RequestView),
    Disconnect,
}

impl View for Command {
    type V = CommandView;

    open spec fn view(&self) -> CommandView {
        match self {
            Command::Connect(ip) => CommandView::Connect(ip@),
            Command::ReadStatus => CommandView::ReadStatus,
            Command::JoinApp(a) => CommandView::JoinApp(a@),
            Command::QueryMedia(a) => CommandView::QueryMedia(a@),
            Command::Launch(id) => CommandView::Launch(*id),
            Command::OpenController => CommandView::OpenController,
            Command::Load(r) => CommandView::Load(r@),
            Command::Sleep(d) => CommandView::Sleep(*d),
            Command::Detach => CommandView::Detach,
            Command::StopApp => CommandView::StopApp,
            Command::Relaunch(id) => CommandView::Relaunch(*id),
            Command::OpenRelaunched => CommandView::OpenRelaunched,
            Command::LoadRelaunched(r) => CommandView::LoadRelaunched(r@),
            Command::Disconnect => CommandView::Disconnect,
        }
    }
}

/// What came of a command.
#[derive(Debug)]
pub enum Reply {
    /// It was carried out.
    Done,
    /// It failed, with this text of the error.
    Failed(String),
    /// To [`Command::ReadStatus`]: the applications, where the receiver listed any.
    Apps(Option<Vec<App>>),
    /// To [`Command::QueryMedia`]: the media, where the answer was a media status.
    Media(Option<Vec<MediaStatus>>),
}

/// The model of a [`Reply`].
pub enum ReplyView {
    Done,
    Failed(Seq<char>),
    Apps(Option<Seq<AppView>>),
    Media(Option<Seq<StatusView>>),
}

impl View for Reply {
    type V = ReplyView;

    open spec fn view(&self) -> ReplyView {
        match self {
            Reply::Done => ReplyView::Done,
            Reply::Failed(e) => ReplyView::Failed(e@),
            Reply::Apps(None) => ReplyView::Apps(None),
            Reply::Apps(Some(v)) => ReplyView::Apps(Some(cast::app_views(v@))),
            Reply::Media(None) => ReplyView::Media(None),
            Reply::Media(Some(v)) => ReplyView::Media(
                Some(v@.map_values(|s: MediaStatus| s@)),
            ),
        }
    }
}

/// What to do next: a command, or nothing, since the run has ended.
#[derive(Debug)]
pub enum Step {
    Do(Command),
    Ended(Result<(), String>),
}

/// The model of a [`Step`].
pub enum StepView {
    Do(CommandView),
    Ended(Result<(), Seq<char>>),
}

impl View for Step {
    type V = StepView;

    open spec fn view(&self) -> StepView {
        match self {
            Step::Do(c) => StepView::Do(c@),
            Step::Ended(Ok(())) => StepView::Ended(Ok(())),
            Step::Ended(Err(e)) => StepView::Ended(Err(e@)),
        }
    }
}

/// The command that a run waits for.
#[derive(Debug)]
enum Phase {
    Connecting,
    ReadingStatus,
    Joining(App),
    Querying(App),
    Launching,
    Opening,
    /// Loading media; an image that is to be cleared comes with the time it is shown for.
    Loading(Option<Duration>),
    Sleeping,
    Detaching(Duration),
    Displaying,
    Stopping,
    Relaunching,
    Reopening,
    Reloading,
    Disconnecting,
    Over,
}

/// The model of the command that a run waits for.
pub enum PhaseView {
    Connecting,
    ReadingStatus,
    Joining(AppView),
    Querying(AppView),
    Launching,
    Opening,
    Loading(Option<Duration>),
    Sleeping,
    Detaching(Duration),
    Displaying,
    Stopping,
    Relaunching,
    Reopening,
    Reloading,
    Disconnecting,
    Over,
}

impl View for Phase {
    type V = PhaseView;

    closed spec fn view(&self) -> PhaseView {
        match self {
            Phase::Connecting => PhaseView::Connecting,
            Phase::ReadingStatus => PhaseView::ReadingStatus,
            Phase::Joining(a) => PhaseView::Joining(a@),
            Phase::Querying(a) => PhaseView::Querying(a@),
            Phase::Launching => PhaseView::Launching,
            Phase::Opening => PhaseView::Opening,
            Phase::Loading(d) => PhaseView::Loading(*d),
            Phase::Sleeping => PhaseView::Sleeping,
            Phase::Detaching(d) => PhaseView::Detaching(*d),
            Phase::Displaying => PhaseView::Displaying,
            Phase::Stopping => PhaseView::Stopping,
            Phase::Relaunching => PhaseView::Relaunching,
            Phase::Reopening => PhaseView::Reopening,
            Phase::Reloading => PhaseView::Reloading,
            Phase::Disconnecting => PhaseView::Disconnecting,
            Phase::Over => PhaseView::Over,
        }
    }
}

/// The run of a plan on one device.
#[derive(Debug)]
pub struct CastRun {
    ip: String,
    plan: Vec<PlannedLoad>,
    /// The first step of the plan that was not taken yet.
    next: usize,
    resume: Option<ResumePoint>,
    phase: Phase,
    background: bool,
}

/// The model of a [`CastRun`].
pub struct RunView {
    pub ip: Seq<char>,
    pub plan: Seq<LoadView>,
    pub next: nat,
    pub resume: Option<ResumeView>,
    pub phase: PhaseView,
    pub background: bool,
}

impl View for CastRun {
    type V = RunView;

    closed spec fn view(&self) -> RunView {
        RunView {
            ip: self.ip@,
            plan: cast::plan_view(self.plan@),
            next: self.next as nat,
            resume: match self.resume {
                Some(p) => Some(p@),
                None => None,
            },
            phase: self.phase@,
            background: self.background,
        }
    }
}

/// Whether a reply fits the command that a run waits for.
pub open spec fn answers(phase: PhaseView, reply: ReplyView) -> bool {
    match phase {
        PhaseView::Over => false,
        PhaseView::ReadingStatus => reply is Apps || reply is Failed,
        PhaseView::Querying(_) => reply is Media || reply is Failed,
        PhaseView::Sleeping
        | PhaseView::Detaching(_)
        | PhaseView::Displaying
        | PhaseView::Disconnecting => reply is Done,
        _ => reply is Done || reply is Failed,
    }
}

/// A run that goes on with a command.
pub open spec fn go(run: RunView, phase: PhaseView, command: CommandView) -> (RunView, StepView) {
    (RunView { phase, ..run }, StepView::Do(command))
}

/// A run that ends with an error.
pub open spec fn fail(run: RunView, error: Seq<char>) -> (RunView, StepView) {
    (RunView { phase: PhaseView::Over, ..run }, StepView::Ended(Err(error)))
}

/// A run that launches its own application.
pub open spec fn launch(run: RunView) -> (RunView, StepView) {
    go(run, PhaseView::Launching, CommandView::Launch(AppId::DefaultMediaReceiver))
}

/// Whether a plan loads media from its step number `i` on.
pub open spec fn media_follows(plan: Seq<LoadView>, i: nat) -> bool {
    exists|k: int| i <= k < plan.len() && cast::is_media(#[trigger] plan[k])
}

/// How long the image that step number `i` of a plan loads is shown before it is cleared; `None`
/// where nothing clears it. An image that is not the last load is not cleared: the next one replaces
/// it.
pub open spec fn display_of(plan: Seq<LoadView>, i: nat) -> Option<Duration> {
    match plan[i as int] {
        LoadView::TimedThumbnail(_, d) => if media_follows(plan, i + 1) {
            None
        } else {
            Some(d)
        },
        _ => None,
    }
}

/// A run that takes the next step of its plan. A `resume` is passed over where nothing was playing;
/// behind the last step the run disconnects.
pub open spec fn next_of(run: RunView) -> (RunView, StepView)
    decreases run.plan.len() - run.next,
{
    if run.next >= run.plan.len() {
        go(run, PhaseView::Disconnecting, CommandView::Disconnect)
    } else {
        let load = run.plan[run.next as int];
        let after = RunView { next: run.next + 1, ..run };
        match load {
            LoadView::Sleep(d) => go(after, PhaseView::Sleeping, CommandView::Sleep(d)),
            LoadView::Resume => match run.resume {
                Some(p) => go(after, PhaseView::Relaunching, CommandView::Relaunch(p.app_id)),
                None => next_of(after),
            },
            _ => go(
                after,
                PhaseView::Loading(display_of(run.plan, run.next)),
                CommandView::Load(cast::request_of(load)),
            ),
        }
    }
}

/// What can be resumed, going by what the application `app` says of its media.
pub open spec fn resume_of(app: AppView, media: Option<Seq<StatusView>>) -> Option<ResumeView> {
    match media {
        Some(list) => if list.len() > 0 && list[0].media is Some {
            Some(
                ResumeView {
                    app_id: app.app_id,
                    media: list[0].media->0,
                    current_time: list[0].current_time,
                },
            )
        } else {
            None
        },
        None => None,
    }
}

/// Whether a plan asks for what was playing before.
pub open spec fn wants_resume(plan: Seq<LoadView>) -> bool {
    exists|i: int| 0 <= i < plan.len() && #[trigger] plan[i] is Resume
}

/// What a run does about a reply to the command it waits for.
pub open spec fn advanced(run: RunView, reply: ReplyView) -> (RunView, StepView) {
    match (run.phase, reply) {
        (PhaseView::Connecting, ReplyView::Failed(e)) => fail(
            run,
            "connect "@ + run.ip + ": "@ + e,
        ),
        (PhaseView::Connecting, _) => if wants_resume(run.plan) {
            go(run, PhaseView::ReadingStatus, CommandView::ReadStatus)
        } else {
            launch(run)
        },
        (PhaseView::ReadingStatus, ReplyView::Apps(Some(apps))) => match cast::media_app(apps) {
            Some(app) => go(run, PhaseView::Joining(app), CommandView::JoinApp(app)),
            None => launch(run),
        },
        (PhaseView::ReadingStatus, _) => launch(run),
        (PhaseView::Joining(app), ReplyView::Done) => go(
            run,
            PhaseView::Querying(app),
            CommandView::QueryMedia(app),
        ),
        (PhaseView::Joining(_), _) => launch(run),
        (PhaseView::Querying(app), ReplyView::Media(media)) => launch(
            RunView { resume: resume_of(app, media), ..run },
        ),
        (PhaseView::Querying(_), _) => launch(run),
        (PhaseView::Launching, ReplyView::Failed(e)) => fail(run, "launch app: "@ + e),
        (PhaseView::Launching, _) => go(run, PhaseView::Opening, CommandView::OpenController),
        (PhaseView::Opening, ReplyView::Failed(e)) => fail(run, "media controller: "@ + e),
        (PhaseView::Opening, _) => next_of(run),
        (PhaseView::Loading(_), ReplyView::Failed(e)) => fail(run, "load: "@ + e),
        (PhaseView::Loading(Some(d)), _) => go(run, PhaseView::Detaching(d), CommandView::Detach),
        (PhaseView::Loading(None), _) => next_of(run),
        (PhaseView::Sleeping, _) => next_of(run),
        (PhaseView::Detaching(d), _) => go(
            RunView { background: true, ..run },
            PhaseView::Displaying,
            CommandView::Sleep(d),
        ),
        (PhaseView::Displaying, _) => go(run, PhaseView::Stopping, CommandView::StopApp),
        (PhaseView::Stopping, _) => next_of(run),
        (PhaseView::Relaunching, ReplyView::Failed(e)) => if run.background {
            next_of(run)
        } else {
            fail(run, "resume launch app: "@ + e)
        },
        (PhaseView::Relaunching, _) => go(run, PhaseView::Reopening, CommandView::OpenRelaunched),
        (PhaseView::Reopening, ReplyView::Done) => match run.resume {
            Some(p) => go(
                run,
                PhaseView::Reloading,
                CommandView::LoadRelaunched(cast::resume_request(p.media, p.current_time)),
            ),
            None => next_of(run),
        },
        (PhaseView::Reopening, _) => next_of(run),
        (PhaseView::Reloading, _) => next_of(run),
        (PhaseView::Disconnecting, _) | (PhaseView::Over, _) => (
            RunView { phase: PhaseView::Over, ..run },
            StepView::Ended(Ok(())),
        ),
    }
}

/// A new run of `plan`: it connects first, unless there is nothing to do.
pub open spec fn started(ip: Seq<char>, plan: Seq<LoadView>) -> (RunView, StepView) {
    let run = RunView {
        ip,
        plan,
        next: 0,
        resume: None,
        phase: PhaseView::Over,
        background: false,
    };
    if plan.len() == 0 {
        (run, StepView::Ended(Ok(())))
    } else {
        go(run, PhaseView::Connecting, CommandView::Connect(ip))
    }
}

proof fn lemma_next_ignores_phase(run: RunView, phase: PhaseView)
    ensures
        next_of(RunView { phase, ..run }) == next_of(run),
    decreases run.plan.len() - run.next,
{
    if run.next < run.plan.len() {
        lemma_next_ignores_phase(RunView { next: run.next + 1, ..run }, phase);
    }
}

impl CastRun {
    /// Starts the run of a device's actions.
    pub fn start(
        ip: &str,
        actions: &[Action],
        doorbell_url: &str,
        livestream_url: &str,
        thumbnail_url: Option<&str>,
    ) -> (r: (CastRun, Step))
        ensures
            (r.0@, r.1@) == started(
                ip@,
                cast::plan_of(
                    actions@,
                    cast::sources(doorbell_url, livestream_url, thumbnail_url),
                ),
            ),
    {
        let plan = plan_loads(actions, doorbell_url, livestream_url, thumbnail_url);
        let empty = plan.len() == 0;
        let phase = if empty { Phase::Over } else { Phase::Connecting };
        let run = CastRun {
            ip: ip.to_owned(),
            plan,
            next: 0,
            resume: None,
            phase,
            background: false,
        };
        let step = if empty { Step::Ended(Ok(())) } else { Step::Do(Command::Connect(ip.to_owned())) };
        (run, step)
    }

    fn go(&mut self, phase: Phase, command: Command) -> (r: Step)
        ensures
            (final(self)@, r@) == go(old(self)@, phase@, command@),
    {
        self.phase = phase;
        Step::Do(command)
    }

    fn fail(&mut self, error: String) -> (r: Step)
        ensures
            (final(self)@, r@) == fail(old(self)@, error@),
    {
        self.phase = Phase::Over;
        Step::Ended(Err(error))
    }

    fn launch(&mut self) -> (r: Step)
        ensures
            (final(self)@, r@) == launch(old(self)@),
    {
        self.go(Phase::Launching, Command::Launch(AppId::DefaultMediaReceiver))
    }

    fn next_step(&mut self) -> (r: Step)
        ensures
            (final(self)@, r@) == next_of(old(self)@),
    {
        while self.next < self.plan.len()
            invariant
                next_of(self@) == next_of(old(self)@),
            decreases self.plan.len() - self.next,
        {
            let i = self.next;
            assert(self@.plan[i as int] == self.plan@[i as int]@);
            self.next = i + 1;
            match &self.plan[i] {
                PlannedLoad::Sleep(d) => {
                    let d: Duration = *d;
                    return self.go(Phase::Sleeping, Command::Sleep(d));
                },
                PlannedLoad::Resume => {
                    if let Some(p) = &self.resume {
                        let id = p.app_id.clone();
                        return self.go(Phase::Relaunching, Command::Relaunch(id));
                    }
                },
                load => {
                    let display = match load {
                        PlannedLoad::TimedThumbnail { url: _, display } => {
                            if self.loads_from(i + 1) {
                                None
                            } else {
                                Some(*display)
                            }
                        },
                        _ => None,
                    };
                    let request = load_request_for(load);
                    return self.go(Phase::Loading(display), Command::Load(request));
                },
            }
        }
        self.go(Phase::Disconnecting, Command::Disconnect)
    }

    /// Takes the reply to the command that the run waits for, and says what to do next.
    pub fn advance(&mut self, reply: Reply) -> (r: Step)
        requires
            answers(old(self)@.phase, reply@),
        ensures
            (final(self)@, r@) == advanced(old(self)@, reply@),
    {
        let mut phase = Phase::Over;
        std::mem::swap(&mut phase, &mut self.phase);
        proof {
            lemma_next_ignores_phase(old(self)@, PhaseView::Over);
        }
        match phase {
            Phase::Connecting => match reply {
                Reply::Failed(e) => {
                    let m = text::join3("connect ", self.ip.as_str(), ": ").concat(e.as_str());
                    self.fail(m)
                },
                _ => {
                    if self.has_resume() {
                        self.go(Phase::ReadingStatus, Command::ReadStatus)
                    } else {
                        self.launch()
                    }
                },
            },
            Phase::ReadingStatus => match reply {
                Reply::Apps(Some(apps)) => match find_media_app(apps.as_slice()) {
                    Some(app) => {
                        let known = app.clone();
                        self.go(Phase::Joining(known), Command::JoinApp(app))
                    },
                    None => self.launch(),
                },
                _ => self.launch(),
            },
            Phase::Joining(app) => match reply {
                Reply::Done => {
                    let known = app.clone();
                    self.go(Phase::Querying(known), Command::QueryMedia(app))
                },
                _ => self.launch(),
            },
            Phase::Querying(app) => match reply {
                Reply::Media(media) => {
                    self.resume = resume_point(app, media);
                    self.launch()
                },
                _ => self.launch(),
            },
            Phase::Launching => match reply {
                Reply::Failed(e) => self.fail("launch app: ".to_owned().concat(e.as_str())),
                _ => self.go(Phase::Opening, Command::OpenController),
            },
            Phase::Opening => match reply {
                Reply::Failed(e) => self.fail("media controller: ".to_owned().concat(e.as_str())),
                _ => self.next_step(),
            },
            Phase::Loading(display) => match reply {
                Reply::Failed(e) => self.fail("load: ".to_owned().concat(e.as_str())),
                _ => match display {
                    Some(d) => self.go(Phase::Detaching(d), Command::Detach),
                    None => self.next_step(),
                },
            },
            Phase::Sleeping => self.next_step(),
            Phase::Detaching(d) => {
                self.background = true;
                self.go(Phase::Displaying, Command::Sleep(d))
            },
            Phase::Displaying => self.go(Phase::Stopping, Command::StopApp),
            Phase::Stopping => self.next_step(),
            Phase::Relaunching => match reply {
                Reply::Failed(e) => {
                    if self.background {
                        self.next_step()
                    } else {
                        self.fail("resume launch app: ".to_owned().concat(e.as_str()))
                    }
                },
                _ => self.go(Phase::Reopening, Command::OpenRelaunched),
            },
            Phase::Reopening => match reply {
                Reply::Done => {
                    if let Some(p) = &self.resume {
                        let request = build_resume_load(&p.media, p.current_time);
                        return self.go(Phase::Reloading, Command::LoadRelaunched(request));
                    }
                    self.next_step()
                },
                _ => self.next_step(),
            },
            Phase::Reloading => self.next_step(),
            Phase::Disconnecting | Phase::Over => Step::Ended(Ok(())),
        }
    }

    fn loads_from(&self, from: usize) -> (r: bool)
        ensures
            r == media_follows(self@.plan, from as nat),
    {
        let mut i: usize = from;
        while i < self.plan.len()
            invariant
                from <= i,
                forall|k: int|
                    from <= k < i && k < self.plan.len() ==> !cast::is_media(
                        #[trigger] self@.plan[k],
                    ),
            decreases self.plan.len() - i,
        {
            assert(self@.plan[i as int] == self.plan@[i as int]@);
            match self.plan[i] {
                PlannedLoad::Sleep(_) | PlannedLoad::Resume => {},
                _ => {
                    return true;
                },
            }
            i += 1;
        }
        false
    }

    fn has_resume(&self) -> (r: bool)
        ensures
            r == wants_resume(self@.plan),
    {
        let mut i: usize = 0;
        while i < self.plan.len()
            invariant
                i <= self.plan.len(),
                forall|j: int| 0 <= j < i ==> !(#[trigger] self@.plan[j] is Resume),
            decreases self.plan.len() - i,
        {
            assert(self@.plan[i as int] == self.plan@[i as int]@);
            if let PlannedLoad::Resume = self.plan[i] {
                return true;
            }
            i += 1;
        }
        false
    }
}

/// The view of what can be resumed.
spec fn resume_view(r: Option<ResumePoint>) -> Option<ResumeView> {
    match r {
        Some(p) => Some(p@),
        None => None,
    }
}

fn resume_point(app: App, media: Option<Vec<MediaStatus>>) -> (r: Option<ResumePoint>)
    ensures
        resume_view(r) == resume_of(
            app@,
            match media {
                Some(v) => Some(v@.map_values(|s: MediaStatus| s@)),
                None => None,
            },
        ),
{
    match media {
        Some(list) => {
            let ghost views = list@.map_values(|s: MediaStatus| s@);
            if list.len() == 0 {
                return None;
            }
            assert(views[0] == list@[0]@);
            let status = &list[0];
            match &status.media {
                Some(m) => Some(
                    ResumePoint {
                        app_id: app.app_id,
                        media: m.clone(),
                        current_time: status.current_time,
                    },
                ),
                None => None,
            }
        },
        None => None,
    }
}

/// The commands that a `resume` stands for.
pub open spec fn resume_script(resume: Option<ResumeView>) -> Seq<CommandView> {
    match resume {
        Some(p) => seq![
            CommandView::Relaunch(p.app_id),
            CommandView::OpenRelaunched,
            CommandView::LoadRelaunched(cast::resume_request(p.media, p.current_time)),
        ],
        None => seq![],
    }
}

/// The commands that step number `i` of a plan stands for.
pub open spec fn step_script(
    plan: Seq<LoadView>,
    i: nat,
    resume: Option<ResumeView>,
) -> Seq<CommandView> {
    match plan[i as int] {
        LoadView::Sleep(d) => seq![CommandView::Sleep(d)],
        LoadView::Resume => resume_script(resume),
        load => {
            let loading = seq![CommandView::Load(cast::request_of(load))];
            match display_of(plan, i) {
                Some(d) => loading + display_script(d),
                None => loading,
            }
        },
    }
}

/// The commands that show an image for a while and clear it.
pub open spec fn display_script(d: Duration) -> Seq<CommandView> {
    seq![CommandView::Detach, CommandView::Sleep(d), CommandView::StopApp]
}

/// The commands of a plan from its step number `i` on, where all of them are carried out.
pub open spec fn script(plan: Seq<LoadView>, i: nat, resume: Option<ResumeView>) -> Seq<CommandView>
    decreases plan.len() - i,
{
    if i >= plan.len() {
        seq![CommandView::Disconnect]
    } else {
        step_script(plan, i, resume) + script(plan, i + 1, resume)
    }
}

/// The commands of the plan that a run has not come to yet.
pub open spec fn rest(run: RunView) -> Seq<CommandView> {
    script(run.plan, run.next, run.resume)
}

/// The commands still to come behind the one that a run waits for, where all of them are carried
/// out; of a run that has launched its application.
pub open spec fn ahead(run: RunView) -> Seq<CommandView> {
    let reload = resume_script(run.resume);
    match run.phase {
        PhaseView::Launching => seq![CommandView::OpenController] + rest(run),
        PhaseView::Loading(Some(d)) => display_script(d) + rest(run),
        PhaseView::Detaching(d) => display_script(d).skip(1) + rest(run),
        PhaseView::Displaying => seq![CommandView::StopApp] + rest(run),
        PhaseView::Relaunching => reload.skip(1) + rest(run),
        PhaseView::Reopening => reload.skip(2) + rest(run),
        PhaseView::Disconnecting | PhaseView::Over => seq![],
        _ => rest(run),
    }
}

/// Whether a run is past looking for something to resume.
pub open spec fn is_launched(phase: PhaseView) -> bool {
    match phase {
        PhaseView::Connecting
        | PhaseView::ReadingStatus
        | PhaseView::Joining(_)
        | PhaseView::Querying(_)
        | PhaseView::Over => false,
        _ => true,
    }
}

/// What holds of every run: an application is launched again only where one ran before, and an
/// image is shown and cleared in the background, with no media of the plan left to load.
pub open spec fn coherent(run: RunView) -> bool {
    &&& run.next <= run.plan.len()
    &&& run.phase is Relaunching || run.phase is Reopening || run.phase is Reloading
        ==> run.resume is Some
    &&& run.phase is Displaying || run.phase is Stopping ==> run.background
    &&& run.phase is Launching || run.phase is Opening ==> !run.background && run.next == 0
    &&& run.phase is Loading || run.phase is Detaching ==> !run.background
    &&& run.background || run.phase is Detaching || (run.phase matches PhaseView::Loading(Some(_)))
        ==> !media_follows(run.plan, run.next)
    &&& !is_launched(run.phase) && !(run.phase is Over) ==> !run.background && run.next == 0
        && run.resume is None
}

proof fn lemma_next(run: RunView)
    requires
        run.next <= run.plan.len(),
        run.background ==> !media_follows(run.plan, run.next),
    ensures
        next_of(run).1 matches StepView::Do(c) && rest(run) == seq![c] + ahead(next_of(run).0),
        coherent(next_of(run).0),
        is_launched(next_of(run).0.phase),
        next_of(run).0.ip == run.ip,
        next_of(run).0.plan == run.plan,
        next_of(run).0.resume == run.resume,
        next_of(run).0.background == run.background,
        next_of(run).0.next >= run.next,
        next_of(run).0.phase is Disconnecting || next_of(run).0.next > run.next,
        run.background ==> !(next_of(run).1 matches StepView::Do(c) && c is Load),
    decreases run.plan.len() - run.next,
{
    if run.next >= run.plan.len() {
        assert(rest(run) =~= seq![CommandView::Disconnect] + ahead(next_of(run).0));
    } else {
        let load = run.plan[run.next as int];
        let after = RunView { next: run.next + 1, ..run };
        let (got, step) = next_of(run);
        match load {
            LoadView::Sleep(d) => {
                assert(rest(run) =~= seq![CommandView::Sleep(d)] + ahead(got));
            },
            LoadView::Resume => match run.resume {
                Some(p) => {
                    assert(rest(run) =~= seq![CommandView::Relaunch(p.app_id)] + ahead(got));
                },
                None => {
                    lemma_next(after);
                    assert(rest(run) =~= rest(after));
                },
            },
            _ => {
                assert(rest(run) =~= seq![CommandView::Load(cast::request_of(load))] + ahead(got));
            },
        }
    }
}

/// A run that is told that its command succeeded goes on with the first of the commands ahead, and
/// has the others ahead from then on; it ends well where there is none.
pub proof fn success_follows_the_script(run: RunView)
    requires
        coherent(run),
        is_launched(run.phase),
    ensures
        match advanced(run, ReplyView::Done) {
            (after, StepView::Do(c)) => ahead(run) == seq![c] + ahead(after),
            (_, StepView::Ended(r)) => r is Ok && ahead(run) == Seq::<CommandView>::empty(),
        },
{
    let (after, step) = advanced(run, ReplyView::Done);
    lemma_next(run);
    match run.phase {
        PhaseView::Launching => {
            assert(ahead(run) =~= seq![CommandView::OpenController] + ahead(after));
        },
        PhaseView::Loading(Some(d)) => {
            assert(ahead(run) =~= seq![CommandView::Detach] + ahead(after));
        },
        PhaseView::Detaching(d) => {
            assert(ahead(run) =~= seq![CommandView::Sleep(d)] + ahead(after));
        },
        PhaseView::Displaying => {
            assert(ahead(run) =~= seq![CommandView::StopApp] + ahead(after));
        },
        PhaseView::Relaunching => {
            assert(ahead(run) =~= seq![CommandView::OpenRelaunched] + ahead(after));
        },
        PhaseView::Reopening => {
            let p = run.resume->0;
            assert(ahead(run) =~= seq![
                CommandView::LoadRelaunched(cast::resume_request(p.media, p.current_time)),
            ] + ahead(after));
        },
        _ => {},
    }
}

/// What a run does about the last of `n + 1` commands in a row that succeed.
pub open spec fn fed_successes(run: RunView, n: nat) -> (RunView, StepView)
    decreases n,
{
    let (after, step) = advanced(run, ReplyView::Done);
    if n == 0 {
        (after, step)
    } else {
        fed_successes(after, (n - 1) as nat)
    }
}

/// A run that has launched its application, and whose commands all succeed, issues the commands
/// ahead, in order, each once and no other, and then ends well.
pub proof fn success_issues_the_whole_script(run: RunView)
    requires
        coherent(run),
        is_launched(run.phase),
    ensures
        forall|k: nat|
            k < ahead(run).len() ==> (#[trigger] fed_successes(run, k)).1 == StepView::Do(
                ahead(run)[k as int],
            ),
        fed_successes(run, ahead(run).len()).1 == StepView::Ended(Ok(())),
    decreases ahead(run).len(),
{
    let (after, step) = advanced(run, ReplyView::Done);
    success_follows_the_script(run);
    lemma_next(run);
    if let StepView::Do(c) = step {
        runs_stay_coherent(run, ReplyView::Done);
        assert(ahead(run).len() == ahead(after).len() + 1);
        success_issues_the_whole_script(after);
        assert forall|k: nat| k < ahead(run).len() implies (#[trigger] fed_successes(run, k)).1
            == StepView::Do(ahead(run)[k as int]) by {
            if k > 0 {
                assert(fed_successes(after, (k - 1) as nat).1 == StepView::Do(ahead(after)[k - 1]));
                assert(ahead(run)[k as int] == ahead(after)[k - 1]);
            }
        }
    }
}

/// A new run is coherent; one that has a plan connects before anything else, and one that has none
/// ends well at once.
pub proof fn new_run_connects_first(ip: Seq<char>, plan: Seq<LoadView>)
    ensures
        coherent(started(ip, plan).0),
        plan.len() > 0 ==> started(ip, plan).1 == StepView::Do(CommandView::Connect(ip)),
        plan.len() == 0 ==> started(ip, plan).1 == StepView::Ended(Ok(())),
{
}

/// A run that has connected asks after what was playing just where its plan wants it back; and
/// whatever it learns, it then launches its application with the whole script of its plan ahead.
pub proof fn whole_plan_is_ahead_at_launch(run: RunView, reply: ReplyView)
    requires
        coherent(run),
        !is_launched(run.phase),
        answers(run.phase, reply),
    ensures
        run.phase is Connecting && reply is Done ==> (advanced(run, reply).0.phase is ReadingStatus
            <==> wants_resume(run.plan)),
        ({
            let (after, step) = advanced(run, reply);
            is_launched(after.phase) ==> step == StepView::Do(
                CommandView::Launch(AppId::DefaultMediaReceiver),
            ) && ahead(after) == seq![CommandView::OpenController] + script(
                run.plan,
                0,
                after.resume,
            )
        }),
{
}

/// Every reply keeps a run coherent, with the plan it has, and in the background once it is there.
pub proof fn runs_stay_coherent(run: RunView, reply: ReplyView)
    requires
        coherent(run),
        answers(run.phase, reply),
    ensures
        coherent(advanced(run, reply).0),
        advanced(run, reply).0.plan == run.plan,
        run.background ==> advanced(run, reply).0.background,
{
    lemma_next(run);
}

/// A run ends with an error exactly when connecting, launching, taking control or loading fails,
/// or when launching again what ran before fails while someone waits; every other failure is
/// passed over.
pub proof fn only_these_failures_end_a_run(run: RunView, reply: ReplyView)
    requires
        coherent(run),
        answers(run.phase, reply),
    ensures
        (advanced(run, reply).1 matches StepView::Ended(r) && r is Err) == (reply is Failed && (
        run.phase is Connecting || run.phase is Launching || run.phase is Opening
            || run.phase is Loading || (run.phase is Relaunching && !run.background))),
{
    lemma_next(run);
}

/// What goes on in the background never ends with an error.
pub proof fn background_never_fails(run: RunView, reply: ReplyView)
    requires
        coherent(run),
        run.background,
        answers(run.phase, reply),
    ensures
        !(advanced(run, reply).1 matches StepView::Ended(r) && r is Err),
{
    lemma_next(run);
}

/// How far a run is from its end, at most.
pub open spec fn distance(run: RunView) -> int {
    let rank: int = match run.phase {
        PhaseView::Connecting => 9,
        PhaseView::ReadingStatus => 8,
        PhaseView::Joining(_) => 7,
        PhaseView::Querying(_) => 6,
        PhaseView::Launching => 5,
        PhaseView::Loading(_) => 5,
        PhaseView::Detaching(_) => 4,
        PhaseView::Displaying => 3,
        PhaseView::Relaunching => 3,
        PhaseView::Opening => 2,
        PhaseView::Stopping => 2,
        PhaseView::Reopening => 2,
        PhaseView::Sleeping => 1,
        PhaseView::Reloading => 1,
        PhaseView::Disconnecting => 0,
        PhaseView::Over => 0,
    };
    10 * (run.plan.len() - run.next) + rank
}

/// Whatever the replies, each brings a run nearer to its end.
pub proof fn every_run_ends(run: RunView, reply: ReplyView)
    requires
        coherent(run),
        answers(run.phase, reply),
    ensures
        advanced(run, reply).1 is Ended || 0 <= distance(advanced(run, reply).0) < distance(run),
{
    lemma_next(run);
}

/// Every plan ends with the connection closed, and it is closed nowhere before.
pub proof fn script_disconnects_once_at_its_end(
    plan: Seq<LoadView>,
    i: nat,
    resume: Option<ResumeView>,
)
    ensures
        ({
            let s = script(plan, i, resume);
            s.len() > 0 && s.last() == CommandView::Disconnect && forall|k: int|
                0 <= k < s.len() - 1 ==> #[trigger] s[k] != CommandView::Disconnect
        }),
    decreases plan.len() - i,
{
    if i < plan.len() {
        script_disconnects_once_at_its_end(plan, i + 1, resume);
    }
}

/// No media of the plan is loaded in the background: a run goes there only with its last load done.
pub proof fn nothing_is_loaded_in_the_background(run: RunView, reply: ReplyView)
    requires
        coherent(run),
        run.background,
        answers(run.phase, reply),
    ensures
        !(advanced(run, reply).1 matches StepView::Do(c) && c is Load),
{
    lemma_next(run);
}

/// A timed image that is not the last load is treated like one that is not timed: the run goes on
/// with the next step at once, and the next load replaces the image.
pub proof fn timed_image_before_a_load_is_an_image(
    plan: Seq<LoadView>,
    i: nat,
    resume: Option<ResumeView>,
    url: Seq<char>,
    d: Duration,
)
    requires
        i < plan.len(),
        plan[i as int] == LoadView::TimedThumbnail(url, d),
        media_follows(plan, i + 1),
    ensures
        step_script(plan, i, resume) == step_script(
            plan.update(i as int, LoadView::Thumbnail(url)),
            i,
            resume,
        ),
{
}

/// A timed image that is the last load is shown for its time and cleared, in the background, before
/// the rest of the plan goes on.
pub proof fn last_timed_image_is_cleared(
    plan: Seq<LoadView>,
    i: nat,
    resume: Option<ResumeView>,
    url: Seq<char>,
    d: Duration,
)
    requires
        i < plan.len(),
        plan[i as int] == LoadView::TimedThumbnail(url, d),
        !media_follows(plan, i + 1),
    ensures
        script(plan, i, resume) == seq![
            CommandView::Load(cast::request_of(plan[i as int])),
            CommandView::Detach,
            CommandView::Sleep(d),
            CommandView::StopApp,
        ] + script(plan, i + 1, resume),
{
    assert(step_script(plan, i, resume) =~= seq![
        CommandView::Load(cast::request_of(plan[i as int])),
        CommandView::Detach,
        CommandView::Sleep(d),
        CommandView::StopApp,
    ]);
}

/// The requests of a plan's media, in the order of the plan.
pub open spec fn media_requests(plan: Seq<LoadView>, i: nat) -> Seq<CommandView>
    decreases plan.len() - i,
{
    if i >= plan.len() {
        seq![]
    } else if cast::is_media(plan[i as int]) {
        seq![CommandView::Load(cast::request_of(plan[i as int]))] + media_requests(plan, i + 1)
    } else {
        media_requests(plan, i + 1)
    }
}

/// A plan loads all of its media, in its order, and nothing else.
pub proof fn media_is_loaded_in_plan_order(plan: Seq<LoadView>, i: nat, resume: Option<ResumeView>)
    ensures
        script(plan, i, resume).filter(|c: CommandView| c is Load) == media_requests(plan, i),
    decreases plan.len() - i,
{
    let is_load = |c: CommandView| c is Load;
    reveal_with_fuel(Seq::filter, 5);
    if i < plan.len() {
        let load = plan[i as int];
        media_is_loaded_in_plan_order(plan, i + 1, resume);
        let head = step_script(plan, i, resume);
        Seq::filter_distributes_over_add(head, script(plan, i + 1, resume), is_load);
        assert(head.filter(is_load) =~= if cast::is_media(load) {
            seq![CommandView::Load(cast::request_of(load))]
        } else {
            seq![]
        }) by {
            if head.len() == 4 {
                let first = head.drop_last().drop_last().drop_last();
                assert(first =~= seq![CommandView::Load(cast::request_of(load))]);
                assert(first.drop_last() =~= seq![]);
            } else if head.len() == 3 {
                assert(head.drop_last().drop_last().drop_last() =~= seq![]);
            } else if head.len() == 1 {
                assert(head.drop_last() =~= seq![]);
            }
        }
        assert(script(plan, i, resume).filter(is_load) =~= media_requests(plan, i));
    } else {
        let s = seq![CommandView::Disconnect];
        assert(s.drop_last() =~= seq![]);
        assert(s.filter(is_load) =~= seq![]);
    }
}

/// A run that asks after what was playing joins the application that is found in the receiver's
/// list, asks that one, and holds from then on what it was told: that application, the media of the
/// first entry, and its position. Without media in the first entry it holds nothing. Either way it
/// goes on to launch its own application.
pub proof fn what_was_playing_is_remembered(
    run: RunView,
    apps: Seq<AppView>,
    found: AppView,
    told: Option<Seq<StatusView>>,
)
    requires
        run.phase is ReadingStatus,
        run.resume is None,
        cast::media_app(apps) == Some(found),
    ensures
        ({
            let (joining, join) = advanced(run, ReplyView::Apps(Some(apps)));
            let (querying, query) = advanced(joining, ReplyView::Done);
            let (after, step) = advanced(querying, ReplyView::Media(told));
            &&& join == StepView::Do(CommandView::JoinApp(found))
            &&& query == StepView::Do(CommandView::QueryMedia(found))
            &&& step == StepView::Do(CommandView::Launch(AppId::DefaultMediaReceiver))
            &&& after.plan == run.plan && after.next == run.next
            &&& if told is Some && (told->0).len() > 0 && (told->0)[0].media is Some {
                after.resume matches Some(p) && p.app_id == found.app_id && p.media == (told->0)[0].media->0
                    && p.current_time == (told->0)[0].current_time
            } else {
                after.resume is None
            }
        }),
{
}

/// What a run was told was playing is not forgotten or changed, whatever else it is told; and
/// nothing else makes it hold anything.
pub proof fn what_was_playing_is_kept(run: RunView, reply: ReplyView)
    requires
        coherent(run),
        answers(run.phase, reply),
        !(run.phase is Querying) || reply is Failed,
    ensures
        advanced(run, reply).0.resume == run.resume,
        advanced(run, reply).0.ip == run.ip,
{
    lemma_next(run);
}

proof fn lemma_next_commands(run: RunView)
    ensures
        next_of(run).1 matches StepView::Do(c) && (c matches CommandView::Relaunch(id) ==> (
        run.resume matches Some(p) && p.app_id == id)) && !(c is Launch) && !(c is LoadRelaunched)
            && !(c is JoinApp) && !(c is QueryMedia) && !(c is Connect) && !(c is ReadStatus) && !(
        c is StopApp) && !(c is Detach) && !(c is OpenController) && !(c is OpenRelaunched),
    decreases run.plan.len() - run.next,
{
    if run.next < run.plan.len() {
        lemma_next_commands(RunView { next: run.next + 1, ..run });
    }
}

/// The application that a run launches again is the one that was playing, the media that it loads
/// there is the media that was playing, at the position it had, and what it launches for itself is
/// the default receiver.
pub proof fn commands_bring_back_what_was_playing(run: RunView, reply: ReplyView)
    requires
        coherent(run),
        answers(run.phase, reply),
    ensures
        advanced(run, reply).1 matches StepView::Do(CommandView::Relaunch(id)) ==> (
        run.resume matches Some(p) && id == p.app_id),
        advanced(run, reply).1 matches StepView::Do(CommandView::LoadRelaunched(r)) ==> (
        run.resume matches Some(p) && r.media.content_id == p.media.content_id
            && r.media.content_type == p.media.content_type && r.media.stream_type
            == p.media.stream_type && r.media.details == p.media.details && r.current_time == Some(
            p.current_time,
        ) && r.autoplay == Some(true) && r == cast::resume_request(p.media, p.current_time)),
        advanced(run, reply).1 matches StepView::Do(CommandView::Launch(id)) ==> id
            == AppId::DefaultMediaReceiver,
{
    lemma_next_commands(run);
}

/// What is done to bring back what was playing: the application is launched again, then its media is
/// taken control of, then loaded, each where the one before succeeded; then the plan goes on.
pub proof fn resume_goes_step_by_step(run: RunView, e: Seq<char>)
    requires
        coherent(run),
        run.resume is Some,
    ensures
        run.phase is Relaunching ==> advanced(run, ReplyView::Done).1 == StepView::Do(
            CommandView::OpenRelaunched,
        ) && advanced(run, ReplyView::Done).0.phase is Reopening,
        run.phase is Reopening ==> advanced(run, ReplyView::Done).1 is Do && advanced(
            run,
            ReplyView::Done,
        ).1->Do_0 is LoadRelaunched && advanced(run, ReplyView::Done).0.phase is Reloading,
        run.phase is Reopening ==> advanced(run, ReplyView::Failed(e)) == next_of(run),
        run.phase is Reloading ==> advanced(run, ReplyView::Failed(e)) == next_of(run) && advanced(
            run,
            ReplyView::Done,
        ) == next_of(run),
        run.phase is Relaunching && run.background ==> advanced(run, ReplyView::Failed(e))
            == next_of(run),
{
}

/// Whether a reply ends a step of the plan, so that the next one is taken.
pub open spec fn ends_step(run: RunView, reply: ReplyView) -> bool {
    match run.phase {
        PhaseView::Opening | PhaseView::Loading(None) => reply is Done,
        PhaseView::Sleeping | PhaseView::Stopping | PhaseView::Reloading => true,
        PhaseView::Reopening => reply is Failed,
        PhaseView::Relaunching => reply is Failed && run.background,
        _ => false,
    }
}

/// When a step is over, the next step of the plan is taken, and no step is left out: a wait lasts as
/// long as the plan says, media is loaded by its whole URL and with its type, and a resume launches
/// what was playing, or is passed over where nothing was. Behind the last step comes the end of the
/// connection, and then the end of the run.
pub proof fn next_step_is_that_of_the_plan(run: RunView, reply: ReplyView)
    requires
        coherent(run),
        answers(run.phase, reply),
        ends_step(run, reply),
    ensures
        ({
            let (after, step) = advanced(run, reply);
            let loads = |url: Seq<char>, content_type: Seq<char>|
                step matches StepView::Do(CommandView::Load(r)) && r.media.content_id == url
                    && r.media.content_type == content_type && r.autoplay == Some(true)
                    && r.current_time is None && r == cast::request_of(run.plan[run.next as int]);
            let taken = after.next == run.next + 1;
            if run.next >= run.plan.len() {
                step == StepView::Do(CommandView::Disconnect) && after.phase is Disconnecting
            } else {
                match run.plan[run.next as int] {
                    LoadView::Sleep(d) => taken && step == StepView::Do(CommandView::Sleep(d)),
                    LoadView::Doorbell(url) => taken && loads(url, "audio/mpeg"@),
                    LoadView::Thumbnail(url) => taken && loads(url, "image/jpeg"@),
                    LoadView::TimedThumbnail(url, _) => taken && loads(url, "image/jpeg"@),
                    LoadView::Livestream(url) => taken && loads(url, "application/x-mpegurl"@),
                    LoadView::Resume => match run.resume {
                        Some(p) => taken && step == StepView::Do(CommandView::Relaunch(p.app_id)),
                        None => advanced(run, reply) == advanced(
                            RunView { next: run.next + 1, ..run },
                            reply,
                        ),
                    },
                }
            }
        }),
{
}

/// Once the connection is closed, the run has ended well.
pub proof fn closed_connection_ends_the_run(run: RunView)
    requires
        run.phase is Disconnecting,
    ensures
        advanced(run, ReplyView::Done).1 == StepView::Ended(Ok(())),
{
}

/// An image with a time that is the last load of its plan is loaded; then whoever waits is told, the
/// image stays for its time, and the application is stopped; then the plan goes on behind it. One
/// that is not the last load is loaded, and the plan goes on at once.
pub proof fn timed_image_is_shown_for_its_time(
    run: RunView,
    reply: ReplyView,
    url: Seq<char>,
    d: Duration,
)
    requires
        coherent(run),
        answers(run.phase, reply),
        ends_step(run, reply),
        run.next < run.plan.len(),
        run.plan[run.next as int] == LoadView::TimedThumbnail(url, d),
    ensures
        ({
            let (loading, load) = advanced(run, reply);
            let (second, then) = advanced(loading, ReplyView::Done);
            let (third, wait) = advanced(second, ReplyView::Done);
            let (fourth, stop) = advanced(third, ReplyView::Done);
            let last = forall|k: int|
                run.next < k < run.plan.len() ==> (#[trigger] run.plan[k] is Sleep
                    || run.plan[k] is Resume);
            &&& load matches StepView::Do(CommandView::Load(r)) && r.media.content_id == url
            &&& last ==> then == StepView::Do(CommandView::Detach) && wait == StepView::Do(
                CommandView::Sleep(d),
            ) && third.background && stop == StepView::Do(CommandView::StopApp) && ends_step(
                fourth,
                ReplyView::Done,
            ) && fourth.next == run.next + 1
            &&& !last ==> then != StepView::Do(CommandView::Detach) && ends_step(
                loading,
                ReplyView::Done,
            ) && loading.next == run.next + 1 && !loading.background
        }),
{
    let last = forall|k: int|
        run.next < k < run.plan.len() ==> (#[trigger] run.plan[k] is Sleep || run.plan[k] is Resume);
    assert(last <==> !media_follows(run.plan, run.next + 1)) by {
        if !last {
            let k = choose|k: int|
                run.next < k < run.plan.len() && !(#[trigger] run.plan[k] is Sleep
                    || run.plan[k] is Resume);
            assert(cast::is_media(run.plan[k]));
        }
        if media_follows(run.plan, run.next + 1) {
            let k = choose|k: int|
                run.next + 1 <= k < run.plan.len() && cast::is_media(#[trigger] run.plan[k]);
            assert(!(run.plan[k] is Sleep || run.plan[k] is Resume));
        }
    }
    let (loading, load) = advanced(run, reply);
    lemma_next_commands(loading);
}

/// How a run ends that fails, in the words of what failed.
pub proof fn failures_say_what_failed(run: RunView, e: Seq<char>)
    ensures
        ({
            let ended = |why: Seq<char>|
                advanced(run, ReplyView::Failed(e)).1 == StepView::Ended(Err(why + e));
            &&& run.phase is Connecting ==> ended("connect "@ + run.ip + ": "@)
            &&& run.phase is Launching ==> ended("launch app: "@)
            &&& run.phase is Opening ==> ended("media controller: "@)
            &&& run.phase is Loading ==> ended("load: "@)
            &&& run.phase is Relaunching && !run.background ==> ended("resume launch app: "@)
        }),
{
}

/// Between its connection and its first step, a run whose plan resumes asks what is playing, and
/// launches its application without it where there is no answer; one whose plan does not resume
/// launches it at once. Then it takes control of the media.
pub proof fn run_launches_before_its_plan(run: RunView, reply: ReplyView)
    requires
        coherent(run),
        answers(run.phase, reply),
    ensures
        run.phase is Connecting && reply is Done ==> advanced(run, reply).1 == StepView::Do(
            if exists|i: int| 0 <= i < run.plan.len() && #[trigger] run.plan[i] == LoadView::Resume {
                CommandView::ReadStatus
            } else {
                CommandView::Launch(AppId::DefaultMediaReceiver)
            },
        ),
        run.phase is ReadingStatus && !(reply matches ReplyView::Apps(Some(apps))
            && cast::media_app(apps) is Some) ==> advanced(run, reply).1 == StepView::Do(
            CommandView::Launch(AppId::DefaultMediaReceiver),
        ),
        (run.phase is Joining || run.phase is Querying) && reply is Failed ==> advanced(run, reply).1
            == StepView::Do(CommandView::Launch(AppId::DefaultMediaReceiver)),
        run.phase is Launching && reply is Done ==> advanced(run, reply).1 == StepView::Do(
            CommandView::OpenController,
        ) && ends_step(advanced(run, reply).0, ReplyView::Done) && advanced(run, reply).0.next
            == run.next,
{
    if run.phase is Connecting && reply is Done {
        if exists|i: int| 0 <= i < run.plan.len() && #[trigger] run.plan[i] == LoadView::Resume {
            let i = choose|i: int|
                0 <= i < run.plan.len() && #[trigger] run.plan[i] == LoadView::Resume;
            assert(run.plan[i] is Resume);
        }
        if wants_resume(run.plan) {
            let i = choose|i: int| 0 <= i < run.plan.len() && #[trigger] run.plan[i] is Resume;
            assert(run.plan[i] == LoadView::Resume);
        }
    }
}

/// A new run has the whole plan before it, for the device it was given, and nothing to resume yet.
pub proof fn new_run_has_its_whole_plan(ip: Seq<char>, plan: Seq<LoadView>)
    ensures
        ({
            let run = started(ip, plan).0;
            &&& run.ip == ip
            &&& run.plan == plan
            &&& run.next == 0
            &&& run.resume is None
            &&& !run.background
            &&& plan.len() > 0 ==> run.phase is Connecting
        }),
{
}

/// The model of a command, of a reply and of a step is what they hold.
pub proof fn run_types_are_their_fields(
    text: String,
    app: App,
    id: AppId,
    request: LoadRequestData,
    d: Duration,
    c: Command,
    apps: Vec<App>,
    media: Vec<MediaStatus>,
    i: int,
)
    requires
        0 <= i < apps@.len(),
        0 <= i < media@.len(),
    ensures
        Command::Connect(text)@ == CommandView::Connect(text@),
        Command::ReadStatus@ == CommandView::ReadStatus,
        Command::JoinApp(app)@ == CommandView::JoinApp(app@),
        Command::QueryMedia(app)@ == CommandView::QueryMedia(app@),
        Command::Launch(id)@ == CommandView::Launch(id),
        Command::OpenController@ == CommandView::OpenController,
        Command::Load(request)@ == CommandView::Load(request@),
        Command::Sleep(d)@ == CommandView::Sleep(d),
        Command::Detach@ == CommandView::Detach,
        Command::StopApp@ == CommandView::StopApp,
        Command::Relaunch(id)@ == CommandView::Relaunch(id),
        Command::OpenRelaunched@ == CommandView::OpenRelaunched,
        Command::LoadRelaunched(request)@ == CommandView::LoadRelaunched(request@),
        Command::Disconnect@ == CommandView::Disconnect,
        Step::Do(c)@ == StepView::Do(c@),
        Step::Ended(Ok(()))@ == StepView::Ended(Ok(())),
        Step::Ended(Err(text))@ == StepView::Ended(Err(text@)),
        Reply::Done@ == ReplyView::Done,
        Reply::Failed(text)@ == ReplyView::Failed(text@),
        Reply::Apps(None)@ == ReplyView::Apps(None),
        Reply::Media(None)@ == ReplyView::Media(None),
        Reply::Apps(Some(apps))@ matches ReplyView::Apps(Some(s)) && s.len() == apps@.len() && s[i]
            == apps@[i]@,
        Reply::Media(Some(media))@ matches ReplyView::Media(Some(s)) && s.len() == media@.len() && (
        media@[i].media is Some <==> s[i].media is Some) && (media@[i].media matches Some(m)
            ==> s[i].media == Some(m@)) && s[i].current_time == media@[i].current_time,
{
}

proof fn lemma_relaunch_while_fed(run: RunView, k: nat)
    requires
        coherent(run),
        is_launched(run.phase) || run.phase is Over,
    ensures
        fed_successes(run, k).1 matches StepView::Do(CommandView::Relaunch(id)) ==> (
        run.resume matches Some(p) && id == p.app_id),
        fed_successes(run, k).1 matches StepView::Do(CommandView::LoadRelaunched(r)) ==> (
        run.resume matches Some(p) && r == cast::resume_request(p.media, p.current_time)),
    decreases k,
{
    lemma_next(run);
    lemma_next_commands(run);
    if k > 0 {
        lemma_relaunch_while_fed(advanced(run, ReplyView::Done).0, (k - 1) as nat);
    }
}

/// A run that was told, by the application found in the receiver's list, what it plays, launches that
/// very application again, and loads there that very media at its position, wherever in its plan it
/// resumes.
pub proof fn resumed_app_is_the_one_that_was_playing(
    run: RunView,
    apps: Seq<AppView>,
    found: AppView,
    told: Seq<StatusView>,
    k: nat,
)
    requires
        coherent(run),
        run.phase is ReadingStatus,
        cast::media_app(apps) == Some(found),
        told.len() > 0,
        told[0].media is Some,
    ensures
        ({
            let joining = advanced(run, ReplyView::Apps(Some(apps))).0;
            let querying = advanced(joining, ReplyView::Done).0;
            let launching = advanced(querying, ReplyView::Media(Some(told))).0;
            let step = fed_successes(launching, k).1;
            &&& step matches StepView::Do(CommandView::Relaunch(id)) ==> id == found.app_id
            &&& step matches StepView::Do(CommandView::LoadRelaunched(r)) ==> r.media.content_id == (
            told[0].media->0).content_id && r.current_time == Some(told[0].current_time)
        }),
{
    let joining = advanced(run, ReplyView::Apps(Some(apps))).0;
    let querying = advanced(joining, ReplyView::Done).0;
    let launching = advanced(querying, ReplyView::Media(Some(told))).0;
    what_was_playing_is_remembered(run, apps, found, Some(told));
    lemma_relaunch_while_fed(launching, k);
}

} // verus!
