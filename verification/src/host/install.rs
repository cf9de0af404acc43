//! Installing the packages of a project into the host: all together, and one by
//! one where that fails, so that one that cannot be had does not sink the rest.

use crate::text;
use vstd::prelude::*;

verus! {

// ---------------------------------------------------------------------------
// What happens, and what is to be done
// ---------------------------------------------------------------------------

/// A stream of npm's output.
#[derive(Debug, Clone, Copy, PartialEq, Eq, Structural)]
pub enum Pipe {
    Stdout,
    Stderr,
}

/// What happened to the installation.
#[derive(Debug)]
pub enum InstallEvent {
    /// It is to begin.
    Begun,
    /// npm could not be started.
    SpawnFailed,
    /// The output of npm could not be had.
    PipeMissing(Pipe),
    /// npm ended: whether it succeeded, and its status.
    Ended(bool, String),
    /// npm could not be waited for.
    Broken(String),
}

#[verifier::ext_equal]
pub enum EventView {
    Begun,
    SpawnFailed,
    PipeMissing(Pipe),
    Ended(bool, Seq<char>),
    Broken(Seq<char>),
}

impl View for InstallEvent {
    type V = EventView;

    open spec fn view(&self) -> EventView {
        match self {
            InstallEvent::Begun => EventView::Begun,
            InstallEvent::SpawnFailed => EventView::SpawnFailed,
            InstallEvent::PipeMissing(p) => EventView::PipeMissing(*p),
            InstallEvent::Ended(success, status) => EventView::Ended(*success, status@),
            InstallEvent::Broken(e) => EventView::Broken(e@),
        }
    }
}

/// What is to be installed next.
#[derive(Debug)]
pub enum InstallTask {
    /// These packages together.
    Batch(Vec<String>),
    /// This package.
    Single(String),
    /// Nothing more: the installation is over.
    Done,
    /// Nothing for now: the event does not belong to the step that is on.
    Nothing,
}

#[verifier::ext_equal]
pub enum TaskView {
    Batch(Seq<Seq<char>>),
    Single(Seq<char>),
    Done,
    Nothing,
}

impl View for InstallTask {
    type V = TaskView;

    open spec fn view(&self) -> TaskView {
        match self {
            InstallTask::Batch(v) => TaskView::Batch(text::texts(v@)),
            InstallTask::Single(p) => TaskView::Single(p@),
            InstallTask::Done => TaskView::Done,
            InstallTask::Nothing => TaskView::Nothing,
        }
    }
}

/// What is to be done: what is logged, and what is installed then.
#[derive(Debug)]
pub struct InstallAction {
    pub log: Vec<String>,
    pub task: InstallTask,
}

#[verifier::ext_equal]
pub struct ActionView {
    pub log: Seq<Seq<char>>,
    pub task: TaskView,
}

impl View for InstallAction {
    type V = ActionView;

    open spec fn view(&self) -> ActionView {
        ActionView { log: text::texts(self.log@), task: self.task@ }
    }
}

// ---------------------------------------------------------------------------
// The lines of the log
// ---------------------------------------------------------------------------

/// What is logged before the packages are installed together.
pub open spec fn installing_line(count: nat) -> Seq<char> {
    "[npm] installing "@ + text::decimal(count) + " project runtime dependency(ies)..."@
}

/// What is logged when they could not be installed together.
pub open spec fn batch_line(event: EventView) -> Seq<char> {
    match event {
        EventView::Broken(e) => "[npm!] batch install error: "@ + e + " — retrying one-by-one"@,
        EventView::Ended(_, status) => "[npm!] batch install of project deps failed ("@ + status
            + ") — retrying one-by-one"@,
        EventView::PipeMissing(Pipe::Stdout) => "[npm!] cannot capture npm stdout"@,
        EventView::PipeMissing(Pipe::Stderr) => "[npm!] cannot capture npm stderr"@,
        _ => "[npm!] cannot spawn npm for project dependencies"@,
    }
}

/// What is logged of a package that is skipped.
pub open spec fn skipped_line(package: Seq<char>) -> Seq<char> {
    "[npm!] skipped "@ + package + " (install failed — private package?)"@
}

/// What is logged at the end of an installation one by one.
pub open spec fn summary_line(ok: nat, failed: nat) -> Seq<char> {
    "[npm] project dependencies: "@ + text::decimal(ok) + " installed, "@ + text::decimal(failed)
        + " skipped"@
}

// ---------------------------------------------------------------------------
// The installation
// ---------------------------------------------------------------------------

/// How far the installation has come.
#[derive(Debug, Clone, Copy, PartialEq, Eq, Structural)]
pub enum Phase {
    /// It has not begun.
    Waiting,
    /// All packages are being installed together.
    Batch,
    /// The packages are being installed one by one.
    Single,
    Over,
}

/// The packages, how far their installation has come, and how many of those that
/// were tried one by one were installed and how many were not.
#[verifier::ext_equal]
pub struct InstallView {
    pub packages: Seq<Seq<char>>,
    pub phase: Phase,
    pub ok: nat,
    pub failed: nat,
}

/// Whether an event ends what was being installed.
pub open spec fn ends(event: EventView) -> bool {
    !(event is Begun)
}

/// Whether npm succeeded.
pub open spec fn succeeds(event: EventView) -> bool {
    event matches EventView::Ended(success, _) && success
}

/// Whether npm ran and did not succeed.
pub open spec fn fails(event: EventView) -> bool {
    match event {
        EventView::Ended(success, _) => !success,
        EventView::Broken(_) => true,
        _ => false,
    }
}

/// The installation after an event. Where there is nothing to install, it is
/// over at once. Together comes first: success ends it, a failure goes on one by
/// one, each package once, and npm that cannot be run ends it.
pub open spec fn installed(v: InstallView, event: EventView) -> InstallView {
    match v.phase {
        Phase::Waiting => if event is Begun {
            InstallView {
                phase: if v.packages.len() == 0 {
                    Phase::Over
                } else {
                    Phase::Batch
                },
                ..v
            }
        } else {
            v
        },
        Phase::Batch => if !ends(event) {
            v
        } else {
            InstallView {
                phase: if fails(event) {
                    Phase::Single
                } else {
                    Phase::Over
                },
                ..v
            }
        },
        Phase::Single => if !ends(event) {
            v
        } else {
            InstallView {
                phase: if v.ok + v.failed + 1 < v.packages.len() {
                    Phase::Single
                } else {
                    Phase::Over
                },
                ok: if succeeds(event) {
                    v.ok + 1
                } else {
                    v.ok
                },
                failed: if succeeds(event) {
                    v.failed
                } else {
                    v.failed + 1
                },
                ..v
            }
        },
        Phase::Over => v,
    }
}

/// What is to be done after an event.
pub open spec fn install_action(v: InstallView, event: EventView) -> ActionView {
    let next = installed(v, event);
    match v.phase {
        Phase::Waiting => if !(event is Begun) {
            ActionView { log: Seq::empty(), task: TaskView::Nothing }
        } else if v.packages.len() == 0 {
            ActionView { log: Seq::empty(), task: TaskView::Done }
        } else {
            ActionView {
                log: seq![installing_line(v.packages.len())],
                task: TaskView::Batch(v.packages),
            }
        },
        Phase::Batch => if !ends(event) {
            ActionView { log: Seq::empty(), task: TaskView::Nothing }
        } else if succeeds(event) {
            ActionView {
                log: seq!["[npm] project dependencies installed"@],
                task: TaskView::Done,
            }
        } else {
            ActionView {
                log: seq![batch_line(event)],
                task: if fails(event) {
                    TaskView::Single(v.packages[0])
                } else {
                    TaskView::Done
                },
            }
        },
        Phase::Single => if !ends(event) {
            ActionView { log: Seq::empty(), task: TaskView::Nothing }
        } else {
            let tried = (v.ok + v.failed) as int;
            let log = if succeeds(event) {
                Seq::<Seq<char>>::empty()
            } else {
                seq![skipped_line(v.packages[tried])]
            };
            if next.phase is Single {
                ActionView { log, task: TaskView::Single(v.packages[tried + 1]) }
            } else {
                ActionView {
                    log: log.push(summary_line(next.ok, next.failed)),
                    task: TaskView::Done,
                }
            }
        },
        Phase::Over => ActionView { log: Seq::empty(), task: TaskView::Nothing },
    }
}

/// The installation of the packages of a project.
pub struct Installer {
    packages: Vec<String>,
    phase: Phase,
    ok: usize,
    failed: usize,
}

impl View for Installer {
    type V = InstallView;

    closed spec fn view(&self) -> InstallView {
        InstallView {
            packages: text::texts(self.packages@),
            phase: self.phase,
            ok: self.ok as nat,
            failed: self.failed as nat,
        }
    }
}

/// What holds of every installation: while packages are installed, together or
/// one by one, there is one that was not tried yet.
pub open spec fn is_sound(v: InstallView) -> bool {
    &&& v.ok + v.failed <= v.packages.len()
    &&& v.phase is Waiting ==> v.ok + v.failed == 0
    &&& v.phase is Batch ==> v.ok + v.failed == 0 && v.packages.len() > 0
    &&& v.phase is Single ==> v.ok + v.failed < v.packages.len()
}

impl Installer {
    pub open spec fn wf(&self) -> bool {
        is_sound(self@)
    }

    /// The installation of these packages, which has not begun.
    pub fn new(packages: Vec<String>) -> (r: Installer)
        ensures
            r.wf(),
            r@ == (InstallView {
                packages: text::texts(packages@),
                phase: Phase::Waiting,
                ok: 0,
                failed: 0,
            }),
    {
        Installer { packages, phase: Phase::Waiting, ok: 0, failed: 0 }
    }

    /// Something happened: what is to be done then.
    pub fn next(&mut self, event: InstallEvent) -> (r: InstallAction)
        requires
            old(self).wf(),
        ensures
            final(self).wf(),
            final(self)@ == installed(old(self)@, event@),
            r@ == install_action(old(self)@, event@),
    {
        let mut log: Vec<String> = Vec::new();
        assert(text::texts(log@) =~= Seq::<Seq<char>>::empty());
        assert(self@.packages.len() == self.packages@.len());
        match self.phase {
            Phase::Waiting => match event {
                InstallEvent::Begun => {
                    if self.packages.len() == 0 {
                        self.phase = Phase::Over;
                        return InstallAction { log, task: InstallTask::Done };
                    }
                    self.phase = Phase::Batch;
                    InstallAction {
                        log: one(installing_message(self.packages.len() as u64)),
                        task: InstallTask::Batch(text::copies(&self.packages)),
                    }
                },
                _ => InstallAction { log, task: InstallTask::Nothing },
            },
            Phase::Batch => {
                assert(self@.packages[0] == self.packages@[0]@);
                match event {
                    InstallEvent::Begun => InstallAction { log, task: InstallTask::Nothing },
                    InstallEvent::SpawnFailed => {
                        self.phase = Phase::Over;
                        InstallAction {
                            log: one(
                                "[npm!] cannot spawn npm for project dependencies".to_string(),
                            ),
                            task: InstallTask::Done,
                        }
                    },
                    InstallEvent::PipeMissing(pipe) => {
                        self.phase = Phase::Over;
                        InstallAction { log: one(pipe_message(pipe)), task: InstallTask::Done }
                    },
                    InstallEvent::Ended(success, status) => {
                        if success {
                            self.phase = Phase::Over;
                            return InstallAction {
                                log: one("[npm] project dependencies installed".to_string()),
                                task: InstallTask::Done,
                            };
                        }
                        self.phase = Phase::Single;
                        InstallAction {
                            log: one(batch_failed_message(Ok(status.as_str()))),
                            task: InstallTask::Single(self.packages[0].clone()),
                        }
                    },
                    InstallEvent::Broken(e) => {
                        self.phase = Phase::Single;
                        InstallAction {
                            log: one(batch_failed_message(Err(e.as_str()))),
                            task: InstallTask::Single(self.packages[0].clone()),
                        }
                    },
                }
            },
            Phase::Single => {
                let success: bool = match event {
                    InstallEvent::Begun => {
                        return InstallAction { log, task: InstallTask::Nothing };
                    },
                    InstallEvent::Ended(success, _) => success,
                    _ => false,
                };
                let count: usize = self.packages.len();
                let tried: usize = self.ok + self.failed;
                assert(self@.packages[tried as int] == self.packages@[tried as int]@);
                if success {
                    self.ok = self.ok + 1;
                } else {
                    self.failed = self.failed + 1;
                    let line: String = skipped_message(self.packages[tried].as_str());
                    let ghost new = line@;
                    log.push(line);
                    assert(text::texts(log@) =~= seq![new]);
                }
                if tried + 1 < count {
                    assert(self@.packages[tried + 1] == self.packages@[tried + 1]@);
                    return InstallAction {
                        log,
                        task: InstallTask::Single(self.packages[tried + 1].clone()),
                    };
                }
                self.phase = Phase::Over;
                let ghost before = text::texts(log@);
                let line: String = summary(self.ok as u64, self.failed as u64);
                let ghost new = line@;
                log.push(line);
                assert(text::texts(log@) =~= before.push(new));
                InstallAction { log, task: InstallTask::Done }
            },
            Phase::Over => InstallAction { log, task: InstallTask::Nothing },
        }
    }
}

fn one(line: String) -> (r: Vec<String>)
    ensures
        text::texts(r@) == seq![line@],
{
    let mut v: Vec<String> = Vec::new();
    let ghost t = line@;
    v.push(line);
    assert(text::texts(v@) =~= seq![t]);
    v
}

/// What is logged before the packages of a project are installed.
pub fn installing_message(count: u64) -> (r: String)
    ensures
        r@ == installing_line(count as nat),
{
    text::cat3(
        "[npm] installing ",
        text::number_text(count).as_str(),
        " project runtime dependency(ies)...",
    )
}

/// What is logged when they could not be installed together: how npm ended, or
/// why it could not be waited for.
pub fn batch_failed_message(ended: Result<&str, &str>) -> (r: String)
    ensures
        r@ == batch_line(
            match ended {
                Ok(status) => EventView::Ended(false, status@),
                Err(e) => EventView::Broken(e@),
            },
        ),
{
    match ended {
        Ok(status) => text::cat3(
            "[npm!] batch install of project deps failed (",
            status,
            ") — retrying one-by-one",
        ),
        Err(e) => text::cat3("[npm!] batch install error: ", e, " — retrying one-by-one"),
    }
}

fn pipe_message(pipe: Pipe) -> (r: String)
    ensures
        r@ == batch_line(EventView::PipeMissing(pipe)),
{
    match pipe {
        Pipe::Stdout => "[npm!] cannot capture npm stdout".to_string(),
        Pipe::Stderr => "[npm!] cannot capture npm stderr".to_string(),
    }
}

fn skipped_message(package: &str) -> (r: String)
    ensures
        r@ == skipped_line(package@),
{
    text::cat3("[npm!] skipped ", package, " (install failed — private package?)")
}

fn summary(ok: u64, failed: u64) -> (r: String)
    ensures
        r@ == summary_line(ok as nat, failed as nat),
{
    text::cat5(
        "[npm] project dependencies: ",
        text::number_text(ok).as_str(),
        " installed, ",
        text::number_text(failed).as_str(),
        " skipped",
    )
}

// ---------------------------------------------------------------------------
// Laws
// ---------------------------------------------------------------------------

/// The installation after these events.
pub open spec fn after(v: InstallView, events: Seq<EventView>) -> InstallView
    decreases events.len(),
{
    if events.len() == 0 {
        v
    } else {
        installed(after(v, events.drop_last()), events.last())
    }
}

/// The packages that are tried one by one while these events come, in order.
pub open spec fn tried_singly(v: InstallView, events: Seq<EventView>) -> Seq<Seq<char>>
    decreases events.len(),
{
    if events.len() == 0 {
        Seq::empty()
    } else {
        let earlier = tried_singly(v, events.drop_last());
        match install_action(after(v, events.drop_last()), events.last()).task {
            TaskView::Single(package) => earlier.push(package),
            _ => earlier,
        }
    }
}

/// How many of the events tell of a success.
pub open spec fn successes(events: Seq<EventView>) -> nat
    decreases events.len(),
{
    if events.len() == 0 {
        0
    } else {
        successes(events.drop_last()) + (if succeeds(events.last()) {
            1nat
        } else {
            0
        })
    }
}

/// After a failed batch every package is tried exactly once, in order, whatever
/// becomes of each: when so many have ended, the installation is over, with as
/// many installed as succeeded and the others skipped.
pub proof fn every_package_is_tried_once(v: InstallView, events: Seq<EventView>)
    requires
        is_sound(v),
        v.phase is Batch,
        0 < events.len() <= v.packages.len() + 1,
        fails(events[0]),
        forall|i: int| 0 < i < events.len() ==> ends(#[trigger] events[i]),
    ensures
        events.len() <= v.packages.len() ==> tried_singly(v, events) == v.packages.take(
            events.len() as int,
        ) && after(v, events).phase is Single,
        events.len() == v.packages.len() + 1 ==> tried_singly(v, events) == v.packages && after(
            v,
            events,
        ).phase is Over,
        after(v, events).packages == v.packages,
        after(v, events).ok == successes(events),
        after(v, events).ok + after(v, events).failed == events.len() - 1,
    decreases events.len(),
{
    let head = events.drop_last();
    if events.len() == 1 {
        assert(head =~= Seq::<EventView>::empty());
        assert(after(v, head) == v);
        assert(tried_singly(v, head) == Seq::<Seq<char>>::empty());
        assert(successes(head) == 0);
        assert(events.last() == events[0]);
        assert(tried_singly(v, events) =~= v.packages.take(1));
    } else {
        assert forall|i: int| 0 < i < head.len() implies ends(#[trigger] head[i]) by {
            assert(head[i] == events[i]);
        }
        every_package_is_tried_once(v, head);
        let n = head.len() as int;
        assert(events.last() == events[n]);
        assert(ends(events[n]));
        if n < v.packages.len() {
            assert(v.packages.take(n).push(v.packages[n]) =~= v.packages.take(n + 1));
        } else {
            assert(v.packages.take(n) =~= v.packages);
        }
    }
}

/// A batch that succeeds ends the installation, and so does npm that cannot be
/// run: no package is tried by itself, whatever is told later.
pub proof fn nothing_follows_the_end(v: InstallView, event: EventView, later: EventView)
    requires
        v.phase is Batch,
        ends(event),
        !fails(event),
    ensures
        install_action(v, event).task is Done,
        installed(installed(v, event), later) == installed(v, event),
        install_action(installed(v, event), later).task is Nothing,
{
}

/// All packages are asked for together first, as they are, and the log says how
/// many; where there are none, nothing is.
pub proof fn everything_is_tried_together_first(v: InstallView)
    requires
        v.phase is Waiting,
    ensures
        v.packages.len() > 0 ==> install_action(v, EventView::Begun).task == TaskView::Batch(
            v.packages,
        ) && installed(v, EventView::Begun).phase is Batch && install_action(
            v,
            EventView::Begun,
        ).log == seq![installing_line(v.packages.len())],
        v.packages.len() == 0 ==> install_action(v, EventView::Begun).task is Done && installed(
            v,
            EventView::Begun,
        ).phase is Over,
{
}

/// A package that could not be installed by itself is named in the log, and the
/// last line counts those that were and those that were not.
pub proof fn skipped_packages_are_named(v: InstallView, event: EventView)
    requires
        is_sound(v),
        v.phase is Single,
        ends(event),
    ensures
        !succeeds(event) ==> install_action(v, event).log.len() > 0 && install_action(
            v,
            event,
        ).log[0] == skipped_line(v.packages[(v.ok + v.failed) as int]),
        v.ok + v.failed + 1 == v.packages.len() ==> install_action(v, event).log.len() > 0
            && install_action(v, event).log.last() == summary_line(
            installed(v, event).ok,
            installed(v, event).failed,
        ),
{
}

} // verus!
