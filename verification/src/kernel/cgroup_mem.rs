//! Memory pressure: a process is moved into a control group of its own, and
//! that group is given a limit. Arming and disarming take several looks at the
//! file system; which comes next, and what it is for, is decided here one
//! answer at a time.
use vstd::prelude::*;

use crate::harness::error::HarnessError;
use crate::kernel::cgroup_path;
use crate::kernel::cgroup_path::{find_unified_entry, join, parent_of, trim_leading_slashes};
use crate::text;

#[allow(unused_imports)]
use crate::harness::error::ErrorView;

verus! {

/// What happens to a process that goes over its limit: it is killed, or its
/// memory is reclaimed with more force.
#[derive(Debug, Clone, Copy, PartialEq, Eq, Structural)]
pub enum PressureMode {
    Hard,
    Soft,
}

/// The memory controller of the first version of control groups.
pub const V1_ROOT: &'static str = "/sys/fs/cgroup/memory";

/// The unified hierarchy of the second version.
pub const V2_ROOT: &'static str = "/sys/fs/cgroup/unified";

/// Where a process finds the groups it is in.
pub const OWN_GROUPS: &'static str = "/proc/self/cgroup";

/// The file that takes the limit.
pub open spec fn limit_file(v1: bool, mode: PressureMode) -> Seq<char> {
    match (v1, mode) {
        (true, PressureMode::Hard) => "memory.limit_in_bytes"@,
        (true, PressureMode::Soft) => "memory.soft_limit_in_bytes"@,
        (false, PressureMode::Hard) => "memory.max"@,
        (false, PressureMode::Soft) => "memory.high"@,
    }
}

/// What lifts the limit when it is written to that file.
pub open spec fn no_limit(v1: bool) -> Seq<char> {
    if v1 {
        "9223372036854775807"@
    } else {
        "max"@
    }
}

/// A group that holds the process: its directory, the file that takes the
/// limit, and what lifts it.
struct Setup {
    dir: String,
    limit_file: &'static str,
    no_limit: &'static str,
}

/// A `Setup` by the views of its parts.
pub struct SetupView {
    pub dir: Seq<char>,
    pub limit_file: Seq<char>,
    pub no_limit: Seq<char>,
}

/// A directory in which the group is made, and which version it belongs to.
struct Subtree {
    root: String,
    v1: bool,
}

/// A `Subtree` by the views of its parts.
pub struct SubtreeView {
    pub root: Seq<char>,
    pub v1: bool,
}

/// What the injector is waiting for.
enum Stage {
    Idle,
    ProbeV1,
    ReadOwn,
    ProbeV2(String),
    ProbeVersion(String),
    CreateDir(Subtree),
    Delegate(Subtree),
    MovePid(Subtree),
    SetLimit,
    LiftLimit,
}

/// What the injector is waiting for.
pub enum StageView {
    /// Nothing.
    Idle,
    /// Whether the first version has a memory controller.
    ProbeV1,
    /// The list of its own groups.
    ReadOwn,
    /// Whether its own group, below the root of the second version, has a
    /// memory controller.
    ProbeV2(Seq<char>),
    /// Which version the directory that was found belongs to.
    ProbeVersion(Seq<char>),
    /// The directory of the new group.
    CreateDir(SubtreeView),
    /// The controller being handed down to the groups below.
    Delegate(SubtreeView),
    /// The process being moved into the new group.
    MovePid(SubtreeView),
    SetLimit,
    LiftLimit,
}

/// Something to be done to the file system.
#[derive(Debug)]
pub enum Request {
    /// Is there a file of this name?
    Exists(String),
    /// Read the file.
    Read(String),
    /// Make the directory, and those it lies in.
    CreateDir(String),
    /// Write the text to the file.
    Write(String, String),
}

/// A `Request` by the views of its parts.
pub enum RequestView {
    Exists(Seq<char>),
    Read(Seq<char>),
    CreateDir(Seq<char>),
    Write(Seq<char>, Seq<char>),
}

impl View for Request {
    type V = RequestView;

    open spec fn view(&self) -> RequestView {
        match *self {
            Request::Exists(path) => RequestView::Exists(path@),
            Request::Read(path) => RequestView::Read(path@),
            Request::CreateDir(path) => RequestView::CreateDir(path@),
            Request::Write(path, content) => RequestView::Write(path@, content@),
        }
    }
}

/// What came of a request.
#[derive(Debug)]
pub enum Reply {
    /// There is such a file.
    Yes,
    /// There is none.
    No,
    /// What the file holds.
    Text(String),
    /// It was done.
    Done,
    /// It failed; this is what the system said.
    Failed(String),
}

/// What comes next.
#[derive(Debug)]
pub enum Step {
    Ask(Request),
    Finished(Result<(), HarnessError>),
}

/// A `Step` by the views of its parts. `None` stands for success.
pub enum StepView {
    Ask(RequestView),
    Finished(Option<ErrorView>),
}

impl View for Step {
    type V = StepView;

    open spec fn view(&self) -> StepView {
        match *self {
            Step::Ask(request) => StepView::Ask(request@),
            Step::Finished(Ok(_)) => StepView::Finished(None),
            Step::Finished(Err(e)) => StepView::Finished(Some(e@)),
        }
    }
}

/// How an injector stands.
pub struct PressureView {
    pub id: Seq<char>,
    pub pid: u32,
    pub limit_bytes: u64,
    pub mode: PressureMode,
    /// The group that holds the process. Made when the fault is first armed,
    /// and kept.
    pub setup: Option<SetupView>,
    pub armed: bool,
    pub stage: StageView,
}

impl PressureView {
    /// The directory of the group that the injector makes in a subtree.
    pub open spec fn group_dir(self, subtree: SubtreeView) -> Seq<char> {
        cgroup_path::under(subtree.root, "blackswan-"@ + self.id)
    }

    /// What is asked for at this stage.
    pub open spec fn request(self) -> RequestView {
        match self.stage {
            StageView::Idle => RequestView::Exists(Seq::empty()),
            StageView::ProbeV1 => RequestView::Exists(
                cgroup_path::under(V1_ROOT@, "memory.limit_in_bytes"@),
            ),
            StageView::ReadOwn => RequestView::Read(OWN_GROUPS@),
            StageView::ProbeV2(own) => RequestView::Exists(
                cgroup_path::under(cgroup_path::under(V2_ROOT@, own), "memory.max"@),
            ),
            StageView::ProbeVersion(root) => RequestView::Exists(
                cgroup_path::under(root, "memory.limit_in_bytes"@),
            ),
            StageView::CreateDir(subtree) => RequestView::CreateDir(self.group_dir(subtree)),
            StageView::Delegate(subtree) => RequestView::Write(
                cgroup_path::under(subtree.root, "cgroup.subtree_control"@),
                "+memory"@,
            ),
            StageView::MovePid(subtree) => RequestView::Write(
                cgroup_path::under(self.group_dir(subtree), "cgroup.procs"@),
                text::decimal_text(self.pid as nat),
            ),
            StageView::SetLimit => RequestView::Write(
                cgroup_path::under(self.setup->0.dir, self.setup->0.limit_file),
                text::decimal_text(self.limit_bytes as nat),
            ),
            StageView::LiftLimit => RequestView::Write(
                cgroup_path::under(self.setup->0.dir, self.setup->0.limit_file),
                self.setup->0.no_limit,
            ),
        }
    }

    /// Whether a reply is one to what was asked for.
    pub open spec fn awaits(self, reply: Reply) -> bool {
        match self.stage {
            StageView::Idle => false,
            StageView::ProbeV1 | StageView::ProbeV2(_) | StageView::ProbeVersion(_) => reply is Yes
                || reply is No,
            StageView::ReadOwn => reply is Text || reply is Failed,
            _ => reply is Done || reply is Failed,
        }
    }

    pub open spec fn at(self, stage: StageView) -> PressureView {
        PressureView { stage, ..self }
    }

    /// How an attempt to arm begins: with the limit where the process is in its
    /// group, and otherwise with the search for one.
    pub open spec fn begun_arm(self) -> PressureView {
        self.at(
            if self.setup is Some {
                StageView::SetLimit
            } else {
                StageView::ProbeV1
            },
        )
    }

    /// How an attempt to disarm begins, and what it asks for: where the process
    /// was never moved it is over at once.
    pub open spec fn begun_disarm(self) -> (PressureView, StepView) {
        if self.setup is Some {
            self.go_on(StageView::LiftLimit)
        } else {
            (
                PressureView { armed: false, stage: StageView::Idle, ..self },
                StepView::Finished(None),
            )
        }
    }

    /// A failure to arm.
    pub open spec fn arm_error(self, reason: Seq<char>) -> (PressureView, StepView) {
        (self.at(StageView::Idle), StepView::Finished(Some(ErrorView::ArmFailed(self.id, reason))))
    }

    /// Goes on at another stage.
    pub open spec fn go_on(self, stage: StageView) -> (PressureView, StepView) {
        (self.at(stage), StepView::Ask(self.at(stage).request()))
    }

    /// What a reply leads to.
    pub open spec fn after(self, reply: Reply) -> (PressureView, StepView) {
        match self.stage {
            StageView::Idle => (self, StepView::Finished(None)),
            StageView::ProbeV1 => if reply is Yes {
                self.go_on(StageView::ProbeVersion(V1_ROOT@))
            } else {
                self.go_on(StageView::ReadOwn)
            },
            StageView::ReadOwn => match reply {
                Reply::Text(list) => match cgroup_path::unified_entry(list@) {
                    Some(path) => self.go_on(
                        StageView::ProbeV2(cgroup_path::without_leading_slashes(path)),
                    ),
                    None => self.arm_error("no v2 cgroup entry in /proc/self/cgroup"@),
                },
                Reply::Failed(why) => (
                    self.at(StageView::Idle),
                    StepView::Finished(Some(ErrorView::Io(why@))),
                ),
                _ => (self, StepView::Finished(None)),
            },
            StageView::ProbeV2(own) => if reply is Yes {
                self.go_on(
                    StageView::ProbeVersion(
                        cgroup_path::under(V2_ROOT@, cgroup_path::parent(own)),
                    ),
                )
            } else {
                self.arm_error(
                    "no usable memory controller on either v1 or v2 cgroup hierarchy"@,
                )
            },
            StageView::ProbeVersion(root) => self.go_on(
                StageView::CreateDir(SubtreeView { root, v1: reply is Yes }),
            ),
            StageView::CreateDir(subtree) => match reply {
                Reply::Failed(why) => self.arm_error(
                    "creating cgroup "@ + self.group_dir(subtree) + ": "@ + why@,
                ),
                _ => if subtree.v1 {
                    self.go_on(StageView::MovePid(subtree))
                } else {
                    self.go_on(StageView::Delegate(subtree))
                },
            },
            StageView::Delegate(subtree) => self.go_on(StageView::MovePid(subtree)),
            StageView::MovePid(subtree) => match reply {
                Reply::Failed(why) => self.arm_error(
                    "moving pid "@ + text::decimal_text(self.pid as nat) + " into cgroup: "@ + why@,
                ),
                _ => (PressureView {
                    setup: Some(
                        SetupView {
                            dir: self.group_dir(subtree),
                            limit_file: limit_file(subtree.v1, self.mode),
                            no_limit: no_limit(subtree.v1),
                        },
                    ),
                    ..self
                }).go_on(StageView::SetLimit),
            },
            StageView::SetLimit => match reply {
                Reply::Failed(why) => self.arm_error(
                    "writing "@ + self.setup->0.limit_file + ": "@ + why@,
                ),
                _ => (
                    PressureView { armed: true, stage: StageView::Idle, ..self },
                    StepView::Finished(None),
                ),
            },
            StageView::LiftLimit => match reply {
                Reply::Failed(why) => (
                    self.at(StageView::Idle),
                    StepView::Finished(
                        Some(
                            ErrorView::DisarmFailed(
                                self.id,
                                "writing "@ + self.setup->0.limit_file + ": "@ + why@,
                            ),
                        ),
                    ),
                ),
                _ => (
                    PressureView { armed: false, stage: StageView::Idle, ..self },
                    StepView::Finished(None),
                ),
            },
        }
    }
}

/// Puts a process under memory pressure.
pub struct CgroupMemoryPressureInjector {
    id: String,
    pid: u32,
    limit_bytes: u64,
    mode: PressureMode,
    setup: Option<Setup>,
    armed: bool,
    stage: Stage,
}

impl Setup {
    spec fn as_view(self) -> SetupView {
        SetupView {
            dir: self.dir@,
            limit_file: self.limit_file@,
            no_limit: self.no_limit@,
        }
    }
}

impl Subtree {
    spec fn as_view(self) -> SubtreeView {
        SubtreeView { root: self.root@, v1: self.v1 }
    }
}

impl Stage {
    spec fn as_view(self) -> StageView {
        match self {
            Stage::Idle => StageView::Idle,
            Stage::ProbeV1 => StageView::ProbeV1,
            Stage::ReadOwn => StageView::ReadOwn,
            Stage::ProbeV2(own) => StageView::ProbeV2(own@),
            Stage::ProbeVersion(root) => StageView::ProbeVersion(root@),
            Stage::CreateDir(subtree) => StageView::CreateDir(subtree.as_view()),
            Stage::Delegate(subtree) => StageView::Delegate(subtree.as_view()),
            Stage::MovePid(subtree) => StageView::MovePid(subtree.as_view()),
            Stage::SetLimit => StageView::SetLimit,
            Stage::LiftLimit => StageView::LiftLimit,
        }
    }
}

impl View for CgroupMemoryPressureInjector {
    type V = PressureView;

    closed spec fn view(&self) -> PressureView {
        PressureView {
            id: self.id@,
            pid: self.pid,
            limit_bytes: self.limit_bytes,
            mode: self.mode,
            setup: match self.setup {
                Some(setup) => Some(setup.as_view()),
                None => None,
            },
            armed: self.armed,
            stage: self.stage.as_view(),
        }
    }
}

fn limit_file_name(v1: bool, mode: PressureMode) -> (r: &'static str)
    ensures
        r@ == limit_file(v1, mode),
{
    match (v1, mode) {
        (true, PressureMode::Hard) => "memory.limit_in_bytes",
        (true, PressureMode::Soft) => "memory.soft_limit_in_bytes",
        (false, PressureMode::Hard) => "memory.max",
        (false, PressureMode::Soft) => "memory.high",
    }
}

fn no_limit_text(v1: bool) -> (r: &'static str)
    ensures
        r@ == no_limit(v1),
{
    if v1 {
        "9223372036854775807"
    } else {
        "max"
    }
}

fn number(n: u64) -> (r: String)
    ensures
        r@ == text::decimal_text(n as nat),
{
    let mut out = String::new();
    text::append_decimal(&mut out, n);
    assert(out@ =~= text::decimal_text(n as nat));
    out
}

/// What was tried, on what, and what the system said.
fn complaint(before: &str, subject: &str, between: &str, why: &str) -> (r: String)
    ensures
        r@ == before@ + subject@ + between@ + why@,
{
    let mut out = before.to_owned();
    out.append(subject);
    out.append(between);
    out.append(why);
    out
}

impl CgroupMemoryPressureInjector {
    /// What is to be written is known when it is to be written.
    #[verifier::type_invariant]
    pub open spec fn well_formed(self) -> bool {
        self@.stage is SetLimit || self@.stage is LiftLimit ==> self@.setup is Some
    }

    pub fn new(id: String, pid: u32, limit_bytes: u64, mode: PressureMode) -> (r: Self)
        ensures
            r@ == (PressureView {
                id: id@,
                pid,
                limit_bytes,
                mode,
                setup: None,
                armed: false,
                stage: StageView::Idle,
            }),
    {
        CgroupMemoryPressureInjector {
            id,
            pid,
            limit_bytes,
            mode,
            setup: None,
            armed: false,
            stage: Stage::Idle,
        }
    }

    pub fn id(&self) -> (r: &str)
        ensures
            r@ == self@.id,
    {
        self.id.as_str()
    }

    pub fn is_armed(&self) -> (r: bool)
        ensures
            r == self@.armed,
    {
        self.armed
    }

    fn group_dir(&self, subtree: &Subtree) -> (r: String)
        ensures
            r@ == self@.group_dir(subtree.as_view()),
    {
        let mut name = "blackswan-".to_owned();
        name.append(self.id.as_str());
        join(subtree.root.as_str(), name.as_str())
    }

    /// What is asked for at this stage.
    fn request(&self) -> (r: Request)
        requires
            !(self@.stage is Idle),
        ensures
            r@ == self@.request(),
    {
        proof {
            use_type_invariant(self);
        }
        match &self.stage {
            Stage::Idle => Request::Exists(String::new()),
            Stage::ProbeV1 => Request::Exists(join(V1_ROOT, "memory.limit_in_bytes")),
            Stage::ReadOwn => Request::Read(OWN_GROUPS.to_owned()),
            Stage::ProbeV2(own) => Request::Exists(
                join(join(V2_ROOT, own.as_str()).as_str(), "memory.max"),
            ),
            Stage::ProbeVersion(root) => Request::Exists(
                join(root.as_str(), "memory.limit_in_bytes"),
            ),
            Stage::CreateDir(subtree) => Request::CreateDir(self.group_dir(subtree)),
            Stage::Delegate(subtree) => Request::Write(
                join(subtree.root.as_str(), "cgroup.subtree_control"),
                "+memory".to_owned(),
            ),
            Stage::MovePid(subtree) => Request::Write(
                join(self.group_dir(subtree).as_str(), "cgroup.procs"),
                number(self.pid as u64),
            ),
            Stage::SetLimit => match &self.setup {
                Some(setup) => Request::Write(
                    join(setup.dir.as_str(), setup.limit_file),
                    number(self.limit_bytes),
                ),
                None => Request::Exists(String::new()),
            },
            Stage::LiftLimit => match &self.setup {
                Some(setup) => Request::Write(
                    join(setup.dir.as_str(), setup.limit_file),
                    setup.no_limit.to_owned(),
                ),
                None => Request::Exists(String::new()),
            },
        }
    }

    /// Starts to arm the fault. Where the process is already in its group, only
    /// the limit is to be set.
    pub fn begin_arm(&mut self) -> (r: Request)
        ensures
            final(self)@ == old(self)@.at(
                if old(self)@.setup is Some {
                    StageView::SetLimit
                } else {
                    StageView::ProbeV1
                },
            ),
            r@ == final(self)@.request(),
            final(self)@ == old(self)@.begun_arm(),
    {
        if self.setup.is_some() {
            self.stage = Stage::SetLimit;
        } else {
            self.stage = Stage::ProbeV1;
        }
        self.request()
    }

    /// Starts to disarm the fault. Where the process was never moved, there is
    /// nothing to lift. The process stays in its group.
    pub fn begin_disarm(&mut self) -> (r: Step)
        ensures
            old(self)@.setup is None ==> final(self)@ == (PressureView {
                armed: false,
                stage: StageView::Idle,
                ..old(self)@
            }) && r@ == StepView::Finished(None),
            old(self)@.setup is Some ==> final(self)@ == old(self)@.at(StageView::LiftLimit) && r@
                == StepView::Ask(final(self)@.request()),
            (final(self)@, r@) == old(self)@.begun_disarm(),
    {
        if self.setup.is_none() {
            self.stage = Stage::Idle;
            self.armed = false;
            return Step::Finished(Ok(()));
        }
        self.stage = Stage::LiftLimit;
        Step::Ask(self.request())
    }

    fn arm_failed(&self, reason: String) -> (r: Step)
        ensures
            r@ == StepView::Finished(Some(ErrorView::ArmFailed(self@.id, reason@))),
    {
        Step::Finished(Err(HarnessError::ArmFailed(self.id.clone(), reason)))
    }

    /// Takes in what came of the request, and says what comes next.
    pub fn step(&mut self, reply: Reply) -> (r: Step)
        requires
            old(self)@.awaits(reply),
        ensures
            (final(self)@, r@) == old(self)@.after(reply),
    {
        proof {
            use_type_invariant(&*self);
        }
        let mut stage = Stage::Idle;
        std::mem::swap(&mut stage, &mut self.stage);
        match stage {
            Stage::Idle => Step::Finished(Ok(())),
            Stage::ProbeV1 => {
                self.stage = match reply {
                    Reply::Yes => Stage::ProbeVersion(V1_ROOT.to_owned()),
                    _ => Stage::ReadOwn,
                };
                Step::Ask(self.request())
            },
            Stage::ReadOwn => match reply {
                Reply::Text(list) => match find_unified_entry(list.as_str()) {
                    Some(path) => {
                        self.stage = Stage::ProbeV2(trim_leading_slashes(path.as_str()));
                        Step::Ask(self.request())
                    },
                    None => self.arm_failed("no v2 cgroup entry in /proc/self/cgroup".to_owned()),
                },
                Reply::Failed(why) => Step::Finished(Err(HarnessError::Io(why))),
                _ => Step::Finished(Ok(())),
            },
            Stage::ProbeV2(own) => match reply {
                Reply::Yes => {
                    let root = join(V2_ROOT, parent_of(own.as_str()).as_str());
                    self.stage = Stage::ProbeVersion(root);
                    Step::Ask(self.request())
                },
                _ => self.arm_failed(
                    "no usable memory controller on either v1 or v2 cgroup hierarchy".to_owned(),
                ),
            },
            Stage::ProbeVersion(root) => {
                let v1: bool = match reply {
                    Reply::Yes => true,
                    _ => false,
                };
                self.stage = Stage::CreateDir(Subtree { root, v1 });
                Step::Ask(self.request())
            },
            Stage::CreateDir(subtree) => match reply {
                Reply::Failed(why) => {
                    let dir = self.group_dir(&subtree);
                    self.arm_failed(
                        complaint("creating cgroup ", dir.as_str(), ": ", why.as_str()),
                    )
                },
                _ => {
                    self.stage = if subtree.v1 {
                        Stage::MovePid(subtree)
                    } else {
                        Stage::Delegate(subtree)
                    };
                    Step::Ask(self.request())
                },
            },
            Stage::Delegate(subtree) => {
                self.stage = Stage::MovePid(subtree);
                Step::Ask(self.request())
            },
            Stage::MovePid(subtree) => match reply {
                Reply::Failed(why) => {
                    let pid = number(self.pid as u64);
                    self.arm_failed(
                        complaint("moving pid ", pid.as_str(), " into cgroup: ", why.as_str()),
                    )
                },
                _ => {
                    let setup = Setup {
                        dir: self.group_dir(&subtree),
                        limit_file: limit_file_name(subtree.v1, self.mode),
                        no_limit: no_limit_text(subtree.v1),
                    };
                    self.setup = Some(setup);
                    self.stage = Stage::SetLimit;
                    Step::Ask(self.request())
                },
            },
            Stage::SetLimit => match reply {
                Reply::Failed(why) => {
                    let file: &'static str = self.limit_file();
                    self.arm_failed(complaint("writing ", file, ": ", why.as_str()))
                },
                _ => {
                    self.armed = true;
                    Step::Finished(Ok(()))
                },
            },
            Stage::LiftLimit => match reply {
                Reply::Failed(why) => {
                    let file: &'static str = self.limit_file();
                    Step::Finished(
                        Err(
                            HarnessError::DisarmFailed(
                                self.id.clone(),
                                complaint("writing ", file, ": ", why.as_str()),
                            ),
                        ),
                    )
                },
                _ => {
                    self.armed = false;
                    Step::Finished(Ok(()))
                },
            },
        }
    }

    /// The file that takes the limit.
    fn limit_file(&self) -> (r: &'static str)
        requires
            self@.setup is Some,
        ensures
            r@ == self@.setup->0.limit_file,
    {
        match &self.setup {
            Some(setup) => setup.limit_file,
            None => "",
        }
    }
}

} // verus!
