//! Clock skew: a process is started in a time namespace of its own, whose
//! monotonic and boot-time clocks are offset. A process that already runs
//! cannot be given such a namespace, so arming the fault starts the process and
//! disarming it ends it. The time of day is never skewed.
use vstd::prelude::*;

use crate::harness::error;
use crate::harness::error::HarnessError;
use crate::text;

#[allow(unused_imports)]
use crate::harness::error::ErrorView;

verus! {

/// The file that takes the offsets of a namespace.
pub const OFFSETS_FILE: &'static str = "/proc/self/timens_offsets";

/// What the kernel reads the offsets from: a line for each clock, with the
/// seconds and nanoseconds by which it is off.
pub open spec fn offsets_text(monotonic_secs: int, boottime_secs: int) -> Seq<char> {
    "monotonic "@ + text::signed_text(monotonic_secs) + " 0\nboottime "@ + text::signed_text(
        boottime_secs,
    ) + " 0\n"@
}

/// A process to be started in a namespace with these offsets.
#[derive(Debug)]
pub struct Launch {
    pub program: String,
    pub args: Vec<String>,
    /// What is to be written to the offsets file before the program runs.
    pub offsets: String,
    /// Whether what the process prints is kept for whoever started it.
    pub capture_stdout: bool,
}

/// Texts by their views.
pub open spec fn texts(strings: Seq<String>) -> Seq<Seq<char>> {
    strings.map_values(|s: String| s@)
}

/// How a process that was to be ended came to its end.
#[derive(Debug)]
pub enum Ending {
    /// It had already gone.
    Exited,
    /// It was killed.
    Killed,
    /// It could not be killed; this is what the system said.
    KillFailed(String),
}

/// Starts and ends a process whose clocks are skewed.
pub struct TimeSkewInjector {
    id: String,
    argv: Vec<String>,
    monotonic_offset_secs: i64,
    boottime_offset_secs: i64,
    capture_stdout: bool,
    child: Option<u32>,
}

/// A `TimeSkewInjector` by the views of its parts.
#[verifier::ext_equal]
pub struct SkewView {
    pub id: Seq<char>,
    /// The program, and what it is called with.
    pub argv: Seq<Seq<char>>,
    pub monotonic_offset_secs: i64,
    pub boottime_offset_secs: i64,
    pub capture_stdout: bool,
    /// The process, while there is one.
    pub child: Option<u32>,
}

impl View for TimeSkewInjector {
    type V = SkewView;

    closed spec fn view(&self) -> SkewView {
        SkewView {
            id: self.id@,
            argv: texts(self.argv@),
            monotonic_offset_secs: self.monotonic_offset_secs,
            boottime_offset_secs: self.boottime_offset_secs,
            capture_stdout: self.capture_stdout,
            child: self.child,
        }
    }
}

impl SkewView {
    /// Whether this is the process that the injector starts.
    pub open spec fn launches(self, launch: Launch) -> bool {
        &&& self.argv == seq![launch.program@] + texts(launch.args@)
        &&& launch.offsets@ == offsets_text(
            self.monotonic_offset_secs as int,
            self.boottime_offset_secs as int,
        )
        &&& launch.capture_stdout == self.capture_stdout
    }

    /// What a start comes to: the process is known from then on, or the error
    /// says why there is none.
    pub open spec fn after_start(self, started: Result<u32, Seq<char>>) -> (
        SkewView,
        Option<ErrorView>,
    ) {
        match started {
            Ok(pid) => (self.with_child(Some(pid)), None),
            Err(why) => (
                self,
                Some(ErrorView::ArmFailed(self.id, "spawning skewed process: "@ + why)),
            ),
        }
    }

    /// What the end of the process comes to.
    pub open spec fn after_end(self, ending: Ending) -> Option<ErrorView> {
        match ending {
            Ending::Exited | Ending::Killed => None,
            Ending::KillFailed(why) => Some(
                ErrorView::DisarmFailed(self.id, "killing skewed process: "@ + why@),
            ),
        }
    }

    /// With this process, or with none.
    pub open spec fn with_child(self, child: Option<u32>) -> SkewView {
        SkewView { child, ..self }
    }
}

impl TimeSkewInjector {
    pub fn new(
        id: String,
        argv: Vec<String>,
        monotonic_offset_secs: i64,
        boottime_offset_secs: i64,
    ) -> (r: Self)
        ensures
            r@ == (SkewView {
                id: id@,
                argv: texts(argv@),
                monotonic_offset_secs,
                boottime_offset_secs,
                capture_stdout: false,
                child: None,
            }),
    {
        TimeSkewInjector {
            id,
            argv,
            monotonic_offset_secs,
            boottime_offset_secs,
            capture_stdout: false,
            child: None,
        }
    }

    pub fn id(&self) -> (r: &str)
        ensures
            r@ == self@.id,
    {
        self.id.as_str()
    }

    /// The process, while there is one.
    pub fn pid(&self) -> (r: Option<u32>)
        ensures
            r == self@.child,
    {
        self.child
    }

    pub fn is_armed(&self) -> (r: bool)
        ensures
            r == (self@.child is Some),
    {
        self.child.is_some()
    }

    /// Keeps what the process prints for whoever started it. Off by default:
    /// where nobody reads it, the process comes to a halt when the pipe is
    /// full.
    pub fn with_captured_stdout(self) -> (r: Self)
        ensures
            r@ == (SkewView { capture_stdout: true, ..self@ }),
    {
        let mut out = self;
        out.capture_stdout = true;
        out
    }

    /// What is to be started to arm the fault: nothing where the process
    /// already runs.
    pub fn begin_arm(&self) -> (r: Result<Option<Launch>, HarnessError>)
        ensures
            match r {
                Ok(None) => self@.child is Some,
                Ok(Some(launch)) => self@.child is None && self@.launches(launch),
                Err(e) => self@.child is None && self@.argv.len() == 0 && e@
                    == ErrorView::ArmFailed(self@.id, "argv is empty, nothing to launch"@),
            },
    {
        if self.child.is_some() {
            return Ok(None);
        }
        if self.argv.len() == 0 {
            return Err(
                HarnessError::ArmFailed(
                    self.id.clone(),
                    "argv is empty, nothing to launch".to_owned(),
                ),
            );
        }
        let program = self.argv[0].clone();
        let mut args: Vec<String> = Vec::new();
        let mut i: usize = 1;
        assert(self@.argv.take(1) =~= seq![program@] + texts(args@));
        while i < self.argv.len()
            invariant
                1 <= i <= self.argv@.len(),
                self@.argv.take(i as int) == seq![program@] + texts(args@),
            decreases self.argv@.len() - i,
        {
            let ghost before = texts(args@);
            let arg = self.argv[i].clone();
            args.push(arg);
            assert(texts(args@) =~= before.push(arg@));
            assert(self@.argv[i as int] == arg@);
            assert(self@.argv.take(i + 1) =~= self@.argv.take(i as int).push(arg@));
            assert((seq![program@] + before).push(arg@) =~= seq![program@] + texts(args@));
            i = i + 1;
        }
        assert(self@.argv.take(i as int) =~= self@.argv);
        let mut offsets = "monotonic ".to_owned();
        text::append_signed(&mut offsets, self.monotonic_offset_secs);
        offsets.append(" 0\nboottime ");
        text::append_signed(&mut offsets, self.boottime_offset_secs);
        offsets.append(" 0\n");
        Ok(Some(Launch { program, args, offsets, capture_stdout: self.capture_stdout }))
    }

    /// Takes in how the start went: the process, or what the system said.
    pub fn finish_arm(&mut self, started: Result<u32, String>) -> (r: Result<(), HarnessError>)
        requires
            old(self)@.child is None,
        ensures
            match started {
                Ok(pid) => r is Ok && final(self)@ == old(self)@.with_child(Some(pid)),
                Err(why) => {
                    &&& r is Err
                    &&& r->Err_0@ == ErrorView::ArmFailed(
                        old(self)@.id,
                        "spawning skewed process: "@ + why@,
                    )
                    &&& final(self)@ == old(self)@
                },
            },
            (final(self)@, error::failure_of(r)) == old(self)@.after_start(
                match started {
                    Ok(pid) => Ok(pid),
                    Err(why) => Err(why@),
                },
            ),
    {
        match started {
            Ok(pid) => {
                self.child = Some(pid);
                Ok(())
            },
            Err(why) => {
                let mut reason = "spawning skewed process: ".to_owned();
                reason.append(why.as_str());
                Err(HarnessError::ArmFailed(self.id.clone(), reason))
            },
        }
    }

    /// The process to be ended to disarm the fault, where there is one. From
    /// here on the fault counts as disarmed, whatever becomes of the process.
    pub fn begin_disarm(&mut self) -> (r: Option<u32>)
        ensures
            r == old(self)@.child,
            final(self)@ == old(self)@.with_child(None),
    {
        let child: Option<u32> = self.child;
        self.child = None;
        child
    }

    /// Takes in how the process came to its end. One that had already gone is
    /// no error.
    pub fn finish_disarm(&self, ending: Ending) -> (r: Result<(), HarnessError>)
        ensures
            match ending {
                Ending::Exited | Ending::Killed => r is Ok,
                Ending::KillFailed(why) => r is Err && r->Err_0@ == ErrorView::DisarmFailed(
                    self@.id,
                    "killing skewed process: "@ + why@,
                ),
            },
            error::failure_of(r) == self@.after_end(ending),
    {
        match ending {
            Ending::Exited => Ok(()),
            Ending::Killed => Ok(()),
            Ending::KillFailed(why) => {
                let mut reason = "killing skewed process: ".to_owned();
                reason.append(why.as_str());
                Err(HarnessError::DisarmFailed(self.id.clone(), reason))
            },
        }
    }
}

/// The line that sets one clock off: its name, the seconds, and no nanoseconds.
pub open spec fn offset_line(clock: Seq<char>, secs: int) -> Seq<char> {
    clock + seq![' '] + text::signed_text(secs) + seq![' ', '0', '\n']
}

/// A skewed process is started as the arguments say, the first of which is the
/// program, with two lines for its clocks: the monotonic one is off by the
/// first number of seconds, the boot-time one by the second.
pub proof fn law_process_is_started_as_asked(skew: SkewView, launch: Launch)
    requires
        skew.launches(launch),
    ensures
        skew.argv.len() == launch.args@.len() + 1,
        launch.program@ == skew.argv[0],
        forall|i: int|
            0 <= i < launch.args@.len() ==> (#[trigger] launch.args@[i])@ == skew.argv[i + 1],
        launch.offsets@ == offset_line("monotonic"@, skew.monotonic_offset_secs as int)
            + offset_line("boottime"@, skew.boottime_offset_secs as int),
        launch.capture_stdout == skew.capture_stdout,
{
    reveal_strlit("monotonic");
    reveal_strlit("boottime");
    reveal_strlit("monotonic ");
    reveal_strlit(" 0\nboottime ");
    reveal_strlit(" 0\n");
    assert("monotonic "@ =~= "monotonic"@ + seq![' ']);
    assert(" 0\nboottime "@ =~= seq![' ', '0', '\n'] + "boottime"@ + seq![' ']);
    assert(" 0\n"@ =~= seq![' ', '0', '\n']);
    assert(launch.offsets@ =~= offset_line("monotonic"@, skew.monotonic_offset_secs as int)
        + offset_line("boottime"@, skew.boottime_offset_secs as int));
    assert forall|i: int| 0 <= i < launch.args@.len() implies (#[trigger] launch.args@[i])@
        == skew.argv[i + 1] by {
        assert(texts(launch.args@)[i] == launch.args@[i]@);
    }
}

/// A fault is armed while its process is known: starting one makes it known and
/// changes nothing else, and forgetting it leaves the fault as it was before.
pub proof fn law_only_the_process_changes(skew: SkewView, pid: u32, child: Option<u32>)
    ensures
        skew.with_child(child).child == child,
        skew.with_child(child).id == skew.id,
        skew.with_child(child).argv == skew.argv,
        skew.with_child(child).monotonic_offset_secs == skew.monotonic_offset_secs,
        skew.with_child(child).boottime_offset_secs == skew.boottime_offset_secs,
        skew.with_child(child).capture_stdout == skew.capture_stdout,
        skew.child is None ==> skew.with_child(Some(pid)).with_child(None) == skew,
{
}

/// A start that succeeds leaves the fault armed with that process; one that
/// fails leaves it as it was and says why. A process that has gone, by itself or
/// because it was killed, is no error; one that could not be killed is.
pub proof fn law_start_and_end_of_a_process(skew: SkewView, pid: u32, why: Seq<char>, said: String)
    ensures
        skew.after_start(Ok(pid)).0.child == Some(pid),
        skew.after_start(Ok(pid)).0 == skew.with_child(Some(pid)),
        skew.after_start(Ok(pid)).1 is None,
        skew.after_start(Err(why)).0 == skew,
        skew.after_start(Err(why)).1 == Some(
            ErrorView::ArmFailed(skew.id, "spawning skewed process: "@ + why),
        ),
        skew.after_end(Ending::Exited) is None,
        skew.after_end(Ending::Killed) is None,
        skew.after_end(Ending::KillFailed(said)) == Some(
            ErrorView::DisarmFailed(skew.id, "killing skewed process: "@ + said@),
        ),
{
}

} // verus!
