//! Faults that a program in the network path of the kernel carries out. The
//! program decides nothing: what it does is written to its maps. It is attached
//! to an interface when its fault is first armed and stays there; from then on
//! only a switch is thrown.
use vstd::prelude::*;

use crate::harness::error::HarnessError;

#[allow(unused_imports)]
use crate::harness::error::ErrorView;

verus! {

/// What is written to a map.
#[derive(Debug, Clone, Copy)]
pub enum MapValue {
    Word(u32),
    Bytes4([u8; 4]),
    Bytes16([u8; 16]),
}

/// A `MapValue` with its bytes as a sequence.
pub enum ValueView {
    Word(u32),
    Bytes4(Seq<u8>),
    Bytes16(Seq<u8>),
}

impl View for MapValue {
    type V = ValueView;

    open spec fn view(&self) -> ValueView {
        match *self {
            MapValue::Word(word) => ValueView::Word(word),
            MapValue::Bytes4(bytes) => ValueView::Bytes4(bytes@),
            MapValue::Bytes16(bytes) => ValueView::Bytes16(bytes@),
        }
    }
}

/// A value and the map of the program that takes it, at its only index.
#[derive(Debug, Clone, Copy)]
pub struct MapWrite {
    pub map: &'static str,
    pub value: MapValue,
}

/// A `MapWrite` by the views of its parts.
pub struct WriteView {
    pub map: Seq<char>,
    pub value: ValueView,
}

impl View for MapWrite {
    type V = WriteView;

    open spec fn view(&self) -> WriteView {
        WriteView { map: self.map@, value: self.value@ }
    }
}

/// Something to be done to the kernel.
#[derive(Debug)]
pub enum XdpAction {
    /// Load the program of this name and attach it to the interface.
    Attach(&'static str, String),
    Write(MapWrite),
}

/// An `XdpAction` by the views of its parts.
pub enum ActionView {
    Attach(Seq<char>, Seq<char>),
    Write(WriteView),
}

impl View for XdpAction {
    type V = ActionView;

    open spec fn view(&self) -> ActionView {
        match *self {
            XdpAction::Attach(program, iface) => ActionView::Attach(program@, iface@),
            XdpAction::Write(write) => ActionView::Write(write@),
        }
    }
}

/// Actions by their views.
pub open spec fn action_views(actions: Seq<XdpAction>) -> Seq<ActionView> {
    actions.map_values(|action: XdpAction| action@)
}

/// Why an action could not be done.
#[derive(Debug)]
pub enum XdpFailure {
    /// The object holds no program of the name.
    NoProgram,
    /// The program has no map of the name.
    NoMap,
    /// What the system said.
    Other(String),
}

/// How a list of actions went.
#[derive(Debug)]
pub enum Outcome {
    /// All were done.
    Done,
    /// Those before the one at this index were done; that one failed.
    Failed(usize, XdpFailure),
}

impl Outcome {
    /// Whether the outcome is one of a list of `len` actions.
    pub open spec fn of(self, len: nat) -> bool {
        self matches Outcome::Failed(at, _) ==> at < len
    }

    /// How many actions were done.
    pub open spec fn done(self, len: nat) -> nat {
        match self {
            Outcome::Done => len,
            Outcome::Failed(at, _) => at as nat,
        }
    }
}

/// What is said of an action that failed.
pub open spec fn failure_text(action: ActionView, failure: XdpFailure) -> Seq<char> {
    match failure {
        XdpFailure::NoProgram => match action {
            ActionView::Attach(program, _) => "no program named "@ + program + " in object"@,
            ActionView::Write(write) => "no program named "@ + write.map + " in object"@,
        },
        XdpFailure::NoMap => match action {
            ActionView::Attach(program, _) => "no map named "@ + program,
            ActionView::Write(write) => "no map named "@ + write.map,
        },
        XdpFailure::Other(why) => why@,
    }
}

fn describe_failure(action: &XdpAction, failure: XdpFailure) -> (r: String)
    ensures
        r@ == failure_text(action@, failure),
{
    let subject: &str = match action {
        XdpAction::Attach(program, _) => program,
        XdpAction::Write(write) => write.map,
    };
    match failure {
        XdpFailure::NoProgram => {
            let mut out = "no program named ".to_owned();
            out.append(subject);
            out.append(" in object");
            out
        },
        XdpFailure::NoMap => {
            let mut out = "no map named ".to_owned();
            out.append(subject);
            out
        },
        XdpFailure::Other(why) => why,
    }
}

/// A fault of the network path: the program that carries it out, what is
/// written to its maps, and how it stands.
pub struct XdpHook {
    id: String,
    iface: String,
    program: &'static str,
    setup: Vec<MapWrite>,
    switch: &'static str,
    on: u32,
    attached: bool,
    ready: bool,
    armed: bool,
}

/// An `XdpHook` by the views of its parts.
#[verifier::ext_equal]
pub struct HookView {
    pub id: Seq<char>,
    pub iface: Seq<char>,
    pub program: Seq<char>,
    /// What is written, when the program has been attached, before the fault
    /// can be armed.
    pub setup: Seq<WriteView>,
    /// The map of the switch.
    pub switch: Seq<char>,
    /// What is written to the switch to arm the fault. Zero disarms it.
    pub on: u32,
    /// Whether the program has been attached.
    pub attached: bool,
    /// Whether everything that is to be set up has been written.
    pub ready: bool,
    pub armed: bool,
}

impl HookView {
    /// The write that throws the switch.
    pub open spec fn throw(self, value: u32) -> ActionView {
        ActionView::Write(WriteView { map: self.switch, value: ValueView::Word(value) })
    }

    /// The attach, where it is still to be done.
    pub open spec fn attach_script(self) -> Seq<ActionView> {
        if self.attached {
            Seq::empty()
        } else {
            seq![ActionView::Attach(self.program, self.iface)]
        }
    }

    /// The writes that set the program up, until all of them have been done.
    pub open spec fn setup_script(self) -> Seq<ActionView> {
        if self.ready {
            Seq::empty()
        } else {
            self.setup.map_values(|write: WriteView| ActionView::Write(write))
        }
    }

    /// What is to be done before the switch is thrown: nothing once the program
    /// has been attached and set up.
    pub open spec fn load_script(self) -> Seq<ActionView> {
        self.attach_script() + self.setup_script()
    }

    /// What is to be done to arm the fault.
    pub open spec fn arm_script(self) -> Seq<ActionView> {
        self.load_script().push(self.throw(self.on))
    }

    /// What is to be done to disarm the fault: nothing where the program was
    /// never attached.
    pub open spec fn disarm_script(self) -> Seq<ActionView> {
        if self.attached {
            seq![self.throw(0)]
        } else {
            Seq::empty()
        }
    }

    /// How the hook stands after `done` actions of its arm script. What has been
    /// attached stays attached, though a write behind it failed; the writes
    /// that set it up are repeated until all of them have been done.
    pub open spec fn after_arm(self, done: nat) -> HookView {
        HookView {
            attached: self.attached || done >= 1,
            ready: self.ready || done >= self.load_script().len(),
            armed: self.armed || done == self.arm_script().len(),
            ..self
        }
    }

    /// How the hook stands after `done` actions of its disarm script.
    pub open spec fn after_disarm(self, done: nat) -> HookView {
        HookView { armed: self.armed && done < self.disarm_script().len(), ..self }
    }
}

/// What comes of an outcome: success, or the failed action's error. Failing to
/// throw the switch is reported in the same words whichever way it was thrown.
pub open spec fn result_of(
    hook: HookView,
    script: Seq<ActionView>,
    outcome: Outcome,
    r: Result<(), HarnessError>,
) -> bool {
    match outcome {
        Outcome::Done => r is Ok,
        Outcome::Failed(at, failure) => {
            &&& r is Err
            &&& r->Err_0@ == ErrorView::ArmFailed(hook.id, failure_text(script[at as int], failure))
        },
    }
}

impl View for XdpHook {
    type V = HookView;

    closed spec fn view(&self) -> HookView {
        HookView {
            id: self.id@,
            iface: self.iface@,
            program: self.program@,
            setup: self.setup@.map_values(|write: MapWrite| write@),
            switch: self.switch@,
            on: self.on,
            attached: self.attached,
            ready: self.ready,
            armed: self.armed,
        }
    }
}

impl XdpHook {
    /// A fault that has not been armed yet.
    pub fn new(
        id: String,
        iface: String,
        program: &'static str,
        setup: Vec<MapWrite>,
        switch: &'static str,
        on: u32,
    ) -> (r: Self)
        ensures
            r@ == (HookView {
                id: id@,
                iface: iface@,
                program: program@,
                setup: setup@.map_values(|write: MapWrite| write@),
                switch: switch@,
                on,
                attached: false,
                ready: false,
                armed: false,
            }),
    {
        XdpHook {
            id,
            iface,
            program,
            setup,
            switch,
            on,
            attached: false,
            ready: false,
            armed: false,
        }
    }

    pub fn id(&self) -> (r: &str)
        ensures
            r@ == self@.id,
    {
        self.id.as_str()
    }

    pub fn is_armed(&self) -> (r: bool)
        ensures
            r == self@.armed,
    {
        self.armed
    }

    /// What is to be done to arm the fault, in order.
    pub fn arm_script(&self) -> (r: Vec<XdpAction>)
        ensures
            action_views(r@) == self@.arm_script(),
    {
        let mut script: Vec<XdpAction> = Vec::new();
        if !self.attached {
            script.push(XdpAction::Attach(self.program, self.iface.clone()));
        }
        let ghost head = self@.attach_script();
        assert(action_views(script@) =~= head);
        if !self.ready {
            let ghost writes = self@.setup_script();
            assert(action_views(script@) =~= head + writes.take(0));
            let mut i: usize = 0;
            while i < self.setup.len()
                invariant
                    i <= self.setup@.len(),
                    !self.ready,
                    writes == self@.setup_script(),
                    action_views(script@) == head + writes.take(i as int),
                decreases self.setup@.len() - i,
            {
                let ghost before = action_views(script@);
                let write = self.setup[i];
                assert(writes[i as int] == ActionView::Write(write@));
                script.push(XdpAction::Write(write));
                assert(action_views(script@) =~= before.push(ActionView::Write(write@)));
                assert(writes.take(i + 1) =~= writes.take(i as int).push(writes[i as int]));
                i = i + 1;
            }
            assert(writes.take(i as int) =~= writes);
        }
        assert(action_views(script@) =~= self@.load_script());
        script.push(
            XdpAction::Write(MapWrite { map: self.switch, value: MapValue::Word(self.on) }),
        );
        assert(action_views(script@) =~= self@.arm_script());
        script
    }

    /// Takes in how the arm script went.
    pub fn finish_arm(&mut self, outcome: Outcome) -> (r: Result<(), HarnessError>)
        requires
            outcome.of(old(self)@.arm_script().len()),
        ensures
            final(self)@ == old(self)@.after_arm(outcome.done(old(self)@.arm_script().len())),
            result_of(old(self)@, old(self)@.arm_script(), outcome, r),
    {
        let script = self.arm_script();
        assert(script@.len() == self@.arm_script().len());
        match outcome {
            Outcome::Done => {
                self.attached = true;
                self.ready = true;
                self.armed = true;
                Ok(())
            },
            Outcome::Failed(at, failure) => {
                if at == script.len() - 1 {
                    self.ready = true;
                }
                if at >= 1 {
                    self.attached = true;
                }
                assert(script@[at as int]@ == old(self)@.arm_script()[at as int]);
                Err(
                    HarnessError::ArmFailed(
                        self.id.clone(),
                        describe_failure(&script[at], failure),
                    ),
                )
            },
        }
    }

    /// What is to be done to disarm the fault, in order.
    pub fn disarm_script(&self) -> (r: Vec<XdpAction>)
        ensures
            action_views(r@) == self@.disarm_script(),
    {
        let mut script: Vec<XdpAction> = Vec::new();
        if self.attached {
            script.push(
                XdpAction::Write(MapWrite { map: self.switch, value: MapValue::Word(0) }),
            );
        }
        assert(action_views(script@) =~= self@.disarm_script());
        script
    }

    /// Takes in how the disarm script went.
    pub fn finish_disarm(&mut self, outcome: Outcome) -> (r: Result<(), HarnessError>)
        requires
            outcome.of(old(self)@.disarm_script().len()),
        ensures
            final(self)@ == old(self)@.after_disarm(
                outcome.done(old(self)@.disarm_script().len()),
            ),
            result_of(old(self)@, old(self)@.disarm_script(), outcome, r),
    {
        let script = self.disarm_script();
        assert(script@.len() == self@.disarm_script().len());
        match outcome {
            Outcome::Done => {
                self.armed = false;
                Ok(())
            },
            Outcome::Failed(at, failure) => {
                assert(script@[at as int]@ == old(self)@.disarm_script()[at as int]);
                Err(
                    HarnessError::ArmFailed(
                        self.id.clone(),
                        describe_failure(&script[at], failure),
                    ),
                )
            },
        }
    }
}

} // verus!
