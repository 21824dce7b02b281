//! What is printed of a run.
use vstd::prelude::*;
use vstd::string::StrSliceExecFns;

use crate::harness::scenario::StepAction;
use crate::replay::trace::{Trace, TraceEvent};
use crate::text;

#[allow(unused_imports)]
use crate::replay::trace::EventView;

verus! {

/// The width of the column of times.
pub const TIME_WIDTH: usize = 14;

/// The width of the column of ids.
pub const ID_WIDTH: usize = 20;

/// So many spaces.
pub open spec fn spaces(n: int) -> Seq<char> {
    Seq::new(
        if n > 0 {
            n as nat
        } else {
            0
        },
        |i: int| ' ',
    )
}

/// The text at the right of a column. One that is too wide stands out.
pub open spec fn right(s: Seq<char>, width: int) -> Seq<char> {
    spaces(width - s.len()) + s
}

/// The text at the left of a column. One that is too wide stands out.
pub open spec fn left(s: Seq<char>, width: int) -> Seq<char> {
    s + spaces(width - s.len())
}

/// The name of an action.
pub open spec fn action_name(action: StepAction) -> Seq<char> {
    match action {
        StepAction::Arm => "Arm"@,
        StepAction::Disarm => "Disarm"@,
    }
}

/// The line of the scenario.
pub open spec fn heading(name: Seq<char>, seed: u64) -> Seq<char> {
    "scenario: "@ + name + " (seed "@ + text::decimal_text(seed as nat) + ")"@
}

/// The line of an event.
pub open spec fn event_line(event: EventView) -> Seq<char> {
    "  "@ + right(text::decimal_text(event.step.at_ns as nat), TIME_WIDTH as int) + " ns  "@ + left(
        event.step.fault_id,
        ID_WIDTH as int,
    ) + " "@ + action_name(event.step.action)
}

fn append_spaces(out: &mut String, n: usize)
    ensures
        final(out)@ == old(out)@ + spaces(n as int),
{
    proof {
        reveal_strlit(" ");
    }
    let mut i: usize = 0;
    assert(out@ =~= old(out)@ + spaces(0));
    while i < n
        invariant
            i <= n,
            " "@ == seq![' '],
            out@ == old(out)@ + spaces(i as int),
        decreases n - i,
    {
        out.append(" ");
        assert(out@ =~= old(out)@ + spaces(i + 1));
        i = i + 1;
    }
}

fn describe_event(event: &TraceEvent) -> (r: String)
    ensures
        r@ == event_line(event@),
{
    let mut time = String::new();
    text::append_decimal(&mut time, event.step.at_ns);
    assert(time@ =~= text::decimal_text(event.step.at_ns as nat));
    let time_len: usize = time.as_str().unicode_len();
    let id_len: usize = event.step.fault_id.as_str().unicode_len();
    let mut out = "  ".to_owned();
    if time_len < TIME_WIDTH {
        append_spaces(&mut out, TIME_WIDTH - time_len);
    } else {
        assert(spaces(TIME_WIDTH - time_len) =~= Seq::<char>::empty());
        assert(out@ =~= out@ + spaces(TIME_WIDTH - time_len));
    }
    out.append(time.as_str());
    out.append(" ns  ");
    out.append(event.step.fault_id.as_str());
    if id_len < ID_WIDTH {
        append_spaces(&mut out, ID_WIDTH - id_len);
    } else {
        assert(spaces(ID_WIDTH - id_len) =~= Seq::<char>::empty());
        assert(out@ =~= out@ + spaces(ID_WIDTH - id_len));
    }
    out.append(" ");
    out.append(
        match event.step.action {
            StepAction::Arm => "Arm",
            StepAction::Disarm => "Disarm",
        },
    );
    assert(out@ =~= event_line(event@));
    out
}

/// The summary of a trace, line by line: the scenario, then every step as it
/// was due.
pub fn trace_summary(trace: &Trace) -> (r: Vec<String>)
    ensures
        r@.len() == trace@.events.len() + 1,
        r@[0]@ == heading(trace@.scenario_name, trace@.seed),
        forall|i: int|
            1 <= i <= trace@.events.len() ==> (#[trigger] r@[i])@ == event_line(
                trace@.events[i - 1],
            ),
{
    let mut lines: Vec<String> = Vec::new();
    let mut first = "scenario: ".to_owned();
    first.append(trace.scenario_name.as_str());
    first.append(" (seed ");
    text::append_decimal(&mut first, trace.seed);
    first.append(")");
    lines.push(first);
    let mut i: usize = 0;
    while i < trace.events.len()
        invariant
            i <= trace.events@.len(),
            lines@.len() == i + 1,
            lines@[0]@ == heading(trace@.scenario_name, trace@.seed),
            forall|j: int| 1 <= j <= i ==> (#[trigger] lines@[j])@ == event_line(
                trace@.events[j - 1],
            ),
        decreases trace.events@.len() - i,
    {
        let line = describe_event(&trace.events[i]);
        assert(trace@.events[i as int] == trace.events@[i as int]@);
        lines.push(line);
        i = i + 1;
    }
    lines
}

/// A line of the summary: two spaces, the time in a column of fourteen on its
/// right, the id in a column of twenty on its left, and what was done. A text
/// that is wider than its column is not cut.
pub proof fn law_line_shows_time_id_and_action(event: EventView, pad: nat, fill: nat)
    requires
        pad == (if text::decimal_text(event.step.at_ns as nat).len() < 14 {
            14 - text::decimal_text(event.step.at_ns as nat).len()
        } else {
            0
        }),
        fill == (if event.step.fault_id.len() < 20 {
            20 - event.step.fault_id.len()
        } else {
            0
        }),
    ensures
        event_line(event) == Seq::new(2 + pad, |i: int| ' ') + text::decimal_text(
            event.step.at_ns as nat,
        ) + " ns  "@ + event.step.fault_id + Seq::new(fill + 1, |i: int| ' ') + (
        if event.step.action == StepAction::Arm {
            "Arm"@
        } else {
            "Disarm"@
        }),
{
    reveal_strlit("  ");
    reveal_strlit(" ");
    let time = text::decimal_text(event.step.at_ns as nat);
    assert("  "@ + right(time, 14) =~= Seq::new(2 + pad, |i: int| ' ') + time);
    assert(left(event.step.fault_id, 20) + " "@ =~= event.step.fault_id + Seq::new(
        fill + 1,
        |i: int| ' ',
    ));
    assert(event_line(event) =~= Seq::new(2 + pad, |i: int| ' ') + time + " ns  "@
        + event.step.fault_id + Seq::new(fill + 1, |i: int| ' ') + action_name(event.step.action));
}

/// The first line of the summary names the scenario and its seed.
pub proof fn law_heading_shows_name_and_seed(name: Seq<char>, seed: u64)
    ensures
        heading(name, seed) == "scenario: "@ + name + " (seed "@ + text::decimal_text(seed as nat)
            + ")"@,
{
}

} // verus!
