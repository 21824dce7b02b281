//! What holds of memory pressure over a whole attempt to arm or disarm it.
use vstd::prelude::*;

use crate::harness::error::{ErrorView, HarnessError};
use crate::kernel::cgroup_mem;
use crate::kernel::cgroup_mem::{
    PressureMode, PressureView, Reply, Request, RequestView, SetupView, StageView, Step, StepView,
    SubtreeView,
};
use crate::kernel::cgroup_path;
use crate::text;

verus! {

/// How many requests, at most, are still to come at a stage.
pub open spec fn requests_left(stage: StageView) -> nat {
    match stage {
        StageView::Idle => 0,
        StageView::SetLimit | StageView::LiftLimit => 1,
        StageView::MovePid(_) => 2,
        StageView::Delegate(_) => 3,
        StageView::CreateDir(_) => 4,
        StageView::ProbeVersion(_) => 5,
        StageView::ProbeV2(_) => 6,
        StageView::ReadOwn => 7,
        StageView::ProbeV1 => 8,
    }
}

/// Every attempt comes to an end: each reply that does not finish it leaves
/// fewer requests to come, and one that finishes it leaves none.
pub proof fn law_every_attempt_ends(state: PressureView, reply: Reply)
    requires
        state.awaits(reply),
    ensures
        state.after(reply).1 is Ask ==> requests_left(state.after(reply).0.stage) < requests_left(
            state.stage,
        ) && state.after(reply).1 == StepView::Ask(state.after(reply).0.request()),
        state.after(reply).1 is Finished ==> state.after(reply).0.stage is Idle,
{
}

/// The fault is armed by the limit having been set, and disarmed by its having
/// been lifted; nothing else arms or disarms it, least of all an attempt that
/// failed.
pub proof fn law_only_the_limit_arms(state: PressureView, reply: Reply)
    requires
        state.awaits(reply),
    ensures
        state.after(reply).0.armed == (if reply is Done && state.stage is SetLimit {
            true
        } else if reply is Done && state.stage is LiftLimit {
            false
        } else {
            state.armed
        }),
        state.after(reply).1 matches StepView::Finished(Some(_)) ==> state.after(reply).0.armed
            == state.armed,
{
}

/// An attempt succeeds only by the limit having been set or lifted.
pub proof fn law_success_means_the_limit_was_written(state: PressureView, reply: Reply)
    requires
        state.awaits(reply),
        state.after(reply).1 == StepView::Finished(None),
    ensures
        reply is Done,
        state.stage is SetLimit && state.after(reply).0.armed || state.stage is LiftLimit
            && !state.after(reply).0.armed,
{
}

/// The group is made once and kept, and so are the process, the limit and the
/// mode: a reply changes nothing of them but that the group is there once the
/// process has been moved into it.
pub proof fn law_group_is_kept(state: PressureView, reply: Reply)
    requires
        state.awaits(reply),
    ensures
        ({
            let next = state.after(reply).0;
            &&& next.id == state.id
            &&& next.pid == state.pid
            &&& next.limit_bytes == state.limit_bytes
            &&& next.mode == state.mode
            &&& !(state.stage is MovePid) || reply is Failed ==> next.setup == state.setup
        }),
{
}

/// Disarming writes to the file that arming wrote to: what takes the limit is
/// what it is lifted from.
pub proof fn law_limit_is_lifted_where_it_was_set(state: PressureView)
    ensures
        state.at(StageView::SetLimit).request() matches RequestView::Write(set, _) && state.at(
            StageView::LiftLimit,
        ).request() matches RequestView::Write(lifted, _) && set == lifted,
{
}

/// What is found to hold a limit is where the limit goes: the file, and the
/// text that lifts it, are those of the version that was found.
pub proof fn law_version_decides_the_file(state: PressureView, subtree: SubtreeView, reply: Reply)
    requires
        state.stage == StageView::MovePid(subtree),
        reply is Done,
    ensures
        state.after(reply).0.setup == Some(
            SetupView {
                dir: state.group_dir(subtree),
                limit_file: cgroup_mem::limit_file(subtree.v1, state.mode),
                no_limit: cgroup_mem::no_limit(subtree.v1),
            },
        ),
{
}

proof fn lemma_last_index_is(s: Seq<char>, c: char, at: int)
    requires
        0 <= at < s.len(),
        s[at] == c,
        forall|j: int| at < j < s.len() ==> s[j] != c,
    ensures
        s.index_of_last(c) == Some(at),
{
    s.index_of_last_ensures(c);
    assert(s.contains(c));
    let found = s.index_of_last(c)->0;
    if found < at {
        assert(s[at] != c);
    } else if at < found {
        assert(s[found] != c);
    }
}

/// A name without a slash, below a directory: the directory is its parent.
proof fn lemma_parent_of_name(dir: Seq<char>, name: Seq<char>)
    requires
        name.len() > 0,
        !name.contains('/'),
    ensures
        cgroup_path::parent(cgroup_path::under(dir, name)) == dir,
{
    reveal_strlit("/");
    let path = cgroup_path::under(dir, name);
    assert(path.last() == name.last());
    assert(name.contains(name.last())) by {
        assert(name[name.len() - 1] == name.last());
    }
    assert(path[dir.len() as int] == '/');
    assert forall|j: int| dir.len() < j < path.len() implies path[j] != '/' by {
        assert(path[j] == name[j - dir.len() - 1]);
    }
    lemma_last_index_is(path, '/', dir.len() as int);
    assert(path.take(dir.len() as int) =~= dir);
}

/// Slashes at the end of a path below a directory are those of the path.
proof fn lemma_trailing_slashes_below(dir: Seq<char>, path: Seq<char>)
    requires
        path.len() > 0,
        path[0] != '/',
    ensures
        cgroup_path::without_trailing_slashes(cgroup_path::under(dir, path))
            == cgroup_path::under(dir, cgroup_path::without_trailing_slashes(path)),
        cgroup_path::without_trailing_slashes(path).len() > 0,
        cgroup_path::without_trailing_slashes(path)[0] == path[0],
    decreases path.len(),
{
    let whole = cgroup_path::under(dir, path);
    assert(whole.last() == path.last());
    if path.last() == '/' {
        assert(path.len() > 1);
        lemma_trailing_slashes_below(dir, path.drop_last());
        assert(whole.drop_last() =~= cgroup_path::under(dir, path.drop_last()));
    }
}

/// The parent of a path below a directory lies below it too.
proof fn lemma_parent_below(dir: Seq<char>, path: Seq<char>)
    requires
        path.len() > 0,
        path[0] != '/',
    ensures
        cgroup_path::parent(cgroup_path::under(dir, path)) == cgroup_path::under(
            dir,
            cgroup_path::parent(path),
        ),
{
    reveal_strlit("/");
    lemma_trailing_slashes_below(dir, path);
    let path = cgroup_path::without_trailing_slashes(path);
    path.index_of_last_ensures('/');
    let whole = cgroup_path::under(dir, path);
    if let Some(at) = path.index_of_last('/') {
        let end = dir.len() + 1 + at;
        assert(whole[end] == '/');
        assert forall|j: int| end < j < whole.len() implies whole[j] != '/' by {
            assert(whole[j] == path[j - dir.len() - 1]);
        }
        lemma_last_index_is(whole, '/', end);
        assert(whole.take(end) =~= dir + "/"@ + path.take(at));
    } else {
        assert(whole[dir.len() as int] == '/');
        assert forall|j: int| dir.len() < j < whole.len() implies whole[j] != '/' by {
            assert(whole[j] == path[j - dir.len() - 1]);
            assert(path.contains(path[j - dir.len() - 1]));
        }
        lemma_last_index_is(whole, '/', dir.len() as int);
        assert(whole.take(dir.len() as int) =~= dir);
    }
}

/// In the unified hierarchy the group is made beside the group that the
/// harness itself is in, not below it: a group that holds processes of its own
/// cannot hand its controllers down.
pub proof fn law_group_is_a_sibling(state: PressureView, own: Seq<char>, version: Reply)
    requires
        state.stage == StageView::ProbeV2(own),
        own.len() > 0,
        own[0] != '/',
        !state.id.contains('/'),
    ensures
        state.after(Reply::Yes).0.after(version).1 matches StepView::Ask(
            RequestView::CreateDir(dir),
        ) && cgroup_path::parent(dir) == cgroup_path::parent(
            cgroup_path::under(cgroup_mem::V2_ROOT@, own),
        ),
{
    reveal_strlit("blackswan-");
    let root = cgroup_path::under(cgroup_mem::V2_ROOT@, cgroup_path::parent(own));
    let name = "blackswan-"@ + state.id;
    assert(!name.contains('/')) by {
        if name.contains('/') {
            let i = choose|i: int| 0 <= i < name.len() && name[i] == '/';
            if i >= "blackswan-"@.len() {
                assert(state.id[i - "blackswan-"@.len()] == '/');
            }
        }
    }
    lemma_parent_of_name(root, name);
    lemma_parent_below(cgroup_mem::V2_ROOT@, own);
}

/// The limit goes to the file of its mode. In the second version a hard limit is
/// written to `memory.max` and a soft one to `memory.high`, in the first to
/// `memory.limit_in_bytes` and `memory.soft_limit_in_bytes`: in the group
/// `blackswan-` and the id, the number of bytes in digits.
pub proof fn law_limit_goes_to_the_file_of_its_mode(
    state: PressureView,
    subtree: SubtreeView,
    reply: Reply,
)
    requires
        state.stage == StageView::MovePid(subtree),
        reply is Done,
    ensures
        ({
            let group = subtree.root + "/"@ + ("blackswan-"@ + state.id);
            let file = match state.mode {
                PressureMode::Hard => if subtree.v1 {
                    "memory.limit_in_bytes"@
                } else {
                    "memory.max"@
                },
                PressureMode::Soft => if subtree.v1 {
                    "memory.soft_limit_in_bytes"@
                } else {
                    "memory.high"@
                },
            };
            let lifts = if subtree.v1 {
                "9223372036854775807"@
            } else {
                "max"@
            };
            let next = state.after(reply).0;
            &&& state.after(reply).1 == StepView::Ask(
                RequestView::Write(
                    group + "/"@ + file,
                    text::decimal_text(state.limit_bytes as nat),
                ),
            )
            &&& next.stage is SetLimit
            &&& next.setup is Some
            &&& next.at(StageView::SetLimit).request() == RequestView::Write(
                group + "/"@ + file,
                text::decimal_text(state.limit_bytes as nat),
            )
            &&& next.at(StageView::LiftLimit).request() == RequestView::Write(
                group + "/"@ + file,
                lifts,
            )
        }),
{
    lemma_file_names();
    reveal_strlit("blackswan-");
}

proof fn lemma_file_names()
    ensures
        "memory.max"@.len() == 10,
        "memory.high"@.len() == 11,
        "memory.limit_in_bytes"@.len() == 21,
        "memory.soft_limit_in_bytes"@.len() == 26,
        "cgroup.procs"@.len() == 12,
        "cgroup.subtree_control"@.len() == 22,
{
    reveal_strlit("memory.max");
    reveal_strlit("memory.high");
    reveal_strlit("memory.limit_in_bytes");
    reveal_strlit("memory.soft_limit_in_bytes");
    reveal_strlit("cgroup.procs");
    reveal_strlit("cgroup.subtree_control");
}

/// A hard limit and a soft one are not the same: in either version, two faults
/// that differ in their mode alone write to different files.
pub proof fn law_modes_differ(
    hard: PressureView,
    soft: PressureView,
    subtree: SubtreeView,
    reply: Reply,
)
    requires
        hard.stage == StageView::MovePid(subtree),
        soft.stage == StageView::MovePid(subtree),
        hard.mode is Hard,
        soft.mode is Soft,
        reply is Done,
    ensures
        hard.after(reply).1->Ask_0->Write_0 != soft.after(reply).1->Ask_0->Write_0 || hard.id
            != soft.id,
{
    lemma_file_names();
    reveal_strlit("blackswan-");
    law_limit_goes_to_the_file_of_its_mode(hard, subtree, reply);
    law_limit_goes_to_the_file_of_its_mode(soft, subtree, reply);
    if hard.id == soft.id {
        assert(hard.after(reply).1->Ask_0->Write_0.len() != soft.after(
            reply,
        ).1->Ask_0->Write_0.len());
    }
}

/// What is asked on the way to the limit, request by request. First whether the
/// first version has a memory controller; where it has not, which groups the
/// harness is in, and whether its own has one in the second version. Then which
/// version the directory is of, that the group is made in it, in the second
/// version that the controller is handed down, and that the process is moved.
pub proof fn law_arming_asks_in_this_order(
    state: PressureView,
    list: String,
    own: Seq<char>,
    root: Seq<char>,
    v1: bool,
)
    ensures
        ({
            let group = root + "/"@ + ("blackswan-"@ + state.id);
            let subtree = SubtreeView { root, v1 };
            let probe = |dir: Seq<char>| RequestView::Exists(dir + "/memory.limit_in_bytes"@);
            let moved = RequestView::Write(
                group + "/cgroup.procs"@,
                text::decimal_text(state.pid as nat),
            );
            &&& state.at(StageView::ProbeV1).request() == probe("/sys/fs/cgroup/memory"@)
            &&& state.at(StageView::ProbeV1).after(Reply::Yes) == state.at(
                StageView::ProbeV1,
            ).go_on(StageView::ProbeVersion("/sys/fs/cgroup/memory"@))
            &&& state.at(StageView::ProbeV1).after(Reply::No).1 == StepView::Ask(
                RequestView::Read("/proc/self/cgroup"@),
            )
            &&& state.at(StageView::ProbeVersion(root)).request() == probe(root)
            &&& state.at(StageView::ProbeVersion(root)).after(
                if v1 {
                    Reply::Yes
                } else {
                    Reply::No
                },
            ).1 == StepView::Ask(RequestView::CreateDir(group))
            &&& state.at(StageView::CreateDir(subtree)).after(Reply::Done).1 == StepView::Ask(
                if v1 {
                    moved
                } else {
                    RequestView::Write(root + "/cgroup.subtree_control"@, "+memory"@)
                },
            )
            &&& state.at(StageView::Delegate(subtree)).after(Reply::Done).1 == StepView::Ask(moved)
            &&& state.at(StageView::Delegate(subtree)).after(Reply::Failed(list)).1
                == StepView::Ask(moved)
            &&& own.len() > 0 ==> state.at(StageView::ProbeV2(own)).request()
                == RequestView::Exists("/sys/fs/cgroup/unified/"@ + own + "/memory.max"@)
            &&& own.len() == 0 ==> state.at(StageView::ProbeV2(own)).request()
                == RequestView::Exists("/sys/fs/cgroup/unified/memory.max"@)
        }),
{
    lemma_file_names();
    lemma_paths();
    reveal_strlit("blackswan-");
    let group = root + "/"@ + ("blackswan-"@ + state.id);
    assert(root + "/memory.limit_in_bytes"@ =~= cgroup_path::under(
        root,
        "memory.limit_in_bytes"@,
    ));
    assert(group + "/cgroup.procs"@ =~= cgroup_path::under(group, "cgroup.procs"@));
    assert(root + "/cgroup.subtree_control"@ =~= cgroup_path::under(
        root,
        "cgroup.subtree_control"@,
    ));
    let v1_dir = "/sys/fs/cgroup/memory"@;
    assert(v1_dir + "/memory.limit_in_bytes"@ =~= cgroup_path::under(
        v1_dir,
        "memory.limit_in_bytes"@,
    ));
    let v2_dir = "/sys/fs/cgroup/unified"@;
    assert("/sys/fs/cgroup/unified/"@ + own + "/memory.max"@ =~= v2_dir + "/"@ + own + "/"@
        + "memory.max"@);
    assert("/sys/fs/cgroup/unified/memory.max"@ =~= v2_dir + "/"@ + "memory.max"@);
}

proof fn lemma_paths()
    ensures
        "/memory.limit_in_bytes"@ == "/"@ + "memory.limit_in_bytes"@,
        "/cgroup.procs"@ == "/"@ + "cgroup.procs"@,
        "/cgroup.subtree_control"@ == "/"@ + "cgroup.subtree_control"@,
        "/memory.max"@ == "/"@ + "memory.max"@,
        "/sys/fs/cgroup/unified/"@ == "/sys/fs/cgroup/unified"@ + "/"@,
        "/sys/fs/cgroup/unified/memory.max"@ == "/sys/fs/cgroup/unified"@ + "/"@ + "memory.max"@,
{
    reveal_strlit("/");
    reveal_strlit("/memory.limit_in_bytes");
    reveal_strlit("memory.limit_in_bytes");
    reveal_strlit("/cgroup.procs");
    reveal_strlit("cgroup.procs");
    reveal_strlit("/cgroup.subtree_control");
    reveal_strlit("cgroup.subtree_control");
    reveal_strlit("/memory.max");
    reveal_strlit("memory.max");
    reveal_strlit("/sys/fs/cgroup/unified/");
    reveal_strlit("/sys/fs/cgroup/unified");
    reveal_strlit("/sys/fs/cgroup/unified/memory.max");
    assert("/memory.limit_in_bytes"@ =~= "/"@ + "memory.limit_in_bytes"@);
    assert("/cgroup.procs"@ =~= "/"@ + "cgroup.procs"@);
    assert("/cgroup.subtree_control"@ =~= "/"@ + "cgroup.subtree_control"@);
    assert("/memory.max"@ =~= "/"@ + "memory.max"@);
    assert("/sys/fs/cgroup/unified/"@ =~= "/sys/fs/cgroup/unified"@ + "/"@);
    assert("/sys/fs/cgroup/unified/memory.max"@ =~= "/sys/fs/cgroup/unified"@ + "/"@
        + "memory.max"@);
}

/// What is said of an attempt that fails names the fault, what was tried, and
/// what the system said. Handing the controller down may fail without harm.
pub proof fn law_failures_say_what_was_tried(
    state: PressureView,
    subtree: SubtreeView,
    own: Seq<char>,
    why: String,
    list: String,
)
    ensures
        ({
            let group = subtree.root + "/"@ + ("blackswan-"@ + state.id);
            let failed = |reason: Seq<char>|
                StepView::Finished(Some(ErrorView::ArmFailed(state.id, reason)));
            &&& state.at(StageView::ReadOwn).after(Reply::Failed(why)).1 == StepView::Finished(
                Some(ErrorView::Io(why@)),
            )
            &&& cgroup_path::unified_entry(list@) is None ==> state.at(StageView::ReadOwn).after(
                Reply::Text(list),
            ).1 == failed("no v2 cgroup entry in /proc/self/cgroup"@)
            &&& state.at(StageView::ProbeV2(own)).after(Reply::No).1 == failed(
                "no usable memory controller on either v1 or v2 cgroup hierarchy"@,
            )
            &&& state.at(StageView::CreateDir(subtree)).after(Reply::Failed(why)).1 == failed(
                "creating cgroup "@ + group + ": "@ + why@,
            )
            &&& state.at(StageView::MovePid(subtree)).after(Reply::Failed(why)).1 == failed(
                "moving pid "@ + text::decimal_text(state.pid as nat) + " into cgroup: "@ + why@,
            )
            &&& state.setup is Some ==> state.at(StageView::SetLimit).after(Reply::Failed(why)).1
                == failed("writing "@ + state.setup->0.limit_file + ": "@ + why@)
            &&& state.setup is Some ==> state.at(StageView::LiftLimit).after(Reply::Failed(why)).1
                == StepView::Finished(
                Some(
                    ErrorView::DisarmFailed(
                        state.id,
                        "writing "@ + state.setup->0.limit_file + ": "@ + why@,
                    ),
                ),
            )
        }),
{
    reveal_strlit("blackswan-");
}

/// The entry of the unified hierarchy is the first line that begins with `0::`,
/// without these three characters and without what ends the line. A line that
/// does not begin so is passed over.
pub proof fn law_unified_entry_is_the_first_such_line(
    path: Seq<char>,
    line: Seq<char>,
    rest: Seq<char>,
)
    requires
        !path.contains('\n'),
        path.len() > 0 ==> path.last() != '\r',
        !line.contains('\n'),
        !(line.len() >= 3 && line[0] == '0' && line[1] == ':' && line[2] == ':'),
    ensures
        cgroup_path::unified_entry("0::"@ + path + "\n"@ + rest) == Some(path),
        cgroup_path::unified_entry("0::"@ + path + "\r\n"@ + rest) == Some(path),
        cgroup_path::unified_entry("0::"@ + path) == Some(path),
        cgroup_path::unified_entry(line + "\n"@ + rest) == cgroup_path::unified_entry(rest),
        cgroup_path::unified_entry(line) is None,
{
    reveal_strlit("0::");
    reveal_strlit("\n");
    reveal_strlit("\r\n");
    let entry = "0::"@ + path;
    assert forall|j: int| 0 <= j < entry.len() implies entry[j] != '\n' by {
        if j >= 3 {
            assert(entry[j] == path[j - 3]);
            assert(path.contains(path[j - 3]));
        }
    }
    assert(entry.last() != '\r') by {
        if path.len() > 0 {
            assert(entry.last() == path.last());
        }
    }
    assert(entry.skip(3) =~= path);
    assert(entry + "\n"@ + rest =~= entry + seq!['\n'] + rest);
    lemma_first_line_ends(entry, rest);
    assert(entry + "\r\n"@ + rest =~= entry.push('\r') + seq!['\n'] + rest);
    lemma_first_line_ends(entry.push('\r'), rest);
    assert(entry.push('\r').drop_last() =~= entry);
    lemma_only_line(entry);
    assert forall|j: int| 0 <= j < line.len() implies line[j] != '\n' by {
        assert(line.contains(line[j]));
    }
    assert(line + "\n"@ + rest =~= line + seq!['\n'] + rest);
    lemma_first_line_ends(line, rest);
    lemma_only_line(line);
    lemma_entry_of(entry + seq!['\n'] + rest);
    lemma_entry_of(entry.push('\r') + seq!['\n'] + rest);
    lemma_entry_of(entry);
    lemma_entry_of(line + seq!['\n'] + rest);
    lemma_entry_of(line);
    assert(cgroup_path::unified_entry(Seq::empty()) is None);
}

/// The entry of a text, by its first line.
proof fn lemma_entry_of(text: Seq<char>)
    ensures
        cgroup_path::unified_entry(text) == (if text.len() == 0 {
            None
        } else if cgroup_path::is_unified(cgroup_path::first_line(text)) {
            Some(cgroup_path::first_line(text).skip(3))
        } else {
            cgroup_path::unified_entry(cgroup_path::after_first_line(text))
        }),
{
}

/// A line ends where the first line feed stands, and without the carriage
/// return before it.
proof fn lemma_first_line_ends(line: Seq<char>, rest: Seq<char>)
    requires
        forall|j: int| 0 <= j < line.len() ==> line[j] != '\n',
    ensures
        cgroup_path::first_line(line + seq!['\n'] + rest) == (if line.len() > 0 && line.last()
            == '\r' {
            line.drop_last()
        } else {
            line
        }),
        cgroup_path::after_first_line(line + seq!['\n'] + rest) == rest,
{
    let whole = line + seq!['\n'] + rest;
    assert forall|j: int| 0 <= j < line.len() implies whole[j] != '\n' by {
        assert(whole[j] == line[j]);
    }
    lemma_first_newline(whole, line.len() as int);
    assert(whole.take(line.len() as int) =~= line);
    assert(whole.skip(line.len() as int + 1) =~= rest);
    if line.len() > 0 {
        assert(whole[line.len() - 1] == line.last());
        assert(whole.take(line.len() - 1) =~= line.drop_last());
    }
}

proof fn lemma_only_line(line: Seq<char>)
    requires
        forall|j: int| 0 <= j < line.len() ==> line[j] != '\n',
    ensures
        cgroup_path::first_line(line) == line,
        cgroup_path::after_first_line(line) == Seq::<char>::empty(),
{
    line.index_of_first_ensures('\n');
}

proof fn lemma_first_newline(s: Seq<char>, at: int)
    requires
        0 <= at < s.len(),
        s[at] == '\n',
        forall|j: int| 0 <= j < at ==> s[j] != '\n',
    ensures
        s.index_of_first('\n') == Some(at),
{
    s.index_of_first_ensures('\n');
    assert(s.contains('\n'));
    let found = s.index_of_first('\n')->0;
    if at < found {
        assert(s[at] != '\n');
    }
}

/// The own group is looked for, and the new one made, below the root of the
/// second version: the entry loses the slashes at its start and nothing else,
/// and the group is made in the directory that the own one lies in.
pub proof fn law_own_group_is_taken_from_its_entry(
    state: PressureView,
    list: String,
    slashes: Seq<char>,
    own: Seq<char>,
    dir: Seq<char>,
    name: Seq<char>,
)
    requires
        forall|i: int| 0 <= i < slashes.len() ==> slashes[i] == '/',
        own.len() > 0 ==> own[0] != '/',
        cgroup_path::unified_entry(list@) == Some(slashes + own),
        name.len() > 0,
        !name.contains('/'),
        dir.len() > 0,
    ensures
        state.at(StageView::ReadOwn).after(Reply::Text(list)) == state.at(
            StageView::ReadOwn,
        ).go_on(StageView::ProbeV2(own)),
        own == dir + "/"@ + name ==> state.at(StageView::ProbeV2(own)).after(Reply::Yes)
            == state.at(StageView::ProbeV2(own)).go_on(
            StageView::ProbeVersion("/sys/fs/cgroup/unified/"@ + dir),
        ),
        own == name ==> state.at(StageView::ProbeV2(own)).after(Reply::Yes) == state.at(
            StageView::ProbeV2(own),
        ).go_on(StageView::ProbeVersion("/sys/fs/cgroup/unified"@)),
{
    lemma_paths();
    lemma_leading_slashes(slashes, own);
    if own == dir + "/"@ + name {
        lemma_parent_of_name(dir, name);
        assert("/sys/fs/cgroup/unified/"@ + dir =~= "/sys/fs/cgroup/unified"@ + "/"@ + dir);
    }
    if own == name {
        name.index_of_last_ensures('/');
        assert(name.last() == name[name.len() - 1]);
        assert(name.contains(name.last()));
    }
}

proof fn lemma_leading_slashes(slashes: Seq<char>, own: Seq<char>)
    requires
        forall|i: int| 0 <= i < slashes.len() ==> slashes[i] == '/',
        own.len() > 0 ==> own[0] != '/',
    ensures
        cgroup_path::without_leading_slashes(slashes + own) == own,
    decreases slashes.len(),
{
    if slashes.len() == 0 {
        assert(slashes + own =~= own);
    } else {
        assert((slashes + own).skip(1) =~= slashes.skip(1) + own);
        lemma_leading_slashes(slashes.skip(1), own);
    }
}

/// A request is shown with everything it holds: the file, and what is written
/// to it.
pub proof fn law_request_shows_everything(path: String, content: String, error: HarnessError)
    ensures
        Request::Exists(path)@ == RequestView::Exists(path@),
        Request::Read(path)@ == RequestView::Read(path@),
        Request::CreateDir(path)@ == RequestView::CreateDir(path@),
        Request::Write(path, content)@ == RequestView::Write(path@, content@),
        Step::Ask(Request::Write(path, content))@ == StepView::Ask(
            RequestView::Write(path@, content@),
        ),
        Step::Finished(Ok(()))@ == StepView::Finished(None),
        Step::Finished(Err(error))@ == StepView::Finished(Some(error@)),
{
}

/// A fault that was armed once goes straight to its limit: arming writes it, and
/// disarming lifts it, in the file that was found then. Before that, arming
/// begins with the search for a memory controller, and there is nothing to
/// disarm.
pub proof fn law_limit_is_set_and_lifted_in_one_file(state: PressureView)
    ensures
        state.setup is None ==> {
            &&& state.begun_arm().request() == RequestView::Exists(
                "/sys/fs/cgroup/memory"@ + "/"@ + "memory.limit_in_bytes"@,
            )
            &&& state.begun_disarm().1 == StepView::Finished(None)
            &&& !state.begun_disarm().0.armed
        },
        state.setup matches Some(setup) ==> setup.limit_file.len() > 0 ==> {
            let file = setup.dir + "/"@ + setup.limit_file;
            &&& state.begun_arm().request() == RequestView::Write(
                file,
                text::decimal_text(state.limit_bytes as nat),
            )
            &&& state.begun_arm().after(Reply::Done).0.armed
            &&& state.begun_arm().after(Reply::Done).1 == StepView::Finished(None)
            &&& state.begun_disarm().1 == StepView::Ask(RequestView::Write(file, setup.no_limit))
            &&& !state.begun_disarm().0.after(Reply::Done).0.armed
            &&& state.begun_disarm().0.after(Reply::Done).1 == StepView::Finished(None)
            &&& state.begun_disarm().0.armed == state.armed
        },
        state.begun_arm().armed == state.armed,
        state.begun_arm().setup == state.setup,
        state.begun_disarm().0.setup == state.setup,
{
    lemma_file_names();
    lemma_paths();
}

/// Slashes at the end of a path do not matter to where it lies.
pub proof fn law_parent_overlooks_slashes_at_the_end(
    dir: Seq<char>,
    name: Seq<char>,
    slashes: Seq<char>,
)
    requires
        name.len() > 0,
        !name.contains('/'),
        forall|i: int| 0 <= i < slashes.len() ==> slashes[i] == '/',
    ensures
        cgroup_path::parent(dir + "/"@ + name + slashes) == dir,
        cgroup_path::parent(name + slashes) == Seq::<char>::empty(),
        cgroup_path::parent(slashes) == Seq::<char>::empty(),
{
    reveal_strlit("/");
    lemma_parent_of_name(dir, name);
    assert(name.contains(name.last())) by {
        assert(name[name.len() - 1] == name.last());
    }
    let path = dir + "/"@ + name;
    assert(path.last() == name.last());
    lemma_drop_slashes(path, slashes);
    lemma_drop_slashes(name, slashes);
    lemma_drop_slashes(Seq::empty(), slashes);
    assert(Seq::<char>::empty() + slashes =~= slashes);
    name.index_of_last_ensures('/');
    Seq::<char>::empty().index_of_last_ensures('/');
}

proof fn lemma_drop_slashes(path: Seq<char>, slashes: Seq<char>)
    requires
        path.len() > 0 ==> path.last() != '/',
        forall|i: int| 0 <= i < slashes.len() ==> slashes[i] == '/',
    ensures
        cgroup_path::without_trailing_slashes(path + slashes) == path,
    decreases slashes.len(),
{
    if slashes.len() == 0 {
        assert(path + slashes =~= path);
    } else {
        let whole = path + slashes;
        assert(whole.last() == slashes[slashes.len() - 1]);
        assert(whole.drop_last() =~= path + slashes.drop_last());
        lemma_drop_slashes(path, slashes.drop_last());
    }
}

/// A reply fits a request: whether there is a file is answered by yes or no,
/// reading by a text or a failure, and everything else by done or a failure.
pub proof fn law_replies_fit_requests(state: PressureView, reply: Reply)
    requires
        !(state.stage is Idle),
    ensures
        state.request() is Exists ==> (state.awaits(reply) <==> reply is Yes || reply is No),
        state.request() is Read ==> (state.awaits(reply) <==> reply is Text || reply is Failed),
        state.request() is CreateDir || state.request() is Write ==> (state.awaits(reply)
            <==> reply is Done || reply is Failed),
{
}

} // verus!
