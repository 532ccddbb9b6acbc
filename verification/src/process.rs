//! The processes of a job.

use crate::text::{
    behind_last, chars_of, lemma_word_bounds, parse_signed, parse_unsigned, signed_number,
    take_behind_last, unsigned_number, word_end, word_start, words, words_from, words_of,
};
use std::collections::HashSet;
use vstd::prelude::*;

verus! {

broadcast use vstd::std_specs::hash::group_hash_axioms;

/// What the kernel says of a process.
#[derive(Clone, Copy, Debug, PartialEq, Eq, Structural)]
pub struct ProcessStat {
    pub pid: u32,
    pub state: char,
    pub parent: u32,
    pub group: i32,
}

/// What `/proc/<pid>/stat` says of the process: behind the command's name in brackets, which may
/// hold anything, stand the state, the parent and the group.
pub open spec fn process_of(pid: u32, stat: Seq<char>) -> Option<ProcessStat> {
    match behind_last(stat, ") "@) {
        None => None,
        Some(rest) => {
            let fields = words(rest);
            if fields.len() < 3 {
                None
            } else {
                match (unsigned_number(fields[1]), signed_number(fields[2])) {
                    (Some(parent), Some(group)) => if parent <= u32::MAX && i32::MIN <= group
                        <= i32::MAX {
                        Some(
                            ProcessStat {
                                pid,
                                state: fields[0][0],
                                parent: parent as u32,
                                group: group as i32,
                            },
                        )
                    } else {
                        None
                    },
                    _ => None,
                }
            }
        },
    }
}

proof fn lemma_words_not_empty(text: Seq<char>, from: int)
    requires
        0 <= from <= text.len(),
    ensures
        forall|i: int| 0 <= i < words_from(text, from).len() ==> (#[trigger] words_from(
            text,
            from,
        )[i]).len() > 0,
    decreases text.len() - from,
{
    let start = word_start(text, from);
    let end = word_end(text, start);
    lemma_word_bounds(text, from);
    if start < end <= text.len() {
        lemma_words_not_empty(text, end);
        let rest = words_from(text, end);
        assert forall|i: int| 0 <= i < words_from(text, from).len() implies (#[trigger] words_from(
            text,
            from,
        )[i]).len() > 0 by {
            if i > 0 {
                assert(words_from(text, from)[i] == rest[i - 1]);
            }
        }
    }
}

/// Reads what `/proc/<pid>/stat` says of the process.
pub fn parse_process_stat(pid: u32, stat: &str) -> (process: Option<ProcessStat>)
    ensures
        process == process_of(pid, stat@),
{
    let rest = match take_behind_last(stat, ") ") {
        Some(rest) => rest,
        None => {
            return None;
        },
    };
    let fields = words_of(rest.as_str());
    if fields.len() < 3 {
        return None;
    }
    proof {
        lemma_words_not_empty(rest@, 0);
        assert(words(rest@)[0] == fields@[0]@);
        assert(words(rest@)[1] == fields@[1]@);
        assert(words(rest@)[2] == fields@[2]@);
    }
    let state = chars_of(fields[0].as_str())[0];
    match (
        parse_unsigned(fields[1].as_str(), u32::MAX as u64),
        parse_signed(fields[2].as_str()),
    ) {
        (Some(parent), Some(group)) => Some(
            ProcessStat { pid, state, parent: parent as u32, group },
        ),
        _ => None,
    }
}

/// Whether the process stands at most `steps` generations below the root.
pub open spec fn descends(
    processes: Seq<ProcessStat>,
    root: u32,
    pid: u32,
    steps: nat,
) -> bool
    decreases steps,
{
    ||| pid == root
    ||| steps > 0 && exists|i: int|
        0 <= i < processes.len() && (#[trigger] processes[i]).pid == pid && descends(
            processes,
            root,
            processes[i].parent,
            (steps - 1) as nat,
        )
}

/// Whether the process is the root or one of its descendants.
pub open spec fn in_tree(processes: Seq<ProcessStat>, root: u32, pid: u32) -> bool {
    exists|steps: nat| #[trigger] descends(processes, root, pid, steps)
}

/// The process groups of a tree: the root's own, and those of its members.
pub open spec fn tree_groups(processes: Seq<ProcessStat>, root: u32) -> Set<i32> {
    Set::new(
        |group: i32|
            group == root as i32 || exists|i: int|
                0 <= i < processes.len() && in_tree(processes, root, (#[trigger] processes[i]).pid)
                    && processes[i].group == group,
    )
}

/// The identifiers of the processes.
spec fn pids(processes: Seq<ProcessStat>) -> Seq<u32> {
    Seq::new(processes.len(), |i: int| processes[i].pid)
}

proof fn lemma_members_bounded(processes: Seq<ProcessStat>, root: u32, members: Set<u32>)
    requires
        members.finite(),
        forall|pid: u32| #[trigger]
            members.contains(pid) ==> pid == root || pids(processes).contains(pid),
    ensures
        members.len() <= processes.len() + 1,
{
    let all = pids(processes).push(root);
    all.lemma_cardinality_of_set();
    assert forall|pid: u32| #[trigger] members.contains(pid) implies all.to_set().contains(pid) by {
        if pid == root {
            assert(all[processes.len() as int] == root);
        } else {
            let i = choose|i: int| 0 <= i < processes.len() && pids(processes)[i] == pid;
            assert(all[i] == pid);
        }
    }
    vstd::set_lib::lemma_len_subset(members, all.to_set());
}

proof fn lemma_closed_set_holds_tree(
    processes: Seq<ProcessStat>,
    root: u32,
    members: Set<u32>,
    pid: u32,
    steps: nat,
)
    requires
        members.contains(root),
        forall|i: int|
            0 <= i < processes.len() && members.contains((#[trigger] processes[i]).parent)
                ==> members.contains(processes[i].pid),
        descends(processes, root, pid, steps),
    ensures
        members.contains(pid),
    decreases steps,
{
    if pid != root {
        let i = choose|i: int|
            0 <= i < processes.len() && (#[trigger] processes[i]).pid == pid && descends(
                processes,
                root,
                processes[i].parent,
                (steps - 1) as nat,
            );
        lemma_closed_set_holds_tree(
            processes,
            root,
            members,
            processes[i].parent,
            (steps - 1) as nat,
        );
    }
}

/// The root and its descendants.
fn tree_members(root: u32, processes: &Vec<ProcessStat>) -> (members: HashSet<u32>)
    ensures
        forall|pid: u32| #[trigger]
            members@.contains(pid) <==> in_tree(processes@, root, pid),
{
    let mut members: HashSet<u32> = HashSet::new();
    members.insert(root);
    assert(descends(processes@, root, root, 0));
    loop
        invariant
            members@.finite(),
            members@.contains(root),
            forall|pid: u32| #[trigger]
                members@.contains(pid) ==> in_tree(processes@, root, pid) && (pid == root || pids(
                    processes@,
                ).contains(pid)),
            members@.len() <= processes@.len() + 1,
        decreases processes@.len() + 1 - members@.len(),
    {
        let ghost before = members@;
        let mut grown: bool = false;
        let mut at: usize = 0;
        while at < processes.len()
            invariant
                at <= processes@.len(),
                members@.finite(),
                members@.contains(root),
                forall|pid: u32| #[trigger]
                    members@.contains(pid) ==> in_tree(processes@, root, pid) && (pid == root
                        || pids(processes@).contains(pid)),
                before.subset_of(members@),
                members@.len() >= before.len(),
                grown ==> members@.len() > before.len(),
                !grown ==> members@ == before && forall|i: int|
                    0 <= i < at && members@.contains((#[trigger] processes@[i]).parent)
                        ==> members@.contains(processes@[i].pid),
            decreases processes.len() - at,
        {
            let process = processes[at];
            if members.contains(&process.parent) {
                proof {
                    children_belong_to_the_tree(processes@, root, at as int);
                    assert(pids(processes@)[at as int] == process.pid);
                }
                if members.insert(process.pid) {
                    grown = true;
                }
            }
            at = at + 1;
        }
        proof {
            lemma_members_bounded(processes@, root, members@);
        }
        if !grown {
            proof {
                assert forall|pid: u32| in_tree(processes@, root, pid) implies members@.contains(
                    pid,
                ) by {
                    let steps = choose|steps: nat| #[trigger]
                        descends(processes@, root, pid, steps);
                    lemma_closed_set_holds_tree(processes@, root, members@, pid, steps);
                }
            }
            return members;
        }
    }
}

/// The process groups of the tree below the root, the root's own among them.
pub fn process_groups_for_tree(root: u32, processes: &Vec<ProcessStat>) -> (groups: HashSet<i32>)
    ensures
        groups@ == tree_groups(processes@, root),
{
    let members = tree_members(root, processes);
    let mut groups: HashSet<i32> = HashSet::new();
    groups.insert(root as i32);
    let mut at: usize = 0;
    while at < processes.len()
        invariant
            at <= processes@.len(),
            forall|pid: u32| #[trigger]
                members@.contains(pid) <==> in_tree(processes@, root, pid),
            forall|group: i32| #[trigger]
                groups@.contains(group) <==> (group == root as i32 || exists|i: int|
                    0 <= i < at && in_tree(processes@, root, (#[trigger] processes@[i]).pid)
                        && processes@[i].group == group),
        decreases processes.len() - at,
    {
        let process = processes[at];
        let ghost before = groups@;
        assert(members@.contains(process.pid) <==> in_tree(processes@, root, process.pid));
        if members.contains(&process.pid) {
            groups.insert(process.group);
            assert(groups@.contains(process.group));
        }
        at = at + 1;
    }
    assert(groups@ =~= tree_groups(processes@, root));
    groups
}

/// The children of a tree's members belong to the tree, and their groups to its groups: no process
/// below the root is left out.
pub proof fn children_belong_to_the_tree(processes: Seq<ProcessStat>, root: u32, place: int)
    requires
        0 <= place < processes.len(),
        in_tree(processes, root, processes[place].parent),
    ensures
        in_tree(processes, root, processes[place].pid),
        tree_groups(processes, root).contains(processes[place].group),
{
    let steps = choose|steps: nat| #[trigger]
        descends(processes, root, processes[place].parent, steps);
    assert(descends(processes, root, processes[place].pid, steps + 1));
}

/// Whether a process that has not ended is in one of the groups.
pub open spec fn live_member(groups: Set<i32>, processes: Seq<ProcessStat>) -> bool {
    exists|i: int|
        0 <= i < processes.len() && groups.contains((#[trigger] processes[i]).group)
            && processes[i].state != 'Z'
}

/// Whether a process that has not ended is in one of the groups.
pub fn process_groups_have_live_members(
    groups: &HashSet<i32>,
    processes: &Vec<ProcessStat>,
) -> (alive: bool)
    ensures
        alive == live_member(groups@, processes@),
{
    let mut at: usize = 0;
    while at < processes.len()
        invariant
            at <= processes@.len(),
            forall|i: int|
                0 <= i < at ==> !(groups@.contains((#[trigger] processes@[i]).group)
                    && processes@[i].state != 'Z'),
        decreases processes.len() - at,
    {
        let process = processes[at];
        if groups.contains(&process.group) && process.state != 'Z' {
            assert(groups@.contains(processes@[at as int].group));
            return true;
        }
        at = at + 1;
    }
    false
}

} // verus!
