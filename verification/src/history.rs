//! Laws over whole histories of registry operations: what a registry that
//! started empty holds after any sequence of spawns, output, exits, polls
//! and listings.
use vstd::prelude::*;
use crate::process::{ManagerView, OutputStream, ProcessView, lists_exactly, ProcessListItem};

verus! {

/// One operation on the registry, as the methods of `ProcessManager`
/// perform it: `register_process`, `record_output`, `record_exit`,
/// `force_finish`, `collect_poll` and `list_processes`.
pub enum ManagerOp {
    Register(Seq<char>, Option<Seq<char>>),
    Output(u32, OutputStream, Seq<char>),
    Exit(u32, Option<i32>),
    ForceFinish(u32),
    Poll(u32),
    List,
}

/// The registry as `ProcessManager::new` makes it.
pub open spec fn empty_registry() -> ManagerView {
    ManagerView { processes: Map::empty(), next_id: 1 }
}

impl ManagerView {
    /// The registry after `op`.
    pub open spec fn after_op(self, op: ManagerOp) -> ManagerView {
        match op {
            ManagerOp::Register(command, cwd) => self.after_register(command, cwd),
            ManagerOp::Output(id, stream, text) => self.after_output(id, stream, text),
            ManagerOp::Exit(id, code) => self.after_exit(id, code),
            ManagerOp::ForceFinish(id) => self.after_force_finish(id),
            ManagerOp::Poll(id) => self.after_poll(id),
            ManagerOp::List => self.after_list(),
        }
    }

    /// The registry after `ops`, in order.
    pub open spec fn after_ops(self, ops: Seq<ManagerOp>) -> ManagerView
        decreases ops.len(),
    {
        if ops.len() == 0 {
            self
        } else {
            self.after_ops(ops.drop_last()).after_op(ops.last())
        }
    }

    /// The command that the last registration among `ops` that received
    /// identifier `id` started, if any did.
    pub open spec fn spawned(self, ops: Seq<ManagerOp>, id: u32) -> Option<Seq<char>>
        decreases ops.len(),
    {
        if ops.len() == 0 {
            None
        } else {
            match ops.last() {
                ManagerOp::Register(command, _) => if self.after_ops(ops.drop_last()).next_id == id {
                    Some(command)
                } else {
                    self.spawned(ops.drop_last(), id)
                },
                _ => self.spawned(ops.drop_last(), id),
            }
        }
    }

    /// Whether a poll among `ops` found process `id` finished, and so
    /// handed out its final result.
    pub open spec fn collected(self, ops: Seq<ManagerOp>, id: u32) -> bool
        decreases ops.len(),
    {
        if ops.len() == 0 {
            false
        } else {
            let m = self.after_ops(ops.drop_last());
            self.collected(ops.drop_last(), id) || (ops.last() == ManagerOp::Poll(id)
                && m.processes.contains_key(id) && m.processes[id].finished)
        }
    }
}

/// How many registrations `ops` holds.
pub open spec fn register_count(ops: Seq<ManagerOp>) -> nat
    decreases ops.len(),
{
    if ops.len() == 0 {
        0
    } else {
        register_count(ops.drop_last()) + if ops.last() is Register {
            1nat
        } else {
            0nat
        }
    }
}

proof fn lemma_prefix_step(ops: Seq<ManagerOp>, j: int)
    requires
        0 < j <= ops.len(),
    ensures
        ops.take(j).drop_last() == ops.take(j - 1),
        ops.take(j).last() == ops[j - 1],
        empty_registry().after_ops(ops.take(j)) == empty_registry().after_ops(ops.take(j - 1)).after_op(ops[j - 1]),
        register_count(ops.take(j)) == register_count(ops.take(j - 1)) + if ops[j - 1] is Register {
            1nat
        } else {
            0nat
        },
{
    assert(ops.take(j).drop_last() =~= ops.take(j - 1));
}

proof fn lemma_register_count_grows(ops: Seq<ManagerOp>, i: int, j: int)
    requires
        0 <= i <= j <= ops.len(),
    ensures
        register_count(ops.take(i)) <= register_count(ops.take(j)),
        i < j && ops[i] is Register ==> register_count(ops.take(i)) < register_count(ops.take(j)),
    decreases j - i,
{
    if i < j {
        lemma_register_count_grows(ops, i, j - 1);
        lemma_prefix_step(ops, j);
        if i == j - 1 {
        } else {
        }
    }
}

proof fn lemma_counter_counts(ops: Seq<ManagerOp>)
    requires
        register_count(ops) < u32::MAX,
    ensures
        empty_registry().after_ops(ops).next_id == register_count(ops) + 1,
        empty_registry().after_ops(ops).identifiers_fresh(),
        empty_registry().after_ops(ops).well_formed(),
    decreases ops.len(),
{
    if ops.len() > 0 {
        let prev = ops.drop_last();
        assert(register_count(prev) <= register_count(ops));
        lemma_counter_counts(prev);
        let m = empty_registry().after_ops(prev);
        crate::process::lemma_operations_keep_registry_sound(m, 0, OutputStream::Stdout, Seq::empty(), None, Seq::empty(), None);
        match ops.last() {
            ManagerOp::Register(command, cwd) => {
                crate::process::lemma_identifiers_stay_fresh(m, 0, OutputStream::Stdout, Seq::empty(), None, command, cwd);
                crate::process::lemma_operations_keep_registry_sound(m, 0, OutputStream::Stdout, Seq::empty(), None, command, cwd);
            },
            ManagerOp::Output(id, stream, text) => {
                crate::process::lemma_identifiers_stay_fresh(m, id, stream, text, None, Seq::empty(), None);
                crate::process::lemma_operations_keep_registry_sound(m, id, stream, text, None, Seq::empty(), None);
            },
            ManagerOp::Exit(id, code) => {
                crate::process::lemma_identifiers_stay_fresh(m, id, OutputStream::Stdout, Seq::empty(), code, Seq::empty(), None);
                crate::process::lemma_operations_keep_registry_sound(m, id, OutputStream::Stdout, Seq::empty(), code, Seq::empty(), None);
            },
            ManagerOp::ForceFinish(id) => {
                crate::process::lemma_identifiers_stay_fresh(m, id, OutputStream::Stdout, Seq::empty(), None, Seq::empty(), None);
                crate::process::lemma_operations_keep_registry_sound(m, id, OutputStream::Stdout, Seq::empty(), None, Seq::empty(), None);
            },
            ManagerOp::Poll(id) => {
                crate::process::lemma_identifiers_stay_fresh(m, id, OutputStream::Stdout, Seq::empty(), None, Seq::empty(), None);
                crate::process::lemma_operations_keep_registry_sound(m, id, OutputStream::Stdout, Seq::empty(), None, Seq::empty(), None);
            },
            ManagerOp::List => {
                crate::process::lemma_identifiers_stay_fresh(m, 0, OutputStream::Stdout, Seq::empty(), None, Seq::empty(), None);
            },
        }
    }
}

/// Identifiers come out 1, 2, 3, ... in the order of the spawns: in a
/// registry that started empty, while fewer than `u32::MAX` processes have
/// been spawned, the registration at position `i` of the history receives
/// one more than the number of registrations before it, so two spawns
/// never share an identifier, and every identifier in use lies below the
/// next one. Operations other than a registration use up no identifier.
pub proof fn lemma_identifiers_in_spawn_order(ops: Seq<ManagerOp>)
    requires
        register_count(ops) < u32::MAX,
    ensures
        empty_registry().after_ops(ops).next_id == register_count(ops) + 1,
        empty_registry().after_ops(ops).identifiers_fresh(),
        empty_registry().after_ops(ops).well_formed(),
        forall|i: int|
            0 <= i <= ops.len() ==> #[trigger] empty_registry().after_ops(ops.take(i)).next_id == register_count(ops.take(i)) + 1,
        forall|i: int, j: int|
            0 <= i < j < ops.len() && ops[i] is Register ==> #[trigger] empty_registry().after_ops(ops.take(i)).next_id
                < #[trigger] empty_registry().after_ops(ops.take(j)).next_id,
{
    lemma_counter_counts(ops);
    assert forall|i: int| 0 <= i <= ops.len() implies #[trigger] empty_registry().after_ops(ops.take(i)).next_id
        == register_count(ops.take(i)) + 1 by {
        lemma_register_count_grows(ops, i, ops.len() as int);
        assert(ops.take(ops.len() as int) =~= ops);
        lemma_counter_counts(ops.take(i));
    }
    assert forall|i: int, j: int| 0 <= i < j < ops.len() && ops[i] is Register implies #[trigger] empty_registry().after_ops(
        ops.take(i),
    ).next_id < #[trigger] empty_registry().after_ops(ops.take(j)).next_id by {
        lemma_register_count_grows(ops, i, ops.len() as int);
        lemma_register_count_grows(ops, j, ops.len() as int);
        lemma_register_count_grows(ops, i, j);
        assert(ops.take(ops.len() as int) =~= ops);
        lemma_counter_counts(ops.take(i));
        lemma_counter_counts(ops.take(j));
    }
}

proof fn lemma_history_invariant(ops: Seq<ManagerOp>)
    requires
        register_count(ops) < u32::MAX,
    ensures
        forall|id: u32|
            #[trigger] empty_registry().after_ops(ops).processes.contains_key(id) ==> {
                &&& empty_registry().spawned(ops, id) is Some
                &&& empty_registry().after_ops(ops).processes[id].command == empty_registry().spawned(ops, id)->0
                &&& (empty_registry().after_ops(ops).processes[id].accessed <==> empty_registry().collected(ops, id))
            },
        forall|id: u32|
            #[trigger] empty_registry().spawned(ops, id) is Some <==> 1 <= id < empty_registry().after_ops(ops).next_id,
        forall|id: u32|
            #[trigger] empty_registry().spawned(ops, id) is Some && !empty_registry().collected(ops, id) ==> {
                &&& empty_registry().after_ops(ops).processes.contains_key(id)
                &&& !empty_registry().after_ops(ops).processes[id].accessed
            },
        forall|id: u32| #[trigger] empty_registry().collected(ops, id) ==> empty_registry().spawned(ops, id) is Some,
    decreases ops.len(),
{
    let e = empty_registry();
    if ops.len() > 0 {
        let prev = ops.drop_last();
        assert(register_count(prev) <= register_count(ops));
        lemma_history_invariant(prev);
        lemma_counter_counts(prev);
        lemma_counter_counts(ops);
        let m0 = e.after_ops(prev);
        let m = e.after_ops(ops);
        assert(m == m0.after_op(ops.last()));
        assert forall|id: u32| #[trigger] m.processes.contains_key(id) implies {
            &&& e.spawned(ops, id) is Some
            &&& m.processes[id].command == e.spawned(ops, id)->0
            &&& (m.processes[id].accessed <==> e.collected(ops, id))
        } by {
            assert(e.spawned(prev, id) is Some <==> 1 <= id < m0.next_id);
            if m0.processes.contains_key(id) {
                assert(e.spawned(prev, id) is Some);
            }
            match ops.last() {
                ManagerOp::Register(command, cwd) => {
                    if id == m0.next_id {
                        assert(e.spawned(ops, id) == Some(command));
                        assert(!e.collected(prev, id));
                    } else {
                        assert(m0.processes.contains_key(id));
                    }
                },
                ManagerOp::Poll(p) => {
                    assert(m0.processes.contains_key(id));
                },
                ManagerOp::List => {
                    assert(m0.processes.contains_key(id));
                },
                _ => {
                    assert(m0.processes.contains_key(id));
                },
            }
        }
        assert forall|id: u32| #[trigger] e.spawned(ops, id) is Some <==> 1 <= id < m.next_id by {
            assert(e.spawned(prev, id) is Some <==> 1 <= id < m0.next_id);
        }
        assert forall|id: u32| #[trigger] e.spawned(ops, id) is Some && !e.collected(ops, id) implies {
            &&& m.processes.contains_key(id)
            &&& !m.processes[id].accessed
        } by {
            assert(e.spawned(prev, id) is Some <==> 1 <= id < m0.next_id);
            if e.spawned(prev, id) is Some && !e.collected(prev, id) {
                assert(m0.processes.contains_key(id));
            }
            if e.collected(prev, id) {
                assert(e.spawned(prev, id) is Some);
            }
        }
        assert forall|id: u32| #[trigger] e.collected(ops, id) implies e.spawned(ops, id) is Some by {
            assert(e.spawned(prev, id) is Some <==> 1 <= id < m0.next_id);
            if e.collected(prev, id) {
                assert(e.spawned(prev, id) is Some);
            }
            if m0.processes.contains_key(id) {
                assert(e.spawned(prev, id) is Some);
            }
        }
    }
}

/// The listing follows the history: in a registry that started empty,
/// while fewer than `u32::MAX` processes have been spawned, a listing
/// shows a process exactly when a spawn started it and no poll has yet
/// found it finished, and shows it with the command that spawn started;
/// the spawns so far have used exactly the identifiers 1 to their number.
pub proof fn lemma_listing_follows_history(ops: Seq<ManagerOp>, id: u32)
    requires
        register_count(ops) < u32::MAX,
    ensures
        empty_registry().after_ops(ops).after_list().processes.contains_key(id) <==> (
        empty_registry().spawned(ops, id) is Some && !empty_registry().collected(ops, id)),
        empty_registry().after_ops(ops).after_list().processes.contains_key(id) ==> {
            &&& empty_registry().after_ops(ops).after_list().processes[id].command == empty_registry().spawned(ops, id)->0
            &&& empty_registry().after_ops(ops).after_list().processes[id].finished == empty_registry().after_ops(
                ops,
            ).processes[id].finished
        },
        empty_registry().spawned(ops, id) is Some <==> 1 <= id <= register_count(ops),
        forall|items: Seq<ProcessListItem>|
            #[trigger] lists_exactly(items, empty_registry().after_ops(ops).after_list().processes) ==> (forall|j: int|
                0 <= j < items.len() ==> empty_registry().spawned(ops, #[trigger] items[j].id) == Some(items[j].command@)
                    && !empty_registry().collected(ops, items[j].id)),
{
    lemma_history_invariant(ops);
    lemma_counter_counts(ops);
    let e = empty_registry();
    assert(e.spawned(ops, id) is Some <==> 1 <= id < e.after_ops(ops).next_id);
    if e.spawned(ops, id) is Some && !e.collected(ops, id) {
        assert(e.after_ops(ops).processes.contains_key(id));
    }
    if e.after_ops(ops).processes.contains_key(id) {
        assert(e.spawned(ops, id) is Some);
    }
    assert forall|items: Seq<ProcessListItem>|
        #[trigger] lists_exactly(items, e.after_ops(ops).after_list().processes) implies (forall|j: int|
            0 <= j < items.len() ==> e.spawned(ops, #[trigger] items[j].id) == Some(items[j].command@)
                && !e.collected(ops, items[j].id)) by {
        assert forall|j: int| 0 <= j < items.len() implies e.spawned(ops, #[trigger] items[j].id) == Some(items[j].command@)
            && !e.collected(ops, items[j].id) by {
            let k = items[j].id;
            assert(e.after_ops(ops).after_list().processes.contains_key(k));
            assert(e.after_ops(ops).processes.contains_key(k));
        }
    }
}

/// An identifier that has left the registry never comes back: in a
/// registry that started empty, while fewer than `u32::MAX` processes have
/// been spawned, an identifier already handed out and no longer held at
/// one point of the history is held at no later point; and once a poll has
/// found a process finished, no later listing shows it.
pub proof fn lemma_removed_identifier_never_returns(ops: Seq<ManagerOp>, i: int, j: int, id: u32)
    requires
        register_count(ops) < u32::MAX,
        0 <= i <= j <= ops.len(),
    ensures
        1 <= id < empty_registry().after_ops(ops.take(i)).next_id && !empty_registry().after_ops(
            ops.take(i),
        ).processes.contains_key(id) ==> !empty_registry().after_ops(ops.take(j)).processes.contains_key(id),
        empty_registry().collected(ops.take(i), id) ==> empty_registry().collected(ops.take(j), id),
        empty_registry().collected(ops.take(i), id) ==> !empty_registry().after_ops(
            ops.take(j),
        ).after_list().processes.contains_key(id),
    decreases j - i,
{
    let e = empty_registry();
    assert(ops.take(ops.len() as int) =~= ops);
    lemma_register_count_grows(ops, j, ops.len() as int);
    if i < j {
        lemma_removed_identifier_never_returns(ops, i, j - 1, id);
        lemma_prefix_step(ops, j);
        lemma_register_count_grows(ops, i, j - 1);
        lemma_register_count_grows(ops, j - 1, ops.len() as int);
        lemma_counter_counts(ops.take(i));
        lemma_counter_counts(ops.take(j - 1));
        assert(e.collected(ops.take(j), id) == (e.collected(ops.take(j - 1), id) || (ops[j - 1] == ManagerOp::Poll(id)
            && e.after_ops(ops.take(j - 1)).processes.contains_key(id) && e.after_ops(
            ops.take(j - 1),
        ).processes[id].finished)));
    }
    lemma_listing_follows_history(ops.take(j), id);
}

/// A spawn adds exactly one process to the listing: with `before` the
/// listing just before a spawn of `command` and `after` the listing just
/// after it, the new identifier is on no line of `before`; `after` holds
/// one line for it, with that command, not done; and every other line of
/// `after` is a line of `before`, unchanged, and the other way round.
pub proof fn lemma_spawn_adds_one_listed(
    m: ManagerView,
    command: Seq<char>,
    cwd: Option<Seq<char>>,
    before: Seq<ProcessListItem>,
    after: Seq<ProcessListItem>,
)
    requires
        m.identifiers_fresh(),
        lists_exactly(before, m.after_list().processes),
        lists_exactly(after, m.after_list().after_register(command, cwd).after_list().processes),
    ensures
        m.after_list().after_register(command, cwd).after_list().processes == m.after_list().processes.insert(
            m.next_id,
            ProcessView::started(m.next_id, command, cwd),
        ),
        forall|j: int| 0 <= j < before.len() ==> #[trigger] before[j].id != m.next_id,
        exists|k: int| 0 <= k < after.len() && #[trigger] after[k].id == m.next_id && after[k].command@ == command && !after[k].done,
        forall|k: int|
            0 <= k < after.len() && #[trigger] after[k].id != m.next_id ==> exists|j: int|
                0 <= j < before.len() && before[j].id == after[k].id && before[j].command@ == after[k].command@
                    && before[j].done == after[k].done,
        forall|j: int|
            0 <= j < before.len() ==> exists|k: int|
                0 <= k < after.len() && after[k].id == #[trigger] before[j].id && after[k].command@ == before[j].command@
                    && after[k].done == before[j].done,
{
    let l0 = m.after_list().processes;
    let l1 = m.after_list().after_register(command, cwd).after_list().processes;
    assert(l1 =~= l0.insert(m.next_id, ProcessView::started(m.next_id, command, cwd)));
    assert(!l0.contains_key(m.next_id));
    assert(l1.contains_key(m.next_id));
    let k0 = choose|k: int| 0 <= k < after.len() && after[k].id == m.next_id;
    assert(0 <= k0 < after.len() && after[k0].id == m.next_id);
    assert forall|k: int| 0 <= k < after.len() && #[trigger] after[k].id != m.next_id implies exists|j: int|
        0 <= j < before.len() && before[j].id == after[k].id && before[j].command@ == after[k].command@
            && before[j].done == after[k].done by {
        assert(l1.contains_key(after[k].id));
        assert(l0.contains_key(after[k].id));
        let j = choose|j: int| 0 <= j < before.len() && before[j].id == after[k].id;
        assert(before[j].id == after[k].id);
    }
    assert forall|j: int| 0 <= j < before.len() implies exists|k: int|
        0 <= k < after.len() && after[k].id == #[trigger] before[j].id && after[k].command@ == before[j].command@
            && after[k].done == before[j].done by {
        assert(l0.contains_key(before[j].id));
        assert(l1.contains_key(before[j].id));
        let k = choose|k: int| 0 <= k < after.len() && after[k].id == before[j].id;
        assert(after[k].id == before[j].id);
    }
}

} // verus!
