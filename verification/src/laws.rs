//! Laws of the store that hold across several operations: what every store made
//! by the operations has in common, and how ids are handed out.

use crate::date::{date_of, Date};
use crate::store::{selected, StoreView};
use crate::task::TaskView;
use vstd::prelude::*;

verus! {

/// What the user types for a task: a description, a comma-separated tag list and
/// a due date.
pub struct Entry {
    pub description: Seq<char>,
    pub tags: Seq<char>,
    pub due_date: Seq<char>,
}

/// One operation on the store.
pub enum Operation {
    /// A task is created from an entry.
    Create { entry: Entry },
    /// The task with this id is completed.
    Complete { id: nat },
    /// The task with this id is deleted.
    Delete { id: nat },
    /// The task with this id is edited from an entry.
    Edit { id: nat, entry: Entry },
}

impl StoreView {
    /// The store after one operation.
    pub open spec fn apply(self, operation: Operation) -> StoreView {
        match operation {
            Operation::Create { entry } => self.create(
                entry.description,
                entry.tags,
                entry.due_date,
            ),
            Operation::Complete { id } => self.complete(id),
            Operation::Delete { id } => self.delete(id),
            Operation::Edit { id, entry } => self.edit_from_input(
                id,
                entry.description,
                entry.tags,
                entry.due_date,
            ),
        }
    }

    /// The store after some operations, one after another.
    pub open spec fn run(self, operations: Seq<Operation>) -> StoreView
        decreases operations.len(),
    {
        if operations.len() == 0 {
            self
        } else {
            self.run(operations.drop_last()).apply(operations.last())
        }
    }

    /// The store after a task was created from each entry, one after another.
    pub open spec fn create_all(self, entries: Seq<Entry>) -> StoreView
        decreases entries.len(),
    {
        if entries.len() == 0 {
            self
        } else {
            let entry = entries.last();
            self.create_all(entries.drop_last()).create(
                entry.description,
                entry.tags,
                entry.due_date,
            )
        }
    }
}

/// A valid date is the date of its own numbers: taken apart into year, month and
/// day and put together again by `Date::from_ymd`, it comes back the same.
pub proof fn law_date_is_rebuilt_from_its_numbers(date: Date)
    requires
        date.is_valid(),
    ensures
        date_of(date.year as int, date.month as int, date.day as int) == Some(date),
{
}

/// A fresh store is well formed.
pub proof fn law_fresh_store_is_wf()
    ensures
        StoreView::fresh().wf(),
{
}

/// In a well-formed store no two tasks share an id.
pub proof fn law_ids_are_unique(store: StoreView)
    requires
        store.wf(),
    ensures
        forall|i: int, j: int|
            0 <= i < store.tasks.len() && 0 <= j < store.tasks.len() && i != j ==> (
            #[trigger] store.tasks[i]).id != (#[trigger] store.tasks[j]).id,
{
    assert forall|i: int, j: int|
        0 <= i < store.tasks.len() && 0 <= j < store.tasks.len() && i != j implies (
    #[trigger] store.tasks[i]).id != (#[trigger] store.tasks[j]).id by {
        if i < j {
            assert(store.tasks[i].id < store.tasks[j].id);
        } else {
            assert(store.tasks[j].id < store.tasks[i].id);
        }
    }
}

/// An operation on an id that no task has changes nothing, whether it is to
/// complete, to delete or to edit.
pub proof fn law_unknown_id_changes_nothing(
    store: StoreView,
    id: nat,
    description: Seq<char>,
    tags: Seq<char>,
    due_date: Seq<char>,
)
    requires
        !store.has(id),
    ensures
        store.complete(id) == store,
        store.delete(id) == store,
        store.edit_from_input(id, description, tags, due_date) == store,
{
    store.lemma_position_exists(id);
}

/// Completing a task a second time changes nothing.
pub proof fn law_complete_is_idempotent(store: StoreView, id: nat)
    ensures
        store.complete(id).complete(id) == store.complete(id),
{
    let once = store.complete(id);
    store.lemma_position_exists(id);
    if store.position(id) is Some {
        let at = store.position(id)->0;
        store.lemma_update_keeps_positions(at, once.tasks[at], id);
        assert(once.complete(id).tasks =~= once.tasks);
    }
}

/// Editing a task with an empty due date leaves it without a due date, whatever
/// it had before; its id and its completion stay as they were.
pub proof fn law_edit_with_empty_due_date_clears_it(
    store: StoreView,
    id: nat,
    description: Seq<char>,
    tags: Seq<char>,
)
    requires
        store.has(id),
    ensures
        store.edit_from_input(id, description, tags, Seq::empty()).has(id),
        store.edit_from_input(id, description, tags, Seq::empty()).first_with(id).due_date
            is None,
        store.edit_from_input(id, description, tags, Seq::empty()).first_with(id).completed
            == store.first_with(id).completed,
{
    let after = store.edit_from_input(id, description, tags, Seq::empty());
    store.lemma_position_exists(id);
    let at = store.position(id)->0;
    store.lemma_update_keeps_positions(at, after.tasks[at], id);
    after.lemma_position_exists(id);
}

/// Completing, deleting and editing leave the next id as it is; only creating a
/// task moves it on, by one.
pub proof fn law_only_create_moves_the_next_id(store: StoreView, operation: Operation)
    ensures
        store.apply(operation).next_id == if operation is Create {
            store.next_id + 1
        } else {
            store.next_id
        },
{
}

/// A query lists exactly the tasks of the store that the filter selects: with a
/// filter, those that have the lowercased filter among their tags or in their
/// lowercased description, and no task that has it in neither.
pub proof fn law_query_lists_the_selected(store: StoreView, filter: Option<Seq<char>>)
    ensures
        forall|task: TaskView| #[trigger]
            store.query(filter).contains(task) <==> store.tasks.contains(task) && task.selected_by(
                filter,
            ),
        filter is None ==> store.query(filter) == store.tasks,
{
    let listed = |task: TaskView| task.selected_by(filter);
    assert forall|task: TaskView| #[trigger]
        store.query(filter).contains(task) <==> store.tasks.contains(task) && task.selected_by(
            filter,
        ) by {
        if store.query(filter).contains(task) {
            store.tasks.lemma_filter_contains_rev(listed, task);
        }
        if store.tasks.contains(task) && task.selected_by(filter) {
            let at = choose|at: int| 0 <= at < store.tasks.len() && store.tasks[at] == task;
            store.tasks.lemma_filter_contains(listed, at);
        }
    }
    if filter is None {
        lemma_all_selected(store.tasks);
    }
}

/// Without a filter every task is listed.
proof fn lemma_all_selected(tasks: Seq<TaskView>)
    ensures
        selected(tasks, None) == tasks,
    decreases tasks.len(),
{
    reveal(Seq::filter);
    if tasks.len() > 0 {
        lemma_all_selected(tasks.drop_last());
        assert(tasks.drop_last().push(tasks.last()) =~= tasks);
    }
}

/// One operation keeps a well-formed store well formed, never lowers the next id,
/// and brings in no id below the next id of before.
pub proof fn law_operation_keeps_wf(store: StoreView, operation: Operation)
    requires
        store.wf(),
    ensures
        store.apply(operation).wf(),
        store.apply(operation).next_id >= store.next_id,
        forall|id: nat|
            id < store.next_id && !store.has(id) ==> !(#[trigger] store.apply(operation).has(id)),
{
    let after = store.apply(operation);
    match operation {
        Operation::Create { entry } => {
            store.lemma_create_wf(entry.description, entry.tags, entry.due_date);
        },
        Operation::Complete { id } => {
            store.lemma_complete_wf(id);
        },
        Operation::Delete { id } => {
            store.lemma_delete_wf(id);
        },
        Operation::Edit { id, entry } => {
            store.lemma_edit_from_input_wf(id, entry.description, entry.tags, entry.due_date);
        },
    }
    assert forall|id: nat| id < store.next_id && !store.has(id) implies !(#[trigger] after.has(
        id,
    )) by {
        if after.has(id) {
            let at = choose|at: int| 0 <= at < after.tasks.len() && (#[trigger] after.tasks[at]).id
                == id;
            match operation {
                Operation::Create { entry } => {
                    if at < store.tasks.len() {
                        assert(store.tasks[at].id == id);
                    }
                },
                Operation::Complete { id: completed } => {
                    assert(store.tasks[at].id == id);
                },
                Operation::Delete { id: deleted } => {
                    if store.position(deleted) is Some {
                        let gone = store.position(deleted)->0;
                        store.lemma_position_exists(deleted);
                        if at < gone {
                            assert(store.tasks[at].id == id);
                        } else {
                            assert(store.tasks[at + 1].id == id);
                        }
                    } else {
                        assert(store.tasks[at].id == id);
                    }
                },
                Operation::Edit { id: edited, entry } => {
                    assert(store.tasks[at].id == id);
                },
            }
        }
    }
}

/// Every store that operations make from a well-formed store is well formed. A
/// fresh store is well formed, so every store that the operations can reach is:
/// its ids are unique and rise along the list, the next id lies above them all,
/// every tag is in normal form and every due date is a day of the calendar.
pub proof fn law_operations_keep_wf(store: StoreView, operations: Seq<Operation>)
    requires
        store.wf(),
    ensures
        store.run(operations).wf(),
        store.run(operations).next_id >= store.next_id,
    decreases operations.len(),
{
    if operations.len() > 0 {
        law_operations_keep_wf(store, operations.drop_last());
        law_operation_keeps_wf(store.run(operations.drop_last()), operations.last());
    }
}

/// Tasks created one after another get the ids that follow each other from the
/// next id on: the tasks of before stay in front, and the new ones rise strictly,
/// so that no two of them share an id.
pub proof fn law_created_ids_increase(store: StoreView, entries: Seq<Entry>)
    ensures
        store.create_all(entries).next_id == store.next_id + entries.len(),
        store.create_all(entries).tasks.len() == store.tasks.len() + entries.len(),
        store.create_all(entries).tasks.take(store.tasks.len() as int) == store.tasks,
        forall|k: int|
            0 <= k < entries.len() ==> (#[trigger] store.create_all(entries).tasks[store.tasks.len()
                + k]).id == store.next_id + k,
        forall|j: int, k: int|
            0 <= j < k < entries.len() ==> (#[trigger] store.create_all(
                entries,
            ).tasks[store.tasks.len() + j]).id < (#[trigger] store.create_all(
                entries,
            ).tasks[store.tasks.len() + k]).id,
    decreases entries.len(),
{
    let after = store.create_all(entries);
    let n = store.tasks.len() as int;
    if entries.len() == 0 {
        assert(after.tasks.take(n) =~= store.tasks);
    } else {
        let before = store.create_all(entries.drop_last());
        law_created_ids_increase(store, entries.drop_last());
        assert(after.tasks.take(n) =~= before.tasks.take(n));
        assert forall|k: int| 0 <= k < entries.len() implies (#[trigger] after.tasks[n + k]).id
            == store.next_id + k by {
            if k < entries.len() - 1 {
                assert(after.tasks[n + k] == before.tasks[n + k]);
            }
        }
    }
}

/// The id of a deleted task is never given out again: whatever operations follow
/// the deletion, no task of the store has that id.
pub proof fn law_deleted_id_is_not_reused(store: StoreView, id: nat, operations: Seq<Operation>)
    requires
        store.wf(),
        store.has(id),
    ensures
        !store.delete(id).run(operations).has(id),
        id < store.delete(id).run(operations).next_id,
    decreases operations.len(),
{
    let deleted = store.delete(id);
    store.lemma_delete_wf(id);
    if operations.len() == 0 {
        store.lemma_position_exists(id);
        let gone = store.position(id)->0;
        law_ids_are_unique(store);
        if deleted.has(id) {
            let at = choose|at: int| 0 <= at < deleted.tasks.len() && (
            #[trigger] deleted.tasks[at]).id == id;
            if at < gone {
                assert(store.tasks[at].id == id);
            } else {
                assert(store.tasks[at + 1].id == id);
            }
        }
        assert(store.tasks[gone].id < store.next_id);
    } else {
        law_deleted_id_is_not_reused(store, id, operations.drop_last());
        law_operations_keep_wf(deleted, operations.drop_last());
        law_operation_keeps_wf(deleted.run(operations.drop_last()), operations.last());
    }
}

/// A task created right after a deletion does not get the deleted id.
pub proof fn law_create_after_delete_takes_new_id(store: StoreView, id: nat, entry: Entry)
    requires
        store.wf(),
        store.has(id),
    ensures
        store.delete(id).create(entry.description, entry.tags, entry.due_date).tasks.last().id
            != id,
{
    store.lemma_position_exists(id);
    assert(store.tasks[store.position(id)->0].id < store.next_id);
}

} // verus!
