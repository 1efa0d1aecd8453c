//! The task store: the tasks in the order they were added and the counter that
//! numbers them, with its model and the operations on it.

use crate::date::{due_date_of, parse_due_date, Date};
use crate::tags::{are_tags, lemma_tags_among_are_tags, parse_tags, tags_of};
use crate::task::{Status, Task, TaskView};
use crate::text::{lowercase_of, split_by, strings_view};
use vstd::prelude::*;

verus! {

/// The tasks of the list and the id that the next new task gets.
#[derive(Debug, Clone, PartialEq, Eq)]
pub struct TaskManager {
    pub tasks: Vec<Task>,
    pub next_id: usize,
}

/// The model of a store: the models of its tasks, in order, and the next id.
pub struct StoreView {
    pub tasks: Seq<TaskView>,
    pub next_id: nat,
}

/// The models of some tasks, in order.
pub open spec fn task_views(tasks: Seq<Task>) -> Seq<TaskView> {
    tasks.map_values(|task: Task| task@)
}

/// The models of the tasks that some references point to, in order.
pub open spec fn task_refs_view(tasks: Seq<&Task>) -> Seq<TaskView> {
    tasks.map_values(|task: &Task| task@)
}

/// The text of a filter, where there is one.
pub open spec fn filter_view(filter: Option<&str>) -> Option<Seq<char>> {
    match filter {
        Some(word) => Some(word@),
        None => None,
    }
}

/// Those of `tasks` that are listed under `filter`, in their order.
pub open spec fn selected(tasks: Seq<TaskView>, filter: Option<Seq<char>>) -> Seq<TaskView> {
    tasks.filter(|task: TaskView| task.selected_by(filter))
}

impl View for TaskManager {
    type V = StoreView;

    open spec fn view(&self) -> StoreView {
        StoreView { tasks: task_views(self.tasks@), next_id: self.next_id as nat }
    }
}

impl StoreView {
    /// The store of a first run: no task, and 1 as the next id.
    pub open spec fn fresh() -> StoreView {
        StoreView { tasks: Seq::empty(), next_id: 1 }
    }

    /// What holds of every store that the operations make from a fresh one: each
    /// task is well formed, the ids rise strictly along the list, and the next id
    /// lies above them all.
    pub open spec fn wf(self) -> bool {
        &&& self.next_id >= 1
        &&& forall|i: int|
            0 <= i < self.tasks.len() ==> (#[trigger] self.tasks[i]).wf() && self.tasks[i].id
                < self.next_id
        &&& forall|i: int, j: int|
            0 <= i < j < self.tasks.len() ==> (#[trigger] self.tasks[i]).id < (
            #[trigger] self.tasks[j]).id
    }

    /// Some task of the store has this id.
    pub open spec fn has(self, id: nat) -> bool {
        exists|at: int| 0 <= at < self.tasks.len() && (#[trigger] self.tasks[at]).id == id
    }

    /// The task at `at` is the first one with this id.
    pub open spec fn is_first(self, id: nat, at: int) -> bool {
        &&& 0 <= at < self.tasks.len()
        &&& self.tasks[at].id == id
        &&& forall|before: int| 0 <= before < at ==> (#[trigger] self.tasks[before]).id != id
    }

    /// Where the first task with this id stands, if there is one.
    pub open spec fn position(self, id: nat) -> Option<int> {
        if exists|at: int| self.is_first(id, at) {
            Some(choose|at: int| self.is_first(id, at))
        } else {
            None
        }
    }

    /// The first task with this id, in a store that has one.
    pub open spec fn first_with(self, id: nat) -> TaskView
        recommends
            self.has(id),
    {
        self.tasks[self.position(id)->0]
    }

    /// The store after a task with these contents was added: it gets the next id,
    /// is not completed, stands last, and the next id moves on by one.
    pub open spec fn add(
        self,
        description: Seq<char>,
        tags: Seq<Seq<char>>,
        due_date: Option<Date>,
    ) -> StoreView {
        StoreView {
            tasks: self.tasks.push(
                TaskView { id: self.next_id, description, completed: false, tags, due_date },
            ),
            next_id: self.next_id + 1,
        }
    }

    /// The store after a task was created from what the user typed: the tags are
    /// those that the tag list names, the due date the one that the input stands for.
    pub open spec fn create(
        self,
        description: Seq<char>,
        tags: Seq<char>,
        due_date: Seq<char>,
    ) -> StoreView {
        self.add(description, tags_of(tags), due_date_of(due_date))
    }

    /// The store after the first task with this id was marked completed; the same
    /// store where there is no such task.
    pub open spec fn complete(self, id: nat) -> StoreView {
        match self.position(id) {
            Some(at) => StoreView {
                tasks: self.tasks.update(at, TaskView { completed: true, ..self.first_with(id) }),
                ..self
            },
            None => self,
        }
    }

    /// The store after the first task with this id was taken out, the others keeping
    /// their order; the same store where there is no such task.
    pub open spec fn delete(self, id: nat) -> StoreView {
        match self.position(id) {
            Some(at) => StoreView { tasks: self.tasks.remove(at), ..self },
            None => self,
        }
    }

    /// The store after the first task with this id got a new description, new tags
    /// and a new due date, its id and its completion kept; the same store where
    /// there is no such task.
    pub open spec fn edit(
        self,
        id: nat,
        description: Seq<char>,
        tags: Seq<Seq<char>>,
        due_date: Option<Date>,
    ) -> StoreView {
        match self.position(id) {
            Some(at) => StoreView {
                tasks: self.tasks.update(
                    at,
                    TaskView { description, tags, due_date, ..self.first_with(id) },
                ),
                ..self
            },
            None => self,
        }
    }

    /// The store after the first task with this id was edited from what the user typed.
    pub open spec fn edit_from_input(
        self,
        id: nat,
        description: Seq<char>,
        tags: Seq<char>,
        due_date: Seq<char>,
    ) -> StoreView {
        self.edit(id, description, tags_of(tags), due_date_of(due_date))
    }

    /// The tasks listed under `filter`, in store order: all of them where there is no
    /// filter, else those that the filter selects.
    pub open spec fn query(self, filter: Option<Seq<char>>) -> Seq<TaskView> {
        selected(self.tasks, filter)
    }

    /// The first task with an id is found at one place only.
    pub proof fn lemma_position(self, id: nat, at: int)
        requires
            self.is_first(id, at),
        ensures
            self.position(id) == Some(at),
    {
        let chosen = choose|at: int| self.is_first(id, at);
        assert(self.is_first(id, chosen));
        if chosen < at {
            assert(self.tasks[chosen].id != id);
        } else if at < chosen {
            assert(self.tasks[at].id != id);
        }
    }

    /// An id has a position exactly when some task has it.
    pub proof fn lemma_position_exists(self, id: nat)
        ensures
            self.position(id) is Some <==> self.has(id),
            self.position(id) is Some ==> self.is_first(id, self.position(id)->0),
    {
        if self.has(id) {
            let at = choose|at: int|
                0 <= at < self.tasks.len() && (#[trigger] self.tasks[at]).id == id;
            self.lemma_first_up_to(id, at);
        }
        if self.position(id) is Some {
            let at = self.position(id)->0;
            assert(self.is_first(id, at));
            assert(self.tasks[at].id == id);
        }
    }

    /// Putting another task with the same id in the place of a task moves no
    /// task: every id is found where it was.
    pub proof fn lemma_update_keeps_positions(self, at: int, task: TaskView, id: nat)
        requires
            0 <= at < self.tasks.len(),
            task.id == self.tasks[at].id,
        ensures
            (StoreView { tasks: self.tasks.update(at, task), ..self }).position(id)
                == self.position(id),
    {
        let after = StoreView { tasks: self.tasks.update(at, task), ..self };
        assert forall|k: int| 0 <= k < self.tasks.len() implies (#[trigger] after.tasks[k]).id
            == self.tasks[k].id by {}
        self.lemma_position_exists(id);
        after.lemma_position_exists(id);
        if self.position(id) is Some {
            let first = self.position(id)->0;
            assert(after.is_first(id, first)) by {
                assert(after.tasks[first].id == self.tasks[first].id);
                assert forall|before: int| 0 <= before < first implies (
                #[trigger] after.tasks[before]).id != id by {
                    assert(self.tasks[before].id != id);
                }
            }
            after.lemma_position(id, first);
        } else if after.position(id) is Some {
            let first = after.position(id)->0;
            assert(after.tasks[first].id == self.tasks[first].id);
            assert(self.has(id));
        }
    }

    /// Below a task with a given id there is a first one with it.
    proof fn lemma_first_up_to(self, id: nat, at: int)
        requires
            0 <= at < self.tasks.len(),
            self.tasks[at].id == id,
        ensures
            exists|first: int| self.is_first(id, first),
        decreases at,
    {
        if exists|before: int| 0 <= before < at && (#[trigger] self.tasks[before]).id == id {
            let before = choose|before: int|
                0 <= before < at && (#[trigger] self.tasks[before]).id == id;
            self.lemma_first_up_to(id, before);
        } else {
            assert(self.is_first(id, at));
        }
    }
}

impl StoreView {
    /// Adding a task with well-formed contents keeps the store well formed.
    pub proof fn lemma_add_wf(
        self,
        description: Seq<char>,
        tags: Seq<Seq<char>>,
        due_date: Option<Date>,
    )
        requires
            self.wf(),
            are_tags(tags),
            due_date is Some ==> due_date->0.is_valid(),
        ensures
            self.add(description, tags, due_date).wf(),
    {
        let after = self.add(description, tags, due_date);
        assert forall|i: int| 0 <= i < after.tasks.len() implies (#[trigger] after.tasks[i]).wf()
            && after.tasks[i].id < after.next_id by {
            if i < self.tasks.len() {
                assert(after.tasks[i] == self.tasks[i]);
            }
        }
        assert forall|i: int, j: int| 0 <= i < j < after.tasks.len() implies (
        #[trigger] after.tasks[i]).id < (#[trigger] after.tasks[j]).id by {
            assert(after.tasks[i] == self.tasks[i]);
            if j < self.tasks.len() {
                assert(after.tasks[j] == self.tasks[j]);
            }
        }
    }

    /// Creating a task from what the user typed keeps the store well formed,
    /// whatever was typed.
    pub proof fn lemma_create_wf(self, description: Seq<char>, tags: Seq<char>, due_date: Seq<char>)
        requires
            self.wf(),
        ensures
            self.create(description, tags, due_date).wf(),
    {
        lemma_tags_among_are_tags(split_by(tags, ','));
        self.lemma_add_wf(description, tags_of(tags), due_date_of(due_date));
    }

    /// Completing a task keeps the store well formed.
    pub proof fn lemma_complete_wf(self, id: nat)
        requires
            self.wf(),
        ensures
            self.complete(id).wf(),
    {
        let after = self.complete(id);
        if self.position(id) is Some {
            let at = self.position(id)->0;
            self.lemma_position_exists(id);
            assert forall|i: int| 0 <= i < after.tasks.len() implies (
            #[trigger] after.tasks[i]).wf() && after.tasks[i].id < after.next_id by {
                assert(self.tasks[i].wf());
            }
            assert forall|i: int, j: int| 0 <= i < j < after.tasks.len() implies (
            #[trigger] after.tasks[i]).id < (#[trigger] after.tasks[j]).id by {
                assert(self.tasks[i].id < self.tasks[j].id);
            }
        }
    }

    /// Deleting a task keeps the store well formed.
    pub proof fn lemma_delete_wf(self, id: nat)
        requires
            self.wf(),
        ensures
            self.delete(id).wf(),
    {
        let after = self.delete(id);
        if self.position(id) is Some {
            let at = self.position(id)->0;
            self.lemma_position_exists(id);
            assert forall|i: int| 0 <= i < after.tasks.len() implies (
            #[trigger] after.tasks[i]).wf() && after.tasks[i].id < after.next_id by {
                if i < at {
                    assert(after.tasks[i] == self.tasks[i]);
                } else {
                    assert(after.tasks[i] == self.tasks[i + 1]);
                }
            }
            assert forall|i: int, j: int| 0 <= i < j < after.tasks.len() implies (
            #[trigger] after.tasks[i]).id < (#[trigger] after.tasks[j]).id by {
                let from_i = if i < at { i } else { i + 1 };
                let from_j = if j < at { j } else { j + 1 };
                assert(after.tasks[i] == self.tasks[from_i]);
                assert(after.tasks[j] == self.tasks[from_j]);
            }
        }
    }

    /// Editing a task with well-formed contents keeps the store well formed.
    pub proof fn lemma_edit_wf(
        self,
        id: nat,
        description: Seq<char>,
        tags: Seq<Seq<char>>,
        due_date: Option<Date>,
    )
        requires
            self.wf(),
            are_tags(tags),
            due_date is Some ==> due_date->0.is_valid(),
        ensures
            self.edit(id, description, tags, due_date).wf(),
    {
        let after = self.edit(id, description, tags, due_date);
        if self.position(id) is Some {
            let at = self.position(id)->0;
            self.lemma_position_exists(id);
            assert forall|i: int| 0 <= i < after.tasks.len() implies (
            #[trigger] after.tasks[i]).wf() && after.tasks[i].id < after.next_id by {
                assert(self.tasks[i].wf());
            }
            assert forall|i: int, j: int| 0 <= i < j < after.tasks.len() implies (
            #[trigger] after.tasks[i]).id < (#[trigger] after.tasks[j]).id by {
                assert(self.tasks[i].id < self.tasks[j].id);
            }
        }
    }

    /// Editing a task from what the user typed keeps the store well formed,
    /// whatever was typed.
    pub proof fn lemma_edit_from_input_wf(
        self,
        id: nat,
        description: Seq<char>,
        tags: Seq<char>,
        due_date: Seq<char>,
    )
        requires
            self.wf(),
        ensures
            self.edit_from_input(id, description, tags, due_date).wf(),
    {
        lemma_tags_among_are_tags(split_by(tags, ','));
        self.lemma_edit_wf(id, description, tags_of(tags), due_date_of(due_date));
    }
}

/// One more task is listed after the others if the filter selects it, and not at all
/// if it does not.
pub proof fn lemma_selected_push(tasks: Seq<TaskView>, task: TaskView, filter: Option<Seq<char>>)
    ensures
        selected(tasks.push(task), filter) == if task.selected_by(filter) {
            selected(tasks, filter).push(task)
        } else {
            selected(tasks, filter)
        },
{
    reveal(Seq::filter);
    assert(tasks.push(task).drop_last() =~= tasks);
}

impl TaskManager {
    /// An empty store whose first task will get the id 1.
    pub fn new() -> (store: TaskManager)
        ensures
            store@ == StoreView::fresh(),
            store@.wf(),
    {
        let store = TaskManager { tasks: Vec::new(), next_id: 1 };
        assert(store@.tasks =~= Seq::<TaskView>::empty());
        store
    }

    /// The store a run starts from: the saved one where there is one, a fresh store
    /// where nothing was saved yet.
    pub fn load(saved: Option<TaskManager>) -> (store: TaskManager)
        ensures
            saved is Some ==> store == saved->0,
            saved is None ==> store@ == StoreView::fresh() && store@.wf(),
    {
        match saved {
            Some(store) => store,
            None => TaskManager::new(),
        }
    }

    /// Where the first task with this id stands, `None` where no task has it.
    pub fn position(&self, id: usize) -> (at: Option<usize>)
        ensures
            match at {
                Some(place) => self@.is_first(id as nat, place as int) && self@.position(id as nat)
                    == Some(place as int),
                None => !self@.has(id as nat) && self@.position(id as nat) is None,
            },
    {
        let mut i: usize = 0;
        while i < self.tasks.len()
            invariant
                i <= self.tasks@.len(),
                forall|before: int| 0 <= before < i ==> (#[trigger] self@.tasks[before]).id != id,
            decreases self.tasks@.len() - i,
        {
            if self.tasks[i].id == id {
                proof {
                    assert(self@.tasks[i as int].id == id);
                    self@.lemma_position(id as nat, i as int);
                    self@.lemma_position_exists(id as nat);
                }
                return Some(i);
            }
            i += 1;
        }
        proof {
            self@.lemma_position_exists(id as nat);
        }
        None
    }

    /// The first task with this id.
    pub fn find(&self, id: usize) -> (found: Option<&Task>)
        ensures
            found is Some <==> self@.has(id as nat),
            found is Some ==> found->0@ == self@.first_with(id as nat) && *found->0
                == self.tasks@[self@.position(id as nat)->0],
    {
        match self.position(id) {
            Some(at) => Some(&self.tasks[at]),
            None => None,
        }
    }

    /// Adds a task with these contents. It gets the next id, which then moves on,
    /// is not completed, and stands last in the list.
    pub fn add_task(
        &mut self,
        description: String,
        tags: Vec<String>,
        due_date: Option<Date>,
    ) -> (task: &Task)
        requires
            old(self).next_id < usize::MAX,
        ensures
            final(self)@ == old(self)@.add(description@, strings_view(tags@), due_date),
            task@ == final(self)@.tasks.last(),
            task.id == old(self).next_id,
            !task.completed,
            old(self)@.wf() && are_tags(strings_view(tags@)) && (due_date is Some
                ==> due_date->0.is_valid()) ==> final(self)@.wf(),
    {
        let task = Task { id: self.next_id, description, completed: false, tags, due_date };
        proof {
            assert(task_views(self.tasks@.push(task)) =~= task_views(self.tasks@).push(task@));
            if self@.wf() && are_tags(strings_view(tags@)) && (due_date is Some
                ==> due_date->0.is_valid()) {
                self@.lemma_add_wf(description@, strings_view(tags@), due_date);
            }
        }
        self.next_id = self.next_id + 1;
        self.tasks.push(task);
        let last: usize = self.tasks.len() - 1;
        &self.tasks[last]
    }

    /// Creates a task from what the user typed: a description, a comma-separated
    /// tag list and a due date, which is left out where the input is empty or is
    /// not read as a date.
    pub fn create(&mut self, description: String, tags: &str, due_date: &str) -> (task: &Task)
        requires
            old(self).next_id < usize::MAX,
        ensures
            final(self)@ == old(self)@.create(description@, tags@, due_date@),
            task@ == final(self)@.tasks.last(),
            task.id == old(self).next_id,
            !task.completed,
            task@.tags == tags_of(tags@),
            task.due_date == due_date_of(due_date@),
            old(self)@.wf() ==> final(self)@.wf(),
    {
        let tags = parse_tags(tags);
        let due_date = parse_due_date(due_date);
        self.add_task(description, tags, due_date)
    }

    /// Marks the first task with this id as completed and returns it. Without such a
    /// task nothing changes. Completing a completed task changes nothing either.
    pub fn complete_task(&mut self, id: usize) -> (found: Option<&Task>)
        ensures
            found is Some <==> old(self)@.has(id as nat),
            found is None ==> *final(self) == *old(self),
            final(self)@ == old(self)@.complete(id as nat),
            found is Some ==> found->0@ == (TaskView {
                completed: true,
                ..old(self)@.first_with(id as nat)
            }) && found->0@ == final(self)@.first_with(id as nat) && found->0.id == id,
            old(self)@.wf() ==> final(self)@.wf(),
    {
        proof {
            if self@.wf() {
                self@.lemma_complete_wf(id as nat);
            }
        }
        match self.position(id) {
            Some(at) => {
                let ghost before = self@;
                self.tasks[at].completed = true;
                proof {
                    let completed = TaskView { completed: true, ..before.tasks[at as int] };
                    assert(self@.tasks =~= before.tasks.update(at as int, completed));
                    before.lemma_update_keeps_positions(at as int, completed, id as nat);
                }
                Some(&self.tasks[at])
            },
            None => None,
        }
    }

    /// Takes the first task with this id out of the store and returns it. The other
    /// tasks keep their order, and the next id stays as it is. Without such a task
    /// nothing changes.
    pub fn delete_task(&mut self, id: usize) -> (removed: Option<Task>)
        ensures
            removed is Some <==> old(self)@.has(id as nat),
            removed is None ==> *final(self) == *old(self),
            final(self)@ == old(self)@.delete(id as nat),
            removed is Some ==> removed->0@ == old(self)@.first_with(id as nat) && removed->0.id
                == id && removed->0 == old(self).tasks@[old(self)@.position(id as nat)->0],
            final(self).next_id == old(self).next_id,
            old(self)@.wf() ==> final(self)@.wf(),
    {
        proof {
            if self@.wf() {
                self@.lemma_delete_wf(id as nat);
            }
        }
        match self.position(id) {
            Some(at) => {
                let ghost before = self.tasks@;
                let removed = self.tasks.remove(at);
                proof {
                    assert(task_views(self.tasks@) =~= task_views(before).remove(at as int));
                }
                Some(removed)
            },
            None => None,
        }
    }

    /// Gives the first task with this id a new description, new tags and a new due
    /// date, or none, and returns it. Its id and its completion stay. Without such
    /// a task nothing changes.
    pub fn edit_task(
        &mut self,
        id: usize,
        description: String,
        tags: Vec<String>,
        due_date: Option<Date>,
    ) -> (found: Option<&Task>)
        ensures
            found is Some <==> old(self)@.has(id as nat),
            found is None ==> *final(self) == *old(self),
            final(self)@ == old(self)@.edit(
                id as nat,
                description@,
                strings_view(tags@),
                due_date,
            ),
            found is Some ==> found->0@ == (TaskView {
                description: description@,
                tags: strings_view(tags@),
                due_date,
                ..old(self)@.first_with(id as nat)
            }) && found->0@ == final(self)@.first_with(id as nat) && found->0.id == id,
            old(self)@.wf() && are_tags(strings_view(tags@)) && (due_date is Some
                ==> due_date->0.is_valid()) ==> final(self)@.wf(),
    {
        proof {
            if self@.wf() && are_tags(strings_view(tags@)) && (due_date is Some
                ==> due_date->0.is_valid()) {
                self@.lemma_edit_wf(id as nat, description@, strings_view(tags@), due_date);
            }
        }
        match self.position(id) {
            Some(at) => {
                let ghost before = self@;
                self.tasks[at].description = description;
                self.tasks[at].tags = tags;
                self.tasks[at].due_date = due_date;
                proof {
                    let edited = TaskView {
                        description: description@,
                        tags: strings_view(tags@),
                        due_date,
                        ..before.tasks[at as int]
                    };
                    assert(self@.tasks =~= before.tasks.update(at as int, edited));
                    before.lemma_update_keeps_positions(at as int, edited, id as nat);
                }
                Some(&self.tasks[at])
            },
            None => None,
        }
    }

    /// Edits the first task with this id from what the user typed: a description, a
    /// comma-separated tag list and a due date. An empty due date clears the one
    /// the task had, and so does an input that is not read as a date.
    pub fn edit(
        &mut self,
        id: usize,
        description: String,
        tags: &str,
        due_date: &str,
    ) -> (found: Option<&Task>)
        ensures
            found is Some <==> old(self)@.has(id as nat),
            found is None ==> *final(self) == *old(self),
            final(self)@ == old(self)@.edit_from_input(id as nat, description@, tags@, due_date@),
            found is Some ==> found->0@ == (TaskView {
                description: description@,
                tags: tags_of(tags@),
                due_date: due_date_of(due_date@),
                ..old(self)@.first_with(id as nat)
            }) && found->0@ == final(self)@.first_with(id as nat) && found->0.id == id,
            found is Some && due_date@.len() == 0 ==> found->0.due_date is None,
            old(self)@.wf() ==> final(self)@.wf(),
    {
        let tags = parse_tags(tags);
        let due_date = parse_due_date(due_date);
        self.edit_task(id, description, tags, due_date)
    }

    /// The tasks listed under `filter`, in store order: all of them where there is
    /// no filter, else those that have the lowercased filter among their tags or in
    /// their lowercased description.
    pub fn query<'a>(&'a self, filter: Option<&str>) -> (found: Vec<&'a Task>)
        ensures
            task_refs_view(found@) == self@.query(filter_view(filter)),
    {
        let needle: Option<String> = match filter {
            Some(word) => Some(word.to_lowercase()),
            None => None,
        };
        let ghost wanted = filter_view(filter);
        let mut found: Vec<&Task> = Vec::new();
        let mut i: usize = 0;
        proof {
            reveal(Seq::filter);
            assert(task_refs_view(found@) =~= selected(self@.tasks.take(0), wanted));
        }
        while i < self.tasks.len()
            invariant
                i <= self.tasks@.len(),
                wanted == filter_view(filter),
                needle is Some <==> filter is Some,
                needle is Some ==> needle->0@ == lowercase_of(filter->0@),
                task_refs_view(found@) == selected(self@.tasks.take(i as int), wanted),
            decreases self.tasks@.len() - i,
        {
            let task = &self.tasks[i];
            let listed = match &needle {
                Some(word) => task.found_by(word.as_str()),
                None => true,
            };
            proof {
                lemma_selected_push(self@.tasks.take(i as int), task@, wanted);
                assert(self@.tasks.take(i as int).push(task@) =~= self@.tasks.take(i as int + 1));
                assert(task_refs_view(found@.push(task)) =~= task_refs_view(found@).push(task@));
            }
            if listed {
                found.push(task);
            }
            i += 1;
        }
        proof {
            assert(self@.tasks.take(i as int) =~= self@.tasks);
        }
        found
    }

    /// The listing for the day `today`: the tasks that `query` finds under `filter`,
    /// each with its display status on that day.
    pub fn list_tasks<'a>(
        &'a self,
        filter: Option<&str>,
        today: &Date,
    ) -> (listing: Vec<(&'a Task, Status)>)
        ensures
            listing@.len() == self@.query(filter_view(filter)).len(),
            forall|k: int|
                0 <= k < listing@.len() ==> (#[trigger] listing@[k]).0@ == self@.query(
                    filter_view(filter),
                )[k] && listing@[k].1 == listing@[k].0@.status(*today),
    {
        let found = self.query(filter);
        let mut listing: Vec<(&Task, Status)> = Vec::new();
        let mut i: usize = 0;
        while i < found.len()
            invariant
                i <= found@.len(),
                listing@.len() == i,
                forall|k: int|
                    0 <= k < i ==> (#[trigger] listing@[k]).0 == found@[k] && listing@[k].1
                        == found@[k]@.status(*today),
            decreases found@.len() - i,
        {
            let task = found[i];
            listing.push((task, task.status(today)));
            i += 1;
        }
        proof {
            assert forall|k: int| 0 <= k < listing@.len() implies (#[trigger] listing@[k]).0@
                == self@.query(filter_view(filter))[k] by {
                assert(task_refs_view(found@)[k] == found@[k]@);
            }
        }
        listing
    }
}

} // verus!
