//! A task, its mathematical model, and what can be told of one task alone:
//! its display status on a given day and whether a search word finds it.

use crate::date::Date;
use crate::tags::are_tags;
use crate::text::{contains_str, is_substring, lowercase_of, strings_view};
use vstd::prelude::*;

verus! {

/// One item of the to-do list.
#[derive(Debug, Clone, PartialEq, Eq)]
pub struct Task {
    pub id: usize,
    pub description: String,
    pub completed: bool,
    pub tags: Vec<String>,
    pub due_date: Option<Date>,
}

/// The model of a task: its texts as sequences of characters.
pub struct TaskView {
    pub id: nat,
    pub description: Seq<char>,
    pub completed: bool,
    pub tags: Seq<Seq<char>>,
    pub due_date: Option<Date>,
}

/// How a task is shown in a listing. Every task has exactly one status on a given day.
#[derive(Debug, Clone, Copy, PartialEq, Eq, Structural)]
pub enum Status {
    /// Completed, whatever its due date.
    Done,
    /// Not completed, and due before today.
    Overdue,
    /// Not completed, and due today.
    DueToday,
    /// Not completed, and due later or never.
    Pending,
}

impl Status {
    /// The status that the due date `due` gives on the day `today` to a task that
    /// is not completed.
    pub open spec fn of_due(due: Date, today: Date) -> Status {
        if due.is_before(today) {
            Status::Overdue
        } else if due == today {
            Status::DueToday
        } else {
            Status::Pending
        }
    }

    /// The status that the due date `due` gives on the day `today` to a task that
    /// is not completed.
    pub fn of_due_date(due: &Date, today: &Date) -> (status: Status)
        ensures
            status == Status::of_due(*due, *today),
    {
        if due.before(today) {
            Status::Overdue
        } else if *due == *today {
            Status::DueToday
        } else {
            Status::Pending
        }
    }
}

impl View for Task {
    type V = TaskView;

    open spec fn view(&self) -> TaskView {
        TaskView {
            id: self.id as nat,
            description: self.description@,
            completed: self.completed,
            tags: strings_view(self.tags@),
            due_date: self.due_date,
        }
    }
}

impl TaskView {
    /// The task is as the store makes it: a positive id, every tag in normal form,
    /// a due date that the calendar has.
    pub open spec fn wf(self) -> bool {
        &&& self.id >= 1
        &&& are_tags(self.tags)
        &&& self.due_date is Some ==> self.due_date->0.is_valid()
    }

    /// The display status of the task on the day `today`.
    pub open spec fn status(self, today: Date) -> Status {
        if self.completed {
            Status::Done
        } else {
            match self.due_date {
                Some(due) => Status::of_due(due, today),
                None => Status::Pending,
            }
        }
    }

    /// The task carries exactly this tag.
    pub open spec fn has_tag(self, tag: Seq<char>) -> bool {
        self.tags.contains(tag)
    }

    /// A search word that is already lowercased finds the task: it is one of the
    /// tags, or it stands in the lowercased description.
    pub open spec fn found_by(self, needle: Seq<char>) -> bool {
        self.has_tag(needle) || is_substring(needle, lowercase_of(self.description))
    }

    /// A filter selects the task: lowercased, it is one of the tags or stands in
    /// the lowercased description.
    pub open spec fn matches(self, filter: Seq<char>) -> bool {
        self.found_by(lowercase_of(filter))
    }

    /// The task is listed under `filter`: every task where there is no filter.
    pub open spec fn selected_by(self, filter: Option<Seq<char>>) -> bool {
        match filter {
            Some(word) => self.matches(word),
            None => true,
        }
    }
}

/// Whether `tag` is one of `tags`, letter for letter.
pub fn tags_contain(tags: &Vec<String>, tag: &str) -> (found: bool)
    ensures
        found == strings_view(tags@).contains(tag@),
{
    let wanted = tag.to_owned();
    let mut i: usize = 0;
    while i < tags.len()
        invariant
            i <= tags@.len(),
            wanted@ == tag@,
            forall|k: int| 0 <= k < i ==> strings_view(tags@)[k] != tag@,
        decreases tags@.len() - i,
    {
        if tags[i] == wanted {
            assert(strings_view(tags@)[i as int] == tag@);
            return true;
        }
        i += 1;
    }
    false
}

/// Decides a search from the lowercased texts: `needle` finds a task with these
/// tags and this lowercased description if it is one of the tags or stands in
/// the description.
pub fn found_among(needle: &str, tags: &Vec<String>, lowered_description: &str) -> (found: bool)
    ensures
        found == (strings_view(tags@).contains(needle@) || is_substring(
            needle@,
            lowered_description@,
        )),
{
    tags_contain(tags, needle) || contains_str(lowered_description, needle)
}

impl Task {
    /// The display status of the task on the day `today`.
    pub fn status(&self, today: &Date) -> (status: Status)
        ensures
            status == self@.status(*today),
    {
        if self.completed {
            Status::Done
        } else {
            match &self.due_date {
                Some(due) => Status::of_due_date(due, today),
                None => Status::Pending,
            }
        }
    }

    /// Whether the task carries exactly this tag.
    pub fn has_tag(&self, tag: &str) -> (found: bool)
        ensures
            found == self@.has_tag(tag@),
    {
        tags_contain(&self.tags, tag)
    }

    /// Whether a search word that is already lowercased finds the task.
    pub fn found_by(&self, needle: &str) -> (found: bool)
        ensures
            found == self@.found_by(needle@),
    {
        let lowered = self.description.as_str().to_lowercase();
        found_among(needle, &self.tags, lowered.as_str())
    }

    /// Whether a filter selects the task, whatever the case of its letters.
    pub fn matches(&self, filter: &str) -> (selected: bool)
        ensures
            selected == self@.matches(filter@),
    {
        let needle = filter.to_lowercase();
        self.found_by(needle.as_str())
    }
}

} // verus!
