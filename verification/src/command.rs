//! The commands of the menu, in the order in which the menu shows them.

use vstd::prelude::*;

verus! {

/// What the user can pick from the menu.
#[derive(Debug, Clone, Copy, PartialEq, Eq, Structural)]
pub enum Command {
    AddTask,
    ListTasks,
    CompleteTask,
    DeleteTask,
    EditTask,
    SearchTasks,
    Exit,
}

impl Command {
    /// The number of menu entries.
    pub open spec fn count() -> int {
        7
    }

    /// The command at a place of the menu, counted from 0.
    pub open spec fn at(place: int) -> Option<Command> {
        if place == 0 {
            Some(Command::AddTask)
        } else if place == 1 {
            Some(Command::ListTasks)
        } else if place == 2 {
            Some(Command::CompleteTask)
        } else if place == 3 {
            Some(Command::DeleteTask)
        } else if place == 4 {
            Some(Command::EditTask)
        } else if place == 5 {
            Some(Command::SearchTasks)
        } else if place == 6 {
            Some(Command::Exit)
        } else {
            None
        }
    }

    /// The words that the menu shows for the command.
    pub open spec fn label_text(self) -> Seq<char> {
        match self {
            Command::AddTask => "Add Task"@,
            Command::ListTasks => "List Tasks"@,
            Command::CompleteTask => "Complete Task"@,
            Command::DeleteTask => "Delete Task"@,
            Command::EditTask => "Edit Task"@,
            Command::SearchTasks => "Search Tasks"@,
            Command::Exit => "Exit"@,
        }
    }

    /// The store is written back after the command: after every one but `Exit`.
    pub open spec fn is_followed_by_save(self) -> bool {
        self != Command::Exit
    }

    /// The command that a selection in the menu stands for, `None` for a number
    /// that the menu does not have.
    pub fn from_selection(selection: usize) -> (command: Option<Command>)
        ensures
            command == Command::at(selection as int),
            command is Some <==> selection < Command::count(),
    {
        match selection {
            0 => Some(Command::AddTask),
            1 => Some(Command::ListTasks),
            2 => Some(Command::CompleteTask),
            3 => Some(Command::DeleteTask),
            4 => Some(Command::EditTask),
            5 => Some(Command::SearchTasks),
            6 => Some(Command::Exit),
            _ => None,
        }
    }

    /// The place of the command in the menu, counted from 0.
    pub fn selection(&self) -> (place: usize)
        ensures
            Command::at(place as int) == Some(*self),
            place < Command::count(),
    {
        match self {
            Command::AddTask => 0,
            Command::ListTasks => 1,
            Command::CompleteTask => 2,
            Command::DeleteTask => 3,
            Command::EditTask => 4,
            Command::SearchTasks => 5,
            Command::Exit => 6,
        }
    }

    /// The words that the menu shows for the command.
    pub fn label(&self) -> (text: &'static str)
        ensures
            text@ == self.label_text(),
    {
        match self {
            Command::AddTask => "Add Task",
            Command::ListTasks => "List Tasks",
            Command::CompleteTask => "Complete Task",
            Command::DeleteTask => "Delete Task",
            Command::EditTask => "Edit Task",
            Command::SearchTasks => "Search Tasks",
            Command::Exit => "Exit",
        }
    }

    /// The menu: the label of every command, in order.
    pub fn choices() -> (labels: Vec<&'static str>)
        ensures
            labels@.len() == Command::count(),
            forall|place: int|
                0 <= place < labels@.len() ==> Command::at(place) is Some && (
                #[trigger] labels@[place])@ == Command::at(place)->0.label_text(),
    {
        let mut labels: Vec<&'static str> = Vec::new();
        let mut place: usize = 0;
        while place < 7
            invariant
                place <= 7,
                labels@.len() == place,
                forall|k: int|
                    0 <= k < place ==> Command::at(k) is Some && (#[trigger] labels@[k])@
                        == Command::at(k)->0.label_text(),
            decreases 7 - place,
        {
            match Command::from_selection(place) {
                Some(command) => labels.push(command.label()),
                None => {},
            }
            place += 1;
        }
        labels
    }

    /// Whether the store is written back after the command.
    pub fn saves_after(&self) -> (saves: bool)
        ensures
            saves == self.is_followed_by_save(),
    {
        !matches!(self, Command::Exit)
    }
}

} // verus!
