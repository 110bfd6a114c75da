//! The task list view's controller: which action a key stands for in each
//! mode, and what each action does to the list and the view state.

use vstd::prelude::*;
use crate::forest::active_list;
use crate::state::{NewTaskDirection, NewTaskState, TaskListMode, TaskListState};
use crate::task::{flipped, status_stepped, Task, TaskState};
use crate::task_list::{depth_changed, inserted_at, neighbour_depth_of, removed_range, Direction, TaskList};
use crate::forest::subtree_end;

verus! {

/// A key press, as the controller sees it.
#[derive(Clone, Copy, Debug, PartialEq, Eq, Structural)]
pub enum Key {
    Char(char),
    Tab,
    BackTab,
    Enter,
    Other,
}

/// What a key press asks of the controller.
#[derive(Clone, Copy, Debug, PartialEq, Eq, Structural)]
pub enum Action {
    CursorDown,
    CursorUp,
    StartNew(NewTaskDirection),
    Demote,
    Promote,
    ToggleStatus,
    Delete,
    ToggleOrder,
    LoadSample,
    Submit,
    Ignore,
}

/// The action that `key` stands for in `mode`.
pub open spec fn key_action(mode: TaskListMode, key: Key) -> Action {
    match mode {
        TaskListMode::Normal => match key {
            Key::Char(c) => if c == 'j' {
                Action::CursorDown
            } else if c == 'k' {
                Action::CursorUp
            } else if c == 'o' {
                Action::StartNew(NewTaskDirection::Below)
            } else if c == 'O' {
                Action::StartNew(NewTaskDirection::Above)
            } else if c == ' ' {
                Action::ToggleStatus
            } else if c == 'd' {
                Action::Delete
            } else if c == 't' {
                Action::ToggleOrder
            } else if c == 'T' {
                Action::LoadSample
            } else {
                Action::Ignore
            },
            Key::Tab => Action::Demote,
            Key::BackTab => Action::Promote,
            _ => Action::Ignore,
        },
        TaskListMode::New(_) | TaskListMode::Edit(_) => if key == Key::Enter {
            Action::Submit
        } else {
            Action::Ignore
        },
        TaskListMode::Selection(_) => Action::Ignore,
    }
}

/// The action that `key` stands for in `mode`.
pub fn action_for(mode: &TaskListMode, key: Key) -> (r: Action)
    ensures
        r == key_action(*mode, key),
{
    match mode {
        TaskListMode::Normal => match key {
            Key::Char(c) => {
                if c == 'j' {
                    Action::CursorDown
                } else if c == 'k' {
                    Action::CursorUp
                } else if c == 'o' {
                    Action::StartNew(NewTaskDirection::Below)
                } else if c == 'O' {
                    Action::StartNew(NewTaskDirection::Above)
                } else if c == ' ' {
                    Action::ToggleStatus
                } else if c == 'd' {
                    Action::Delete
                } else if c == 't' {
                    Action::ToggleOrder
                } else if c == 'T' {
                    Action::LoadSample
                } else {
                    Action::Ignore
                }
            },
            Key::Tab => Action::Demote,
            Key::BackTab => Action::Promote,
            _ => Action::Ignore,
        },
        TaskListMode::New(_) | TaskListMode::Edit(_) => {
            if key == Key::Enter {
                Action::Submit
            } else {
                Action::Ignore
            }
        },
        TaskListMode::Selection(_) => Action::Ignore,
    }
}

/// Where a task entered above (`Above`) or below (`Below`) the selected position goes.
pub open spec fn insert_position(selected: int, dir: NewTaskDirection) -> int {
    match dir {
        NewTaskDirection::Above => selected,
        NewTaskDirection::Below => selected + 1,
    }
}

/// A list and the state of its view.
pub struct TaskListController {
    pub task_list: TaskList,
    pub state: TaskListState,
}

/// The list is left as it is.
pub open spec fn same_list(before: TaskListController, after: TaskListController) -> bool {
    after.task_list.tasks_seq() == before.task_list.tasks_seq()
}

/// What `action` does, from `before` to `after`.
pub open spec fn acted(before: TaskListController, after: TaskListController, action: Action) -> bool {
    let ts = before.task_list.tasks_seq();
    let pos = before.state.selected_pos;
    let kept = after.state.selected_pos == pos && after.state.mode == before.state.mode;
    match action {
        Action::CursorDown => same_list(before, after) && after.state.mode == before.state.mode
            && after.state.selected_pos == if pos + 1 < ts.len() {
            (pos + 1) as usize
        } else {
            pos
        },
        Action::CursorUp => same_list(before, after) && after.state.mode == before.state.mode
            && after.state.selected_pos == if pos > 0 {
            (pos - 1) as usize
        } else {
            pos
        },
        Action::StartNew(dir) => same_list(before, after) && after.state.selected_pos == pos && if pos
            < ts.len() && !(before.state.mode is Selection) {
            after.state.mode matches TaskListMode::New(n) && n.title@ == Seq::<char>::empty() && n.depth
                == ts[pos as int].depth && n.dir == dir
        } else {
            after.state.mode == before.state.mode
        },
        Action::Demote => kept && after.task_list.tasks_seq() == depth_changed(ts, pos as int, 1),
        Action::Promote => kept && after.task_list.tasks_seq() == depth_changed(ts, pos as int, -1),
        Action::ToggleStatus => kept && if pos < ts.len() {
            &&& after.task_list.tasks_seq() == ts.update(
                pos as int,
                Task { task_status: after.task_list.tasks_seq()[pos as int].task_status, ..ts[pos as int] },
            )
            &&& status_stepped(ts[pos as int].task_status, after.task_list.tasks_seq()[pos as int].task_status)
        } else {
            same_list(before, after)
        },
        Action::Delete => kept && if pos < ts.len() {
            removed_range(ts, after.task_list.tasks_seq(), pos as int, subtree_end(ts, pos as int))
        } else {
            same_list(before, after)
        },
        Action::ToggleOrder => kept && if pos < ts.len() {
            after.task_list.tasks_seq() == ts.update(
                pos as int,
                Task { execution_order: flipped(ts[pos as int].execution_order), ..ts[pos as int] },
            )
        } else {
            same_list(before, after)
        },
        Action::LoadSample => kept,
        Action::Submit => after.state.selected_pos == pos && after.state.mode is Normal && match before.state.mode {
            TaskListMode::New(n) => {
                let at = insert_position(pos as int, n.dir);
                if at <= ts.len() {
                    inserted_at(ts, after.task_list.tasks_seq(), at, n.title@, neighbour_depth_of(ts, at, Direction::Up))
                } else {
                    same_list(before, after)
                }
            },
            _ => same_list(before, after),
        },
        Action::Ignore => same_list(before, after) && kept,
    }
}

impl TaskListController {
    /// The list's invariant holds.
    pub open spec fn wf(&self) -> bool {
        self.task_list.wf()
    }

    /// A controller over a new empty list, with the first position selected.
    pub fn new(name: &str) -> (r: TaskListController)
        ensures
            r.wf(),
            r.task_list.tasks_seq().len() == 0,
            r.state.selected_pos == 0,
            r.state.mode is Normal,
    {
        TaskListController { task_list: TaskList::new(name), state: TaskListState::default() }
    }

    /// The selected task, if there is one; none while selecting a range.
    pub fn selected_task(&self) -> (r: Option<&Task>)
        ensures
            match r {
                Some(t) => !(self.state.mode is Selection) && self.state.selected_pos < self.task_list.tasks_seq().len()
                    && *t == self.task_list.tasks_seq()[self.state.selected_pos as int],
                None => self.state.mode is Selection || self.state.selected_pos >= self.task_list.tasks_seq().len(),
            },
    {
        match self.state.mode {
            TaskListMode::Selection(_) => None,
            _ => {
                let Ok(result) = self.task_list.get_task(self.state.selected_pos) else {
                    return None;
                };
                Some(result)
            },
        }
    }

    /// How the task at `pos` is to be shown.
    pub fn task_state(&self, pos: usize) -> (r: TaskState)
        requires
            self.wf(),
            pos < self.task_list.tasks_seq().len(),
        ensures
            r.selected == (pos == self.state.selected_pos),
            r.visible,
            r.leaf == (neighbour_depth_of(self.task_list.tasks_seq(), pos as int, Direction::Down)
                <= self.task_list.tasks_seq()[pos as int].depth),
            r.next == active_list(self.task_list.tasks_seq()).contains(pos),
    {
        let mut task_state = TaskState::default();
        let depth = match self.task_list.get_task(pos) {
            Ok(task) => task.depth,
            Err(_) => 0,
        };
        // A task is a leaf when the task below it is at the same depth or shallower.
        if self.task_list.neighbour_depth(pos, &Direction::Down) <= depth {
            task_state.leaf = true;
        }
        if self.state.selected_pos == pos {
            task_state.selected = true;
        }
        if self.task_list.is_next_task(pos) {
            task_state.next = true;
        }
        task_state
    }

    /// Carries out the action that `key` stands for in the current mode.
    pub fn handle_key_event(&mut self, key: Key)
        requires
            old(self).wf(),
        ensures
            final(self).wf(),
            acted(*old(self), *final(self), key_action(old(self).state.mode, key)),
    {
        let action = action_for(&self.state.mode, key);
        match action {
            Action::CursorDown => self.move_cursor_down(),
            Action::CursorUp => self.move_cursor_up(),
            Action::StartNew(dir) => self.start_new_task_mode(dir),
            Action::Demote => self.demote_task(),
            Action::Promote => self.promote_task(),
            Action::ToggleStatus => self.toggle_task_status(),
            Action::Delete => self.delete_task(),
            Action::ToggleOrder => self.toggle_execution_order(),
            Action::LoadSample => self.test(),
            Action::Submit => self.new_task(),
            Action::Ignore => {},
        }
    }

    /// Moves the cursor up by one task, unless it is at the top.
    fn move_cursor_up(&mut self)
        requires
            old(self).wf(),
        ensures
            final(self).wf(),
            acted(*old(self), *final(self), Action::CursorUp),
    {
        if self.state.selected_pos != 0 {
            self.state.selected_pos -= 1;
        }
    }

    /// Moves the cursor down by one task, unless it is at the last task.
    fn move_cursor_down(&mut self)
        requires
            old(self).wf(),
        ensures
            final(self).wf(),
            acted(*old(self), *final(self), Action::CursorDown),
    {
        let len = self.task_list.len();
        if len > 0 && self.state.selected_pos < len - 1 {
            self.state.selected_pos += 1;
        }
    }

    /// Starts entering a new task above or below the selected one, at its depth.
    fn start_new_task_mode(&mut self, dir: NewTaskDirection)
        requires
            old(self).wf(),
        ensures
            final(self).wf(),
            acted(*old(self), *final(self), Action::StartNew(dir)),
    {
        let depth = match self.selected_task() {
            Some(task) => task.depth,
            None => {
                return;
            },
        };
        let state = NewTaskState::new(depth, dir);
        self.state.mode = TaskListMode::New(state);
    }

    /// Leaves entry or editing mode; a task being entered is added above or
    /// below the selected one.
    fn new_task(&mut self)
        requires
            old(self).wf(),
        ensures
            final(self).wf(),
            acted(*old(self), *final(self), Action::Submit),
    {
        let pos = self.state.selected_pos;
        proof {
            self.task_list.lemma_len_fits();
        }
        match &self.state.mode {
            TaskListMode::New(entry) => {
                let title = entry.title.clone();
                match entry.dir {
                    NewTaskDirection::Above => {
                        self.task_list.add_new_task(title.as_str(), pos);
                    },
                    NewTaskDirection::Below => {
                        if pos < usize::MAX {
                            self.task_list.add_new_task(title.as_str(), pos + 1);
                        }
                    },
                }
            },
            _ => {},
        }
        self.state.mode = TaskListMode::Normal;
    }

    /// Promotes the selected task one level.
    fn promote_task(&mut self)
        requires
            old(self).wf(),
        ensures
            final(self).wf(),
            acted(*old(self), *final(self), Action::Promote),
    {
        self.task_list.promote_task(self.state.selected_pos);
    }

    /// Demotes the selected task one level.
    fn demote_task(&mut self)
        requires
            old(self).wf(),
        ensures
            final(self).wf(),
            acted(*old(self), *final(self), Action::Demote),
    {
        self.task_list.demote_task(self.state.selected_pos);
    }

    /// Moves the status of the selected task along its cycle.
    fn toggle_task_status(&mut self)
        requires
            old(self).wf(),
        ensures
            final(self).wf(),
            acted(*old(self), *final(self), Action::ToggleStatus),
    {
        self.task_list.toggle_task_status(self.state.selected_pos);
    }

    /// Flips the execution order of the selected task.
    fn toggle_execution_order(&mut self)
        requires
            old(self).wf(),
        ensures
            final(self).wf(),
            acted(*old(self), *final(self), Action::ToggleOrder),
    {
        self.task_list.toggle_execution_order(self.state.selected_pos);
    }

    /// Deletes the selected task and its subtree.
    fn delete_task(&mut self)
        requires
            old(self).wf(),
        ensures
            final(self).wf(),
            acted(*old(self), *final(self), Action::Delete),
    {
        self.task_list.delete_task(self.state.selected_pos);
    }

    /// Adds a few sample tasks to the list.
    fn test(&mut self)
        requires
            old(self).wf(),
        ensures
            final(self).wf(),
            acted(*old(self), *final(self), Action::LoadSample),
    {
        let task_list = &mut self.task_list;
        task_list.add_new_root_task_at_end("Task 1");
        task_list.add_new_root_task_at_end("Task 2");
        task_list.add_new_root_task_at_end("Task 3");
        task_list.add_new_subtask("Task 1.1", 0);
        task_list.add_new_subtask("Task 1.1.1", 1);
    }
}

} // verus!
