//! The modes of the task list view and the data each mode carries.

use vstd::prelude::*;

verus! {

/// The state of the task list view.
pub struct TaskListState {
    /// The position of the currently selected task in the list.
    pub selected_pos: usize,
    /// The mode the view is in.
    pub mode: TaskListMode,
}

impl TaskListState {
    /// The first task selected, in normal mode.
    pub fn default() -> (r: TaskListState)
        ensures
            r.selected_pos == 0,
            r.mode is Normal,
    {
        TaskListState { selected_pos: 0, mode: TaskListMode::Normal }
    }
}

/// The mode of the task list view.
pub enum TaskListMode {
    /// Navigating the list.
    Normal,
    /// Entering a new task.
    New(NewTaskState),
    /// Editing an existing task.
    Edit(EditTaskState),
    /// Selecting a continuous group of tasks.
    Selection(TaskSelectionState),
}

/// Entering a new task: the title typed so far, and where the task goes.
pub struct NewTaskState {
    pub title: String,
    pub depth: i8,
    pub dir: NewTaskDirection,
}

impl NewTaskState {
    /// Starts entering a task with an empty title.
    pub fn new(depth: i8, dir: NewTaskDirection) -> (r: NewTaskState)
        ensures
            r.title@ == Seq::<char>::empty(),
            r.depth == depth,
            r.dir == dir,
    {
        NewTaskState { title: String::new(), depth, dir }
    }
}

/// Where a new task goes relative to the selected one.
#[derive(Clone, Copy, Debug, PartialEq, Eq, Structural)]
pub enum NewTaskDirection {
    Above,
    Below,
}

/// Editing the title of the task at a position.
pub struct EditTaskState {
    pub pos: usize,
    pub title: String,
}

impl EditTaskState {
    /// Starts editing the task at `pos` with the title `title`.
    pub fn new(pos: usize, title: String) -> (r: EditTaskState)
        ensures
            r.pos == pos,
            r.title == title,
    {
        EditTaskState { pos, title }
    }
}

/// A range of selected positions.
#[derive(Clone, Copy, Debug, PartialEq, Eq, Structural)]
pub struct TaskSelectionState {
    pub pos_start: usize,
    pub pos_end: usize,
}

impl TaskSelectionState {
    /// Selects the positions from `pos_start` to `pos_end`.
    pub fn new(pos_start: usize, pos_end: usize) -> (r: TaskSelectionState)
        ensures
            r.pos_start == pos_start,
            r.pos_end == pos_end,
    {
        TaskSelectionState { pos_start, pos_end }
    }
}

} // verus!
