//! The application's own state: which view is shown, whether help is open,
//! and whether an exit was asked for.

use vstd::prelude::*;
use crate::controller::{acted, key_action, Key, TaskListController};

verus! {

/// The view the application shows.
#[derive(Clone, Copy, Debug, PartialEq, Eq, Structural)]
pub enum AppMode {
    TaskList,
    TodayTasks,
}

/// The state of the application.
pub struct AppState {
    pub task_list_controller: TaskListController,
    pub task_detail_visible: bool,
    pub help_visible: bool,
    pub mode: AppMode,
    pub exit: bool,
}

impl AppState {
    /// A fresh application over an empty task list, showing the list.
    pub fn new() -> (r: AppState)
        ensures
            r.task_list_controller.wf(),
            r.task_list_controller.task_list.tasks_seq().len() == 0,
            !r.task_detail_visible,
            !r.help_visible,
            r.mode == AppMode::TaskList,
            !r.exit,
    {
        AppState {
            task_list_controller: TaskListController::new(""),
            task_detail_visible: false,
            help_visible: false,
            mode: AppMode::TaskList,
            exit: false,
        }
    }

    /// Handles a key press: `q` asks to exit, `?` shows or hides help, and any
    /// other key goes to the task list while it is shown.
    pub fn handle_key_event(&mut self, key: Key)
        requires
            old(self).task_list_controller.wf(),
        ensures
            final(self).task_list_controller.wf(),
            final(self).mode == old(self).mode,
            final(self).task_detail_visible == old(self).task_detail_visible,
            key == Key::Char('q') ==> final(self).exit && final(self).help_visible == old(self).help_visible
                && final(self).task_list_controller == old(self).task_list_controller,
            key == Key::Char('?') ==> final(self).help_visible == !old(self).help_visible && final(self).exit
                == old(self).exit && final(self).task_list_controller == old(self).task_list_controller,
            key != Key::Char('q') && key != Key::Char('?') ==> {
                &&& final(self).exit == old(self).exit
                &&& final(self).help_visible == old(self).help_visible
                &&& old(self).mode == AppMode::TaskList ==> acted(
                    old(self).task_list_controller,
                    final(self).task_list_controller,
                    key_action(old(self).task_list_controller.state.mode, key),
                )
                &&& old(self).mode == AppMode::TodayTasks ==> final(self).task_list_controller
                    == old(self).task_list_controller
            },
    {
        if key == Key::Char('q') {
            self.exit();
        } else if key == Key::Char('?') {
            self.help_visible = !self.help_visible;
        } else {
            match self.mode {
                AppMode::TaskList => self.task_list_controller.handle_key_event(key),
                AppMode::TodayTasks => {},
            }
        }
    }

    /// Asks the application to exit.
    pub fn exit(&mut self)
        ensures
            *final(self) == (AppState { exit: true, ..*old(self) }),
    {
        self.exit = true;
    }
}

} // verus!
