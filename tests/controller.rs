use subtask::app_state::{AppMode, AppState};
use subtask::controller::{action_for, Action, Key, TaskListController};
use subtask::help::KeyMap;
use subtask::state::{
    EditTaskState, NewTaskDirection, NewTaskState, TaskListMode, TaskListState, TaskSelectionState,
};

fn sample_controller() -> TaskListController {
    let mut controller = TaskListController::new("Tasks");
    controller.handle_key_event(Key::Char('T'));
    controller
}

#[test]
fn states_start_as_given() {
    let state = TaskListState::default();
    assert_eq!(state.selected_pos, 0);
    assert!(matches!(state.mode, TaskListMode::Normal));
    let entry = NewTaskState::new(2, NewTaskDirection::Below);
    assert!(entry.title.is_empty() && entry.depth == 2 && entry.dir == NewTaskDirection::Below);
    let edit = EditTaskState::new(4, String::from("Old"));
    assert_eq!((edit.pos, edit.title.as_str()), (4, "Old"));
    let selection = TaskSelectionState::new(1, 3);
    assert_eq!((selection.pos_start, selection.pos_end), (1, 3));
}

#[test]
fn keys_map_to_actions_by_mode() {
    assert_eq!(action_for(&TaskListMode::Normal, Key::Char('j')), Action::CursorDown);
    assert_eq!(action_for(&TaskListMode::Normal, Key::Tab), Action::Demote);
    assert_eq!(action_for(&TaskListMode::Normal, Key::Enter), Action::Ignore);
    let entry = TaskListMode::New(NewTaskState::new(0, NewTaskDirection::Above));
    assert_eq!(action_for(&entry, Key::Enter), Action::Submit);
    assert_eq!(action_for(&entry, Key::Char('j')), Action::Ignore);
    let selecting = TaskListMode::Selection(TaskSelectionState::new(0, 1));
    assert_eq!(action_for(&selecting, Key::Char('j')), Action::Ignore);
}

#[test]
fn sample_tasks_and_cursor_moves() {
    let mut controller = sample_controller();
    assert_eq!(
        controller.task_list.print_debug(),
        "Task 1\r\n>Task 1.1\r\n>>Task 1.1.1\r\nTask 2\r\nTask 3\r\n"
    );
    controller.handle_key_event(Key::Char('k'));
    assert_eq!(controller.state.selected_pos, 0);
    for _ in 0..10 {
        controller.handle_key_event(Key::Char('j'));
    }
    assert_eq!(controller.state.selected_pos, 4);
    assert_eq!(controller.selected_task().unwrap().title, "Task 3");
    controller.handle_key_event(Key::Char('d'));
    assert_eq!(controller.task_list.len(), 4);
    assert!(controller.selected_task().is_none());
}

#[test]
fn new_task_entry_inserts_on_enter() {
    let mut controller = sample_controller();
    controller.handle_key_event(Key::Char('j'));
    controller.handle_key_event(Key::Char('o'));
    match &controller.state.mode {
        TaskListMode::New(entry) => {
            assert_eq!(entry.depth, 1);
            assert_eq!(entry.dir, NewTaskDirection::Below);
        }
        _ => panic!("expected entry mode"),
    }
    controller.handle_key_event(Key::Enter);
    assert!(matches!(controller.state.mode, TaskListMode::Normal));
    assert_eq!(controller.task_list.len(), 6);
    assert_eq!(controller.task_list.get_task(2).unwrap().depth, 1);
}

#[test]
fn status_order_and_depth_keys() {
    let mut controller = sample_controller();
    controller.handle_key_event(Key::Char('t'));
    assert_eq!(controller.task_list.next_tasks(), &vec![0, 1, 2, 3, 4]);
    controller.handle_key_event(Key::Char(' '));
    assert!(matches!(
        controller.task_list.get_task(0).unwrap().task_status,
        subtask::task::TaskStatus::InProgress(_)
    ));
    controller.handle_key_event(Key::Char('j'));
    controller.handle_key_event(Key::Char('j'));
    controller.handle_key_event(Key::Char('j'));
    controller.handle_key_event(Key::Tab);
    assert_eq!(controller.task_list.get_task(3).unwrap().depth, 1);
    controller.handle_key_event(Key::BackTab);
    assert_eq!(controller.task_list.get_task(3).unwrap().depth, 0);
    let state = controller.task_state(3);
    assert!(state.selected && state.leaf && state.next && state.visible);
    let state = controller.task_state(0);
    assert!(!state.selected && !state.leaf && state.next);
}

#[test]
fn app_keys_exit_help_and_delegate() {
    let mut app = AppState::new();
    assert_eq!(app.mode, AppMode::TaskList);
    app.handle_key_event(Key::Char('?'));
    assert!(app.help_visible);
    app.handle_key_event(Key::Char('?'));
    assert!(!app.help_visible);
    app.handle_key_event(Key::Char('T'));
    assert_eq!(app.task_list_controller.task_list.len(), 5);
    assert!(!app.exit);
    app.handle_key_event(Key::Char('q'));
    assert!(app.exit);
}

#[test]
fn default_key_maps() {
    let global = KeyMap::global_key_commands_default();
    assert_eq!(global.title(), "Global commands");
    let keys: Vec<&str> = global.commands().iter().map(|(k, _)| k.as_str()).collect();
    assert_eq!(keys, vec!["q", "?"]);
    let list = KeyMap::task_list_key_commands_default();
    assert_eq!(list.title(), "Task list commands");
    assert_eq!(list.commands().len(), 14);
    assert_eq!(list.commands()[13], (String::from("SPACE"), String::from("Change the task status")));
}

#[test]
fn insert_command_replaces_existing_key() {
    let mut map = KeyMap::global_key_commands_default();
    map.insert_command("q", "Leave").insert_command("x", "Extra");
    assert_eq!(
        map.commands(),
        &vec![
            (String::from("q"), String::from("Leave")),
            (String::from("?"), String::from("Toggle the help menu")),
            (String::from("x"), String::from("Extra")),
        ]
    );
}
