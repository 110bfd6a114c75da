use subtask::task::{ExecutionOrder, LineStyle, Task, TaskId, TaskState, TaskStatus, Timestamp, Tone};

#[test]
fn new_name_is_correct() {
    let task = Task::new(&String::from("Task 1"), 0);
    assert_eq!(task.title, "Task 1");
}

#[test]
fn new_task_defaults_and_fresh_ids() {
    let a = Task::new("A", 3);
    let b = Task::new("A", 3);
    assert_eq!(a.depth, 3);
    assert_eq!(a.task_status, TaskStatus::NotStarted);
    assert_eq!(a.execution_order, ExecutionOrder::Series);
    assert_eq!(a.expected_duration, None);
    assert!(a.description.is_empty());
    assert_ne!(a.id, b.id);
    assert!(a != b);
    assert!(a == a.clone());
    assert!(a.creation_date.millis > 1_600_000_000_000);
}

#[test]
fn status_cycles_with_stamps() {
    let mut task = Task::new("T", 0);
    let t1 = Timestamp { millis: 1_000 };
    let t2 = Timestamp { millis: 2_000 };
    task.toggle_status_at(t1);
    assert_eq!(task.task_status, TaskStatus::InProgress(t1));
    task.toggle_status_at(t2);
    assert_eq!(task.task_status, TaskStatus::Complete(t2));
    task.toggle_status_at(t2);
    assert_eq!(task.task_status, TaskStatus::NotStarted);
    task.toggle_status();
    match task.task_status {
        TaskStatus::InProgress(at) => assert!(at.millis > 1_600_000_000_000),
        other => panic!("unexpected status {:?}", other),
    }
}

#[test]
fn active_and_completion_times_in_minutes() {
    let mut task = Task::new("T", 0);
    let start = Timestamp { millis: 60_000 };
    assert_eq!(task.active_time(start), 0);
    assert_eq!(task.completion_time(start), None);
    task.toggle_status_at(start);
    assert_eq!(task.active_time(Timestamp { millis: 60_000 + 150_000 }), 2);
    assert_eq!(task.active_time(Timestamp { millis: 60_000 - 150_000 }), -2);
    task.toggle_status_at(Timestamp { millis: 600_000 });
    assert_eq!(task.completion_time(Timestamp { millis: 600_000 + 59_999 }), Some(0));
    assert_eq!(task.completion_time(Timestamp { millis: 600_000 + 180_000 }), Some(3));
    assert_eq!(Timestamp { millis: i64::MIN }.minutes_until(Timestamp { millis: i64::MAX }), 307_445_734_561_825);
}

#[test]
fn line_text_and_style() {
    let mut task = Task::new("Write", 0);
    assert_eq!(task.line_text(true), "○ Write\r\n");
    assert_eq!(task.line_text(false), "○  Write\r\n");
    let mut state = TaskState::default();
    assert!(state.visible && !state.selected && !state.leaf && !state.next);
    assert_eq!(task.line_style(&state), LineStyle { underlined: false, dimmed: true, tone: Tone::Plain });
    state.selected = true;
    state.next = true;
    task.toggle_status_at(Timestamp { millis: 0 });
    assert_eq!(task.line_style(&state), LineStyle { underlined: true, dimmed: false, tone: Tone::Active });
    task.toggle_status_at(Timestamp { millis: 0 });
    assert_eq!(task.line_text(true), "● Write\r\n");
    assert_eq!(task.line_style(&state).tone, Tone::Done);
}

#[test]
fn fresh_ids_are_version_four() {
    let id = TaskId::fresh();
    assert_eq!((id.value >> 76) & 0xf, 4);
    assert_eq!((id.value >> 62) & 0x3, 2);
    assert_ne!(TaskId::fresh(), TaskId::fresh());
    assert!(Timestamp::now().millis > 1_600_000_000_000);
}
