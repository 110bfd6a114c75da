//! A single task and the values it carries.

use vstd::prelude::*;

verus! {

/// A point in time, as milliseconds since the Unix epoch.
#[derive(Clone, Copy, Debug, PartialEq, Eq, Structural)]
pub struct Timestamp {
    pub millis: i64,
}

/// Relies on `chrono::Local::now` and `DateTime::timestamp_millis`: the wall-clock
/// time of the call, in milliseconds since the Unix epoch. Nothing is known of the
/// value; chrono panics when the system clock reads earlier than 1970.
#[verifier::external_body]
fn clock_millis() -> (r: i64) {
    chrono::Local::now().timestamp_millis()
}

/// Relies on `uuid::Uuid::new_v4` and `Uuid::as_u128`: a freshly drawn random
/// identifier whose version field reads 4 and whose variant bits read `10`; the
/// other bits are random. uuid panics when the system's random source fails.
#[verifier::external_body]
fn random_id() -> (r: u128)
    ensures
        (r >> 76u128) & 0xfu128 == 4,
        (r >> 62u128) & 0x3u128 == 2,
{
    uuid::Uuid::new_v4().as_u128()
}

/// Whole minutes in a span of milliseconds, rounded toward zero.
pub open spec fn whole_minutes(ms: int) -> int {
    if ms >= 0 {
        ms / 60000
    } else {
        -((-ms) / 60000)
    }
}

impl Timestamp {
    /// The current time.
    pub fn now() -> (r: Timestamp) {
        Timestamp { millis: clock_millis() }
    }

    /// Whole minutes from `self` to `later`, rounded toward zero (negative when
    /// `later` is earlier).
    pub fn minutes_until(&self, later: Timestamp) -> (r: i64)
        ensures
            r as int == whole_minutes(later.millis - self.millis),
    {
        let diff: i128 = later.millis as i128 - self.millis as i128;
        if diff >= 0 {
            assert(diff / 60000 <= diff) by (nonlinear_arith)
                requires
                    diff >= 0,
            ;
            (diff / 60000) as i64
        } else {
            let neg: i128 = -diff;
            assert(neg / 60000 <= neg) by (nonlinear_arith)
                requires
                    neg >= 0,
            ;
            assert(neg / 60000 >= 0) by (nonlinear_arith)
                requires
                    neg >= 0,
            ;
            -((neg / 60000) as i64)
        }
    }
}

/// The stable identity of a task, independent of its position.
#[derive(Clone, Copy, Debug, PartialEq, Eq, Structural)]
pub struct TaskId {
    pub value: u128,
}

impl TaskId {
    /// A freshly drawn random identifier, in the layout of a version 4 UUID.
    pub fn fresh() -> (r: TaskId)
        ensures
            (r.value >> 76u128) & 0xfu128 == 4,
            (r.value >> 62u128) & 0x3u128 == 2,
    {
        TaskId { value: random_id() }
    }
}

/// Progress of a task: a cycle of three states, each later one stamped with the
/// time it was entered.
#[derive(Clone, Copy, Debug, PartialEq, Eq, Structural)]
pub enum TaskStatus {
    NotStarted,
    InProgress(Timestamp),
    Complete(Timestamp),
}

/// The state that follows `s` when the status is toggled at time `now`.
pub open spec fn next_status(s: TaskStatus, now: Timestamp) -> TaskStatus {
    match s {
        TaskStatus::NotStarted => TaskStatus::InProgress(now),
        TaskStatus::InProgress(_) => TaskStatus::Complete(now),
        TaskStatus::Complete(_) => TaskStatus::NotStarted,
    }
}

/// `after` is the state that follows `before`, stamped with some time.
pub open spec fn status_stepped(before: TaskStatus, after: TaskStatus) -> bool {
    match before {
        TaskStatus::NotStarted => after is InProgress,
        TaskStatus::InProgress(_) => after is Complete,
        TaskStatus::Complete(_) => after is NotStarted,
    }
}

/// How the subtasks of a task are carried out: one after another, or all at once.
#[derive(Clone, Copy, Debug, PartialEq, Eq, Structural)]
pub enum ExecutionOrder {
    Series,
    Parallel,
}

/// The other execution order.
pub open spec fn flipped(o: ExecutionOrder) -> ExecutionOrder {
    match o {
        ExecutionOrder::Series => ExecutionOrder::Parallel,
        ExecutionOrder::Parallel => ExecutionOrder::Series,
    }
}

/// A task to be carried out.
#[derive(Clone, Debug)]
pub struct Task {
    /// The unique identifier of the task.
    pub id: TaskId,
    /// The title of the task.
    pub title: String,
    /// A description of the task.
    pub description: String,
    /// True if the task is the next to be carried out.
    pub is_next: bool,
    /// True if the task is on the critical chain.
    pub is_critical: bool,
    /// The status of the task.
    pub task_status: TaskStatus,
    /// The order in which the subtasks are carried out.
    pub execution_order: ExecutionOrder,
    /// The nesting level of the task; 0 for a root task.
    pub depth: i8,
    /// When the task was created.
    pub creation_date: Timestamp,
    /// An optional start date.
    pub start_date: Option<Timestamp>,
    /// An optional due date.
    pub due_date: Option<Timestamp>,
    /// The expected duration, in minutes.
    pub expected_duration: Option<i32>,
}

/// What a task made by `Task::new` holds, but for its identifier and creation time.
pub open spec fn is_fresh_task(t: Task, title: Seq<char>, depth: i8) -> bool {
    &&& t.title@ == title
    &&& t.description@ == Seq::<char>::empty()
    &&& !t.is_next
    &&& !t.is_critical
    &&& t.task_status == TaskStatus::NotStarted
    &&& t.execution_order == ExecutionOrder::Series
    &&& t.depth == depth
    &&& t.start_date.is_none()
    &&& t.due_date.is_none()
    &&& t.expected_duration.is_none()
}

impl Task {
    /// Creates a new task with a title at a depth.
    pub fn new(title: &str, depth: i8) -> (r: Task)
        ensures
            is_fresh_task(r, title@, depth),
    {
        Task {
            id: TaskId::fresh(),
            title: title.to_owned(),
            description: String::new(),
            is_next: false,
            is_critical: false,
            creation_date: Timestamp::now(),
            start_date: None,
            due_date: None,
            task_status: TaskStatus::NotStarted,
            execution_order: ExecutionOrder::Series,
            expected_duration: None,
            depth,
        }
    }

    /// Moves the status one step along its cycle, stamping the change with `now`.
    pub fn toggle_status_at(&mut self, now: Timestamp)
        ensures
            *final(self) == (Task { task_status: next_status(old(self).task_status, now), ..*old(self) }),
    {
        match self.task_status {
            TaskStatus::NotStarted => {
                self.task_status = TaskStatus::InProgress(now);
            },
            TaskStatus::InProgress(_) => {
                self.task_status = TaskStatus::Complete(now);
            },
            TaskStatus::Complete(_) => {
                self.task_status = TaskStatus::NotStarted;
            },
        }
    }

    /// Moves the status one step along its cycle, stamping the change with the
    /// current time.
    pub fn toggle_status(&mut self)
        ensures
            *final(self) == (Task { task_status: final(self).task_status, ..*old(self) }),
            status_stepped(old(self).task_status, final(self).task_status),
    {
        let now = Timestamp::now();
        self.toggle_status_at(now);
    }

    /// Sets the execution order.
    pub fn set_execution_order(&mut self, order: ExecutionOrder)
        ensures
            *final(self) == (Task { execution_order: order, ..*old(self) }),
    {
        self.execution_order = order;
    }

    /// Minutes the task has been in progress at time `now`; 0 when it is not in progress.
    pub fn active_time(&self, now: Timestamp) -> (r: i64)
        ensures
            r as int == match self.task_status {
                TaskStatus::InProgress(start) => whole_minutes(now.millis - start.millis),
                _ => 0,
            },
    {
        match self.task_status {
            TaskStatus::InProgress(start) => start.minutes_until(now),
            _ => 0,
        }
    }

    /// Minutes since the task was completed, at time `now`; `None` when it is not complete.
    pub fn completion_time(&self, now: Timestamp) -> (r: Option<i64>)
        ensures
            r == match self.task_status {
                TaskStatus::Complete(end) => Some(whole_minutes(now.millis - end.millis) as i64),
                _ => None::<i64>,
            },
    {
        match self.task_status {
            TaskStatus::Complete(end) => Some(end.minutes_until(now)),
            _ => None,
        }
    }
}

impl PartialEq for Task {
    fn eq(&self, other: &Task) -> (r: bool) {
        self.id == other.id
    }
}

impl vstd::std_specs::cmp::PartialEqSpecImpl for Task {
    open spec fn obeys_eq_spec() -> bool {
        true
    }

    open spec fn eq_spec(&self, other: &Task) -> bool {
        self.id == other.id
    }
}

/// How a task is to be shown.
pub struct TaskState {
    /// True if the task is currently selected.
    pub selected: bool,
    /// True if the task is currently visible.
    pub visible: bool,
    /// True if the task is a leaf task, false if it is a branch task.
    pub leaf: bool,
    /// True if the task is a candidate to be carried out next.
    pub next: bool,
}

impl TaskState {
    /// A visible task that is neither selected, a leaf, nor next.
    pub fn default() -> (r: TaskState)
        ensures
            !r.selected,
            r.visible,
            !r.leaf,
            !r.next,
    {
        TaskState { selected: false, visible: true, leaf: false, next: false }
    }
}

/// The symbol shown before a task's title: a filled circle once complete.
pub open spec fn status_symbol(s: TaskStatus) -> Seq<char> {
    match s {
        TaskStatus::Complete(_) => "●"@,
        _ => "○"@,
    }
}

/// The colouring of a task's line.
#[derive(Clone, Copy, Debug, PartialEq, Eq, Structural)]
pub enum Tone {
    /// Not started.
    Plain,
    /// In progress: yellow and bold.
    Active,
    /// Complete: green and italic.
    Done,
}

/// How a task's line is styled.
#[derive(Clone, Copy, Debug, PartialEq, Eq, Structural)]
pub struct LineStyle {
    /// Underlined, for the selected task.
    pub underlined: bool,
    /// Dimmed, for a task that is not up next.
    pub dimmed: bool,
    /// The colouring by status.
    pub tone: Tone,
}

impl Task {
    /// The text of the task's line: its status symbol, its title, and a line
    /// break; a branch task gets an extra space to leave room for its joiner.
    pub fn line_text(&self, leaf: bool) -> (r: String)
        ensures
            r@ == status_symbol(self.task_status) + (if leaf {
                " "@
            } else {
                "  "@
            }) + self.title@ + "\r\n"@,
    {
        let mut line = match self.task_status {
            TaskStatus::Complete(_) => String::from_str("●"),
            _ => String::from_str("○"),
        };
        if leaf {
            line.append(" ");
        } else {
            line.append("  ");
        }
        line.append(self.title.as_str());
        line.append("\r\n");
        line
    }

    /// The style of the task's line in the view state `state`.
    pub fn line_style(&self, state: &TaskState) -> (r: LineStyle)
        ensures
            r.underlined == state.selected,
            r.dimmed == !state.next,
            r.tone == match self.task_status {
                TaskStatus::NotStarted => Tone::Plain,
                TaskStatus::InProgress(_) => Tone::Active,
                TaskStatus::Complete(_) => Tone::Done,
            },
    {
        let tone = match self.task_status {
            TaskStatus::NotStarted => Tone::Plain,
            TaskStatus::InProgress(_) => Tone::Active,
            TaskStatus::Complete(_) => Tone::Done,
        };
        LineStyle { underlined: state.selected, dimmed: !state.next, tone }
    }
}

} // verus!
