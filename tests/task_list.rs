use subtask::task::ExecutionOrder;
use subtask::task_list::{Direction, TaskList, TaskListError};

fn setup_task_list() -> TaskList {
    let mut task_list = TaskList::new(&String::from("Task List"));
    task_list.add_new_root_task_at_end(&String::from("Task 1"));
    task_list.add_new_root_task_at_end(&String::from("Task 2"));
    task_list.add_new_subtask(&String::from("Task 1.3"), 0);
    task_list.add_new_subtask(&String::from("Task 1.2"), 0);
    task_list.add_new_subtask(&String::from("Task 1.1"), 0);
    task_list.add_new_subtask(&String::from("Task 2.3"), 4);
    task_list.add_new_subtask(&String::from("Task 2.2"), 4);
    task_list.add_new_subtask(&String::from("Task 2.1"), 4);
    task_list.add_new_root_task_at_end(&String::from("Task 3"));
    task_list
}

fn titles(task_list: &TaskList) -> Vec<String> {
    (0..task_list.len()).map(|i| task_list.get_task(i).unwrap().title.clone()).collect()
}

#[test]
fn task_list_debug_string_returns_accurate_string() {
    let expected = "Task 1\r\n>Task 1.1\r\n>Task 1.2\r\n>Task 1.3\r\nTask 2\r\n>Task 2.1\r\n>Task 2.2\r\n>Task 2.3\r\nTask 3\r\n";

    assert_eq!(setup_task_list().print_debug(), expected);
}

#[test]
fn depth_index_is_correct_on_insert() {
    let mut task_list = setup_task_list();

    // Check that the right depth index exists before insert
    assert_eq!(task_list.depth_positions(0).unwrap(), &vec![0, 4, 8]);
    assert_eq!(task_list.depth_positions(1).unwrap(), &vec![1, 2, 3, 5, 6, 7]);

    task_list.add_new_subtask(&String::from("Task 1.2.1"), 2);

    // Check that the right depth index exists after insert
    assert_eq!(task_list.depth_positions(0).unwrap(), &vec![0, 5, 9]);
    assert_eq!(task_list.depth_positions(1).unwrap(), &vec![1, 2, 4, 6, 7, 8]);
    assert_eq!(task_list.depth_positions(2).unwrap(), &vec![3]);
}

#[test]
fn get_direct_subtasks_returns_correct_positions() {
    let task_list = setup_task_list();

    let subtasks = task_list.get_direct_subtasks(0);
    assert_eq!(subtasks, vec![1, 2, 3]);
}

#[test]
fn has_subtasks_is_accurate() {
    let task_list = setup_task_list();
    assert!(task_list.has_subtasks(0));
    assert!(!task_list.has_subtasks(1));
    assert!(!task_list.has_subtasks(2));
    assert!(!task_list.has_subtasks(3));
    assert!(task_list.has_subtasks(4));
    assert!(!task_list.has_subtasks(5));
    assert!(!task_list.has_subtasks(6));
    assert!(!task_list.has_subtasks(7));
    assert!(!task_list.has_subtasks(8));
}

#[test]
fn get_last_subtask_pos_is_correct() {
    let task_list = setup_task_list();
    let last_subtask_pos = task_list.get_last_subtask_pos(0);
    assert_eq!(last_subtask_pos, 3);
}

#[test]
fn get_parent_gives_correct_pos() {
    let task_list = setup_task_list();
    assert_eq!(task_list.get_parent(0), None);
    assert_eq!(task_list.get_parent(1), Some(0));
    assert_eq!(task_list.get_parent(2), Some(0));
    assert_eq!(task_list.get_parent(3), Some(0));
    assert_eq!(task_list.get_parent(4), None);
    assert_eq!(task_list.get_parent(5), Some(4));
    assert_eq!(task_list.get_parent(6), Some(4));
    assert_eq!(task_list.get_parent(7), Some(4));
    assert_eq!(task_list.get_parent(8), None);
}

#[test]
fn get_next_subtasks_series() {
    let task_list = setup_task_list();
    assert_eq!(task_list.next_tasks(), &vec![0, 1, 4, 5, 8]);
}

#[test]
fn get_next_subtasks_parallel() {
    let mut task_list = setup_task_list();
    task_list.toggle_execution_order(0);
    assert_eq!(task_list.next_tasks(), &vec![0, 1, 2, 3, 4, 5, 8]);
    task_list.toggle_execution_order(4);
    assert_eq!(task_list.next_tasks(), &vec![0, 1, 2, 3, 4, 5, 6, 7, 8]);
}

#[test]
fn actions_add_new_root_task_at_end_increases_count() {
    let mut task_list = setup_task_list();
    assert_eq!(task_list.len(), 9);
    task_list.add_new_root_task_at_end(&String::from("Task 4"));
    assert_eq!(task_list.len(), 10);
}

#[test]
fn actions_add_new_task_adds_at_correct_position() {
    let mut task_list = setup_task_list();

    // Adds at start of list, pushing Task 1 down
    task_list.add_new_task(&String::from("Task 0"), 0);
    // Adds at middle of list, becoming parent of Task 1.3
    task_list.add_new_task(&String::from("Task 4"), 4);

    let expected = "Task 0\r\nTask 1\r\n>Task 1.1\r\n>Task 1.2\r\n>Task 4\r\n>Task 1.3\r\nTask 2\r\n>Task 2.1\r\n>Task 2.2\r\n>Task 2.3\r\nTask 3\r\n";

    assert_eq!(task_list.print_debug(), expected);
}

#[test]
fn list_add_new_root_task_at_end_increases_count() {
    let mut task_list = TaskList::new(&String::from("Task List"));
    // Test task creation
    assert_eq!(task_list.len(), 0);
    task_list.add_new_root_task_at_end(&String::from("Task 1"));
    assert_eq!(task_list.len(), 1);
    task_list.add_new_root_task_at_end(&String::from("Task 2"));
    assert_eq!(task_list.len(), 2);
}

#[test]
fn list_add_new_task_adds_at_correct_position() {
    let mut task_list = TaskList::new(&String::from("Task List"));

    // Adds at end of list
    task_list.add_new_task(&String::from("Task 1"), 0);
    // Adds at start of list, pushing Task 1 down
    task_list.add_new_task(&String::from("Task 2"), 0);
    // Adds at middle lof list, pushing Task 1 down
    task_list.add_new_task(&String::from("Task 3"), 1);
    // Resulting order should be Task 2, Task 3, Task 1

    let mut task_string = String::new();
    for title in titles(&task_list) {
        task_string.push_str(&title);
        task_string.push_str(";")
    }
    assert_eq!(task_string, "Task 2;Task 3;Task 1;");
}

#[test]
fn add_new_subtask_adds_at_correct_position() {
    let mut task_list = TaskList::new(&String::from("Task List"));

    // Adds at end of list
    task_list.add_new_root_task_at_end(&String::from("Task 1"));
    // Adds at end of list
    task_list.add_new_root_task_at_end(&String::from("Task 2"));
    // Add subtask to Task 1
    task_list.add_new_subtask(&String::from("Task 1.1"), 0);

    let mut task_string = String::new();
    for pos in 0..task_list.len() {
        let task = task_list.get_task(pos).unwrap();
        task_string.push_str(&format!("{} ({});", task.title.clone(), task.depth.to_string()));
    }
    assert_eq!(task_string, "Task 1 (0);Task 1.1 (1);Task 2 (0);");
}

#[test]
fn task_list_add_new_root_task_at_end_increases_count() {
    let mut task_list = setup_task_list();
    assert_eq!(task_list.len(), 9);
    task_list.add_new_root_task_at_end(&String::from("Task 4"));
    assert_eq!(task_list.len(), 10);
}

#[test]
fn task_list_add_new_task_adds_at_correct_position() {
    let mut task_list = setup_task_list();

    // Adds at start of list, pushing Task 1 down
    task_list.add_new_task(&String::from("Task 0"), 0);
    // Adds at middle of list, becoming parent of Task 1.3
    task_list.add_new_task(&String::from("Task 4"), 4);

    let expected = "Task 0\r\nTask 1\r\n>Task 1.1\r\n>Task 1.2\r\n>Task 4\r\n>Task 1.3\r\nTask 2\r\n>Task 2.1\r\n>Task 2.2\r\n>Task 2.3\r\nTask 3\r\n";

    assert_eq!(task_list.print_debug(), expected);
}

#[test]
fn subtasks_lie_within_subtree_of_each_branch() {
    let task_list = setup_task_list();
    for pos in 0..task_list.len() {
        if task_list.has_subtasks(pos) {
            let children = task_list.get_direct_subtasks(pos);
            let end = task_list.get_last_subtask_pos(pos);
            assert!(!children.is_empty());
            assert!(children.iter().all(|&c| pos < c && c <= end));
        }
    }
    assert_eq!(task_list.get_last_subtask_pos(4), 7);
    assert_eq!(task_list.get_last_subtask_pos(8), 8);
}

#[test]
fn subtree_end_stops_at_shallower_task_after_deeper_sibling() {
    let mut task_list = TaskList::new("Shape");
    task_list.add_new_root_task_at_end("A");
    task_list.add_new_root_task_at_end("B");
    task_list.add_new_subtask("B.1", 1);
    task_list.add_new_subtask("A.1", 0);
    task_list.add_new_subtask("A.1.1", 1);
    // A, >A.1, >>A.1.1, B, >B.1
    assert_eq!(task_list.get_last_subtask_pos(1), 2);
    assert_eq!(task_list.get_direct_subtasks(1), vec![2]);
    task_list.delete_task(1);
    assert_eq!(task_list.print_debug(), "A\r\nB\r\n>B.1\r\n");
}

#[test]
fn depth_index_partitions_positions() {
    let task_list = setup_task_list();
    let mut seen = vec![0usize; task_list.len()];
    for depth in 0..=i8::MAX {
        if let Some(positions) = task_list.depth_positions(depth) {
            for &p in positions {
                assert_eq!(task_list.get_task(p).unwrap().depth, depth);
                seen[p] += 1;
            }
        }
    }
    assert!(seen.iter().all(|&n| n == 1));
    assert_eq!(task_list.depth_positions(2), None);
    assert_eq!(task_list.depth_positions(-1), None);
}

#[test]
fn root_inserts_then_root_delete_counts() {
    let mut task_list = TaskList::new("Counts");
    for i in 0..5 {
        task_list.add_new_root_task_at_end(&format!("Root {}", i));
    }
    assert_eq!(task_list.len(), 5);

    let mut task_list = setup_task_list();
    task_list.delete_task(0);
    assert_eq!(task_list.len(), 5);
    assert_eq!(task_list.print_debug(), "Task 2\r\n>Task 2.1\r\n>Task 2.2\r\n>Task 2.3\r\nTask 3\r\n");
    assert_eq!(task_list.next_tasks(), &vec![0, 1, 4]);
}

#[test]
fn rebuilding_twice_gives_the_same_indices() {
    let mut task_list = setup_task_list();
    task_list.toggle_execution_order(4);
    task_list.rebuild_all_indices();
    let next_once = task_list.next_tasks().clone();
    let depth_once: Vec<Option<Vec<usize>>> = (0..4).map(|d| task_list.depth_positions(d).cloned()).collect();
    let title_once = task_list.position_of_title("Task 2.2");
    task_list.rebuild_all_indices();
    assert_eq!(task_list.next_tasks(), &next_once);
    let depth_twice: Vec<Option<Vec<usize>>> = (0..4).map(|d| task_list.depth_positions(d).cloned()).collect();
    assert_eq!(depth_twice, depth_once);
    assert_eq!(task_list.position_of_title("Task 2.2"), title_once);
    assert_eq!(title_once, Ok(6));
}

#[test]
fn duration_sums_in_series_and_takes_maximum_in_parallel() {
    let mut task_list = TaskList::new("Durations");
    task_list.add_new_root_task_at_end("R");
    task_list.add_new_subtask("B", 0);
    task_list.add_new_subtask("A", 0);
    task_list.set_expected_duration(1, Some(10));
    task_list.set_expected_duration(2, Some(20));
    assert_eq!(task_list.calculate_task_duration(0), 30);
    task_list.toggle_execution_order(0);
    assert_eq!(task_list.calculate_task_duration(0), 20);
}

#[test]
fn duration_of_leaf_and_out_of_range() {
    let mut task_list = TaskList::new("Durations");
    task_list.add_new_root_task_at_end("Leaf");
    assert_eq!(task_list.calculate_task_duration(0), 0);
    task_list.set_expected_duration(0, Some(45));
    assert_eq!(task_list.calculate_task_duration(0), 45);
    assert_eq!(task_list.calculate_task_duration(3), 0);
}

#[test]
fn duration_rolls_up_through_levels() {
    let mut task_list = TaskList::new("Durations");
    task_list.add_new_root_task_at_end("R");
    task_list.add_new_subtask("C", 0);
    task_list.add_new_subtask("P", 0);
    task_list.add_new_subtask("P.2", 1);
    task_list.add_new_subtask("P.1", 1);
    // R, >P, >>P.1, >>P.2, >C
    task_list.toggle_execution_order(1);
    task_list.set_expected_duration(2, Some(5));
    task_list.set_expected_duration(3, Some(-7));
    task_list.set_expected_duration(4, Some(i32::MAX));
    task_list.set_expected_duration(1, Some(1000));
    assert_eq!(task_list.calculate_task_duration(1), 5);
    assert_eq!(task_list.calculate_task_duration(0), 5 + i32::MAX as i128);
}

#[test]
fn parent_of_nine_tasks() {
    let task_list = setup_task_list();
    let depths: Vec<i8> = (0..9).map(|p| task_list.get_task(p).unwrap().depth).collect();
    assert_eq!(depths, vec![0, 1, 1, 1, 0, 1, 1, 1, 0]);
    let parents: Vec<Option<usize>> = (0..9).map(|p| task_list.get_parent(p)).collect();
    assert_eq!(parents, vec![None, Some(0), Some(0), Some(0), None, Some(4), Some(4), Some(4), None]);
    assert_eq!(task_list.get_parent(9), None);
}

#[test]
fn empty_list_queries_and_mutations_are_safe() {
    let mut task_list = TaskList::new("Empty");
    assert_eq!(task_list.len(), 0);
    assert!(!task_list.has_subtasks(0));
    assert_eq!(task_list.neighbour_depth(0, &Direction::Up), 0);
    assert_eq!(task_list.get_parent(0), None);
    assert_eq!(task_list.get_direct_subtasks(0), Vec::<usize>::new());
    assert_eq!(task_list.get_last_subtask_pos(0), 0);
    assert_eq!(task_list.calculate_task_duration(0), 0);
    assert!(task_list.next_tasks().is_empty());
    task_list.delete_task(0);
    task_list.add_new_subtask("Nowhere", 0);
    task_list.promote_task(0);
    task_list.demote_task(0);
    task_list.toggle_task_status(0);
    task_list.add_new_task("Far", 3);
    assert_eq!(task_list.len(), 0);
    assert_eq!(task_list.print_debug(), "");
}

#[test]
fn out_of_bounds_errors() {
    let mut task_list = setup_task_list();
    assert!(matches!(task_list.get_task(9), Err(TaskListError::TaskOutOfBoundsError)));
    assert!(matches!(task_list.move_task(9, &Direction::Up), Err(TaskListError::TaskOutOfBoundsError)));
    let mut empty = TaskList::new("Empty");
    assert!(matches!(empty.move_task(0, &Direction::Down), Err(TaskListError::TaskOutOfBoundsError)));
}

#[test]
fn title_lookup_finds_most_recent_or_not_found() {
    let mut task_list = setup_task_list();
    assert_eq!(task_list.position_of_title("Task 2"), Ok(4));
    assert_eq!(task_list.position_of_title("Task 9"), Err(TaskListError::TaskNotFoundError));
    task_list.add_new_root_task_at_end("Task 2");
    assert_eq!(task_list.position_of_title("Task 2"), Ok(9));
}

#[test]
fn neighbour_depth_clamps_to_bounds() {
    let task_list = setup_task_list();
    assert_eq!(task_list.neighbour_depth(0, &Direction::Up), 0);
    assert_eq!(task_list.neighbour_depth(0, &Direction::Down), 1);
    assert_eq!(task_list.neighbour_depth(7, &Direction::Stay), 1);
    assert_eq!(task_list.neighbour_depth(5, &Direction::Value(-100)), 0);
    assert_eq!(task_list.neighbour_depth(5, &Direction::Value(isize::MAX)), 0);
    assert_eq!(task_list.neighbour_depth(2, &Direction::Value(4)), 1);
}

#[test]
fn move_task_swaps_only_with_equal_depth_neighbour() {
    let mut task_list = setup_task_list();
    task_list.move_task(2, &Direction::Up).unwrap();
    assert_eq!(titles(&task_list)[1..4], ["Task 1.2", "Task 1.1", "Task 1.3"]);
    // Task 1 is above Task 1.2 at another depth: nothing moves.
    task_list.move_task(1, &Direction::Up).unwrap();
    assert_eq!(titles(&task_list)[0..2], ["Task 1", "Task 1.2"]);
    // The last task moves down onto itself.
    task_list.move_task(8, &Direction::Down).unwrap();
    assert_eq!(titles(&task_list)[8], "Task 3");
}

#[test]
fn promote_and_demote_change_one_depth() {
    let mut task_list = setup_task_list();
    task_list.promote_task(0);
    assert_eq!(task_list.get_task(0).unwrap().depth, 0);
    task_list.demote_task(4);
    assert_eq!(task_list.get_task(4).unwrap().depth, 1);
    assert_eq!(task_list.get_task(5).unwrap().depth, 1);
    assert_eq!(task_list.depth_positions(0).unwrap(), &vec![0, 8]);
    task_list.promote_task(4);
    assert_eq!(task_list.get_task(4).unwrap().depth, 0);
    assert_eq!(task_list.next_tasks(), &vec![0, 1, 4, 5, 8]);
}

#[test]
fn subtask_at_deepest_level_is_refused() {
    let mut task_list = TaskList::new("Deep");
    task_list.add_new_root_task_at_end("Root");
    for _ in 0..200 {
        task_list.demote_task(0);
    }
    assert_eq!(task_list.get_task(0).unwrap().depth, i8::MAX);
    task_list.add_new_subtask("Too deep", 0);
    assert_eq!(task_list.len(), 1);
}

#[test]
fn toggle_status_cycles_and_toggle_order_flips() {
    let mut task_list = setup_task_list();
    task_list.toggle_task_status(1);
    assert!(matches!(task_list.get_task(1).unwrap().task_status, subtask::task::TaskStatus::InProgress(_)));
    task_list.toggle_task_status(1);
    assert!(matches!(task_list.get_task(1).unwrap().task_status, subtask::task::TaskStatus::Complete(_)));
    task_list.toggle_task_status(1);
    assert!(matches!(task_list.get_task(1).unwrap().task_status, subtask::task::TaskStatus::NotStarted));
    task_list.toggle_execution_order(0);
    assert_eq!(task_list.get_task(0).unwrap().execution_order, ExecutionOrder::Parallel);
    task_list.toggle_execution_order(0);
    assert_eq!(task_list.get_task(0).unwrap().execution_order, ExecutionOrder::Series);
}
