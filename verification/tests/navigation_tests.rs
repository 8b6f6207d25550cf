use taskboard::board_renderer::BoardRenderer;
use taskboard::task::Task;
use taskboard::task_manager::{create_task_manager, TaskData, TaskManager};
use taskboard::task_state::TaskState;
use taskboard::writer::EmptyWriter;

fn task(title: &str, state: TaskState) -> Task {
    Task { title: String::from(title), description: String::from("test"), state }
}

fn manager_of(
    tasks: Vec<Task>,
    focus: usize,
) -> TaskManager<BoardRenderer, EmptyWriter> {
    create_task_manager(
        TaskData { tasks, focus },
        BoardRenderer::default(),
        EmptyWriter {},
    )
}

fn mixed_board() -> Vec<Task> {
    vec![
        task("A", TaskState::Todo),
        task("B", TaskState::InProgress),
        task("C", TaskState::Todo),
    ]
}

#[test]
fn down_moves_within_the_column_and_wraps() {
    // Tasks [A:Todo, B:InProgress, C:Todo], focus on A: `j` skips B (another
    // column) and focuses C, then wraps back to A.
    let mut m = manager_of(mixed_board(), 0);
    assert_eq!(m.handle_char_event('j'), Ok(true));
    assert_eq!(m.data.focus, 2);
    assert_eq!(m.handle_char_event('j'), Ok(true));
    assert_eq!(m.data.focus, 0);
}

#[test]
fn up_moves_within_the_column_and_wraps() {
    let mut m = manager_of(mixed_board(), 0);
    assert_eq!(m.handle_char_event('k'), Ok(true));
    assert_eq!(m.data.focus, 2);
    assert_eq!(m.handle_char_event('k'), Ok(true));
    assert_eq!(m.data.focus, 0);
}

#[test]
fn down_repeated_column_length_times_returns_to_start() {
    let tasks = vec![
        task("A", TaskState::Todo),
        task("B", TaskState::Todo),
        task("C", TaskState::Todo),
        task("D", TaskState::Completed),
    ];
    for start in [0usize, 1, 2] {
        let mut m = manager_of(tasks.clone(), start);
        for _ in 0..3 {
            m.handle_char_event('j').unwrap();
        }
        assert_eq!(m.data.focus, start);
        let mut m = manager_of(tasks.clone(), start);
        for _ in 0..3 {
            m.handle_char_event('k').unwrap();
        }
        assert_eq!(m.data.focus, start);
    }
}

#[test]
fn vertical_navigation_in_a_single_row_column_stays_put() {
    let mut m = manager_of(mixed_board(), 1);
    assert_eq!(m.handle_char_event('j'), Ok(false));
    assert_eq!(m.data.focus, 1);
    assert_eq!(m.handle_char_event('k'), Ok(false));
    assert_eq!(m.data.focus, 1);
}

#[test]
fn right_moves_to_the_next_nonempty_column() {
    let mut m = manager_of(mixed_board(), 0);
    assert_eq!(m.handle_char_event('l'), Ok(true));
    assert_eq!(m.data.focus, 1);
}

#[test]
fn left_wraps_to_the_last_nonempty_column() {
    let mut m = manager_of(mixed_board(), 0);
    assert_eq!(m.handle_char_event('h'), Ok(true));
    assert_eq!(m.data.focus, 1);
}

#[test]
fn left_then_right_returns_to_the_original_focus() {
    // Two columns of two rows each: the carried row is never clamped, so
    // `h` then `l` (and `l` then `h`) round-trip from every starting task.
    let tasks = vec![
        task("A", TaskState::Todo),
        task("B", TaskState::Todo),
        task("C", TaskState::InProgress),
        task("D", TaskState::InProgress),
    ];
    for start in 0..4usize {
        let mut m = manager_of(tasks.clone(), start);
        m.handle_char_event('h').unwrap();
        m.handle_char_event('l').unwrap();
        assert_eq!(m.data.focus, start);
        let mut m = manager_of(tasks.clone(), start);
        m.handle_char_event('l').unwrap();
        m.handle_char_event('h').unwrap();
        assert_eq!(m.data.focus, start);
    }
}

#[test]
fn row_is_clamped_when_entering_a_shorter_column() {
    // Todo holds [A, C] and InProgress holds [B]; from C (row 1) moving
    // right lands on B (row clamped to 0).
    let mut m = manager_of(mixed_board(), 2);
    assert_eq!(m.handle_char_event('l'), Ok(true));
    assert_eq!(m.data.focus, 1);
}

#[test]
fn navigation_on_an_empty_board_does_nothing() {
    let mut m = manager_of(Vec::new(), 0);
    for c in ['h', 'j', 'k', 'l'] {
        assert_eq!(m.handle_char_event(c), Ok(false));
    }
    assert!(m.data.tasks.is_empty());
}

#[test]
fn grouping_partitions_the_task_indices() {
    // After a mutation, flattening the rebuilt columns and sorting by global
    // index yields every task index exactly once.
    let tasks = vec![
        task("A", TaskState::Outdated),
        task("B", TaskState::Todo),
        task("C", TaskState::Completed),
        task("D", TaskState::Todo),
        task("E", TaskState::InProgress),
    ];
    let mut m = manager_of(tasks, 0);
    m.perform_operation(taskboard::operation::Operation::Swap(0, 3)).unwrap();
    let mut flat: Vec<usize> = Vec::new();
    for col in m.renderer.tasks_idxs_by_state.iter() {
        flat.extend(col.iter().copied());
    }
    flat.sort();
    assert_eq!(flat, vec![0, 1, 2, 3, 4]);
}

#[test]
fn columns_follow_the_state_order_and_keep_relative_order() {
    let tasks = vec![
        task("A", TaskState::Completed),
        task("B", TaskState::Todo),
        task("C", TaskState::Todo),
        task("D", TaskState::InProgress),
    ];
    let m = manager_of(tasks, 0);
    assert_eq!(m.renderer.tasks_idxs_by_state[0], vec![1, 2]);
    assert_eq!(m.renderer.tasks_idxs_by_state[1], vec![3]);
    assert_eq!(m.renderer.tasks_idxs_by_state[2], vec![0]);
    assert!(m.renderer.tasks_idxs_by_state[3].is_empty());
}

#[test]
fn focus_cache_tracks_the_focused_task() {
    let m = manager_of(mixed_board(), 2);
    assert_eq!(m.renderer.focus_col, TaskState::Todo);
    assert_eq!(m.renderer.focus_list_idx, 1);
}
