use taskboard::board_renderer::BoardRenderer;
use taskboard::operation::{Operation, OperationError};
use taskboard::task::Task;
use taskboard::task_manager::{create_task_manager, TaskData, TaskManager};
use taskboard::task_state::TaskState;
use taskboard::writer::EmptyWriter;

fn task(title: &str, state: TaskState) -> Task {
    Task { title: String::from(title), description: String::from("test"), state }
}

fn manager_of(
    tasks: Vec<Task>,
    focus: usize,
) -> TaskManager<BoardRenderer, EmptyWriter> {
    create_task_manager(
        TaskData { tasks, focus },
        BoardRenderer::default(),
        EmptyWriter {},
    )
}

fn titles(m: &TaskManager<BoardRenderer, EmptyWriter>) -> Vec<String> {
    m.data.tasks.iter().map(|t| t.title.clone()).collect()
}

fn four_tasks() -> Vec<Task> {
    vec![
        task("A", TaskState::Todo),
        task("B", TaskState::Todo),
        task("C", TaskState::Todo),
        task("D", TaskState::Todo),
    ]
}

#[test]
fn move_reinserts_at_adjusted_target() {
    let mut m = manager_of(four_tasks(), 0);
    let r = m.perform_operation(Operation::Move { from: 0, to: 2 });
    assert_eq!(r, Ok(true));
    assert_eq!(titles(&m), vec!["B", "A", "C", "D"]);
    assert_eq!(
        m.undo_tree_move.operations,
        vec![Operation::Move { from: 1, to: 0 }]
    );
}

#[test]
fn move_backward_lands_at_target() {
    let mut m = manager_of(four_tasks(), 0);
    let r = m.perform_operation(Operation::Move { from: 2, to: 0 });
    assert_eq!(r, Ok(true));
    assert_eq!(titles(&m), vec!["C", "A", "B", "D"]);
    assert_eq!(
        m.undo_tree_move.operations,
        vec![Operation::Move { from: 0, to: 2 }]
    );
}

#[test]
fn forward_move_then_recorded_inverse_restores_order() {
    let mut m = manager_of(four_tasks(), 0);
    assert_eq!(m.perform_operation(Operation::Move { from: 0, to: 2 }), Ok(true));
    let inverse = *m.undo_tree_move.operations.last().unwrap();
    assert_eq!(inverse, Operation::Move { from: 1, to: 0 });
    assert_eq!(m.perform_operation(inverse), Ok(true));
    assert_eq!(titles(&m), vec!["A", "B", "C", "D"]);
}

#[test]
fn adjacent_forward_move_changes_nothing_and_records_a_no_op_inverse() {
    // Moving one slot forward reinserts at the adjusted target `to - 1`,
    // which is `from` itself: the order is unchanged and the recorded
    // inverse names the same index twice.
    let mut m = manager_of(four_tasks(), 0);
    assert_eq!(m.perform_operation(Operation::Move { from: 0, to: 1 }), Ok(true));
    assert_eq!(titles(&m), vec!["A", "B", "C", "D"]);
    let inverse = *m.undo_tree_move.operations.last().unwrap();
    assert_eq!(inverse, Operation::Move { from: 0, to: 0 });
    assert_eq!(m.perform_operation(inverse), Ok(false));
    assert_eq!(titles(&m), vec!["A", "B", "C", "D"]);
}

#[test]
fn move_to_same_index_is_a_no_op() {
    let mut m = manager_of(four_tasks(), 0);
    assert_eq!(m.perform_operation(Operation::Move { from: 1, to: 1 }), Ok(false));
    assert_eq!(titles(&m), vec!["A", "B", "C", "D"]);
    assert!(m.undo_tree_move.operations.is_empty());
}

#[test]
fn move_out_of_bounds_is_rejected_and_leaves_data_unchanged() {
    let mut m = manager_of(four_tasks(), 1);
    assert_eq!(
        m.perform_operation(Operation::Move { from: 4, to: 0 }),
        Err(OperationError::IndexOutOfBounds)
    );
    assert_eq!(
        m.perform_operation(Operation::Move { from: 0, to: 4 }),
        Err(OperationError::IndexOutOfBounds)
    );
    assert_eq!(titles(&m), vec!["A", "B", "C", "D"]);
    assert_eq!(m.data.focus, 1);
    assert!(m.undo_tree_move.operations.is_empty());
}

#[test]
fn swap_exchanges_two_positions() {
    let mut m = manager_of(four_tasks(), 0);
    assert_eq!(m.perform_operation(Operation::Swap(0, 3)), Ok(true));
    assert_eq!(titles(&m), vec!["D", "B", "C", "A"]);
    assert_eq!(m.undo_tree_move.operations, vec![Operation::Swap(0, 3)]);
}

#[test]
fn swap_twice_is_the_identity() {
    let mut m = manager_of(four_tasks(), 0);
    assert_eq!(m.perform_operation(Operation::Swap(1, 3)), Ok(true));
    assert_eq!(m.perform_operation(Operation::Swap(1, 3)), Ok(true));
    assert_eq!(titles(&m), vec!["A", "B", "C", "D"]);
}

#[test]
fn swap_same_index_is_a_no_op() {
    let mut m = manager_of(four_tasks(), 0);
    assert_eq!(m.perform_operation(Operation::Swap(2, 2)), Ok(false));
    assert_eq!(titles(&m), vec!["A", "B", "C", "D"]);
}

#[test]
fn swap_out_of_bounds_is_rejected_and_leaves_data_unchanged() {
    let mut m = manager_of(four_tasks(), 0);
    assert_eq!(
        m.perform_operation(Operation::Swap(4, 0)),
        Err(OperationError::IndexOutOfBounds)
    );
    assert_eq!(
        m.perform_operation(Operation::Swap(0, 9)),
        Err(OperationError::IndexOutOfBounds)
    );
    assert_eq!(titles(&m), vec!["A", "B", "C", "D"]);
}

#[test]
fn focus_changes_only_the_focus() {
    let mut m = manager_of(four_tasks(), 0);
    assert_eq!(m.perform_operation(Operation::Focus(2)), Ok(true));
    assert_eq!(m.data.focus, 2);
    assert_eq!(titles(&m), vec!["A", "B", "C", "D"]);
}

#[test]
fn focus_on_current_focus_is_a_no_op() {
    let mut m = manager_of(four_tasks(), 2);
    assert_eq!(m.perform_operation(Operation::Focus(2)), Ok(false));
    assert_eq!(m.data.focus, 2);
}

#[test]
fn focus_out_of_bounds_is_rejected() {
    let mut m = manager_of(four_tasks(), 1);
    assert_eq!(
        m.perform_operation(Operation::Focus(4)),
        Err(OperationError::IndexOutOfBounds)
    );
    assert_eq!(m.data.focus, 1);
}

#[test]
fn invalid_operation_always_fails() {
    let mut m = manager_of(four_tasks(), 0);
    assert_eq!(
        m.perform_operation(Operation::Invalid),
        Err(OperationError::InvalidOperation)
    );
    assert_eq!(titles(&m), vec!["A", "B", "C", "D"]);
}

#[test]
fn no_op_operation_succeeds_without_mutation() {
    let mut m = manager_of(four_tasks(), 0);
    assert_eq!(m.perform_operation(Operation::NoOp), Ok(false));
    assert_eq!(titles(&m), vec!["A", "B", "C", "D"]);
}

#[test]
fn quit_key_raises_the_quit_flag_only() {
    let mut m = manager_of(four_tasks(), 0);
    assert!(!m.quit);
    assert_eq!(m.handle_char_event('q'), Ok(false));
    assert!(m.quit);
    assert_eq!(titles(&m), vec!["A", "B", "C", "D"]);
    assert_eq!(m.data.focus, 0);
}

#[test]
fn unknown_key_is_a_no_op() {
    let mut m = manager_of(four_tasks(), 3);
    assert_eq!(m.handle_char_event('x'), Ok(false));
    assert!(!m.quit);
    assert_eq!(m.data.focus, 3);
    assert_eq!(titles(&m), vec!["A", "B", "C", "D"]);
}

#[test]
fn reserved_uppercase_keys_do_nothing_in_the_reference_view() {
    let mut m = manager_of(four_tasks(), 1);
    for c in ['H', 'J', 'K', 'L'] {
        assert_eq!(m.handle_char_event(c), Ok(false));
        assert_eq!(m.data.focus, 1);
        assert_eq!(titles(&m), vec!["A", "B", "C", "D"]);
    }
}

#[test]
fn focus_on_an_empty_board_matching_the_focus_is_a_no_op() {
    // With no tasks the focus invariant enforces nothing; the same-index
    // check still fires before the bounds check.
    let mut m = manager_of(Vec::new(), 0);
    assert_eq!(m.perform_operation(Operation::Focus(0)), Ok(false));
    assert_eq!(
        m.perform_operation(Operation::Focus(1)),
        Err(OperationError::IndexOutOfBounds)
    );
}

#[test]
fn default_task_state_is_todo() {
    assert_eq!(TaskState::default(), TaskState::Todo);
}

#[test]
fn task_states_are_ordered_by_ordinal() {
    assert_eq!(TaskState::Todo.ordinal(), 0);
    assert_eq!(TaskState::InProgress.ordinal(), 1);
    assert_eq!(TaskState::Completed.ordinal(), 2);
    assert_eq!(TaskState::Outdated.ordinal(), 3);
}

#[test]
fn default_task_data_is_empty_with_origin_focus() {
    let d = TaskData::default();
    assert!(d.tasks.is_empty());
    assert_eq!(d.focus, 0);
}
