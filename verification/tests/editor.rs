use elixcee::editor::{validate_cell_target, WorkbookEditor, MAX_EDITOR_HISTORY};

type Sheet = Vec<((u32, u32), String)>;

fn with_cell(state: &Sheet, pos: (u32, u32), value: &str) -> Sheet {
    let mut next = state.clone();
    next.push((pos, value.to_string()));
    next
}

#[test]
fn editor_transaction_coalesces_writes_into_one_undo() {
    let mut editor: WorkbookEditor<Sheet> = WorkbookEditor::new(Vec::new());
    editor.begin_transaction().unwrap();
    let first = with_cell(&editor.sheets, (1, 1), "planned");
    editor.edit(first);
    let second = with_cell(&editor.sheets, (1, 2), "TRUE");
    editor.edit(second.clone());
    assert!(editor.commit_transaction());
    assert!(editor.can_undo());
    assert!(editor.undo());
    assert!(editor.sheets.is_empty());
    assert!(!editor.can_undo());
    assert!(editor.redo());
    assert_eq!(editor.sheets, second);
    assert!(!editor.can_redo());
}

#[test]
fn undo_and_redo_step_through_single_edits() {
    let mut editor = WorkbookEditor::new(0u32);
    assert!(!editor.undo());
    assert!(!editor.redo());
    editor.edit(1);
    editor.edit(2);
    assert!(editor.undo());
    assert_eq!(editor.sheets, 1);
    assert!(editor.undo());
    assert_eq!(editor.sheets, 0);
    assert!(!editor.undo());
    assert!(editor.redo());
    assert_eq!(editor.sheets, 1);
    editor.edit(5);
    assert!(!editor.can_redo());
    assert_eq!(editor.undo, vec![0, 1]);
}

#[test]
fn aborting_a_transaction_restores_state_and_history() {
    let mut editor = WorkbookEditor::new(10u32);
    editor.edit(11);
    assert!(editor.undo());
    assert_eq!(editor.redo, vec![11]);
    editor.begin_transaction().unwrap();
    editor.edit(20);
    editor.edit(21);
    assert!(editor.abort_transaction());
    assert_eq!(editor.sheets, 10);
    assert!(editor.undo.is_empty());
    assert_eq!(editor.redo, vec![11]);
    assert!(!editor.abort_transaction());
    assert!(!editor.commit_transaction());
}

#[test]
fn a_transaction_without_edits_leaves_history_alone() {
    let mut editor = WorkbookEditor::new(1u32);
    editor.edit(2);
    assert!(editor.undo());
    editor.begin_transaction().unwrap();
    assert!(editor.commit_transaction());
    assert_eq!(editor.undo, Vec::<u32>::new());
    assert_eq!(editor.redo, vec![2]);
}

#[test]
fn a_second_begin_is_rejected_while_a_transaction_is_open() {
    let mut editor = WorkbookEditor::new(0u32);
    editor.begin_transaction().unwrap();
    assert_eq!(
        editor.begin_transaction(),
        Err("an edit transaction is already active".to_string())
    );
    assert!(editor.commit_transaction());
    assert!(editor.begin_transaction().is_ok());
}

#[test]
fn a_full_undo_stack_keeps_its_oldest_steps() {
    let mut editor = WorkbookEditor::new(0u32);
    for n in 1..=130u32 {
        editor.edit(n);
    }
    assert_eq!(editor.undo.len(), MAX_EDITOR_HISTORY);
    assert_eq!(editor.sheets, 130);
    assert!(editor.undo());
    assert_eq!(editor.sheets, 127);
}

#[test]
fn cell_targets_name_a_known_sheet_and_a_cell_inside_the_grid() {
    let keys = vec!["sheet1".to_string(), "data".to_string()];
    assert_eq!(validate_cell_target(&keys, "Sheet1", 1, 1), Ok("sheet1".to_string()));
    assert_eq!(
        validate_cell_target(&keys, "DATA", 1_048_576, 16_384),
        Ok("data".to_string())
    );
    assert_eq!(
        validate_cell_target(&keys, "Other", 1, 1),
        Err("unknown worksheet".to_string())
    );
    assert_eq!(
        validate_cell_target(&keys, "sheet1", 0, 1),
        Err("cell coordinates are outside the worksheet bounds".to_string())
    );
    assert_eq!(
        validate_cell_target(&keys, "sheet1", 1, 16_385),
        Err("cell coordinates are outside the worksheet bounds".to_string())
    );
}

#[test]
fn abort_after_an_undo_in_the_transaction_keeps_the_undo_lost() {
    let mut editor: WorkbookEditor<Sheet> = WorkbookEditor::new(Vec::new());
    let first = with_cell(&editor.sheets, (1, 1), "a");
    editor.edit(first.clone());
    let second = with_cell(&first, (1, 2), "b");
    editor.edit(second.clone());
    editor.begin_transaction().unwrap();
    assert!(editor.undo());
    let third = with_cell(&editor.sheets, (2, 1), "c");
    editor.edit(third);
    assert!(editor.abort_transaction());
    assert_eq!(editor.sheets, second);
    assert!(!editor.can_redo());
    assert!(editor.can_undo());
    assert!(editor.undo());
    assert!(editor.sheets.is_empty());
    assert!(!editor.can_undo());
}
