//! The undo/redo history of an interactive workbook editor, with edit
//! transactions that coalesce several writes into one undo step.
//!
//! The editor is generic over the workbook state `S` it keeps; an edit hands
//! over the state that follows it, and the state it replaces becomes the
//! undo step.

use vstd::prelude::*;
use crate::text::{chars_ascii_lower, chars_eq, push_str_chars, seq_ascii_lower, str_chars, string_chars, string_from_chars};

verus! {

/// The most undo steps an editor keeps.
pub const MAX_EDITOR_HISTORY: usize = 128;

/// The last worksheet row.
pub const MAX_WORKSHEET_ROW: u32 = 1_048_576;

/// The last worksheet column.
pub const MAX_WORKSHEET_COLUMN: u32 = 16_384;

/// An open edit transaction: the state when it began, the undo depth then,
/// and the redo steps then.
pub struct EditorTransaction<S> {
    pub state: S,
    pub undo_len: usize,
    pub redo: Vec<S>,
}

/// A workbook editor: the current state, the undo and redo stacks (most
/// recent last), the open transaction, and whether it has seen an edit.
pub struct WorkbookEditor<S> {
    pub sheets: S,
    pub undo: Vec<S>,
    pub redo: Vec<S>,
    pub transaction: Option<EditorTransaction<S>>,
    pub transaction_dirty: bool,
}

/// An editor as values: current state, undo stack, redo stack, open
/// transaction `(state, undo depth, redo stack)`, dirty flag.
pub type EditorView<S> = (S, Seq<S>, Seq<S>, Option<(S, nat, Seq<S>)>, bool);

/// `s` cut down to its first `n` entries (unchanged when it is shorter).
pub open spec fn truncated<S>(s: Seq<S>, n: int) -> Seq<S> {
    if n < s.len() {
        s.subrange(0, n)
    } else {
        s
    }
}

/// An edit that makes `next` the current state. Outside a transaction the
/// replaced state is pushed as an undo step (the stack is then cut to
/// `MAX_EDITOR_HISTORY`, so a full stack keeps its oldest steps) and the redo
/// steps are dropped; inside one, the transaction is marked dirty.
pub open spec fn spec_edit<S>(v: EditorView<S>, next: S) -> EditorView<S> {
    match v.3 {
        Some(_) => (next, v.1, v.2, v.3, true),
        None => (next, truncated(v.1.push(v.0), MAX_EDITOR_HISTORY as int), Seq::empty(), None, v.4),
    }
}

/// Several edits in order.
pub open spec fn spec_edits<S>(v: EditorView<S>, nexts: Seq<S>) -> EditorView<S>
    decreases nexts.len(),
{
    if nexts.len() == 0 {
        v
    } else {
        spec_edit(spec_edits(v, nexts.drop_last()), nexts.last())
    }
}

/// Undo: the last undo step becomes current and the replaced state a redo
/// step; `false` when there is nothing to undo.
pub open spec fn spec_undo<S>(v: EditorView<S>) -> (EditorView<S>, bool) {
    if v.1.len() == 0 {
        (v, false)
    } else {
        ((v.1.last(), v.1.drop_last(), v.2.push(v.0), v.3, v.4), true)
    }
}

/// Redo: the last redo step becomes current and the replaced state an undo
/// step; `false` when there is nothing to redo.
pub open spec fn spec_redo<S>(v: EditorView<S>) -> (EditorView<S>, bool) {
    if v.2.len() == 0 {
        (v, false)
    } else {
        ((v.2.last(), v.1.push(v.0), v.2.drop_last(), v.3, v.4), true)
    }
}

/// Opening a transaction that saved `state` and `redo` (copies of the
/// current state and redo stack).
pub open spec fn spec_begin<S>(v: EditorView<S>, state: S, redo: Seq<S>) -> EditorView<S> {
    (v.0, v.1, v.2, Some((state, v.1.len(), redo)), false)
}

/// Committing: a dirty transaction becomes one undo step (its saved state)
/// and drops the redo steps; a clean one leaves the history as it is.
/// `false` when no transaction is open.
pub open spec fn spec_commit<S>(v: EditorView<S>) -> (EditorView<S>, bool) {
    match v.3 {
        None => (v, false),
        Some((state, _undo_len, _redo)) => if v.4 {
            (
                (v.0, truncated(v.1.push(state), MAX_EDITOR_HISTORY as int), Seq::empty(), None, false),
                true,
            )
        } else {
            ((v.0, v.1, v.2, None, false), true)
        },
    }
}

/// Aborting: the saved state, undo depth and redo steps come back. `false`
/// when no transaction is open.
pub open spec fn spec_abort<S>(v: EditorView<S>) -> (EditorView<S>, bool) {
    match v.3 {
        None => (v, false),
        Some((state, undo_len, redo)) => ((state, truncated(v.1, undo_len as int), redo, None, false), true),
    }
}

/// The history holds at most `MAX_EDITOR_HISTORY` states, counting the undo
/// and redo stacks together, and so does what an open transaction saved.
pub open spec fn history_bounded<S>(v: EditorView<S>) -> bool {
    &&& v.1.len() + v.2.len() <= MAX_EDITOR_HISTORY
    &&& v.3 matches Some((_state, undo_len, redo)) ==> undo_len + redo.len() <= MAX_EDITOR_HISTORY
}

/// Each entry of `b` is a clone of the entry of `a` at the same place.
pub open spec fn clones<S: Clone>(a: Seq<S>, b: Seq<S>) -> bool {
    a.len() == b.len() && forall|i: int| 0 <= i < a.len() ==> cloned(a[i], #[trigger] b[i])
}

/// The text of a begin while a transaction is open.
pub open spec fn transaction_active_error() -> Seq<char> {
    "an edit transaction is already active"@
}

// ── Laws ─────────────────────────────────────────────────────────────────

/// Redo puts back exactly what undo took away.
pub proof fn law_redo_undoes_undo<S>(v: EditorView<S>)
    requires
        v.1.len() > 0,
    ensures
        spec_undo(v).1,
        spec_redo(spec_undo(v).0) == (v, true),
{
    assert(v.1.drop_last().push(v.1.last()) =~= v.1);
    assert(v.2.push(v.0).drop_last() =~= v.2);
}

/// Undo puts back exactly what redo took away.
pub proof fn law_undo_undoes_redo<S>(v: EditorView<S>)
    requires
        v.2.len() > 0,
    ensures
        spec_redo(v).1,
        spec_undo(spec_redo(v).0) == (v, true),
{
    assert(v.2.drop_last().push(v.2.last()) =~= v.2);
    assert(v.1.push(v.0).drop_last() =~= v.1);
}

/// Outside a transaction, and while the undo stack is not full, undo right
/// after an edit brings back the state before it, with the edited state as
/// the one redo step.
pub proof fn law_undo_reverts_edit<S>(v: EditorView<S>, next: S)
    requires
        v.3 is None,
        v.1.len() < MAX_EDITOR_HISTORY,
    ensures
        spec_undo(spec_edit(v, next)) == ((v.0, v.1, seq![next], None::<(S, nat, Seq<S>)>, v.4), true),
{
    assert(v.1.push(v.0).drop_last() =~= v.1);
    assert(Seq::<S>::empty().push(next) =~= seq![next]);
}

proof fn lemma_edits_in_transaction<S>(v: EditorView<S>, state: S, redo: Seq<S>, nexts: Seq<S>)
    requires
        v.3 is None,
    ensures
        spec_edits(spec_begin(v, state, redo), nexts) == (
            if nexts.len() == 0 { v.0 } else { nexts.last() },
            v.1,
            v.2,
            Some((state, v.1.len(), redo)),
            nexts.len() > 0,
        ),
    decreases nexts.len(),
{
    if nexts.len() > 0 {
        lemma_edits_in_transaction(v, state, redo, nexts.drop_last());
    }
}

/// Aborting a transaction after any number of edits restores the state,
/// undo stack and redo stack saved when it began.
pub proof fn law_abort_restores_saved_state<S>(v: EditorView<S>, state: S, redo: Seq<S>, nexts: Seq<S>)
    requires
        v.3 is None,
    ensures
        spec_abort(spec_edits(spec_begin(v, state, redo), nexts)) == (
            (state, v.1, redo, None::<(S, nat, Seq<S>)>, false),
            true,
        ),
{
    lemma_edits_in_transaction(v, state, redo, nexts);
}

proof fn lemma_edits_keep_transaction<S>(w: EditorView<S>, nexts: Seq<S>)
    requires
        w.3 is Some,
    ensures
        spec_edits(w, nexts).1 == w.1,
        spec_edits(w, nexts).3 == w.3,
    decreases nexts.len(),
{
    if nexts.len() > 0 {
        lemma_edits_keep_transaction(w, nexts.drop_last());
    }
}

/// Aborting a transaction in which the last undo step was undone (and then
/// any edits made) restores the state and redo steps saved when it began,
/// but the undo stack only down to the step that was undone: the undo depth
/// is cut back to what it was, never grown, so that step stays lost.
pub proof fn law_abort_after_undo_in_transaction<S>(v: EditorView<S>, state: S, redo: Seq<S>, nexts: Seq<S>)
    requires
        v.3 is None,
        v.1.len() > 0,
    ensures
        spec_undo(spec_begin(v, state, redo)).1,
        spec_abort(spec_edits(spec_undo(spec_begin(v, state, redo)).0, nexts)) == (
            (state, v.1.drop_last(), redo, None::<(S, nat, Seq<S>)>, false),
            true,
        ),
{
    let w = spec_undo(spec_begin(v, state, redo)).0;
    lemma_edits_keep_transaction(w, nexts);
}

/// Committing a transaction coalesces all of its edits into one undo step,
/// the state saved when it began; a transaction without edits leaves the
/// history unchanged.
pub proof fn law_commit_coalesces_edits<S>(v: EditorView<S>, state: S, redo: Seq<S>, nexts: Seq<S>)
    requires
        v.3 is None,
    ensures
        spec_commit(spec_edits(spec_begin(v, state, redo), nexts)) == if nexts.len() == 0 {
            ((v.0, v.1, v.2, None::<(S, nat, Seq<S>)>, false), true)
        } else {
            (
                (
                    nexts.last(),
                    truncated(v.1.push(state), MAX_EDITOR_HISTORY as int),
                    Seq::<S>::empty(),
                    None::<(S, nat, Seq<S>)>,
                    false,
                ),
                true,
            )
        },
{
    lemma_edits_in_transaction(v, state, redo, nexts);
}

/// Every operation keeps the history within `MAX_EDITOR_HISTORY` states.
pub proof fn law_history_stays_bounded<S>(v: EditorView<S>, next: S, state: S, redo: Seq<S>)
    requires
        history_bounded(v),
        redo.len() == v.2.len(),
    ensures
        history_bounded(spec_edit(v, next)),
        history_bounded(spec_undo(v).0),
        history_bounded(spec_redo(v).0),
        v.3 is None ==> history_bounded(spec_begin(v, state, redo)),
        history_bounded(spec_commit(v).0),
        history_bounded(spec_abort(v).0),
{
}

// ── The editor ───────────────────────────────────────────────────────────

fn text(s: &str) -> (r: String)
    ensures
        r@ == s@,
{
    let mut v: Vec<char> = Vec::new();
    push_str_chars(&mut v, s);
    string_from_chars(&v)
}

impl<S> WorkbookEditor<S> {
    pub open spec fn view(&self) -> EditorView<S> {
        (
            self.sheets,
            self.undo@,
            self.redo@,
            match self.transaction {
                Some(t) => Some((t.state, t.undo_len as nat, t.redo@)),
                None => None,
            },
            self.transaction_dirty,
        )
    }

    /// An editor on `sheets` with no history.
    pub fn new(sheets: S) -> (r: WorkbookEditor<S>)
        ensures
            r.view() == (sheets, Seq::<S>::empty(), Seq::<S>::empty(), None::<(S, nat, Seq<S>)>, false),
    {
        WorkbookEditor { sheets, undo: Vec::new(), redo: Vec::new(), transaction: None, transaction_dirty: false }
    }

    /// Makes `next` the current state, recording the replaced one as an undo
    /// step (or marking the open transaction dirty).
    pub fn edit(&mut self, next: S)
        ensures
            final(self).view() == spec_edit(old(self).view(), next),
    {
        if self.transaction.is_some() {
            self.transaction_dirty = true;
            self.sheets = next;
            return;
        }
        let mut previous = next;
        core::mem::swap(&mut self.sheets, &mut previous);
        self.undo.push(previous);
        self.undo.truncate(MAX_EDITOR_HISTORY);
        self.redo.clear();
    }

    /// Steps back to the last undo step; `false` when there is none.
    pub fn undo(&mut self) -> (r: bool)
        ensures
            (final(self).view(), r) == spec_undo(old(self).view()),
    {
        match self.undo.pop() {
            None => false,
            Some(previous) => {
                let mut current = previous;
                core::mem::swap(&mut self.sheets, &mut current);
                self.redo.push(current);
                true
            },
        }
    }

    /// Steps forward to the last redo step; `false` when there is none.
    pub fn redo(&mut self) -> (r: bool)
        ensures
            (final(self).view(), r) == spec_redo(old(self).view()),
    {
        match self.redo.pop() {
            None => false,
            Some(next) => {
                let mut current = next;
                core::mem::swap(&mut self.sheets, &mut current);
                self.undo.push(current);
                true
            },
        }
    }

    /// Opens a transaction, saving clones of the current state and of the
    /// redo steps; fails while one is already open.
    pub fn begin_transaction(&mut self) -> (r: Result<(), String>) where S: Clone
        ensures
            match r {
                Ok(()) => {
                    &&& old(self).view().3 is None
                    &&& final(self).transaction matches Some(t) && final(self).view() == spec_begin(
                        old(self).view(),
                        t.state,
                        t.redo@,
                    ) && cloned(old(self).sheets, t.state) && clones(old(self).redo@, t.redo@)
                },
                Err(e) => old(self).view().3 is Some && final(self).view() == old(self).view()
                    && e@ == transaction_active_error(),
            },
    {
        if self.transaction.is_some() {
            return Err(text("an edit transaction is already active"));
        }
        let state = self.sheets.clone();
        let redo = self.redo.clone();
        let undo_len = self.undo.len();
        self.transaction = Some(EditorTransaction { state, undo_len, redo });
        self.transaction_dirty = false;
        Ok(())
    }

    /// Closes the open transaction, keeping its edits as one undo step when
    /// there were any; `false` when none is open.
    pub fn commit_transaction(&mut self) -> (r: bool)
        ensures
            (final(self).view(), r) == spec_commit(old(self).view()),
    {
        match self.transaction.take() {
            None => false,
            Some(transaction) => {
                if self.transaction_dirty {
                    self.undo.push(transaction.state);
                    self.undo.truncate(MAX_EDITOR_HISTORY);
                    self.redo.clear();
                }
                self.transaction_dirty = false;
                true
            },
        }
    }

    /// Closes the open transaction, restoring what it saved; `false` when
    /// none is open.
    pub fn abort_transaction(&mut self) -> (r: bool)
        ensures
            (final(self).view(), r) == spec_abort(old(self).view()),
    {
        match self.transaction.take() {
            None => false,
            Some(transaction) => {
                self.sheets = transaction.state;
                self.undo.truncate(transaction.undo_len);
                self.redo = transaction.redo;
                self.transaction_dirty = false;
                true
            },
        }
    }

    pub fn can_undo(&self) -> (r: bool)
        ensures
            r == (self.undo@.len() > 0),
    {
        self.undo.len() > 0
    }

    pub fn can_redo(&self) -> (r: bool)
        ensures
            r == (self.redo@.len() > 0),
    {
        self.redo.len() > 0
    }
}

// ── Cell targets ─────────────────────────────────────────────────────────

/// The text of an edit aimed at a sheet the editor does not hold.
pub open spec fn unknown_worksheet_error() -> Seq<char> {
    "unknown worksheet"@
}

/// The text of an edit aimed outside the worksheet grid.
pub open spec fn outside_bounds_error() -> Seq<char> {
    "cell coordinates are outside the worksheet bounds"@
}

/// `row` and `col` address a cell of the worksheet grid (1-based).
pub open spec fn cell_in_grid(row: u32, col: u32) -> bool {
    1 <= row <= MAX_WORKSHEET_ROW && 1 <= col <= MAX_WORKSHEET_COLUMN
}

/// The sheet keys (lowercase sheet names) hold `key`.
pub open spec fn holds_key(keys: Seq<String>, key: Seq<char>) -> bool {
    exists|i: int| 0 <= i < keys.len() && (#[trigger] keys[i])@ == key
}

/// The key of the sheet that an edit of `(row, col)` on `sheet` targets:
/// the sheet name lowercased (ASCII), which must be one of `sheet_keys`;
/// then the cell must lie in the worksheet grid.
pub fn validate_cell_target(sheet_keys: &Vec<String>, sheet: &str, row: u32, col: u32) -> (r: Result<String, String>)
    ensures
        match r {
            Ok(key) => key@ == seq_ascii_lower(sheet@) && holds_key(sheet_keys@, key@) && cell_in_grid(row, col),
            Err(e) => if !holds_key(sheet_keys@, seq_ascii_lower(sheet@)) {
                e@ == unknown_worksheet_error()
            } else {
                !cell_in_grid(row, col) && e@ == outside_bounds_error()
            },
        },
{
    let name = str_chars(sheet);
    let key = chars_ascii_lower(&name);
    let mut found = false;
    let mut i: usize = 0;
    while i < sheet_keys.len()
        invariant
            0 <= i <= sheet_keys@.len(),
            found ==> holds_key(sheet_keys@, key@),
            !found ==> forall|j: int| 0 <= j < i ==> (#[trigger] sheet_keys@[j])@ != key@,
        decreases sheet_keys@.len() - i,
    {
        let k = string_chars(&sheet_keys[i]);
        if chars_eq(&k, &key) {
            found = true;
        }
        i = i + 1;
    }
    if !found {
        return Err(text("unknown worksheet"));
    }
    if row == 0 || row > MAX_WORKSHEET_ROW || col == 0 || col > MAX_WORKSHEET_COLUMN {
        return Err(text("cell coordinates are outside the worksheet bounds"));
    }
    Ok(string_from_chars(&key))
}

} // verus!
