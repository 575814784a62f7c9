//! The scrolling window over the entry list.
//!
//! The window is re-derived on every frame from the selected index, the
//! index of the first visible row, the number of visible rows and the length
//! of the list. It follows the selection down by as many rows as the
//! selection overshoots, and up by one row at a time.

use crate::calendar::{iso_string, iso_text, Day};
use crate::entry::DiaryEntry;
use vstd::prelude::*;
use vstd::string::StringExecFns;

verus! {

/// Where the cursor is and where the window starts.
#[derive(Clone, Copy, Debug, PartialEq, Eq, Structural)]
pub struct ViewportState {
    pub selected_index: usize,
    pub start_index: usize,
}

/// What the user asks for.
#[derive(Clone, Copy, Debug, PartialEq, Eq, Structural)]
pub enum Command {
    Quit,
    MoveUp,
    MoveDown,
    JumpToEnd,
    JumpToStart,
    Edit,
    Nothing,
}

/// A key press, as far as the bindings tell keys apart.
#[derive(Clone, Copy, Debug, PartialEq, Eq, Structural)]
pub enum Key {
    Char(char),
    Up,
    Down,
    Enter,
    Other,
}

/// The first visible row after the window has followed the selection: moved
/// down by the overshoot when the selection is below the last visible row,
/// moved up by one row when the selection is above the first, else unmoved.
pub open spec fn adjusted_start(selected: int, start: int, height: int) -> int {
    if selected > start + height - 1 {
        start + (selected - (start + height - 1))
    } else if selected < start {
        start - 1
    } else {
        start
    }
}

/// The selected index after a move up.
pub open spec fn moved_up(selected: int) -> int {
    if selected > 0 {
        selected - 1
    } else {
        selected
    }
}

/// The selected index after a move down in a list of `total` items.
pub open spec fn moved_down(selected: int, total: int) -> int {
    if selected < total - 1 {
        selected + 1
    } else {
        selected
    }
}

/// The state that a command leaves behind, before the window follows.
pub open spec fn commanded(state: ViewportState, command: Command, total: int) -> (int, int) {
    match command {
        Command::MoveUp => (moved_up(state.selected_index as int), state.start_index as int),
        Command::MoveDown => (
            moved_down(state.selected_index as int, total),
            state.start_index as int,
        ),
        Command::JumpToEnd => (total - 1, state.start_index as int),
        Command::JumpToStart => (0, 0),
        _ => (state.selected_index as int, state.start_index as int),
    }
}

/// The command bound to a key.
pub open spec fn bound_command(key: Key) -> Command {
    match key {
        Key::Char(c) => if c == 'q' {
            Command::Quit
        } else if c == 'g' {
            Command::JumpToEnd
        } else if c == 'G' {
            Command::JumpToStart
        } else {
            Command::Nothing
        },
        Key::Up => Command::MoveUp,
        Key::Down => Command::MoveDown,
        Key::Enter => Command::Edit,
        Key::Other => Command::Nothing,
    }
}

/// The command bound to a key.
pub fn command_for(key: Key) -> (r: Command)
    ensures
        r == bound_command(key),
{
    match key {
        Key::Char(c) => {
            if c == 'q' {
                Command::Quit
            } else if c == 'g' {
                Command::JumpToEnd
            } else if c == 'G' {
                Command::JumpToStart
            } else {
                Command::Nothing
            }
        },
        Key::Up => Command::MoveUp,
        Key::Down => Command::MoveDown,
        Key::Enter => Command::Edit,
        Key::Other => Command::Nothing,
    }
}

/// The new index of the first visible row, such that the window follows
/// the selection. A window that starts at the top of a list that fits into
/// it stays there.
pub fn adjust(
    selected_index: usize,
    start_index: usize,
    window_height: usize,
    total_count: usize,
) -> (r: usize)
    requires
        selected_index < total_count,
    ensures
        r == adjusted_start(selected_index as int, start_index as int, window_height as int),
        total_count <= window_height && start_index == 0 ==> r == 0,
        window_height >= 1 && start_index <= selected_index + 1 ==> r <= selected_index < r
            + window_height,
{
    if selected_index < start_index {
        start_index - 1
    } else if selected_index - start_index >= window_height {
        selected_index - window_height + 1
    } else {
        start_index
    }
}

impl ViewportState {
    /// The cursor is inside the list and inside the window.
    pub open spec fn wf(self, window_height: usize, total_count: usize) -> bool {
        &&& self.start_index <= self.selected_index < self.start_index + window_height
        &&& self.selected_index < total_count
    }

    /// The state at startup: the first item selected, the window at the top.
    pub fn new() -> (r: ViewportState)
        ensures
            r.selected_index == 0,
            r.start_index == 0,
    {
        ViewportState { selected_index: 0, start_index: 0 }
    }

    /// Selects the item above, if there is one.
    pub fn move_up(&mut self)
        ensures
            final(self).selected_index == moved_up(old(self).selected_index as int),
            final(self).start_index == old(self).start_index,
    {
        if self.selected_index > 0 {
            self.selected_index = self.selected_index - 1;
        }
    }

    /// Selects the item below, if there is one.
    pub fn move_down(&mut self, total_count: usize)
        ensures
            final(self).selected_index == moved_down(
                old(self).selected_index as int,
                total_count as int,
            ),
            final(self).start_index == old(self).start_index,
    {
        if total_count > 0 && self.selected_index < total_count - 1 {
            self.selected_index = self.selected_index + 1;
        }
    }

    /// Selects the last item.
    pub fn jump_to_end(&mut self, total_count: usize)
        requires
            total_count > 0,
        ensures
            final(self).selected_index == total_count - 1,
            final(self).start_index == old(self).start_index,
    {
        self.selected_index = total_count - 1;
    }

    /// Selects the first item and moves the window to the top.
    pub fn jump_to_start(&mut self)
        ensures
            final(self).selected_index == 0,
            final(self).start_index == 0,
    {
        self.selected_index = 0;
        self.start_index = 0;
    }

    /// Carries out a navigation command; other commands change nothing.
    pub fn apply(&mut self, command: Command, total_count: usize)
        requires
            command is JumpToEnd ==> total_count > 0,
        ensures
            final(self).selected_index == commanded(*old(self), command, total_count as int).0,
            final(self).start_index == commanded(*old(self), command, total_count as int).1,
            old(self).selected_index < total_count ==> final(self).selected_index < total_count,
    {
        match command {
            Command::MoveUp => self.move_up(),
            Command::MoveDown => self.move_down(total_count),
            Command::JumpToEnd => self.jump_to_end(total_count),
            Command::JumpToStart => self.jump_to_start(),
            _ => {},
        }
    }

    /// Lets the window follow the selection.
    pub fn settle(&mut self, window_height: usize, total_count: usize)
        requires
            old(self).selected_index < total_count,
        ensures
            final(self).selected_index == old(self).selected_index,
            final(self).start_index == adjusted_start(
                old(self).selected_index as int,
                old(self).start_index as int,
                window_height as int,
            ),
            window_height >= 1 && old(self).start_index <= old(self).selected_index + 1
                ==> final(self).wf(window_height, total_count),
    {
        self.start_index = adjust(
            self.selected_index,
            self.start_index,
            window_height,
            total_count,
        );
    }

    /// Carries out a command and lets the window follow: one frame.
    pub fn step(&mut self, command: Command, window_height: usize, total_count: usize)
        requires
            old(self).wf(window_height, total_count),
        ensures
            final(self).wf(window_height, total_count),
            final(self).selected_index == commanded(*old(self), command, total_count as int).0,
            final(self).start_index == adjusted_start(
                commanded(*old(self), command, total_count as int).0,
                commanded(*old(self), command, total_count as int).1,
                window_height as int,
            ),
    {
        self.apply(command, total_count);
        self.settle(window_height, total_count);
    }
}

/// One visible row of the list: the text to show, whether the row is the
/// selected one, and whether its entry has a file.
#[derive(Debug, Clone)]
pub struct Row {
    pub label: String,
    pub selected: bool,
    pub exists: bool,
}

/// The mathematical value of a row.
pub ghost struct RowView {
    pub label: Seq<char>,
    pub selected: bool,
    pub exists: bool,
}

impl View for Row {
    type V = RowView;

    open spec fn view(&self) -> RowView {
        RowView { label: self.label@, selected: self.selected, exists: self.exists }
    }
}

/// The text of a row: the day, and a marker behind it on the selected row.
pub open spec fn row_label(date: Day, selected: bool) -> Seq<char> {
    if selected {
        iso_text(date) + seq![' ', '<', '=']
    } else {
        iso_text(date)
    }
}

/// Number of rows that a window of `height` rows shows of a list of `total`
/// items when it starts at `start`.
pub open spec fn visible_count(total: int, start: int, height: int) -> int {
    if start >= total {
        0
    } else if total - start < height {
        total - start
    } else {
        height
    }
}

/// The row that shows the entry at `index`.
pub open spec fn row_of(entries: Seq<DiaryEntry>, index: int, selected_index: int) -> RowView {
    RowView {
        label: row_label(entries[index].date@, index == selected_index),
        selected: index == selected_index,
        exists: entries[index].exists,
    }
}

/// The rows that the window shows: the entries from the window's start on,
/// as many as fit, each with its text and its two flags.
pub fn visible_rows(entries: &Vec<DiaryEntry>, state: &ViewportState, window_height: usize) -> (r:
    Vec<Row>)
    requires
        forall|k: int| 0 <= k < entries.len() ==> (#[trigger] entries[k]).date.wf(),
    ensures
        r.len() == visible_count(
            entries.len() as int,
            state.start_index as int,
            window_height as int,
        ),
        forall|i: int|
            0 <= i < r.len() ==> (#[trigger] r[i])@ == row_of(
                entries@,
                state.start_index + i,
                state.selected_index as int,
            ),
{
    let mut rows: Vec<Row> = Vec::new();
    if state.start_index >= entries.len() {
        return rows;
    }
    let available = entries.len() - state.start_index;
    let count = if available < window_height {
        available
    } else {
        window_height
    };
    let mut i: usize = 0;
    while i < count
        invariant
            i <= count,
            count <= entries.len() - state.start_index,
            state.start_index < entries.len(),
            rows.len() == i,
            forall|k: int| 0 <= k < entries.len() ==> (#[trigger] entries[k]).date.wf(),
            forall|j: int|
                0 <= j < i ==> (#[trigger] rows[j])@ == row_of(
                    entries@,
                    state.start_index + j,
                    state.selected_index as int,
                ),
        decreases count - i,
    {
        let index = state.start_index + i;
        let entry = &entries[index];
        let selected = index == state.selected_index;
        let mut label = iso_string(entry.date);
        if selected {
            proof {
                reveal_strlit(" <=");
            }
            assert(" <="@ =~= seq![' ', '<', '=']);
            label.append(" <=");
        }
        rows.push(Row { label, selected, exists: entry.exists });
        i += 1;
    }
    rows
}

/// Moving down from the last visible row scrolls by exactly one row.
pub proof fn lemma_move_down_scrolls_one(selected: int, start: int, height: int, total: int)
    requires
        selected == start + height - 1,
        selected < total - 1,
    ensures
        moved_down(selected, total) == selected + 1,
        adjusted_start(moved_down(selected, total), start, height) == start + 1,
{
}

/// Jumping to the last item scrolls there in one step: the window then
/// ends with the list.
pub proof fn lemma_jump_to_end_scrolls_at_once(state: ViewportState, height: usize, total: usize)
    requires
        state.wf(height, total),
        state.start_index + height <= total,
    ensures
        adjusted_start(
            commanded(state, Command::JumpToEnd, total as int).0,
            commanded(state, Command::JumpToEnd, total as int).1,
            height as int,
        ) == total - height,
{
}

/// A window that has followed the selection is not moved by following again.
pub proof fn lemma_adjust_is_stable(selected: int, start: int, height: int)
    requires
        height >= 1,
        start <= selected + 1,
    ensures
        adjusted_start(selected, adjusted_start(selected, start, height), height) == adjusted_start(
            selected,
            start,
            height,
        ),
{
}

} // verus!
