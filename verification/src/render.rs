use vstd::prelude::*;

use crate::input::EditOp;
use crate::input::ScriptInput;
use crate::input::apply_edit;
use crate::scripts::Scripts;
use crate::table::ScriptTable;
use crate::table::filtered_spec;
use crate::table::lemma_empty_query_matches_all;
use crate::table::next_index;
use crate::table::prev_index;

verus! {

/// One keyboard event, as the interaction loop understands it.
pub enum Key {
    Enter,
    Char(char),
    Backspace,
    Left,
    Right,
    Esc,
    Up,
    Down,
    Other,
}

/// What one step of the interaction loop decided: keep going, confirm the
/// named script, or give up without choosing one.
pub enum StepResult {
    Continue,
    Selected(String),
    Cancelled,
}

/// The whole interactive state: the query editor together with the
/// filtered, selectable table.
pub struct Render {
    pub script_table: ScriptTable,
    pub script_input: ScriptInput,
}

impl Render {
    /// Editor and table invariants hold, and the table shows exactly the
    /// store entries that match the current query.
    pub open spec fn wf(&self) -> bool {
        &&& self.script_input.wf()
        &&& self.script_table.wf()
        &&& self.script_table.filtered@ == filtered_spec(
            self.script_table.scripts.scripts@,
            self.script_input.input@,
        )
    }

    /// A fresh session: empty query, cursor at the start, every script
    /// shown, first row highlighted.
    pub fn new(scripts: Scripts) -> (r: Render)
        requires
            scripts.wf(),
        ensures
            r.wf(),
            r.script_table.scripts == scripts,
            r.script_table.filtered@ == scripts.scripts@,
            r.script_table.selected == 0,
            r.script_input.input@ == Seq::<char>::empty(),
            r.script_input.character_index == 0,
    {
        let script_table = ScriptTable::new(scripts);
        let script_input = ScriptInput::new();
        proof {
            lemma_empty_query_matches_all(script_table.scripts.scripts@);
        }
        Render { script_table, script_input }
    }

    /// Handles one keyboard event. Typing edits the query, refilters, and
    /// returns the highlight to the first row; arrows move the cursor or
    /// the highlight; Enter confirms the highlighted script when any row
    /// matches and otherwise changes nothing; Esc gives up.
    pub fn step(&mut self, key: Key) -> (r: StepResult)
        requires
            old(self).wf(),
            old(self).script_input.input@.len() < usize::MAX,
        ensures
            final(self).wf(),
            final(self).script_table.scripts == old(self).script_table.scripts,
            match key {
                Key::Enter => if old(self).script_table.filtered@.len() > 0 {
                    &&& r matches StepResult::Selected(name) && name@ == old(
                        self,
                    ).script_table.filtered@[old(self).script_table.selected as int].0@
                    &&& *final(self) == *old(self)
                } else {
                    &&& r is Continue
                    &&& *final(self) == *old(self)
                },
                Key::Char(c) => {
                    &&& r is Continue
                    &&& final(self).script_input.input@ == old(self).script_input.input@.insert(
                        old(self).script_input.character_index as int,
                        c,
                    )
                    &&& final(self).script_input.character_index == old(
                        self,
                    ).script_input.character_index + 1
                    &&& final(self).script_table.filtered@ == filtered_spec(
                        old(self).script_table.scripts.scripts@,
                        final(self).script_input.input@,
                    )
                    &&& final(self).script_table.selected == 0
                },
                Key::Backspace => if old(self).script_input.character_index == 0 {
                    &&& r is Continue
                    &&& *final(self) == *old(self)
                } else {
                    &&& r is Continue
                    &&& final(self).script_input.input@ == old(self).script_input.input@.remove(
                        old(self).script_input.character_index - 1,
                    )
                    &&& final(self).script_input.character_index == old(
                        self,
                    ).script_input.character_index - 1
                    &&& final(self).script_table.filtered@ == filtered_spec(
                        old(self).script_table.scripts.scripts@,
                        final(self).script_input.input@,
                    )
                    &&& final(self).script_table.selected == 0
                },
                Key::Left => {
                    &&& r is Continue
                    &&& final(self).script_table == old(self).script_table
                    &&& final(self).script_input.input == old(self).script_input.input
                    &&& (
                    final(self).script_input.input@,
                    final(self).script_input.character_index as int,
                    ) == apply_edit(
                        old(self).script_input.input@,
                        old(self).script_input.character_index as int,
                        EditOp::MoveLeft,
                    )
                },
                Key::Right => {
                    &&& r is Continue
                    &&& final(self).script_table == old(self).script_table
                    &&& final(self).script_input.input == old(self).script_input.input
                    &&& (
                    final(self).script_input.input@,
                    final(self).script_input.character_index as int,
                    ) == apply_edit(
                        old(self).script_input.input@,
                        old(self).script_input.character_index as int,
                        EditOp::MoveRight,
                    )
                },
                Key::Esc => {
                    &&& r is Cancelled
                    &&& *final(self) == *old(self)
                },
                Key::Up => {
                    &&& r is Continue
                    &&& final(self).script_input == old(self).script_input
                    &&& final(self).script_table.filtered == old(self).script_table.filtered
                    &&& final(self).script_table.selected as int == prev_index(
                        old(self).script_table.selected as int,
                        old(self).script_table.filtered@.len() as int,
                    )
                },
                Key::Down => {
                    &&& r is Continue
                    &&& final(self).script_input == old(self).script_input
                    &&& final(self).script_table.filtered == old(self).script_table.filtered
                    &&& final(self).script_table.selected as int == next_index(
                        old(self).script_table.selected as int,
                        old(self).script_table.filtered@.len() as int,
                    )
                },
                Key::Other => {
                    &&& r is Continue
                    &&& *final(self) == *old(self)
                },
            },
    {
        match key {
            Key::Enter => {
                if self.script_table.filtered.len() > 0 {
                    let script_name = self.script_table.get_script_name().unwrap();
                    StepResult::Selected(script_name)
                } else {
                    StepResult::Continue
                }
            },
            Key::Char(to_insert) => {
                self.script_input.enter_char(to_insert);
                let query = self.script_input.input.clone();
                self.script_table.filter_results(query);
                self.script_table.selected = 0;
                StepResult::Continue
            },
            Key::Backspace => {
                if self.script_input.character_index != 0 {
                    self.script_input.delete_char();
                    let query = self.script_input.input.clone();
                    self.script_table.filter_results(query);
                    self.script_table.selected = 0;
                }
                StepResult::Continue
            },
            Key::Left => {
                self.script_input.move_cursor_left();
                StepResult::Continue
            },
            Key::Right => {
                self.script_input.move_cursor_right();
                StepResult::Continue
            },
            Key::Esc => StepResult::Cancelled,
            Key::Up => {
                self.script_table.previous();
                StepResult::Continue
            },
            Key::Down => {
                self.script_table.next();
                StepResult::Continue
            },
            Key::Other => StepResult::Continue,
        }
    }
}

} // verus!
