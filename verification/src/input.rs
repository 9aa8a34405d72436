use vstd::prelude::*;
use vstd::string::StrSliceExecFns;
use vstd::string::StringExecFns;
use vstd::utf8::encode_utf8;

use crate::text::push_char;

verus! {

/// A cursor position clamped into the character range of a query of length
/// `count`.
pub open spec fn clamped_cursor(pos: int, count: int) -> int {
    if pos > count {
        count
    } else {
        pos
    }
}

/// One editing operation on the query.
pub enum EditOp {
    MoveLeft,
    MoveRight,
    Insert(char),
    Delete,
}

/// The query and cursor after one editing operation, as the editor performs
/// it: moves clamp into range, an insertion happens at the cursor and pushes
/// it right, a deletion takes the character left of the cursor unless the
/// cursor is leftmost.
pub open spec fn apply_edit(q: Seq<char>, cursor: int, op: EditOp) -> (Seq<char>, int) {
    match op {
        EditOp::MoveLeft => (
            q,
            clamped_cursor(
                if cursor == 0 {
                    0
                } else {
                    cursor - 1
                },
                q.len() as int,
            ),
        ),
        EditOp::MoveRight => (q, clamped_cursor(cursor + 1, q.len() as int)),
        EditOp::Insert(c) => (q.insert(cursor, c), cursor + 1),
        EditOp::Delete => if cursor == 0 {
            (q, cursor)
        } else {
            (q.remove(cursor - 1), cursor - 1)
        },
    }
}

/// The query and cursor after a whole sequence of editing operations.
pub open spec fn apply_edits(q: Seq<char>, cursor: int, ops: Seq<EditOp>) -> (Seq<char>, int)
    decreases ops.len(),
{
    if ops.len() == 0 {
        (q, cursor)
    } else {
        let stepped = apply_edit(q, cursor, ops[0]);
        apply_edits(stepped.0, stepped.1, ops.drop_first())
    }
}

/// The cursor lies between 0 and the query's character count.
pub open spec fn cursor_in_range(q: Seq<char>, cursor: int) -> bool {
    0 <= cursor <= q.len()
}

/// After any sequence of cursor moves, insertions and deletions, starting
/// from any state whose cursor is in range, the cursor is still in range.
pub proof fn lemma_cursor_stays_in_range(q: Seq<char>, cursor: int, ops: Seq<EditOp>)
    requires
        cursor_in_range(q, cursor),
    ensures
        cursor_in_range(apply_edits(q, cursor, ops).0, apply_edits(q, cursor, ops).1),
    decreases ops.len(),
{
    if ops.len() > 0 {
        let stepped = apply_edit(q, cursor, ops[0]);
        assert(cursor_in_range(stepped.0, stepped.1));
        lemma_cursor_stays_in_range(stepped.0, stepped.1, ops.drop_first());
    }
}

/// The live search query together with the editing cursor, a character
/// offset (never a byte offset) into it.
pub struct ScriptInput {
    pub input: String,
    pub character_index: usize,
}

impl ScriptInput {
    /// The cursor is a character offset into the query.
    pub open spec fn wf(&self) -> bool {
        self.character_index <= self.input@.len()
    }

    pub fn new() -> (r: ScriptInput)
        ensures
            r.input@ == Seq::<char>::empty(),
            r.character_index == 0,
            r.wf(),
    {
        ScriptInput { input: String::new(), character_index: 0 }
    }

    /// Clamps a prospective cursor position into the query's character range.
    pub fn clamp_cursor(&self, new_cursor_pos: usize) -> (r: usize)
        ensures
            r as int == clamped_cursor(new_cursor_pos as int, self.input@.len() as int),
            self.input@.len() <= usize::MAX,
    {
        let count = self.input.as_str().unicode_len();
        if new_cursor_pos > count {
            count
        } else {
            new_cursor_pos
        }
    }

    /// Moves the cursor one character left, stopping at the start.
    pub fn move_cursor_left(&mut self)
        ensures
            final(self).input == old(self).input,
            (final(self).input@, final(self).character_index as int) == apply_edit(
                old(self).input@,
                old(self).character_index as int,
                EditOp::MoveLeft,
            ),
    {
        let cursor_moved_left = if self.character_index > 0 {
            self.character_index - 1
        } else {
            0
        };
        self.character_index = self.clamp_cursor(cursor_moved_left);
    }

    /// Moves the cursor one character right, stopping at the end of the
    /// query.
    pub fn move_cursor_right(&mut self)
        ensures
            final(self).input == old(self).input,
            (final(self).input@, final(self).character_index as int) == apply_edit(
                old(self).input@,
                old(self).character_index as int,
                EditOp::MoveRight,
            ),
    {
        let cursor_moved_right = if self.character_index < usize::MAX {
            self.character_index + 1
        } else {
            usize::MAX
        };
        self.character_index = self.clamp_cursor(cursor_moved_right);
    }

    /// Inserts a character at the cursor's character position and advances
    /// the cursor past it.
    pub fn enter_char(&mut self, new_char: char)
        requires
            old(self).wf(),
            old(self).input@.len() < usize::MAX,
        ensures
            final(self).input@ == old(self).input@.insert(
                old(self).character_index as int,
                new_char,
            ),
            final(self).character_index == old(self).character_index + 1,
            final(self).wf(),
            (final(self).input@, final(self).character_index as int) == apply_edit(
                old(self).input@,
                old(self).character_index as int,
                EditOp::Insert(new_char),
            ),
    {
        let idx = self.character_index;
        let len = self.input.as_str().unicode_len();
        let mut new_input = self.input.as_str().substring_char(0, idx).to_owned();
        push_char(&mut new_input, new_char);
        new_input.append(self.input.as_str().substring_char(idx, len));
        proof {
            assert(new_input@ =~= old(self).input@.insert(
                old(self).character_index as int,
                new_char,
            ));
        }
        self.input = new_input;
        self.move_cursor_right();
    }

    /// The byte offset that the cursor's character position amounts to in
    /// the query's UTF-8 encoding. A character can take several bytes, so
    /// this is the encoded length of everything before the cursor.
    pub fn byte_index(&self) -> (r: usize)
        requires
            self.wf(),
        ensures
            r == encode_utf8(self.input@.take(self.character_index as int)).len() as usize,
    {
        let prefix = self.input.as_str().substring_char(0, self.character_index);
        proof {
            assert(prefix@ =~= self.input@.take(self.character_index as int));
        }
        prefix.len()
    }

    /// Removes the character immediately left of the cursor and moves the
    /// cursor onto its place; at the leftmost position nothing changes.
    pub fn delete_char(&mut self)
        requires
            old(self).wf(),
        ensures
            old(self).character_index == 0 ==> *final(self) == *old(self),
            old(self).character_index > 0 ==> final(self).input@ == old(self).input@.remove(
                old(self).character_index - 1,
            ),
            old(self).character_index > 0 ==> final(self).character_index == old(
                self,
            ).character_index - 1,
            final(self).wf(),
            (final(self).input@, final(self).character_index as int) == apply_edit(
                old(self).input@,
                old(self).character_index as int,
                EditOp::Delete,
            ),
    {
        let is_not_cursor_leftmost = self.character_index != 0;
        if is_not_cursor_leftmost {
            let current_index = self.character_index;
            let from_left_to_current_index = current_index - 1;
            let len = self.input.as_str().unicode_len();
            let mut new_input = self.input.as_str().substring_char(
                0,
                from_left_to_current_index,
            ).to_owned();
            new_input.append(self.input.as_str().substring_char(current_index, len));
            proof {
                assert(new_input@ =~= old(self).input@.remove(
                    old(self).character_index - 1,
                ));
            }
            self.input = new_input;
            self.move_cursor_left();
        }
    }
}

} // verus!
