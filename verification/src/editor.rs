//! The line editor of the terminal front end: what each key does to the line
//! that is being written and to the lines written before.
//!
//! The editor keeps no terminal. It is told the key that was pressed, changes
//! its state, and says what the user has asked for. Drawing the line, and
//! reading keys, is the front end's part.

use vstd::prelude::*;
use crate::input::{InputCmd, InputCmdView, Key};
use crate::text::{char_width, columns_of, is_word, str_width, string_of, text_width};

verus! {

/// The lines of an editing session, as characters.
pub struct LineEditor {
    /// The lines that were entered.
    line_hist: Vec<Vec<char>>,
    /// The entered lines as they may have been edited since, and behind them
    /// the line that is being written.
    line_buf: Vec<Vec<char>>,
    /// The line that is shown.
    line_idx: usize,
    /// The place in the shown line, counted in characters, where the next
    /// character goes.
    line_pos: usize,
    /// The column of the cursor.
    cursor_pos: usize,
}

/// The mathematical content of a [`LineEditor`].
pub struct EditorView {
    pub hist: Seq<Seq<char>>,
    pub lines: Seq<Seq<char>>,
    pub idx: int,
    pub pos: int,
    pub cursor: usize,
}

/// The characters of each line.
pub open spec fn lines_view(lines: Seq<Vec<char>>) -> Seq<Seq<char>> {
    lines.map_values(|line: Vec<char>| line@)
}

impl EditorView {
    /// There is a line for each line entered and one more, one of them is
    /// shown, and the place in it lies within it.
    pub open spec fn wf(self) -> bool {
        &&& self.lines.len() == self.hist.len() + 1
        &&& 0 <= self.idx < self.lines.len()
        &&& 0 <= self.pos <= self.line().len()
    }

    /// The line that is shown.
    pub open spec fn line(self) -> Seq<char> {
        self.lines[self.idx]
    }

    /// The editor with another line shown, the place at the end of it.
    pub open spec fn show(self, idx: int) -> EditorView {
        EditorView {
            idx,
            pos: self.lines[idx].len() as int,
            cursor: text_width(self.lines[idx]),
            ..self
        }
    }

    /// The editor with the shown line replaced, and the place and the cursor
    /// set.
    pub open spec fn edit(self, line: Seq<char>, pos: int, cursor: usize) -> EditorView {
        EditorView { lines: self.lines.update(self.idx, line), pos, cursor, ..self }
    }

    /// Whether the key can be taken in this state. A key that moves the
    /// cursor to the left needs a cursor that is far enough to the right, and
    /// a character in front of the place. A key that moves it to the right
    /// needs a character behind the place, and a column that can be counted.
    /// Every other key can always be taken.
    pub open spec fn accepts(self, key: Key) -> bool {
        match key {
            Key::Backspace => self.pos > 0 ==> self.cursor >= 1,
            Key::Left => self.cursor > 0 ==> self.pos > 0 && self.cursor >= columns_of(
                self.line()[self.pos - 1],
            ),
            Key::Right => self.cursor < text_width(self.line()) ==> self.pos < self.line().len()
                && self.cursor + columns_of(self.line()[self.pos]) <= usize::MAX,
            Key::Char(ch) => self.cursor + columns_of(ch) <= usize::MAX && self.line().len()
                < usize::MAX,
            _ => true,
        }
    }

    /// Whether the key ends the writing of a line that is to be evaluated.
    pub open spec fn enters(self, key: Key) -> bool {
        key == Key::Enter && self.line() != "quit"@
    }

    /// The state that the key leaves.
    ///
    /// `Enter` adds the shown line to the lines entered, unless it reads
    /// `quit`, and starts a new line; the edits that were made to earlier
    /// lines are forgotten. `Backspace` takes away the character in front of
    /// the place and moves the cursor one column to the left. `Delete` takes
    /// away the character at the place. `Up` and `Down` show the line before
    /// and behind the shown one, with the place at its end. `Left` and
    /// `Right` step over one character, and move the cursor by its width.
    /// `Home` and `End` go to the start and to the end of the line. A
    /// character is put in at the place. Every other key leaves the state as
    /// it is.
    pub open spec fn after(self, key: Key) -> EditorView {
        let line = self.line();
        match key {
            Key::Enter => if self.enters(key) {
                EditorView {
                    hist: self.hist.push(line),
                    lines: self.hist.push(line).push(Seq::empty()),
                    idx: (self.hist.len() + 1) as int,
                    pos: 0,
                    cursor: 0,
                }
            } else {
                self
            },
            Key::Backspace => if self.pos > 0 {
                self.edit(line.remove(self.pos - 1), self.pos - 1, (self.cursor - 1) as usize)
            } else {
                self
            },
            Key::Delete => if self.pos < line.len() {
                self.edit(line.remove(self.pos), self.pos, self.cursor)
            } else {
                self
            },
            Key::Up => if self.idx > 0 {
                self.show(self.idx - 1)
            } else {
                self
            },
            Key::Down => if self.idx < self.lines.len() - 1 {
                self.show(self.idx + 1)
            } else {
                self
            },
            Key::Right => if self.cursor < text_width(line) {
                EditorView {
                    pos: self.pos + 1,
                    cursor: (self.cursor + columns_of(line[self.pos])) as usize,
                    ..self
                }
            } else {
                self
            },
            Key::Left => if self.cursor > 0 {
                EditorView {
                    pos: self.pos - 1,
                    cursor: (self.cursor - columns_of(line[self.pos - 1])) as usize,
                    ..self
                }
            } else {
                self
            },
            Key::Home => EditorView { pos: 0, cursor: 0, ..self },
            Key::End => EditorView { pos: line.len() as int, cursor: text_width(line), ..self },
            Key::Char(ch) => self.edit(
                line.insert(self.pos, ch),
                self.pos + 1,
                (self.cursor + columns_of(ch)) as usize,
            ),
            _ => self,
        }
    }

    /// What the key asks for: to leave, with the escape key and with a line
    /// that reads `quit`, to have the line evaluated, with any other line
    /// that is entered, and nothing, with every other key.
    pub open spec fn command(self, key: Key) -> InputCmdView {
        match key {
            Key::Esc => InputCmdView::Quit,
            Key::Enter => if self.enters(key) {
                InputCmdView::Equation(self.line())
            } else {
                InputCmdView::Quit
            },
            _ => InputCmdView::Nothing,
        }
    }
}

/// A copy of a line.
fn copy_line(line: &Vec<char>) -> (copy: Vec<char>)
    ensures
        copy@ == line@,
{
    let mut copy: Vec<char> = Vec::new();
    let mut i: usize = 0;
    while i < line.len()
        invariant
            i <= line@.len(),
            copy@ == line@.take(i as int),
        decreases line@.len() - i,
    {
        copy.push(line[i]);
        assert(line@.take(i + 1) =~= line@.take(i as int).push(line@[i as int]));
        i += 1;
    }
    assert(line@.take(i as int) =~= line@);
    copy
}

/// A copy of some lines.
fn copy_lines(lines: &Vec<Vec<char>>) -> (copy: Vec<Vec<char>>)
    ensures
        lines_view(copy@) == lines_view(lines@),
{
    let mut copy: Vec<Vec<char>> = Vec::new();
    let mut i: usize = 0;
    while i < lines.len()
        invariant
            i <= lines@.len(),
            lines_view(copy@) == lines_view(lines@).take(i as int),
        decreases lines@.len() - i,
    {
        let ghost before = copy@;
        copy.push(copy_line(&lines[i]));
        assert(lines_view(copy@) =~= lines_view(before).push(lines@[i as int]@));
        assert(lines_view(lines@).take(i + 1) =~= lines_view(lines@).take(i as int).push(
            lines@[i as int]@,
        ));
        i += 1;
    }
    assert(lines_view(lines@).take(i as int) =~= lines_view(lines@));
    copy
}

impl View for LineEditor {
    type V = EditorView;

    closed spec fn view(&self) -> EditorView {
        EditorView {
            hist: lines_view(self.line_hist@),
            lines: lines_view(self.line_buf@),
            idx: self.line_idx as int,
            pos: self.line_pos as int,
            cursor: self.cursor_pos,
        }
    }
}

impl LineEditor {
    /// An editor with nothing entered and an empty line shown.
    pub fn new() -> (editor: LineEditor)
        ensures
            editor@.wf(),
            editor@ == (EditorView {
                hist: Seq::empty(),
                lines: seq![Seq::<char>::empty()],
                idx: 0,
                pos: 0,
                cursor: 0,
            }),
    {
        let mut line_buf: Vec<Vec<char>> = Vec::new();
        line_buf.push(Vec::new());
        let editor = LineEditor {
            line_hist: Vec::new(),
            line_buf,
            line_idx: 0,
            line_pos: 0,
            cursor_pos: 0,
        };
        assert(editor@.hist =~= Seq::empty());
        assert(editor@.lines =~= seq![Seq::<char>::empty()]);
        editor
    }

    /// The line that is shown.
    pub fn line(&self) -> (line: String)
        requires
            self@.wf(),
        ensures
            line@ == self@.line(),
    {
        string_of(&self.line_buf[self.line_idx])
    }

    /// The column of the cursor.
    pub fn cursor(&self) -> (column: usize)
        ensures
            column == self@.cursor,
    {
        self.cursor_pos
    }

    /// The width of the shown line in columns.
    fn line_column_len(&self) -> (width: usize)
        requires
            self@.wf(),
        ensures
            width == text_width(self@.line()),
    {
        let line = string_of(&self.line_buf[self.line_idx]);
        str_width(line.as_str())
    }

    /// The columns that a character adds to a line.
    fn width_of(ch: char) -> (width: usize)
        ensures
            width == columns_of(ch),
    {
        match char_width(ch) {
            Some(width) => width,
            None => 0,
        }
    }

    /// Whether the key can be taken in this state.
    pub fn accepts(&self, key: Key) -> (r: bool)
        requires
            self@.wf(),
        ensures
            r == self@.accepts(key),
    {
        let line = &self.line_buf[self.line_idx];
        match key {
            Key::Backspace => self.line_pos == 0 || self.cursor_pos >= 1,
            Key::Left => self.cursor_pos == 0 || (self.line_pos > 0 && self.cursor_pos
                >= Self::width_of(line[self.line_pos - 1])),
            Key::Right => self.cursor_pos >= self.line_column_len() || (self.line_pos < line.len()
                && Self::width_of(line[self.line_pos]) <= usize::MAX - self.cursor_pos),
            Key::Char(ch) => Self::width_of(ch) <= usize::MAX - self.cursor_pos && line.len()
                < usize::MAX,
            _ => true,
        }
    }

    /// Takes a key.
    pub fn handle_key(&mut self, key: Key) -> (cmd: InputCmd)
        requires
            old(self)@.wf(),
            old(self)@.accepts(key),
        ensures
            final(self)@.wf(),
            final(self)@ == old(self)@.after(key),
            cmd@ == old(self)@.command(key),
    {
        match key {
            Key::Esc => InputCmd::Quit,
            Key::Enter => {
                let cmd = string_of(&self.line_buf[self.line_idx]);
                if is_word(&cmd, "quit") {
                    InputCmd::Quit
                } else {
                    let ghost line = self@.line();
                    let ghost hist = self@.hist;
                    let entered = copy_line(&self.line_buf[self.line_idx]);
                    self.line_hist.push(entered);
                    assert(lines_view(self.line_hist@) =~= hist.push(line));
                    let mut line_buf = copy_lines(&self.line_hist);
                    let ghost copied = line_buf@;
                    line_buf.push(Vec::new());
                    assert(lines_view(line_buf@) =~= lines_view(copied).push(Seq::empty()));
                    self.line_idx = line_buf.len() - 1;
                    self.line_buf = line_buf;
                    self.line_pos = 0;
                    self.cursor_pos = 0;
                    InputCmd::Equation(cmd)
                }
            },
            Key::Backspace => {
                if self.line_pos > 0 {
                    let ghost before = self@;
                    self.line_pos -= 1;
                    self.remove_char();
                    self.cursor_pos -= 1;
                    assert(self@ == before.after(key));
                }
                InputCmd::Nothing
            },
            Key::Delete => {
                if self.line_pos < self.line_buf[self.line_idx].len() {
                    let ghost before = self@;
                    self.remove_char();
                    assert(self@ == before.after(key));
                }
                InputCmd::Nothing
            },
            Key::Up => {
                if self.line_idx > 0 {
                    self.line_idx -= 1;
                    self.line_pos = self.line_buf[self.line_idx].len();
                    self.cursor_pos = self.line_column_len();
                }
                InputCmd::Nothing
            },
            Key::Down => {
                if self.line_idx < self.line_buf.len() - 1 {
                    self.line_idx += 1;
                    self.line_pos = self.line_buf[self.line_idx].len();
                    self.cursor_pos = self.line_column_len();
                }
                InputCmd::Nothing
            },
            Key::Right => {
                if self.cursor_pos < self.line_column_len() {
                    assert(self.line_pos < self.line_buf[self.line_idx as int].len());
                    let ch = self.line_buf[self.line_idx][self.line_pos];
                    self.line_pos += 1;
                    self.cursor_pos += Self::width_of(ch);
                }
                InputCmd::Nothing
            },
            Key::Left => {
                if self.cursor_pos > 0 {
                    self.line_pos -= 1;
                    let ch = self.line_buf[self.line_idx][self.line_pos];
                    self.cursor_pos -= Self::width_of(ch);
                }
                InputCmd::Nothing
            },
            Key::Home => {
                self.line_pos = 0;
                self.cursor_pos = 0;
                InputCmd::Nothing
            },
            Key::End => {
                self.line_pos = self.line_buf[self.line_idx].len();
                self.cursor_pos = self.line_column_len();
                InputCmd::Nothing
            },
            Key::Char(ch) => {
                let ghost before = self@;
                self.insert_char(ch);
                self.line_pos += 1;
                self.cursor_pos += Self::width_of(ch);
                assert(self@ == before.after(key));
                InputCmd::Nothing
            },
            // These keys do nothing yet.
            Key::Insert | Key::PgUp | Key::PgDown => InputCmd::Nothing,
            _ => InputCmd::Nothing,
        }
    }

    /// Takes the character at the place out of the shown line.
    fn remove_char(&mut self)
        requires
            old(self)@.lines.len() == old(self)@.hist.len() + 1,
            0 <= old(self)@.idx < old(self)@.lines.len(),
            0 <= old(self)@.pos < old(self)@.line().len(),
        ensures
            final(self)@ == old(self)@.edit(
                old(self)@.line().remove(old(self)@.pos),
                old(self)@.pos,
                old(self)@.cursor,
            ),
    {
        let ghost before = self.line_buf@;
        let mut line: Vec<char> = Vec::new();
        core::mem::swap(&mut line, &mut self.line_buf[self.line_idx]);
        line.remove(self.line_pos);
        self.line_buf[self.line_idx] = line;
        assert(lines_view(self.line_buf@) =~= lines_view(before).update(
            self.line_idx as int,
            before[self.line_idx as int]@.remove(self.line_pos as int),
        ));
    }

    /// Puts a character into the shown line at the place.
    fn insert_char(&mut self, ch: char)
        requires
            old(self)@.wf(),
            old(self)@.line().len() < usize::MAX,
        ensures
            final(self)@ == old(self)@.edit(
                old(self)@.line().insert(old(self)@.pos, ch),
                old(self)@.pos,
                old(self)@.cursor,
            ),
    {
        let ghost before = self.line_buf@;
        let mut line: Vec<char> = Vec::new();
        core::mem::swap(&mut line, &mut self.line_buf[self.line_idx]);
        line.insert(self.line_pos, ch);
        self.line_buf[self.line_idx] = line;
        assert(lines_view(self.line_buf@) =~= lines_view(before).update(
            self.line_idx as int,
            before[self.line_idx as int]@.insert(self.line_pos as int, ch),
        ));
    }
}

} // verus!
