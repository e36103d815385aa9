//! The editor: a three-state modal machine (editing, saving, loading)
//! layered over the text buffer engine. The saving and loading modes gather
//! a path one character at a time and ask the surrounding program to
//! perform the write or read on confirmation.

use vstd::prelude::*;

use crate::buffer::{
    delete_m, insert_char_m, insert_newline_m, move_down_m, move_left_m, move_right_m, move_up_m,
    BufferModel, EditState,
};
use crate::keys::Key;

verus! {

/// The editor's modal state. The path of the saving and loading modes
/// accumulates typed characters and is discarded on return to editing.
pub enum State {
    Editing,
    Saving(Vec<char>),
    Loading(Vec<char>),
}

/// The modal state as a mathematical value.
pub ghost enum StateModel {
    Editing,
    Saving(Seq<char>),
    Loading(Seq<char>),
}

impl View for State {
    type V = StateModel;

    open spec fn view(&self) -> StateModel {
        match self {
            State::Editing => StateModel::Editing,
            State::Saving(p) => StateModel::Saving(p@),
            State::Loading(p) => StateModel::Loading(p@),
        }
    }
}

/// What the surrounding program must do after one update step.
pub enum EditorAction {
    /// Paint the current state, then wait for the next event.
    Render,
    /// A mode transition happened: run one more update with no event, so
    /// the new mode is painted before the next keystroke.
    Rerender,
    /// Write the buffer's text to the file at this path, then update once
    /// more with no event; a failed write terminates the process.
    Save(Vec<char>),
    /// Read the file at this path, hand its text to `finish_load`, then
    /// update once more with no event; a failed read terminates the process.
    Load(Vec<char>),
    /// Terminate the process.
    Exit,
}

/// The action as a mathematical value.
pub ghost enum ActionModel {
    Render,
    Rerender,
    Save(Seq<char>),
    Load(Seq<char>),
    Exit,
}

impl View for EditorAction {
    type V = ActionModel;

    open spec fn view(&self) -> ActionModel {
        match self {
            EditorAction::Render => ActionModel::Render,
            EditorAction::Rerender => ActionModel::Rerender,
            EditorAction::Save(p) => ActionModel::Save(p@),
            EditorAction::Load(p) => ActionModel::Load(p@),
            EditorAction::Exit => ActionModel::Exit,
        }
    }
}

/// The whole editor as a mathematical value.
pub ghost struct EditorModel {
    pub state: StateModel,
    pub buf: BufferModel,
}

/// One key in editing mode: printable characters splice into the buffer,
/// the arrows move the cursor, Tab and Insert open the saving and loading
/// modes, and Esc asks for termination.
pub open spec fn editing_step(m: EditorModel, k: Key) -> (EditorModel, ActionModel) {
    match k {
        Key::Char(c) => if c != '\n' {
            (
                EditorModel { state: m.state, buf: insert_char_m(m.buf, c) },
                ActionModel::Render,
            )
        } else {
            (m, ActionModel::Render)
        },
        Key::Backspace => (
            EditorModel { state: m.state, buf: delete_m(m.buf) },
            ActionModel::Render,
        ),
        Key::Enter => (
            EditorModel { state: m.state, buf: insert_newline_m(m.buf) },
            ActionModel::Render,
        ),
        Key::Left => (EditorModel { state: m.state, buf: move_left_m(m.buf) }, ActionModel::Render),
        Key::Right => (
            EditorModel { state: m.state, buf: move_right_m(m.buf) },
            ActionModel::Render,
        ),
        Key::Up => (EditorModel { state: m.state, buf: move_up_m(m.buf) }, ActionModel::Render),
        Key::Down => (EditorModel { state: m.state, buf: move_down_m(m.buf) }, ActionModel::Render),
        Key::Tab => (
            EditorModel { state: StateModel::Saving(Seq::empty()), buf: m.buf },
            ActionModel::Rerender,
        ),
        Key::Insert => (
            EditorModel { state: StateModel::Loading(Seq::empty()), buf: m.buf },
            ActionModel::Rerender,
        ),
        Key::Esc => (m, ActionModel::Exit),
    }
}

/// The full modal transition table: what one event does to the editor in
/// each of its three states, and what it asks of the surrounding program.
pub open spec fn editor_step(m: EditorModel, event: Option<Key>) -> (EditorModel, ActionModel) {
    match event {
        Option::None => (m, ActionModel::Render),
        Option::Some(k) => match m.state {
            StateModel::Editing => editing_step(m, k),
            StateModel::Saving(p) => match k {
                Key::Char(c) => (
                    EditorModel { state: StateModel::Saving(p.push(c)), buf: m.buf },
                    ActionModel::Render,
                ),
                Key::Enter => (
                    EditorModel { state: StateModel::Editing, buf: m.buf },
                    ActionModel::Save(p),
                ),
                Key::Esc => (
                    EditorModel { state: StateModel::Editing, buf: m.buf },
                    ActionModel::Rerender,
                ),
                _ => (m, ActionModel::Render),
            },
            StateModel::Loading(p) => match k {
                Key::Char(c) => (
                    EditorModel { state: StateModel::Loading(p.push(c)), buf: m.buf },
                    ActionModel::Render,
                ),
                Key::Enter => (
                    EditorModel { state: StateModel::Editing, buf: m.buf },
                    ActionModel::Load(p),
                ),
                Key::Esc => (
                    EditorModel { state: StateModel::Editing, buf: m.buf },
                    ActionModel::Rerender,
                ),
                _ => (m, ActionModel::Render),
            },
        },
    }
}

/// The editor: the modal state and the buffer with its cursor.
pub struct Editor {
    pub state: State,
    pub edit_state: EditState,
}

impl View for Editor {
    type V = EditorModel;

    open spec fn view(&self) -> EditorModel {
        EditorModel { state: self.state@, buf: self.edit_state@ }
    }
}

impl Editor {
    /// The editor's invariant is the buffer's cursor invariant.
    pub open spec fn wf(self) -> bool {
        self.edit_state.wf()
    }

    /// A fresh editor: editing mode, empty buffer, cursor at the origin.
    pub fn new() -> (r: Editor)
        ensures
            r.wf(),
            r@.state is Editing,
            r@.buf.text == Seq::<char>::empty(),
            r@.buf.row == 0,
            r@.buf.col == 0,
    {
        Editor { state: State::Editing, edit_state: EditState::new() }
    }

    /// An editor opened on a file's text, as the dispatcher builds it when
    /// the file browser hands control over: editing mode, cursor reset to
    /// the origin.
    pub fn open(contents: Vec<char>) -> (r: Editor)
        ensures
            r.wf(),
            r@.state is Editing,
            r@.buf.text == contents@,
            r@.buf.row == 0,
            r@.buf.col == 0,
    {
        Editor { state: State::Editing, edit_state: EditState::from_text(contents) }
    }

    /// Replace the buffer with freshly loaded text and return to editing,
    /// as the loading mode's confirmation asks once the read succeeded.
    pub fn finish_load(&mut self, contents: Vec<char>)
        ensures
            final(self).wf(),
            final(self)@.state is Editing,
            final(self)@.buf.text == contents@,
            final(self)@.buf.row == 0,
            final(self)@.buf.col == 0,
    {
        self.edit_state = EditState::from_text(contents);
        self.state = State::Editing;
    }

    /// Feed one event (or none, for a forced repaint) through the modal
    /// transition table.
    pub fn update(&mut self, event: Option<Key>) -> (a: EditorAction)
        requires
            old(self).wf(),
        ensures
            final(self).wf(),
            final(self)@ == editor_step(old(self)@, event).0,
            a@ == editor_step(old(self)@, event).1,
    {
        match event {
            Option::None => EditorAction::Render,
            Option::Some(k) => {
                let mut st = State::Editing;
                core::mem::swap(&mut st, &mut self.state);
                match st {
                    State::Editing => match k {
                        Key::Char(c) => {
                            if c != '\n' {
                                self.edit_state.insert_char(c);
                            }
                            EditorAction::Render
                        },
                        Key::Backspace => {
                            self.edit_state.delete_before_cursor();
                            EditorAction::Render
                        },
                        Key::Enter => {
                            self.edit_state.insert_newline();
                            EditorAction::Render
                        },
                        Key::Left => {
                            self.edit_state.move_left();
                            EditorAction::Render
                        },
                        Key::Right => {
                            self.edit_state.move_right();
                            EditorAction::Render
                        },
                        Key::Up => {
                            self.edit_state.move_up();
                            EditorAction::Render
                        },
                        Key::Down => {
                            self.edit_state.move_down();
                            EditorAction::Render
                        },
                        Key::Tab => {
                            self.state = State::Saving(Vec::new());
                            EditorAction::Rerender
                        },
                        Key::Insert => {
                            self.state = State::Loading(Vec::new());
                            EditorAction::Rerender
                        },
                        Key::Esc => EditorAction::Exit,
                    },
                    State::Saving(mut p) => match k {
                        Key::Char(c) => {
                            p.push(c);
                            self.state = State::Saving(p);
                            EditorAction::Render
                        },
                        Key::Enter => EditorAction::Save(p),
                        Key::Esc => EditorAction::Rerender,
                        _ => {
                            self.state = State::Saving(p);
                            EditorAction::Render
                        },
                    },
                    State::Loading(mut p) => match k {
                        Key::Char(c) => {
                            p.push(c);
                            self.state = State::Loading(p);
                            EditorAction::Render
                        },
                        Key::Enter => EditorAction::Load(p),
                        Key::Esc => EditorAction::Rerender,
                        _ => {
                            self.state = State::Loading(p);
                            EditorAction::Render
                        },
                    },
                }
            },
        }
    }
}

/// Law: Esc while editing asks for termination and touches nothing: the
/// buffer, cursor and mode stand exactly as they stood. (In the saving and
/// loading modes Esc instead discards the path and returns to editing.)
pub proof fn lemma_esc_exits_editor(m: EditorModel)
    requires
        m.state is Editing,
    ensures
        editor_step(m, Option::Some(Key::Esc)).0 == m,
        editor_step(m, Option::Some(Key::Esc)).1 == ActionModel::Exit,
{
}

} // verus!
