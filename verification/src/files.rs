//! The file browser: a directory view with a selected row. Every update is
//! handed a fresh listing of the current directory, so the view always
//! reflects the live filesystem; a synthetic parent entry stands at the row
//! index equal to the entry count. Selecting a regular file issues a switch
//! request for the editor through the call context.

use vstd::prelude::*;

use crate::buffer::clamped;
use crate::context::Context;
use crate::keys::Key;
use crate::text::{chars_eq, chars_to_string, clone_chars, names_view, path_text, render_path};

verus! {

/// What a directory entry is, as far as the browser cares.
#[derive(Clone, Copy, PartialEq, Eq, Structural, Debug)]
pub enum EntryKind {
    File,
    Directory,
    /// Anything else (a device, a dangling link): selecting it does nothing.
    Other,
}

/// One directory entry: its bare name and its kind.
pub struct Entry {
    pub name: Vec<char>,
    pub kind: EntryKind,
}

/// An entry as a mathematical value.
pub ghost struct EntryModel {
    pub name: Seq<char>,
    pub kind: EntryKind,
}

impl View for Entry {
    type V = EntryModel;

    open spec fn view(&self) -> EntryModel {
        EntryModel { name: self.name@, kind: self.kind }
    }
}

/// The views of a listing.
pub open spec fn entries_view(entries: Seq<Entry>) -> Seq<EntryModel> {
    Seq::new(entries.len(), |i: int| entries[i]@)
}

/// The browser as a mathematical value: the selected row and the current
/// directory as its components from the filesystem root.
#[verifier::ext_equal]
pub ghost struct FilesModel {
    pub row: nat,
    pub directory: Seq<Seq<char>>,
}

/// What the surrounding program must do after one update step.
pub enum FilesAction {
    /// Paint the fresh listing, then wait for the next event.
    Render,
    /// The directory changed: re-read it and update once more with no
    /// event, so the new listing is painted before the next keystroke.
    Rerender,
    /// Moved to the parent directory: re-read it, restore the selection
    /// with `finish_ascend` on this name, then update once more with no
    /// event.
    AscendTo(Vec<char>),
    /// The synthetic parent entry was chosen at the filesystem root, where
    /// no parent exists: the error propagates and the process terminates.
    Fail,
    /// Terminate the process.
    Exit,
}

/// The action as a mathematical value.
pub ghost enum FilesActionModel {
    Render,
    Rerender,
    AscendTo(Seq<char>),
    Fail,
    Exit,
}

impl View for FilesAction {
    type V = FilesActionModel;

    open spec fn view(&self) -> FilesActionModel {
        match self {
            FilesAction::Render => FilesActionModel::Render,
            FilesAction::Rerender => FilesActionModel::Rerender,
            FilesAction::AscendTo(n) => FilesActionModel::AscendTo(n@),
            FilesAction::Fail => FilesActionModel::Fail,
            FilesAction::Exit => FilesActionModel::Exit,
        }
    }
}

/// A switch request as a mathematical value: the target's name and its
/// argument.
pub ghost struct RequestModel {
    pub application_type: Seq<char>,
    pub arguments: Seq<char>,
}

/// The browser's transition table: what one event does to the view over a
/// fresh listing, what it asks of the surrounding program, and the switch
/// request it issues, if any. The stored row is first clamped onto the
/// listing, whose selectable range ends at the synthetic parent row.
pub open spec fn files_step(m: FilesModel, event: Option<Key>, entries: Seq<EntryModel>) -> (
    FilesModel,
    FilesActionModel,
    Option<RequestModel>,
) {
    let n = entries.len();
    let row0 = clamped(m.row, n);
    let m0 = FilesModel { row: row0, directory: m.directory };
    match event {
        Option::None => (m0, FilesActionModel::Render, Option::<RequestModel>::None),
        Option::Some(k) => match k {
            Key::Down => (
                FilesModel { row: clamped((row0 + 1) as nat, n), directory: m.directory },
                FilesActionModel::Render,
                Option::<RequestModel>::None,
            ),
            Key::Up => (
                FilesModel {
                    row: if row0 > 0 {
                        (row0 - 1) as nat
                    } else {
                        0
                    },
                    directory: m.directory,
                },
                FilesActionModel::Render,
                Option::<RequestModel>::None,
            ),
            Key::Enter => if row0 < n {
                let e = entries[row0 as int];
                match e.kind {
                    EntryKind::File => (
                        m0,
                        FilesActionModel::Render,
                        Option::Some(
                            RequestModel {
                                application_type: "editor"@,
                                arguments: path_text(m.directory.push(e.name)),
                            },
                        ),
                    ),
                    EntryKind::Directory => (
                        FilesModel { row: 0, directory: m.directory.push(e.name) },
                        FilesActionModel::Rerender,
                        Option::<RequestModel>::None,
                    ),
                    EntryKind::Other => (
                        m0,
                        FilesActionModel::Render,
                        Option::<RequestModel>::None,
                    ),
                }
            } else {
                if m.directory.len() == 0 {
                    (m0, FilesActionModel::Fail, Option::<RequestModel>::None)
                } else {
                    (
                        FilesModel { row: 0, directory: m.directory.drop_last() },
                        FilesActionModel::AscendTo(m.directory.last()),
                        Option::<RequestModel>::None,
                    )
                }
            },
            Key::Esc => (m0, FilesActionModel::Exit, Option::<RequestModel>::None),
            _ => (m0, FilesActionModel::Render, Option::<RequestModel>::None),
        },
    }
}

/// The first row whose entry bears the given name, if any.
pub open spec fn first_index(entries: Seq<EntryModel>, name: Seq<char>) -> Option<int>
    decreases entries.len(),
{
    if entries.len() == 0 {
        Option::None
    } else if entries[0].name == name {
        Option::Some(0)
    } else {
        match first_index(entries.skip(1), name) {
            Option::Some(i) => Option::Some(i + 1),
            Option::None => Option::None,
        }
    }
}

/// Where the first matching row lies, if anywhere.
pub proof fn lemma_first_index(entries: Seq<EntryModel>, name: Seq<char>)
    ensures
        (match first_index(entries, name) {
            Option::Some(i) => 0 <= i < entries.len() && entries[i].name == name && forall|j: int|
                0 <= j < i ==> entries[j].name != name,
            Option::None => forall|j: int| 0 <= j < entries.len() ==> entries[j].name != name,
        }),
    decreases entries.len(),
{
    if entries.len() != 0 && entries[0].name != name {
        lemma_first_index(entries.skip(1), name);
        match first_index(entries.skip(1), name) {
            Option::Some(i) => {
                assert(entries.skip(1)[i] == entries[i + 1]);
                assert forall|j: int| 0 <= j < i + 1 implies entries[j].name != name by {
                    if j >= 1 {
                        assert(entries.skip(1)[j - 1] == entries[j]);
                    }
                }
            },
            Option::None => {
                assert forall|j: int| 0 <= j < entries.len() implies entries[j].name != name by {
                    if j >= 1 {
                        assert(entries.skip(1)[j - 1] == entries[j]);
                    }
                }
            },
        }
    }
}

/// A name that first occurs at row `i` is found there.
pub proof fn lemma_first_index_is(entries: Seq<EntryModel>, name: Seq<char>, i: int)
    requires
        0 <= i < entries.len(),
        entries[i].name == name,
        forall|j: int| 0 <= j < i ==> entries[j].name != name,
    ensures
        first_index(entries, name) == Option::Some(i),
{
    lemma_first_index(entries, name);
    match first_index(entries, name) {
        Option::Some(i2) => {
            if i2 < i {
                assert(entries[i2].name != name);
            } else if i2 > i {
                assert(entries[i].name != name);
            }
        },
        Option::None => {
            assert(entries[i].name != name);
        },
    }
}

/// The file browser's state: the selected row and the current directory as
/// its components from the filesystem root.
pub struct Files {
    pub row: usize,
    pub directory: Vec<Vec<char>>,
}

impl View for Files {
    type V = FilesModel;

    open spec fn view(&self) -> FilesModel {
        FilesModel { row: self.row as nat, directory: names_view(self.directory@) }
    }
}

impl Files {
    /// A browser opened on the given directory (the surrounding program
    /// passes the working directory it starts in), the first row selected.
    pub fn new(directory: Vec<Vec<char>>) -> (r: Files)
        ensures
            r@.row == 0,
            r@.directory == names_view(directory@),
    {
        Files { row: 0, directory }
    }

    /// Feed one event (or none, for a forced repaint) through the browser's
    /// transition table, over a fresh listing of the current directory. A
    /// selected regular file becomes a switch request for the editor,
    /// carrying the file's absolute path.
    pub fn update(&mut self, event: Option<Key>, entries: &Vec<Entry>, context: &mut Context) -> (a:
        FilesAction)
        ensures
            final(self)@ == files_step(old(self)@, event, entries_view(entries@)).0,
            a@ == files_step(old(self)@, event, entries_view(entries@)).1,
            (match files_step(old(self)@, event, entries_view(entries@)).2 {
                Option::Some(r) => final(context).request matches Option::Some(sr)
                    && sr.application_type@ == r.application_type && sr.arguments@ == r.arguments,
                Option::None => final(context).request == old(context).request,
            }),
            final(self)@.row <= entries@.len(),
    {
        let ghost em = entries_view(entries@);
        if self.row > entries.len() {
            self.row = entries.len();
        }
        match event {
            Option::None => FilesAction::Render,
            Option::Some(k) => match k {
                Key::Down => {
                    if self.row < entries.len() {
                        self.row = self.row + 1;
                    }
                    FilesAction::Render
                },
                Key::Up => {
                    if self.row > 0 {
                        self.row = self.row - 1;
                    }
                    FilesAction::Render
                },
                Key::Enter => {
                    if self.row < entries.len() {
                        proof {
                            assert(em[self.row as int] == entries@[self.row as int]@);
                        }
                        let kind = entries[self.row].kind;
                        match kind {
                            EntryKind::File => {
                                let path = render_path(&self.directory, &entries[self.row].name);
                                context.call("editor".to_owned(), chars_to_string(&path));
                                FilesAction::Render
                            },
                            EntryKind::Directory => {
                                let name = clone_chars(&entries[self.row].name);
                                self.directory.push(name);
                                self.row = 0;
                                proof {
                                    assert(names_view(self.directory@) =~= names_view(
                                        old(self).directory@,
                                    ).push(em[old(self)@.row as int].name));
                                }
                                FilesAction::Rerender
                            },
                            EntryKind::Other => FilesAction::Render,
                        }
                    } else {
                        if self.directory.len() == 0 {
                            FilesAction::Fail
                        } else {
                            let name = self.directory.pop().unwrap();
                            self.row = 0;
                            proof {
                                assert(names_view(self.directory@) =~= names_view(
                                    old(self).directory@,
                                ).drop_last());
                                assert(name@ == names_view(old(self).directory@).last());
                            }
                            FilesAction::AscendTo(name)
                        }
                    }
                },
                Key::Esc => FilesAction::Exit,
                _ => FilesAction::Render,
            },
        }
    }

    /// After ascending, restore the selection to the directory just left:
    /// set the row to the first entry in the parent's fresh listing bearing
    /// the recorded name. Returns false, changing nothing, where no entry
    /// bears it (the directory vanished meanwhile): the caller treats that
    /// as the failure it is.
    pub fn finish_ascend(&mut self, name: &Vec<char>, entries: &Vec<Entry>) -> (ok: bool)
        ensures
            final(self).directory == old(self).directory,
            (match first_index(entries_view(entries@), name@) {
                Option::Some(i) => ok && final(self).row == i,
                Option::None => !ok && final(self).row == old(self).row,
            }),
    {
        let ghost em = entries_view(entries@);
        let mut i: usize = 0;
        while i < entries.len()
            invariant
                i <= entries.len(),
                em == entries_view(entries@),
                forall|j: int| 0 <= j < i ==> em[j].name != name@,
                self.directory == old(self).directory,
                self.row == old(self).row,
            decreases entries.len() - i,
        {
            if chars_eq(&entries[i].name, name) {
                self.row = i;
                proof {
                    assert(em[i as int].name == name@);
                    lemma_first_index_is(em, name@, i as int);
                }
                return true;
            }
            proof {
                assert(em[i as int].name == entries@[i as int].name@);
            }
            i = i + 1;
        }
        proof {
            lemma_first_index(em, name@);
            if first_index(em, name@) is Some {
                let i0 = first_index(em, name@)->Some_0;
                assert(em[i0].name != name@);
            }
        }
        false
    }
}

/// Law: entering a subdirectory and then choosing the synthetic parent
/// entry brings the selection back to the subdirectory's own row: the
/// descent pushes its name onto the directory, the ascent pops it off
/// again, and the recorded name is found at the row it was entered from,
/// provided the parent's listing still shows it there.
pub proof fn lemma_descend_then_ascend(
    m: FilesModel,
    entries: Seq<EntryModel>,
    child_entries: Seq<EntryModel>,
)
    requires
        m.row < entries.len(),
        entries[m.row as int].kind is Directory,
        forall|j: int|
            0 <= j < m.row ==> (#[trigger] entries[j]).name != entries[m.row as int].name,
    ensures
        ({
            let name = entries[m.row as int].name;
            let descended = files_step(m, Option::Some(Key::Enter), entries).0;
            let at_parent = FilesModel {
                row: child_entries.len(),
                directory: descended.directory,
            };
            let ascended = files_step(at_parent, Option::Some(Key::Enter), child_entries);
            descended.row == 0 && descended.directory == m.directory.push(name) && ascended.0.directory
                == m.directory && ascended.1 == FilesActionModel::AscendTo(name) && first_index(
                entries,
                name,
            ) == Option::Some(m.row as int)
        }),
{
    let name = entries[m.row as int].name;
    assert(m.directory.push(name).drop_last() =~= m.directory);
    lemma_first_index_is(entries, name, m.row as int);
}

/// Law: Esc in the browser asks for termination and touches nothing: the
/// directory and the selection stand as they stood, and no switch request
/// is issued.
pub proof fn lemma_esc_exits_files(m: FilesModel, entries: Seq<EntryModel>)
    requires
        m.row <= entries.len(),
    ensures
        files_step(m, Option::Some(Key::Esc), entries).0 == m,
        files_step(m, Option::Some(Key::Esc), entries).1 == FilesActionModel::Exit,
        files_step(m, Option::Some(Key::Esc), entries).2 is None,
{
    assert(files_step(m, Option::Some(Key::Esc), entries).0 =~= m);
}

} // verus!
