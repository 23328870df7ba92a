//! The editor state: every open buffer's piece table, metadata, cursor,
//! and undo/redo stacks, keyed by buffer identifier.

use vstd::prelude::*;
use std::collections::HashMap;
use crate::buffer::meta;
use crate::commands::editor::Command;
use crate::cursor;
use crate::piece_table::piece::Table;
use crate::piece_table::TableError;
use crate::types::buffer::ID;
use crate::types::Position;

verus! {

broadcast use vstd::std_specs::hash::group_hash_axioms;

/// Relies on `std::time::SystemTime` (through `UNIX_EPOCH.elapsed`): the
/// number of milliseconds since the Unix epoch as the machine reports it.
/// Nothing is assumed of the value.
#[verifier::external_body]
fn current_time_millis() -> u64 {
    std::time::UNIX_EPOCH.elapsed().map(|d| d.as_millis() as u64).unwrap_or(0)
}

/// The state of the editor: buffers, metadata, cursors, the active
/// buffer, and undo/redo stacks, all keyed by the buffer ID's value.
pub struct State {
    /// Maps buffer IDs to their piece tables.
    pub buffers: HashMap<u128, Table>,
    /// Maps buffer IDs to their metadata.
    pub buffer_metadata: HashMap<u128, meta::Data>,
    /// Maps buffer IDs to their cursor states.
    pub cursors: HashMap<u128, cursor::State>,
    /// The currently active buffer, if any.
    pub active_buffer: Option<ID>,
    /// Undo stack for each buffer.
    pub undo_stack: HashMap<u128, Vec<Command>>,
    /// Redo stack for each buffer.
    pub redo_stack: HashMap<u128, Vec<Command>>,
}

impl State {
    /// Every piece table held by the registry is well-formed.
    pub open spec fn wf(self) -> bool {
        forall|k: u128| self.buffers@.dom().contains(k) ==> (#[trigger] self.buffers@[k]).wf()
    }

    /// Whether executing the command stays within the machine limits the
    /// piece table puts on insertions and new buffers.
    pub open spec fn command_fits(self, command: Command) -> bool {
        match command {
            Command::InsertText { buffer_id, offset, text } => self.buffers@.dom().contains(
                buffer_id.0,
            ) ==> self.buffers@[buffer_id.0].spec_len() + text@.len() < usize::MAX,
            Command::NewBuffer { content } => content@.len() < usize::MAX,
            _ => true,
        }
    }

    /// Creates a new editor state with no buffers.
    pub fn new() -> (s: Self)
        ensures
            s.wf(),
            s.buffers@ == Map::<u128, Table>::empty(),
            s.buffer_metadata@ == Map::<u128, meta::Data>::empty(),
            s.cursors@ == Map::<u128, cursor::State>::empty(),
            s.active_buffer is None,
            s.undo_stack@ == Map::<u128, Vec<Command>>::empty(),
            s.redo_stack@ == Map::<u128, Vec<Command>>::empty(),
    {
        Self {
            buffers: HashMap::new(),
            buffer_metadata: HashMap::new(),
            cursors: HashMap::new(),
            active_buffer: None,
            undo_stack: HashMap::new(),
            redo_stack: HashMap::new(),
        }
    }

    /// Creates a new buffer holding the given content, with fresh
    /// metadata, a cursor at the origin, and empty undo/redo stacks; the
    /// buffer becomes active when none was.
    pub fn create_buffer(&mut self, content: String) -> (r: ID)
        requires
            old(self).wf(),
            content@.len() < usize::MAX,
        ensures
            final(self).wf(),
            final(self).buffers@.dom() == old(self).buffers@.dom().insert(r.0),
            final(self).buffers@[r.0].wf(),
            final(self).buffers@[r.0].text_view() == content@,
            forall|k: u128|
                k != r.0 && old(self).buffers@.dom().contains(k) ==> final(self).buffers@[k] == old(
                    self,
                ).buffers@[k],
            final(self).buffer_metadata@.dom() == old(self).buffer_metadata@.dom().insert(r.0),
            final(self).buffer_metadata@[r.0].file_path is None,
            final(self).buffer_metadata@[r.0].language is None,
            !final(self).buffer_metadata@[r.0].modified,
            final(self).cursors@.dom() == old(self).cursors@.dom().insert(r.0),
            final(self).cursors@[r.0].position == (Position { line: 0, column: 0 }),
            final(self).cursors@[r.0].selection is None,
            final(self).cursors@[r.0].buffer_id == r,
            final(self).undo_stack@.dom() == old(self).undo_stack@.dom().insert(r.0),
            final(self).undo_stack@[r.0]@.len() == 0,
            final(self).redo_stack@.dom() == old(self).redo_stack@.dom().insert(r.0),
            final(self).redo_stack@[r.0]@.len() == 0,
            final(self).active_buffer == if old(self).active_buffer is None {
                Some(r)
            } else {
                old(self).active_buffer
            },
    {
        let buffer_id = ID::new();
        let piece_table = Table::new(content);
        self.buffers.insert(buffer_id.0, piece_table);
        self.buffer_metadata.insert(
            buffer_id.0,
            meta::Data {
                file_path: None,
                language: None,
                modified: false,
                created_at: current_time_millis(),
            },
        );
        self.cursors.insert(
            buffer_id.0,
            cursor::State {
                position: Position { line: 0, column: 0 },
                selection: None,
                buffer_id,
            },
        );
        self.undo_stack.insert(buffer_id.0, Vec::new());
        self.redo_stack.insert(buffer_id.0, Vec::new());
        if self.active_buffer.is_none() {
            self.active_buffer = Some(buffer_id);
        }
        buffer_id
    }

    /// Marks the given buffer as modified in its metadata; a buffer the
    /// registry does not know is left alone.
    fn mark_buffer_modified(&mut self, buffer_id: ID)
        ensures
            final(self).buffers@ == old(self).buffers@,
            final(self).cursors@ == old(self).cursors@,
            final(self).undo_stack@ == old(self).undo_stack@,
            final(self).redo_stack@ == old(self).redo_stack@,
            final(self).active_buffer == old(self).active_buffer,
            final(self).buffer_metadata@.dom() == old(self).buffer_metadata@.dom(),
            !old(self).buffer_metadata@.dom().contains(buffer_id.0) ==> final(self).buffer_metadata@ == old(self).buffer_metadata@,
            old(self).buffer_metadata@.dom().contains(buffer_id.0) ==> {
                &&& final(self).buffer_metadata@[buffer_id.0].modified
                &&& final(self).buffer_metadata@[buffer_id.0].file_path == old(
                    self,
                ).buffer_metadata@[buffer_id.0].file_path
                &&& final(self).buffer_metadata@[buffer_id.0].language == old(
                    self,
                ).buffer_metadata@[buffer_id.0].language
                &&& final(self).buffer_metadata@[buffer_id.0].created_at == old(
                    self,
                ).buffer_metadata@[buffer_id.0].created_at
                &&& forall|k: u128|
                    k != buffer_id.0 && old(self).buffer_metadata@.dom().contains(k) ==> final(self).buffer_metadata@[k] == old(self).buffer_metadata@[k]
            },
    {
        match self.buffer_metadata.remove(&buffer_id.0) {
            Some(data) => {
                self.buffer_metadata.insert(
                    buffer_id.0,
                    meta::Data { modified: true, ..data },
                );
                proof {
                    assert(self.buffer_metadata@.dom() =~= old(self).buffer_metadata@.dom());
                }
            },
            None => {
                proof {
                    assert(self.buffer_metadata@ =~= old(self).buffer_metadata@);
                }
            },
        }
    }

    /// Executes an editor command.
    ///
    /// Text commands translate one-to-one into piece table operations on
    /// the addressed buffer and mark it modified on success; a command
    /// addressing an unknown buffer does nothing and succeeds, as does a
    /// cursor or metadata command.  A failed table operation reports the
    /// table's error and leaves every buffer as it was.
    pub fn execute_command(&mut self, command: Command) -> (r: Result<(), TableError>)
        requires
            old(self).wf(),
            old(self).command_fits(command),
        ensures
            final(self).wf(),
            !(command is NewBuffer) ==> final(self).undo_stack@ == old(self).undo_stack@ && final(self).redo_stack@ == old(self).redo_stack@ && final(self).active_buffer == old(
                self,
            ).active_buffer,
            match command {
                Command::InsertText { buffer_id, offset, text } => {
                    if old(self).buffers@.dom().contains(buffer_id.0) {
                        let t0 = old(self).buffers@[buffer_id.0];
                        if offset <= t0.spec_len() {
                            &&& r is Ok
                            &&& final(self).buffers@.dom() == old(self).buffers@.dom()
                            &&& final(self).buffers@[buffer_id.0].text_view()
                                == t0.text_view().subrange(0, offset as int) + text@
                                + t0.text_view().subrange(offset as int, t0.spec_len())
                            &&& forall|k: u128|
                                k != buffer_id.0 && old(self).buffers@.dom().contains(k) ==> final(self).buffers@[k] == old(self).buffers@[k]
                            &&& (old(self).buffer_metadata@.dom().contains(buffer_id.0) ==> final(self).buffer_metadata@[buffer_id.0].modified)
                            &&& final(self).cursors@ == old(self).cursors@
                        } else {
                            &&& r == Result::<(), TableError>::Err(TableError::OffsetOutOfBounds)
                            &&& final(self).buffers@ == old(self).buffers@
                            &&& final(self).buffer_metadata@ == old(self).buffer_metadata@
                            &&& final(self).cursors@ == old(self).cursors@
                        }
                    } else {
                        r is Ok && final(self).buffers@ == old(self).buffers@ && final(self).buffer_metadata@ == old(self).buffer_metadata@ && final(self).cursors@
                            == old(self).cursors@
                    }
                },
                Command::DeleteText { buffer_id, start, length } => {
                    if old(self).buffers@.dom().contains(buffer_id.0) {
                        let t0 = old(self).buffers@[buffer_id.0];
                        if start + length <= t0.spec_len() {
                            &&& r is Ok
                            &&& final(self).buffers@.dom() == old(self).buffers@.dom()
                            &&& final(self).buffers@[buffer_id.0].text_view()
                                == t0.text_view().subrange(0, start as int)
                                + t0.text_view().subrange(start + length, t0.spec_len())
                            &&& forall|k: u128|
                                k != buffer_id.0 && old(self).buffers@.dom().contains(k) ==> final(self).buffers@[k] == old(self).buffers@[k]
                            &&& (old(self).buffer_metadata@.dom().contains(buffer_id.0) ==> final(self).buffer_metadata@[buffer_id.0].modified)
                            &&& final(self).cursors@ == old(self).cursors@
                        } else {
                            &&& r == Result::<(), TableError>::Err(TableError::RangeOutOfBounds)
                            &&& final(self).buffers@ == old(self).buffers@
                            &&& final(self).buffer_metadata@ == old(self).buffer_metadata@
                            &&& final(self).cursors@ == old(self).cursors@
                        }
                    } else {
                        r is Ok && final(self).buffers@ == old(self).buffers@ && final(self).buffer_metadata@ == old(self).buffer_metadata@ && final(self).cursors@
                            == old(self).cursors@
                    }
                },
                Command::MoveCursor { buffer_id, position } => {
                    &&& r is Ok
                    &&& final(self).buffers@ == old(self).buffers@
                    &&& final(self).buffer_metadata@ == old(self).buffer_metadata@
                    &&& final(self).cursors@.dom() == old(self).cursors@.dom()
                    &&& (old(self).cursors@.dom().contains(buffer_id.0) ==> {
                        &&& final(self).cursors@[buffer_id.0].position == position
                        &&& final(self).cursors@[buffer_id.0].selection is None
                        &&& final(self).cursors@[buffer_id.0].buffer_id == old(
                            self,
                        ).cursors@[buffer_id.0].buffer_id
                        &&& forall|k: u128|
                            k != buffer_id.0 && old(self).cursors@.dom().contains(k) ==> final(self).cursors@[k] == old(self).cursors@[k]
                    })
                    &&& (!old(self).cursors@.dom().contains(buffer_id.0) ==> final(self).cursors@
                        == old(self).cursors@)
                },
                Command::SetSelection { buffer_id, range } => {
                    &&& r is Ok
                    &&& final(self).buffers@ == old(self).buffers@
                    &&& final(self).buffer_metadata@ == old(self).buffer_metadata@
                    &&& final(self).cursors@.dom() == old(self).cursors@.dom()
                    &&& (old(self).cursors@.dom().contains(buffer_id.0) ==> {
                        &&& final(self).cursors@[buffer_id.0].selection == Some(range)
                        &&& final(self).cursors@[buffer_id.0].position == old(
                            self,
                        ).cursors@[buffer_id.0].position
                        &&& final(self).cursors@[buffer_id.0].buffer_id == old(
                            self,
                        ).cursors@[buffer_id.0].buffer_id
                        &&& forall|k: u128|
                            k != buffer_id.0 && old(self).cursors@.dom().contains(k) ==> final(self).cursors@[k] == old(self).cursors@[k]
                    })
                    &&& (!old(self).cursors@.dom().contains(buffer_id.0) ==> final(self).cursors@
                        == old(self).cursors@)
                },
                Command::NewBuffer { content } => {
                    &&& r is Ok
                    &&& exists|idv: u128|
                        {
                            &&& final(self).buffers@.dom() == old(self).buffers@.dom().insert(idv)
                            &&& (#[trigger] final(self).buffers@[idv]).wf()
                            &&& final(self).buffers@[idv].text_view() == content@
                            &&& final(self).buffer_metadata@.dom() == old(
                                self,
                            ).buffer_metadata@.dom().insert(idv)
                            &&& final(self).buffer_metadata@[idv].file_path is None
                            &&& final(self).buffer_metadata@[idv].language is None
                            &&& !final(self).buffer_metadata@[idv].modified
                            &&& final(self).cursors@.dom() == old(self).cursors@.dom().insert(idv)
                            &&& final(self).cursors@[idv].position == (Position {
                                line: 0,
                                column: 0,
                            })
                            &&& final(self).cursors@[idv].selection is None
                            &&& final(self).cursors@[idv].buffer_id.0 == idv
                            &&& final(self).undo_stack@.dom() == old(
                                self,
                            ).undo_stack@.dom().insert(idv)
                            &&& final(self).undo_stack@[idv]@.len() == 0
                            &&& final(self).redo_stack@.dom() == old(
                                self,
                            ).redo_stack@.dom().insert(idv)
                            &&& final(self).redo_stack@[idv]@.len() == 0
                            &&& final(self).active_buffer == if old(self).active_buffer is None {
                                Some(final(self).cursors@[idv].buffer_id)
                            } else {
                                old(self).active_buffer
                            }
                        }
                },
                Command::SaveBuffer { buffer_id, file_path } => {
                    &&& r is Ok
                    &&& final(self).buffers@ == old(self).buffers@
                    &&& final(self).cursors@ == old(self).cursors@
                    &&& final(self).buffer_metadata@.dom() == old(self).buffer_metadata@.dom()
                    &&& (old(self).buffer_metadata@.dom().contains(buffer_id.0) ==> {
                        &&& final(self).buffer_metadata@[buffer_id.0].file_path == Some(file_path)
                        &&& !final(self).buffer_metadata@[buffer_id.0].modified
                        &&& forall|k: u128|
                            k != buffer_id.0 && old(self).buffer_metadata@.dom().contains(k)
                                ==> final(self).buffer_metadata@[k] == old(self).buffer_metadata@[k]
                    })
                    &&& (!old(self).buffer_metadata@.dom().contains(buffer_id.0) ==> final(self).buffer_metadata@ == old(self).buffer_metadata@)
                },
            },
    {
        match command {
            Command::InsertText { buffer_id, offset, text } => {
                match self.buffers.remove(&buffer_id.0) {
                    Some(mut buffer) => {
                        let res = buffer.insert(offset, text.as_str());
                        self.buffers.insert(buffer_id.0, buffer);
                        proof {
                            assert(self.buffers@.dom() =~= old(self).buffers@.dom());
                        }
                        match res {
                            Ok(()) => {
                                self.mark_buffer_modified(buffer_id);
                                Ok(())
                            },
                            Err(e) => {
                                proof {
                                    assert(self.buffers@ =~= old(self).buffers@);
                                }
                                Err(e)
                            },
                        }
                    },
                    None => Ok(()),
                }
            },
            Command::DeleteText { buffer_id, start, length } => {
                match self.buffers.remove(&buffer_id.0) {
                    Some(mut buffer) => {
                        let res = buffer.delete(start, length);
                        self.buffers.insert(buffer_id.0, buffer);
                        proof {
                            assert(self.buffers@.dom() =~= old(self).buffers@.dom());
                        }
                        match res {
                            Ok(()) => {
                                self.mark_buffer_modified(buffer_id);
                                Ok(())
                            },
                            Err(e) => {
                                proof {
                                    assert(self.buffers@ =~= old(self).buffers@);
                                }
                                Err(e)
                            },
                        }
                    },
                    None => Ok(()),
                }
            },
            Command::MoveCursor { buffer_id, position } => {
                match self.cursors.remove(&buffer_id.0) {
                    Some(c) => {
                        self.cursors.insert(
                            buffer_id.0,
                            cursor::State { position, selection: None, buffer_id: c.buffer_id },
                        );
                        proof {
                            assert(self.cursors@.dom() =~= old(self).cursors@.dom());
                        }
                    },
                    None => {
                        proof {
                            assert(self.cursors@ =~= old(self).cursors@);
                        }
                    },
                }
                Ok(())
            },
            Command::SetSelection { buffer_id, range } => {
                match self.cursors.remove(&buffer_id.0) {
                    Some(c) => {
                        self.cursors.insert(
                            buffer_id.0,
                            cursor::State {
                                position: c.position,
                                selection: Some(range),
                                buffer_id: c.buffer_id,
                            },
                        );
                        proof {
                            assert(self.cursors@.dom() =~= old(self).cursors@.dom());
                        }
                    },
                    None => {
                        proof {
                            assert(self.cursors@ =~= old(self).cursors@);
                        }
                    },
                }
                Ok(())
            },
            Command::NewBuffer { content } => {
                let _created = self.create_buffer(content);
                Ok(())
            },
            Command::SaveBuffer { buffer_id, file_path } => {
                match self.buffer_metadata.remove(&buffer_id.0) {
                    Some(data) => {
                        self.buffer_metadata.insert(
                            buffer_id.0,
                            meta::Data {
                                file_path: Some(file_path),
                                modified: false,
                                ..data
                            },
                        );
                        proof {
                            assert(self.buffer_metadata@.dom() =~= old(
                                self,
                            ).buffer_metadata@.dom());
                        }
                    },
                    None => {
                        proof {
                            assert(self.buffer_metadata@ =~= old(self).buffer_metadata@);
                        }
                    },
                }
                Ok(())
            },
        }
    }

    /// Retrieves the full text of the given buffer, if it exists.
    pub fn get_buffer_text(&self, buffer_id: ID) -> (r: Option<String>)
        requires
            self.wf(),
        ensures
            match r {
                Some(s) => self.buffers@.dom().contains(buffer_id.0) && s@
                    == self.buffers@[buffer_id.0].text_view(),
                None => !self.buffers@.dom().contains(buffer_id.0),
            },
    {
        match self.buffers.get(&buffer_id.0) {
            Some(buffer) => {
                proof {
                    assert(self.buffers@.dom().contains(buffer_id.0));
                    assert(*buffer == self.buffers@[buffer_id.0]);
                    assert(buffer.wf());
                }
                let text = buffer.get_text(0, buffer.len());
                proof {
                    crate::piece_table::piece::lemma_length_invariant(*buffer);
                    assert(buffer.text_view().subrange(0, buffer.text_view().len() as int)
                        =~= buffer.text_view());
                }
                Some(text)
            },
            None => None,
        }
    }

    /// Returns the ID of the currently active buffer, if any.
    pub fn get_active_biffer(&self) -> (r: Option<ID>)
        ensures
            r == self.active_buffer,
    {
        self.active_buffer
    }

    /// Retrieves the cursor state for the given buffer, if it exists.
    pub fn get_cursor_state(&self, buffer_id: ID) -> (r: Option<&cursor::State>)
        ensures
            match r {
                Some(c) => self.cursors@.dom().contains(buffer_id.0) && *c
                    == self.cursors@[buffer_id.0],
                None => !self.cursors@.dom().contains(buffer_id.0),
            },
    {
        self.cursors.get(&buffer_id.0)
    }
}

} // verus!
