//! What the other participants of a shared project ask for and tell.

use crate::buffers::{can_load, is_open_outcome, OpenAction};
use crate::edits::Anchor;
use crate::effects::{Effect, Event, LocalProjectUpdate};
use crate::formatting::{is_format_plan, is_reload_plan, FormatPlan, FormatTrigger, ReloadPlan};
use crate::ids::{EntityId, LanguageServerId, PeerId, WorktreeId};
use crate::map::{lists, SortedSet};
use crate::model::{AppContext, Buffer, LineEnding, ProjectPath, SavedState};
use crate::path::Path;
use crate::project::{Project, ProjectClientState, ProjectError};
use crate::requests::{
    edits_source, formatted_from_now, hint_resolver, is_step_for, on_type_formatter, target_of,
    AdditionalEdits, CodeActionStep, HintResolver, LanguageServerToQuery, LspQuery, LspRequest,
    OnTypeFormatter, RequestTarget,
};
use crate::symbols::{
    carries, deserialize_symbol, is_symbol_buffer, read_symbol, serialize_symbol, signature_of,
    Symbol, SymbolBuffer, SymbolMessage,
};
use crate::sync::entities_of;
use std::sync::Arc;
use vstd::prelude::*;

verus! {

/// A code action that a guest wants to have applied.
#[derive(Debug)]
pub struct ActionMessage {
    pub server_id: LanguageServerId,
    /// What the server needs to complete the action, as JSON text.
    pub data: Option<String>,
    /// The current range of the action, as JSON text.
    pub range: String,
}

/// The host has saved a buffer.
#[derive(Debug)]
pub struct SavedMessage {
    pub buffer_id: u64,
    pub version: u64,
    /// The fingerprint of the text, if the message holds a proper one.
    pub fingerprint: Option<u64>,
    pub mtime: Option<u64>,
}

/// The host has read a buffer from disk again.
#[derive(Debug)]
pub struct ReloadedMessage {
    pub buffer_id: u64,
    pub version: u64,
    /// The fingerprint of the text, if the message holds a proper one.
    pub fingerprint: Option<u64>,
    pub line_ending: Option<LineEnding>,
    pub mtime: Option<u64>,
}

/// What becomes of a participant's request for a buffer.
#[derive(Clone, Copy, Debug, PartialEq, Eq, Structural)]
pub enum OpenReply {
    /// The participant knows the buffer by this id.
    Opened { buffer_id: u64 },
    /// Ask the host to open the buffer.
    RequestFromHost { project_id: u64, id: u64 },
}

/// The first of the ids for which no buffer is open is refused.
pub open spec fn is_refused(project: Project, cx: AppContext, ids: Seq<u64>, e: ProjectError) -> bool {
    exists|k: int|
        0 <= k < ids.len() && project.all_open(cx, ids, k) && project.buffer_of_id(
            cx,
            #[trigger] ids[k],
        ) is None && e == ProjectError::NoSuchBuffer(ids[k])
}

fn members(set: &SortedSet<EntityId>) -> (r: Vec<EntityId>)
    ensures
        lists(r@, set@),
{
    let n: usize = set.len();
    let mut r: Vec<EntityId> = Vec::new();
    assert(set.items().take(0) =~= Seq::empty());
    for i in 0..n
        invariant
            n == set.items().len(),
            r@ == set.items().take(i as int),
    {
        r.push(*set.item(i));
        assert(r@ =~= set.items().take(i + 1));
    }
    assert(set.items().take(n as int) =~= set.items());
    r
}

/// What is done when the host has saved a buffer.
pub open spec fn saved_effects(project: Project, cx: AppContext, message: SavedMessage) -> Result<
    Seq<Effect>,
    ProjectError,
> {
    match (message.fingerprint, message.mtime) {
        (None, _) => Err(ProjectError::InvalidFingerprint),
        (Some(_), None) => Err(ProjectError::MissingMtime),
        (Some(fingerprint), Some(mtime)) => Ok(
            match project.buffer_meant(cx, message.buffer_id) {
                Some(buffer) => seq![
                    Effect::BufferSaved { buffer, version: message.version, fingerprint, mtime },
                ],
                None => Seq::empty(),
            },
        ),
    }
}

/// What is done when the host has read a buffer from disk again.
pub open spec fn reloaded_effects(project: Project, cx: AppContext, message: ReloadedMessage) -> Result<
    Seq<Effect>,
    ProjectError,
> {
    match (message.fingerprint, message.line_ending, message.mtime) {
        (None, _, _) => Err(ProjectError::InvalidFingerprint),
        (Some(_), None, _) => Err(ProjectError::MissingLineEnding),
        (Some(_), Some(_), None) => Err(ProjectError::MissingMtime),
        (Some(fingerprint), Some(line_ending), Some(mtime)) => Ok(
            match project.buffer_meant(cx, message.buffer_id) {
                Some(buffer) => seq![
                    Effect::BufferReloaded {
                        buffer,
                        version: message.version,
                        fingerprint,
                        line_ending,
                        mtime,
                    },
                ],
                None => Seq::empty(),
            },
        ),
    }
}

impl SavedMessage {
    /// The message that a buffer has been saved.
    pub open spec fn telling_of(buffer: Buffer) -> SavedMessage {
        SavedMessage {
            buffer_id: buffer.remote_id,
            version: buffer.saved.version,
            fingerprint: Some(buffer.saved.fingerprint),
            mtime: Some(buffer.saved.mtime),
        }
    }

    /// Makes the message that a buffer has been saved.
    pub fn new(buffer: &Buffer) -> (r: SavedMessage)
        ensures
            r == SavedMessage::telling_of(*buffer),
    {
        SavedMessage {
            buffer_id: buffer.remote_id,
            version: buffer.saved.version,
            fingerprint: Some(buffer.saved.fingerprint),
            mtime: Some(buffer.saved.mtime),
        }
    }
}

impl ReloadedMessage {
    /// The message that a buffer has been read from disk again.
    pub open spec fn telling_of(buffer_id: u64, saved: SavedState) -> ReloadedMessage {
        ReloadedMessage {
            buffer_id,
            version: saved.version,
            fingerprint: Some(saved.fingerprint),
            line_ending: Some(saved.line_ending),
            mtime: Some(saved.mtime),
        }
    }

    /// Makes the message that a buffer has been read from disk again.
    pub fn new(buffer_id: u64, saved: SavedState) -> (r: ReloadedMessage)
        ensures
            r == ReloadedMessage::telling_of(buffer_id, saved),
    {
        ReloadedMessage {
            buffer_id,
            version: saved.version,
            fingerprint: Some(saved.fingerprint),
            line_ending: Some(saved.line_ending),
            mtime: Some(saved.mtime),
        }
    }
}

/// What the host tells of a saved buffer is what a guest that has the buffer notes.
pub proof fn saved_state_survives_the_wire(project: Project, cx: AppContext, host: Buffer, guest: EntityId)
    requires
        project.buffer_meant(cx, host.remote_id) == Some(guest),
    ensures
        ({
            let saved = host.saved;
            &&& saved_effects(project, cx, SavedMessage::telling_of(host)) == Ok::<
                Seq<Effect>,
                ProjectError,
            >(
                seq![
                    Effect::BufferSaved {
                        buffer: guest,
                        version: saved.version,
                        fingerprint: saved.fingerprint,
                        mtime: saved.mtime,
                    },
                ],
            )
            &&& reloaded_effects(
                project,
                cx,
                ReloadedMessage::telling_of(host.remote_id, saved),
            ) == Ok::<Seq<Effect>, ProjectError>(
                seq![
                    Effect::BufferReloaded {
                        buffer: guest,
                        version: saved.version,
                        fingerprint: saved.fingerprint,
                        line_ending: saved.line_ending,
                        mtime: saved.mtime,
                    },
                ],
            )
        }),
{
}

impl Project {
    /// The buffer that a participant names.
    pub fn requested_buffer<'a>(&self, buffer_id: u64, cx: &'a AppContext) -> (r: Result<
        &'a Buffer,
        ProjectError,
    >)
        ensures
            match r {
                Ok(b) => self.buffer_of_id(*cx, buffer_id) == Some(*b),
                Err(e) => self.buffer_of_id(*cx, buffer_id) is None && e
                    == ProjectError::NoSuchBuffer(buffer_id),
            },
    {
        match self.buffer_for_id(buffer_id, cx) {
            Some(b) => Ok(b),
            None => Err(ProjectError::NoSuchBuffer(buffer_id)),
        }
    }

    /// Handles the request to read buffers again from disk.
    pub fn handle_reload_buffers(&self, buffer_ids: &Vec<u64>, cx: &AppContext) -> (r: Result<
        ReloadPlan,
        ProjectError,
    >)
        ensures
            match r {
                Ok(plan) => {
                    let n = buffer_ids@.len() as int;
                    &&& self.all_open(*cx, buffer_ids@, n)
                    &&& exists|buffers: Seq<EntityId>| #[trigger]
                        lists(buffers, entities_of(*self, *cx, buffer_ids@, n)) && is_reload_plan(
                            plan,
                            *self,
                            *cx,
                            buffers,
                        )
                },
                Err(e) => is_refused(*self, *cx, buffer_ids@, e),
            },
    {
        match self.buffers_named(buffer_ids, cx) {
            Ok(set) => {
                let buffers = members(&set);
                Ok(self.reload_buffers(&buffers, cx))
            },
            Err(e) => Err(e),
        }
    }

    /// Handles the request to format buffers.
    pub fn handle_format_buffers(&self, buffer_ids: &Vec<u64>, trigger: i32, cx: &AppContext) -> (r:
        Result<FormatPlan, ProjectError>)
        ensures
            match r {
                Ok(plan) => {
                    let n = buffer_ids@.len() as int;
                    let meant = FormatTrigger::of_number(trigger);
                    &&& self.all_open(*cx, buffer_ids@, n)
                    &&& exists|buffers: Seq<EntityId>| #[trigger]
                        lists(buffers, entities_of(*self, *cx, buffer_ids@, n)) && is_format_plan(
                            plan,
                            *self,
                            *cx,
                            buffers,
                            meant,
                        )
                },
                Err(e) => is_refused(*self, *cx, buffer_ids@, e),
            },
    {
        match self.buffers_named(buffer_ids, cx) {
            Ok(set) => {
                let buffers = members(&set);
                Ok(self.format(&buffers, FormatTrigger::from_proto(trigger), cx))
            },
            Err(e) => Err(e),
        }
    }

    /// Handles the request for the additional edits of a completion, which came from the given
    /// server.
    pub fn handle_apply_additional_edits_for_completion(
        &self,
        buffer_id: u64,
        completion: Option<LanguageServerId>,
        cx: &AppContext,
    ) -> (r: Result<AdditionalEdits, ProjectError>)
        ensures
            r == (match (self.buffer_of_id(*cx, buffer_id), completion) {
                (None, _) => Err::<AdditionalEdits, ProjectError>(
                    ProjectError::NoSuchBuffer(buffer_id),
                ),
                (Some(_), None) => Err::<AdditionalEdits, ProjectError>(
                    ProjectError::InvalidCompletion,
                ),
                (Some(b), Some(server_id)) => edits_source(*self, b, server_id),
            }),
    {
        let buffer = match self.requested_buffer(buffer_id, cx) {
            Ok(b) => b,
            Err(e) => return Err(e),
        };
        match completion {
            Some(server_id) => self.apply_additional_edits_for_completion(buffer, server_id),
            None => Err(ProjectError::InvalidCompletion),
        }
    }

    /// Handles the request to apply a code action.
    pub fn handle_apply_code_action(
        &self,
        buffer_id: u64,
        action: Option<&ActionMessage>,
        cx: &AppContext,
    ) -> (r: Result<CodeActionStep, ProjectError>)
        ensures
            match (action, self.buffer_of_id(*cx, buffer_id)) {
                (None, _) => r == Err::<CodeActionStep, ProjectError>(ProjectError::InvalidAction),
                (Some(_), None) => r == Err::<CodeActionStep, ProjectError>(
                    ProjectError::NoSuchBuffer(buffer_id),
                ),
                (Some(a), Some(b)) => is_step_for(r, *self, b, a.server_id, a.data, a.range@),
            },
    {
        match action {
            None => Err(ProjectError::InvalidAction),
            Some(action) => match self.requested_buffer(buffer_id, cx) {
                Ok(buffer) => self.apply_code_action(
                    buffer,
                    action.server_id,
                    &action.data,
                    action.range.as_str(),
                ),
                Err(e) => Err(e),
            },
        }
    }

    /// Handles the request to format a buffer after a character was typed in it.
    pub fn handle_on_type_formatting(
        &mut self,
        buffer_id: u64,
        position: Option<Anchor>,
        cx: &AppContext,
    ) -> (r: Result<OnTypeFormatter, ProjectError>)
        ensures
            match (old(self).buffer_of_id(*cx, buffer_id), position) {
                (None, _) => r == Err::<OnTypeFormatter, ProjectError>(
                    ProjectError::NoSuchBuffer(buffer_id),
                ) && *final(self) == *old(self),
                (Some(_), None) => r == Err::<OnTypeFormatter, ProjectError>(
                    ProjectError::InvalidPosition,
                ) && *final(self) == *old(self),
                (Some(b), Some(_)) => {
                    &&& r == on_type_formatter(*old(self), b)
                    &&& final(self).buffers_being_formatted@ == formatted_from_now(*old(self), b)
                },
            },
            *final(self) == (Project {
                buffers_being_formatted: final(self).buffers_being_formatted,
                ..*old(self)
            }),
    {
        let buffer = match self.requested_buffer(buffer_id, cx) {
            Ok(b) => b,
            Err(e) => return Err(e),
        };
        match position {
            Some(_) => self.apply_on_type_formatting(buffer),
            None => Err(ProjectError::InvalidPosition),
        }
    }

    /// Handles the request for the hints of a stretch of a buffer.
    pub fn handle_inlay_hints(
        &self,
        buffer_id: u64,
        start: Option<Anchor>,
        end: Option<Anchor>,
        cx: &AppContext,
    ) -> (r: Result<LspQuery, ProjectError>)
        ensures
            match (self.buffer_of_id(*cx, buffer_id), start, end) {
                (None, _, _) => r == Err::<LspQuery, ProjectError>(
                    ProjectError::NoSuchBuffer(buffer_id),
                ),
                (Some(_), None, _) => r == Err::<LspQuery, ProjectError>(
                    ProjectError::MissingRangeStart,
                ),
                (Some(_), Some(_), None) => r == Err::<LspQuery, ProjectError>(
                    ProjectError::MissingRangeEnd,
                ),
                (Some(b), Some(start), Some(end)) => r == Ok::<LspQuery, ProjectError>(
                    LspQuery {
                        request: LspRequest::InlayHints { start, end },
                        target: target_of(*self, b, LanguageServerToQuery::Primary),
                    },
                ),
            },
    {
        let buffer = match self.requested_buffer(buffer_id, cx) {
            Ok(b) => b,
            Err(e) => return Err(e),
        };
        match (start, end) {
            (None, _) => Err(ProjectError::MissingRangeStart),
            (Some(_), None) => Err(ProjectError::MissingRangeEnd),
            (Some(start), Some(end)) => self.inlay_hints(buffer, start, end),
        }
    }

    /// Handles the request to complete a hint that a server has given.
    pub fn handle_resolve_inlay_hint(&self, buffer_id: u64, server_id: u64, cx: &AppContext) -> (r:
        Result<HintResolver, ProjectError>)
        ensures
            r == (match self.buffer_of_id(*cx, buffer_id) {
                None => Err::<HintResolver, ProjectError>(ProjectError::NoSuchBuffer(buffer_id)),
                Some(b) => hint_resolver(*self, b, LanguageServerId(server_id as usize)),
            }),
    {
        match self.requested_buffer(buffer_id, cx) {
            Ok(buffer) => self.resolve_inlay_hint(
                buffer,
                LanguageServerId(
                    #[verifier::truncate]
                    (server_id as usize),
                ),
            ),
            Err(e) => Err(e),
        }
    }

    /// Handles the message that hints have to be asked for anew.
    pub fn handle_refresh_inlay_hints(&self, out: &mut Vec<Effect>)
        ensures
            final(out)@ == old(out)@.push(Effect::Emit(Event::RefreshInlayHints)),
    {
        out.push(Effect::Emit(Event::RefreshInlayHints));
    }

    /// Handles a request that is passed on to the first server of a buffer.
    pub fn handle_lsp_command(&self, buffer_id: u64, cx: &AppContext) -> (r: Result<
        RequestTarget,
        ProjectError,
    >)
        ensures
            r == (match self.buffer_of_id(*cx, buffer_id) {
                None => Err::<RequestTarget, ProjectError>(ProjectError::NoSuchBuffer(buffer_id)),
                Some(b) => Ok::<RequestTarget, ProjectError>(
                    target_of(*self, b, LanguageServerToQuery::Primary),
                ),
            }),
    {
        match self.requested_buffer(buffer_id, cx) {
            Ok(buffer) => Ok(self.request_lsp(buffer, LanguageServerToQuery::Primary)),
            Err(e) => Err(e),
        }
    }

    /// Handles the request to open the buffer with an id. A buffer that is open here is sent to the
    /// participant.
    pub fn handle_open_buffer_by_id(
        &self,
        id: u64,
        peer_id: PeerId,
        cx: &AppContext,
        out: &mut Vec<Effect>,
    ) -> (r: Result<OpenReply, ProjectError>)
        ensures
            match self.buffer_of_id(*cx, id) {
                Some(b) => {
                    &&& r == Ok::<OpenReply, ProjectError>(
                        OpenReply::Opened { buffer_id: b.remote_id },
                    )
                    &&& final(out)@ == (if self.client_state matches Some(
                        ProjectClientState::Local { .. },
                    ) {
                        old(out)@.push(
                            Effect::QueueUpdate(
                                LocalProjectUpdate::CreateBufferForPeer {
                                    peer_id,
                                    buffer_id: b.remote_id,
                                },
                            ),
                        )
                    } else {
                        old(out)@
                    })
                },
                None => {
                    &&& r == (match self.client_state {
                        Some(ProjectClientState::Remote { remote_id, .. }) => Ok::<
                            OpenReply,
                            ProjectError,
                        >(OpenReply::RequestFromHost { project_id: remote_id, id }),
                        _ => Err::<OpenReply, ProjectError>(ProjectError::NoSuchBuffer(id)),
                    })
                    &&& final(out)@ == old(out)@
                },
            },
    {
        if let Some(b) = self.buffer_for_id(id, cx) {
            return Ok(
                OpenReply::Opened { buffer_id: self.create_buffer_for_peer(b, peer_id, out) },
            );
        }
        match self.client_state {
            Some(ProjectClientState::Remote { remote_id, .. }) => Ok(
                OpenReply::RequestFromHost { project_id: remote_id, id },
            ),
            _ => Err(ProjectError::NoSuchBuffer(id)),
        }
    }

    /// Handles the request to open the buffer at a path. Once the buffer is there, it is sent to the
    /// participant.
    pub fn handle_open_buffer_by_path(
        &mut self,
        worktree_id: u64,
        path: Path,
        cx: &AppContext,
    ) -> (r: Result<OpenAction, ProjectError>)
        requires
            can_load(
                *old(self),
                *cx,
                (ProjectPath { worktree_id: WorktreeId(worktree_id as usize), path }),
            ),
        ensures
            is_open_outcome(
                *old(self),
                *final(self),
                *cx,
                (ProjectPath { worktree_id: WorktreeId(worktree_id as usize), path }),
                r,
            ),
    {
        let worktree_id = WorktreeId::from_proto(worktree_id);
        self.open_buffer(ProjectPath { worktree_id, path }, cx)
    }

    /// Handles the request to open the buffer of a symbol, which has to be one that this project
    /// has told of. The symbol is shown by `label`, or else by its name.
    pub fn handle_open_buffer_for_symbol(
        &self,
        symbol: Option<SymbolMessage>,
        label: Option<String>,
        cx: &AppContext,
    ) -> (r: Result<(Symbol, SymbolBuffer), ProjectError>)
        ensures
            match symbol {
                None => r == Err::<(Symbol, SymbolBuffer), ProjectError>(
                    ProjectError::MissingSymbol,
                ),
                Some(m) => match read_symbol(m, label) {
                    Err(e) => r == Err::<(Symbol, SymbolBuffer), ProjectError>(e),
                    Ok(v) => if v.signature != signature_of(v.path, self.nonce) {
                        r == Err::<(Symbol, SymbolBuffer), ProjectError>(
                            ProjectError::InvalidSymbolSignature,
                        )
                    } else {
                        match r {
                            Ok((s, b)) => s@ == v && is_symbol_buffer(Ok(b), *self, *cx, v),
                            Err(e) => is_symbol_buffer(Err(e), *self, *cx, v),
                        }
                    },
                },
            },
    {
        let message = match symbol {
            Some(m) => m,
            None => return Err(ProjectError::MissingSymbol),
        };
        let symbol = match deserialize_symbol(message, label) {
            Ok(s) => s,
            Err(e) => return Err(e),
        };
        match self.check_symbol(&symbol) {
            Ok(_) => match self.open_buffer_for_symbol(&symbol, cx) {
                Ok(b) => Ok((symbol, b)),
                Err(e) => Err(e),
            },
            Err(e) => Err(e),
        }
    }

    /// Handles the message that the text that git diffs are made against has changed.
    pub fn handle_update_diff_base(
        &self,
        buffer_id: u64,
        diff_base: Option<Arc<String>>,
        cx: &AppContext,
        out: &mut Vec<Effect>,
    )
        ensures
            final(out)@ == (match self.buffer_meant(*cx, buffer_id) {
                Some(buffer) => old(out)@.push(Effect::SetDiffBase { buffer, diff_base }),
                None => old(out)@,
            }),
    {
        if let Some(buffer) = self.buffer_for_message(buffer_id, cx) {
            out.push(Effect::SetDiffBase { buffer, diff_base });
        }
    }

    /// Handles the message that the host has saved a buffer.
    pub fn handle_buffer_saved(
        &self,
        message: &SavedMessage,
        cx: &AppContext,
        out: &mut Vec<Effect>,
    ) -> (r: Result<(), ProjectError>)
        ensures
            match saved_effects(*self, *cx, *message) {
                Ok(effects) => r is Ok && final(out)@ == old(out)@ + effects,
                Err(e) => r == Err::<(), ProjectError>(e) && final(out)@ == old(out)@,
            },
    {
        match (message.fingerprint, message.mtime) {
            (None, _) => Err(ProjectError::InvalidFingerprint),
            (Some(_), None) => Err(ProjectError::MissingMtime),
            (Some(fingerprint), Some(mtime)) => {
                if let Some(buffer) = self.buffer_for_message(message.buffer_id, cx) {
                    let version: u64 = message.version;
                    out.push(Effect::BufferSaved { buffer, version, fingerprint, mtime });
                }
                assert(out@ =~= old(out)@ + saved_effects(*self, *cx, *message)->Ok_0);
                Ok(())
            },
        }
    }

    /// Handles the message that the host has read a buffer from disk again.
    pub fn handle_buffer_reloaded(
        &self,
        message: &ReloadedMessage,
        cx: &AppContext,
        out: &mut Vec<Effect>,
    ) -> (r: Result<(), ProjectError>)
        ensures
            match reloaded_effects(*self, *cx, *message) {
                Ok(effects) => r is Ok && final(out)@ == old(out)@ + effects,
                Err(e) => r == Err::<(), ProjectError>(e) && final(out)@ == old(out)@,
            },
    {
        match (message.fingerprint, message.line_ending, message.mtime) {
            (None, _, _) => Err(ProjectError::InvalidFingerprint),
            (Some(_), None, _) => Err(ProjectError::MissingLineEnding),
            (Some(_), Some(_), None) => Err(ProjectError::MissingMtime),
            (Some(fingerprint), Some(line_ending), Some(mtime)) => {
                if let Some(buffer) = self.buffer_for_message(message.buffer_id, cx) {
                    let version: u64 = message.version;
                    out.push(
                        Effect::BufferReloaded { buffer, version, fingerprint, line_ending, mtime },
                    );
                }
                assert(out@ =~= old(out)@ + reloaded_effects(*self, *cx, *message)->Ok_0);
                Ok(())
            },
        }
    }

    /// Shows a message of a language server's installation to the user.
    pub fn show_notification(&self, message: String, out: &mut Vec<Effect>)
        ensures
            final(out)@ == old(out)@.push(Effect::Emit(Event::Notification(message))),
    {
        out.push(Effect::Emit(Event::Notification(message)));
    }
}

/// The messages that carry the symbols that a guest has asked for.
pub fn handle_get_project_symbols(symbols: &Vec<Symbol>) -> (r: Vec<SymbolMessage>)
    ensures
        r@.len() == symbols@.len(),
        forall|i: int| 0 <= i < symbols@.len() ==> carries(#[trigger] r@[i], symbols@[i]),
{
    let mut r: Vec<SymbolMessage> = Vec::new();
    for i in 0..symbols.len()
        invariant
            r@.len() == i,
            forall|j: int| 0 <= j < i ==> carries(#[trigger] r@[j], symbols@[j]),
    {
        r.push(serialize_symbol(&symbols[i]));
    }
    r
}

/// A message that a buffer was saved is heeded only with a proper fingerprint and a time; nothing is
/// done for a buffer that is not there.
pub proof fn incomplete_saves_are_refused(project: Project, cx: AppContext, message: SavedMessage)
    ensures
        message.fingerprint is None ==> saved_effects(project, cx, message) == Err::<
            Seq<Effect>,
            ProjectError,
        >(ProjectError::InvalidFingerprint),
        message.fingerprint is Some && message.mtime is None ==> saved_effects(
            project,
            cx,
            message,
        ) == Err::<Seq<Effect>, ProjectError>(ProjectError::MissingMtime),
        message.fingerprint is Some && message.mtime is Some && project.buffer_meant(
            cx,
            message.buffer_id,
        ) is None ==> saved_effects(project, cx, message) is Ok && saved_effects(
            project,
            cx,
            message,
        )->Ok_0.len() == 0,
{
}

/// A message that a buffer was read again is heeded only with a proper fingerprint, a line ending and
/// a time; nothing is done for a buffer that is not there.
pub proof fn incomplete_reloads_are_refused(
    project: Project,
    cx: AppContext,
    message: ReloadedMessage,
)
    ensures
        message.fingerprint is None ==> reloaded_effects(project, cx, message) == Err::<
            Seq<Effect>,
            ProjectError,
        >(ProjectError::InvalidFingerprint),
        message.fingerprint is Some && message.line_ending is None ==> reloaded_effects(
            project,
            cx,
            message,
        ) == Err::<Seq<Effect>, ProjectError>(ProjectError::MissingLineEnding),
        message.fingerprint is Some && message.line_ending is Some && message.mtime is None
            ==> reloaded_effects(project, cx, message) == Err::<Seq<Effect>, ProjectError>(
            ProjectError::MissingMtime,
        ),
        message.fingerprint is Some && message.line_ending is Some && message.mtime is Some
            && project.buffer_meant(cx, message.buffer_id) is None ==> reloaded_effects(
            project,
            cx,
            message,
        ) is Ok && reloaded_effects(project, cx, message)->Ok_0.len() == 0,
{
}

/// A request is refused only for a buffer that it names and that is not open, and the error names that
/// buffer.
pub proof fn refusals_name_the_buffer(
    project: Project,
    cx: AppContext,
    ids: Seq<u64>,
    e: ProjectError,
)
    requires
        is_refused(project, cx, ids, e),
    ensures
        e is NoSuchBuffer,
        ids.contains(e->NoSuchBuffer_0),
        project.buffer_of_id(cx, e->NoSuchBuffer_0) is None,
{
    let k = choose|k: int|
        0 <= k < ids.len() && project.all_open(cx, ids, k) && project.buffer_of_id(
            cx,
            #[trigger] ids[k],
        ) is None && e == ProjectError::NoSuchBuffer(ids[k]);
    assert(ids[k] == e->NoSuchBuffer_0);
}

} // verus!
