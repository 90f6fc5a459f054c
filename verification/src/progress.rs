//! What language servers tell of their work.

use crate::effects::{BufferOrderedMessage, Effect, Event, Message, ServerUpdate};
use crate::ids::LanguageServerId;
use crate::project::{
    LanguageServerProgress, LanguageServerStatus, Project, ProjectError, ProjectTransaction,
};
use crate::seqs::{lemma_filter_map_step, lemma_take_all};
use crate::text::has_prefix;
use vstd::prelude::*;

verus! {

/// The token by which a server names a piece of work.
#[derive(Debug, PartialEq, Eq)]
pub enum ProgressToken {
    Number(i32),
    Text(String),
}

/// What a server reports of a piece of work.
#[allow(inconsistent_fields)]
#[derive(Debug, PartialEq, Eq)]
pub enum WorkDoneProgress {
    Begin { message: Option<String>, percentage: Option<u32> },
    Report { message: Option<String>, percentage: Option<u32> },
    End,
}

/// What the status of a server stands for.
pub struct StatusView {
    pub name: String,
    pub pending_work: Map<Seq<char>, LanguageServerProgress>,
    pub has_pending_diagnostic_updates: bool,
    pub progress_tokens: Set<Seq<char>>,
}

impl View for LanguageServerStatus {
    type V = StatusView;

    open spec fn view(&self) -> StatusView {
        StatusView {
            name: self.name,
            pending_work: self.pending_work@,
            has_pending_diagnostic_updates: self.has_pending_diagnostic_updates,
            progress_tokens: self.progress_tokens@,
        }
    }
}

/// What is known of the servers' work.
pub open spec fn statuses_of(project: Project) -> Map<LanguageServerId, StatusView> {
    project.language_server_statuses@.map_values(|s: LanguageServerStatus| s@)
}

pub open spec fn widened(percentage: Option<u32>) -> Option<usize> {
    match percentage {
        Some(p) => Some(p as usize),
        None => None,
    }
}

fn widen(percentage: Option<u32>) -> (r: Option<usize>)
    ensures
        r == widened(percentage),
{
    match percentage {
        Some(p) => Some(p as usize),
        None => None,
    }
}

impl StatusView {
    pub open spec fn work_started(self, token: Seq<char>, progress: LanguageServerProgress) -> Self {
        StatusView { pending_work: self.pending_work.insert(token, progress), ..self }
    }

    /// A report replaces what it speaks of; what it leaves out stays as it was.
    pub open spec fn work_progressed(self, token: Seq<char>, progress: LanguageServerProgress) -> Self {
        let known = self.pending_work.contains_key(token);
        let before = self.pending_work[token];
        StatusView {
            pending_work: self.pending_work.insert(
                token,
                LanguageServerProgress {
                    message: if progress.message is Some || !known {
                        progress.message
                    } else {
                        before.message
                    },
                    percentage: if progress.percentage is Some || !known {
                        progress.percentage
                    } else {
                        before.percentage
                    },
                    last_update_at: progress.last_update_at,
                },
            ),
            ..self
        }
    }

    pub open spec fn work_ended(self, token: Seq<char>) -> Self {
        StatusView { pending_work: self.pending_work.remove(token), ..self }
    }

    pub open spec fn token_known(self, token: Seq<char>) -> Self {
        StatusView { progress_tokens: self.progress_tokens.insert(token), ..self }
    }

    pub open spec fn token_forgotten(self, token: Seq<char>) -> Self {
        StatusView { progress_tokens: self.progress_tokens.remove(token), ..self }
    }

    pub open spec fn diagnostics_pending(self, pending: bool) -> Self {
        StatusView { has_pending_diagnostic_updates: pending, ..self }
    }
}

impl Project {
    /// Replaces the status of a server.
    fn put_status(&mut self, id: LanguageServerId, status: LanguageServerStatus)
        ensures
            statuses_of(*final(self)) == statuses_of(*old(self)).insert(id, status@),
            *final(self) == (Project {
                language_server_statuses: final(self).language_server_statuses,
                ..*old(self)
            }),
    {
        self.language_server_statuses.insert(id, status);
        assert(statuses_of(*self) =~= statuses_of(*old(self)).insert(id, status@));
    }

    /// Takes out the status of a server.
    fn take_status(&mut self, id: LanguageServerId) -> (r: Option<LanguageServerStatus>)
        ensures
            match r {
                Some(s) => statuses_of(*old(self)).contains_key(id) && s@ == statuses_of(
                    *old(self),
                )[id] && statuses_of(*final(self)) == statuses_of(*old(self)).remove(id),
                None => !statuses_of(*old(self)).contains_key(id) && statuses_of(*final(self))
                    == statuses_of(*old(self)),
            },
            *final(self) == (Project {
                language_server_statuses: final(self).language_server_statuses,
                ..*old(self)
            }),
    {
        let r = self.language_server_statuses.remove(&id);
        assert(statuses_of(*self) =~= statuses_of(*old(self)).remove(id));
        if r.is_none() {
            assert(statuses_of(*self) =~= statuses_of(*old(self)));
        }
        r
    }

    /// A piece of work has begun.
    pub fn on_lsp_work_start(
        &mut self,
        language_server_id: LanguageServerId,
        token: String,
        progress: LanguageServerProgress,
        out: &mut Vec<Effect>,
    )
        ensures
            ({
                let before = statuses_of(*old(self));
                if before.contains_key(language_server_id) {
                    &&& statuses_of(*final(self)) == before.insert(
                        language_server_id,
                        before[language_server_id].work_started(token@, progress),
                    )
                    &&& final(out)@ == old(out)@.push(Effect::Notify)
                } else {
                    &&& statuses_of(*final(self)) == before
                    &&& final(out)@ == old(out)@
                }
            }),
            *final(self) == (Project {
                language_server_statuses: final(self).language_server_statuses,
                ..*old(self)
            }),
    {
        let ghost before = statuses_of(*self);
        if let Some(mut status) = self.take_status(language_server_id) {
            status.pending_work.insert(token, progress);
            self.put_status(language_server_id, status);
            assert(before.remove(language_server_id).insert(language_server_id, status@)
                =~= before.insert(language_server_id, status@));
            out.push(Effect::Notify);
        }
    }

    /// A piece of work has come further.
    pub fn on_lsp_work_progress(
        &mut self,
        language_server_id: LanguageServerId,
        token: String,
        progress: LanguageServerProgress,
        out: &mut Vec<Effect>,
    )
        ensures
            ({
                let before = statuses_of(*old(self));
                if before.contains_key(language_server_id) {
                    &&& statuses_of(*final(self)) == before.insert(
                        language_server_id,
                        before[language_server_id].work_progressed(token@, progress),
                    )
                    &&& final(out)@ == old(out)@.push(Effect::Notify)
                } else {
                    &&& statuses_of(*final(self)) == before
                    &&& final(out)@ == old(out)@
                }
            }),
            *final(self) == (Project {
                language_server_statuses: final(self).language_server_statuses,
                ..*old(self)
            }),
    {
        let ghost before = statuses_of(*self);
        let ghost told = progress;
        if let Some(mut status) = self.take_status(language_server_id) {
            let mut entry = match status.pending_work.remove(&token) {
                Some(e) => e,
                None => LanguageServerProgress {
                    message: None,
                    percentage: None,
                    last_update_at: progress.last_update_at,
                },
            };
            if progress.message.is_some() {
                entry.message = progress.message;
            }
            if progress.percentage.is_some() {
                entry.percentage = progress.percentage;
            }
            entry.last_update_at = progress.last_update_at;
            let ghost work = before[language_server_id].pending_work;
            let ghost new_entry = entry;
            let ghost key = token@;
            status.pending_work.insert(token, entry);
            assert(work.remove(key).insert(key, new_entry) =~= work.insert(key, new_entry));
            self.put_status(language_server_id, status);
            assert(status@ == before[language_server_id].work_progressed(key, told));
            assert(before.remove(language_server_id).insert(language_server_id, status@)
                =~= before.insert(language_server_id, status@));
            out.push(Effect::Notify);
        }
    }

    /// A piece of work has ended.
    pub fn on_lsp_work_end(
        &mut self,
        language_server_id: LanguageServerId,
        token: String,
        out: &mut Vec<Effect>,
    )
        ensures
            ({
                let before = statuses_of(*old(self));
                if before.contains_key(language_server_id) {
                    &&& statuses_of(*final(self)) == before.insert(
                        language_server_id,
                        before[language_server_id].work_ended(token@),
                    )
                    &&& final(out)@ == old(out)@ + seq![
                        Effect::Emit(Event::RefreshInlayHints),
                        Effect::Notify,
                    ]
                } else {
                    &&& statuses_of(*final(self)) == before
                    &&& final(out)@ == old(out)@
                }
            }),
            *final(self) == (Project {
                language_server_statuses: final(self).language_server_statuses,
                ..*old(self)
            }),
    {
        let ghost before = statuses_of(*self);
        if let Some(mut status) = self.take_status(language_server_id) {
            out.push(Effect::Emit(Event::RefreshInlayHints));
            status.pending_work.remove(&token);
            self.put_status(language_server_id, status);
            assert(before.remove(language_server_id).insert(language_server_id, status@)
                =~= before.insert(language_server_id, status@));
            out.push(Effect::Notify);
            assert(out@ =~= old(out)@ + seq![Effect::Emit(Event::RefreshInlayHints), Effect::Notify]);
        }
    }

    /// A server asks for a token to report a piece of work under. Tokens that are numbers are not
    /// kept.
    pub fn on_lsp_create_progress_token(
        &mut self,
        language_server_id: LanguageServerId,
        token: ProgressToken,
    )
        ensures
            token_created(*old(self), *final(self), language_server_id, token),
    {
        let ghost before = statuses_of(*self);
        if let ProgressToken::Text(text) = token {
            if self.language_server_statuses.contains_key(&language_server_id) {
                if let Some(mut status) = self.take_status(language_server_id) {
                    status.progress_tokens.insert(text);
                    self.put_status(language_server_id, status);
                    assert(before.remove(language_server_id).insert(language_server_id, status@)
                        =~= before.insert(language_server_id, status@));
                }
            }
        }
    }
}

/// A server's request for a token has been noted.
pub open spec fn token_created(
    before: Project,
    after: Project,
    id: LanguageServerId,
    token: ProgressToken,
) -> bool {
    let statuses = statuses_of(before);
    &&& match token {
        ProgressToken::Text(text) if statuses.contains_key(id) => {
            statuses_of(after) == statuses.insert(id, statuses[id].token_known(text@))
        },
        _ => after == before,
    }
    &&& after == (Project { language_server_statuses: after.language_server_statuses, ..before })
}

/// A server's report on its work has been noted, where the work has a token that is known.
pub open spec fn progress_followed(
    before: Project,
    after: Project,
    token: ProgressToken,
    progress: WorkDoneProgress,
    id: LanguageServerId,
    disk_based_token: Option<String>,
    now: u64,
    told: Seq<Effect>,
    out: Seq<Effect>,
) -> bool {
    let statuses = statuses_of(before);
    &&& match token {
        ProgressToken::Text(text) if statuses.contains_key(id)
            && statuses[id].progress_tokens.contains(text@) => {
            let is_diagnostics = is_diagnostics_token(text@, disk_based_token);
            &&& statuses_of(after) == statuses.insert(
                id,
                status_after(statuses[id], text@, progress, is_diagnostics, now),
            )
            &&& out == told + progress_effects(id, text, progress, is_diagnostics)
        },
        _ => statuses_of(after) == statuses && out == told,
    }
    &&& after == (Project { language_server_statuses: after.language_server_statuses, ..before })
}

/// What is done when a server wants its hints to be asked for again: the other participants are
/// told, if messages can be sent.
pub open spec fn refresh_effects(project: Project, connected: bool) -> Seq<Effect> {
    seq![Effect::Emit(Event::RefreshInlayHints)] + (match project.remote_id_of() {
        Some(project_id) if connected => seq![
            Effect::Send(Message::RefreshInlayHints { project_id }),
        ],
        _ => Seq::empty(),
    })
}

/// What a server is answered that wants its hints to be asked for again.
pub open spec fn refresh_answer(project: Project, connected: bool) -> Result<(), ProjectError> {
    if project.remote_id_of() is Some && !connected {
        Err(ProjectError::Disconnected)
    } else {
        Ok(())
    }
}

/// The edit that a server has made of its own accord is kept, where it succeeded.
pub open spec fn edit_kept(
    before: Project,
    after: Project,
    server_id: LanguageServerId,
    transaction: Option<ProjectTransaction>,
) -> bool {
    let edits = before.last_workspace_edits_by_language_server@;
    &&& after.last_workspace_edits_by_language_server@ == (match transaction {
        Some(t) => edits.insert(server_id, t),
        None => edits,
    })
    &&& after == (Project {
        last_workspace_edits_by_language_server: after.last_workspace_edits_by_language_server,
        ..before
    })
}

/// Work that is named by this token keeps the disk-based diagnostics of its server from being
/// final.
pub open spec fn is_diagnostics_token(token: Seq<char>, disk_based_token: Option<String>) -> bool {
    match disk_based_token {
        Some(t) => t@.is_prefix_of(token),
        None => false,
    }
}

pub open spec fn update_effect(id: LanguageServerId, message: ServerUpdate) -> Effect {
    Effect::QueueMessage(
        BufferOrderedMessage::LanguageServerUpdate { language_server_id: id, message },
    )
}

/// What a report makes of the status of a server.
pub open spec fn status_after(
    s: StatusView,
    token: Seq<char>,
    progress: WorkDoneProgress,
    is_diagnostics: bool,
    now: u64,
) -> StatusView {
    match progress {
        WorkDoneProgress::Begin { message, percentage } => if is_diagnostics {
            s.diagnostics_pending(true)
        } else {
            s.work_started(
                token,
                LanguageServerProgress {
                    message,
                    percentage: widened(percentage),
                    last_update_at: now,
                },
            )
        },
        WorkDoneProgress::Report { message, percentage } => if is_diagnostics {
            s
        } else {
            s.work_progressed(
                token,
                LanguageServerProgress {
                    message,
                    percentage: widened(percentage),
                    last_update_at: now,
                },
            )
        },
        WorkDoneProgress::End => if is_diagnostics {
            s.token_forgotten(token).diagnostics_pending(false)
        } else {
            s.token_forgotten(token).work_ended(token)
        },
    }
}

/// What has to be done about a report.
pub open spec fn progress_effects(
    id: LanguageServerId,
    token: String,
    progress: WorkDoneProgress,
    is_diagnostics: bool,
) -> Seq<Effect> {
    match progress {
        WorkDoneProgress::Begin { message, percentage } => if is_diagnostics {
            seq![
                Effect::Emit(Event::DiskBasedDiagnosticsStarted { language_server_id: id }),
                update_effect(id, ServerUpdate::DiskBasedDiagnosticsUpdating),
            ]
        } else {
            seq![
                Effect::Notify,
                update_effect(id, ServerUpdate::WorkStart { token, message, percentage }),
            ]
        },
        WorkDoneProgress::Report { message, percentage } => if is_diagnostics {
            Seq::empty()
        } else {
            seq![
                Effect::Notify,
                update_effect(id, ServerUpdate::WorkProgress { token, message, percentage }),
            ]
        },
        WorkDoneProgress::End => if is_diagnostics {
            seq![
                Effect::Emit(Event::DiskBasedDiagnosticsFinished { language_server_id: id }),
                update_effect(id, ServerUpdate::DiskBasedDiagnosticsUpdated),
            ]
        } else {
            seq![
                Effect::Emit(Event::RefreshInlayHints),
                Effect::Notify,
                update_effect(id, ServerUpdate::WorkEnd { token }),
            ]
        },
    }
}

fn clone_message(message: &Option<String>) -> (r: Option<String>)
    ensures
        r == *message,
{
    match message {
        Some(m) => Some(m.clone()),
        None => None,
    }
}

impl Project {
    /// Handles a report of a server. Only reports under a token that the server has asked for are
    /// heeded.
    pub fn on_lsp_progress(
        &mut self,
        token: ProgressToken,
        progress: WorkDoneProgress,
        language_server_id: LanguageServerId,
        disk_based_diagnostics_progress_token: &Option<String>,
        now: u64,
        out: &mut Vec<Effect>,
    )
        ensures
            progress_followed(
                *old(self),
                *final(self),
                token,
                progress,
                language_server_id,
                *disk_based_diagnostics_progress_token,
                now,
                old(out)@,
                final(out)@,
            ),
    {
        let id = language_server_id;
        let ghost before = statuses_of(*self);
        let token = match token {
            ProgressToken::Text(t) => t,
            ProgressToken::Number(_) => return,
        };
        match self.language_server_statuses.get(&id) {
            Some(status) => {
                if !status.progress_tokens.contains(&token) {
                    return;
                }
            },
            None => return,
        }
        let is_diagnostics = match disk_based_diagnostics_progress_token {
            Some(t) => has_prefix(token.as_str(), t.as_str()),
            None => false,
        };
        let ghost text = token;
        let ghost told = progress;
        let ghost effects = progress_effects(id, text, told, is_diagnostics);
        match progress {
            WorkDoneProgress::Begin { message, percentage } => {
                if is_diagnostics {
                    self.set_pending_diagnostics(id, true);
                    self.disk_based_diagnostics_started(id, out);
                    out.push(
                        Effect::QueueMessage(
                            BufferOrderedMessage::LanguageServerUpdate {
                                language_server_id,
                                message: ServerUpdate::DiskBasedDiagnosticsUpdating,
                            },
                        ),
                    );
                } else {
                    let report = LanguageServerProgress {
                        message: clone_message(&message),
                        percentage: widen(percentage),
                        last_update_at: now,
                    };
                    self.on_lsp_work_start(id, token.clone(), report, out);
                    out.push(
                        Effect::QueueMessage(
                            BufferOrderedMessage::LanguageServerUpdate {
                                language_server_id,
                                message: ServerUpdate::WorkStart { token, message, percentage },
                            },
                        ),
                    );
                }
                assert(out@ =~= old(out)@ + effects);
            },
            WorkDoneProgress::Report { message, percentage } => {
                if !is_diagnostics {
                    let report = LanguageServerProgress {
                        message: clone_message(&message),
                        percentage: widen(percentage),
                        last_update_at: now,
                    };
                    self.on_lsp_work_progress(id, token.clone(), report, out);
                    out.push(
                        Effect::QueueMessage(
                            BufferOrderedMessage::LanguageServerUpdate {
                                language_server_id,
                                message: ServerUpdate::WorkProgress { token, message, percentage },
                            },
                        ),
                    );
                } else {
                    assert(before =~= before.insert(id, before[id]));
                }
                assert(out@ =~= old(out)@ + effects);
            },
            WorkDoneProgress::End => {
                if let Some(mut status) = self.take_status(id) {
                    status.progress_tokens.remove(&token);
                    self.put_status(id, status);
                }
                let ghost mid = before[id].token_forgotten(text@);
                assert(statuses_of(*self) =~= before.insert(id, mid));
                if is_diagnostics {
                    self.set_pending_diagnostics(id, false);
                    self.disk_based_diagnostics_finished(id, out);
                    out.push(
                        Effect::QueueMessage(
                            BufferOrderedMessage::LanguageServerUpdate {
                                language_server_id,
                                message: ServerUpdate::DiskBasedDiagnosticsUpdated,
                            },
                        ),
                    );
                } else {
                    self.on_lsp_work_end(id, token.clone(), out);
                    out.push(
                        Effect::QueueMessage(
                            BufferOrderedMessage::LanguageServerUpdate {
                                language_server_id,
                                message: ServerUpdate::WorkEnd { token },
                            },
                        ),
                    );
                }
                assert(out@ =~= old(out)@ + effects);
            },
        }
        assert(statuses_of(*self) =~= before.insert(
            id,
            status_after(before[id], text@, told, is_diagnostics, now),
        ));
    }

    fn set_pending_diagnostics(&mut self, id: LanguageServerId, pending: bool)
        requires
            statuses_of(*old(self)).contains_key(id),
        ensures
            statuses_of(*final(self)) == statuses_of(*old(self)).insert(
                id,
                statuses_of(*old(self))[id].diagnostics_pending(pending),
            ),
            *final(self) == (Project {
                language_server_statuses: final(self).language_server_statuses,
                ..*old(self)
            }),
    {
        let ghost before = statuses_of(*self);
        if let Some(mut status) = self.take_status(id) {
            status.has_pending_diagnostic_updates = pending;
            self.put_status(id, status);
            assert(statuses_of(*self) =~= before.insert(
                id,
                before[id].diagnostics_pending(pending),
            ));
        }
    }

    pub fn disk_based_diagnostics_started(
        &self,
        language_server_id: LanguageServerId,
        out: &mut Vec<Effect>,
    )
        ensures
            final(out)@ == old(out)@.push(
                Effect::Emit(Event::DiskBasedDiagnosticsStarted { language_server_id }),
            ),
    {
        out.push(Effect::Emit(Event::DiskBasedDiagnosticsStarted { language_server_id }));
    }

    pub fn disk_based_diagnostics_finished(
        &self,
        language_server_id: LanguageServerId,
        out: &mut Vec<Effect>,
    )
        ensures
            final(out)@ == old(out)@.push(
                Effect::Emit(Event::DiskBasedDiagnosticsFinished { language_server_id }),
            ),
    {
        out.push(Effect::Emit(Event::DiskBasedDiagnosticsFinished { language_server_id }));
    }

    /// Handles what the host tells of the work of a server.
    pub fn handle_update_language_server(
        &mut self,
        language_server_id: u64,
        update: Option<ServerUpdate>,
        now: u64,
        out: &mut Vec<Effect>,
    ) -> (r: Result<(), ProjectError>)
        ensures
            r == (match update {
                Some(_) => Ok::<(), ProjectError>(()),
                None => Err::<(), ProjectError>(ProjectError::MissingVariant),
            }),
            ({
                let before = statuses_of(*old(self));
                let id = LanguageServerId(language_server_id as usize);
                let after = statuses_of(*final(self));
                match update {
                    None => after == before && final(out)@ == old(out)@,
                    Some(ServerUpdate::DiskBasedDiagnosticsUpdating) => after == before && final(out)@
                        == old(out)@.push(
                        Effect::Emit(Event::DiskBasedDiagnosticsStarted { language_server_id: id }),
                    ),
                    Some(ServerUpdate::DiskBasedDiagnosticsUpdated) => after == before && final(out)@
                        == old(out)@.push(
                        Effect::Emit(
                            Event::DiskBasedDiagnosticsFinished { language_server_id: id },
                        ),
                    ),
                    _ if !before.contains_key(id) => after == before && final(out)@ == old(out)@,
                    Some(ServerUpdate::WorkStart { token, message, percentage }) => {
                        &&& after == before.insert(
                            id,
                            before[id].work_started(
                                token@,
                                LanguageServerProgress {
                                    message,
                                    percentage: widened(percentage),
                                    last_update_at: now,
                                },
                            ),
                        )
                        &&& final(out)@ == old(out)@.push(Effect::Notify)
                    },
                    Some(ServerUpdate::WorkProgress { token, message, percentage }) => {
                        &&& after == before.insert(
                            id,
                            before[id].work_progressed(
                                token@,
                                LanguageServerProgress {
                                    message,
                                    percentage: widened(percentage),
                                    last_update_at: now,
                                },
                            ),
                        )
                        &&& final(out)@ == old(out)@.push(Effect::Notify)
                    },
                    Some(ServerUpdate::WorkEnd { token }) => {
                        &&& after == before.insert(id, before[id].work_ended(token@))
                        &&& final(out)@ == old(out)@ + seq![
                            Effect::Emit(Event::RefreshInlayHints),
                            Effect::Notify,
                        ]
                    },
                }
            }),
            *final(self) == (Project {
                language_server_statuses: final(self).language_server_statuses,
                ..*old(self)
            }),
    {
        let id = LanguageServerId(
            #[verifier::truncate]
            (language_server_id as usize),
        );
        let update = match update {
            Some(u) => u,
            None => return Err(ProjectError::MissingVariant),
        };
        match update {
            ServerUpdate::WorkStart { token, message, percentage } => {
                let progress = LanguageServerProgress {
                    message,
                    percentage: widen(percentage),
                    last_update_at: now,
                };
                self.on_lsp_work_start(id, token, progress, out);
            },
            ServerUpdate::WorkProgress { token, message, percentage } => {
                let progress = LanguageServerProgress {
                    message,
                    percentage: widen(percentage),
                    last_update_at: now,
                };
                self.on_lsp_work_progress(id, token, progress, out);
            },
            ServerUpdate::WorkEnd { token } => self.on_lsp_work_end(id, token, out),
            ServerUpdate::DiskBasedDiagnosticsUpdating => self.disk_based_diagnostics_started(
                id,
                out,
            ),
            ServerUpdate::DiskBasedDiagnosticsUpdated => self.disk_based_diagnostics_finished(
                id,
                out,
            ),
        }
        Ok(())
    }
}

pub open spec fn is_pending() -> spec_fn((LanguageServerId, LanguageServerStatus)) -> Option<
    LanguageServerId,
> {
    |e: (LanguageServerId, LanguageServerStatus)|
        if e.1.has_pending_diagnostic_updates {
            Some(e.0)
        } else {
            None
        }
}

impl Project {
    /// What is known of the servers, in the order of their ids.
    pub fn language_server_statuses(&self) -> (r: Vec<&LanguageServerStatus>)
        ensures
            r@.len() == self.language_server_statuses.entries().len(),
            forall|i: int|
                0 <= i < r@.len() ==> *(#[trigger] r@[i])
                    == self.language_server_statuses.entries()[i].1,
    {
        let mut r: Vec<&LanguageServerStatus> = Vec::new();
        let n: usize = self.language_server_statuses.len();
        for i in 0..n
            invariant
                n == self.language_server_statuses.entries().len(),
                r@.len() == i,
                forall|j: int|
                    0 <= j < i ==> *(#[trigger] r@[j])
                        == self.language_server_statuses.entries()[j].1,
        {
            r.push(self.language_server_statuses.value_of(i));
        }
        r
    }

    /// The servers whose disk-based diagnostics are not final, in the order of their ids.
    pub fn language_servers_running_disk_based_diagnostics(&self) -> (r: Vec<LanguageServerId>)
        ensures
            r@ == self.language_server_statuses.entries().filter_map(is_pending()),
    {
        let mut r: Vec<LanguageServerId> = Vec::new();
        let n: usize = self.language_server_statuses.len();
        let ghost all = self.language_server_statuses.entries();
        proof {
            lemma_take_all(all);
        }
        for i in 0..n
            invariant
                n == all.len(),
                all == self.language_server_statuses.entries(),
                r@ == all.take(i as int).filter_map(is_pending()),
        {
            proof {
                lemma_filter_map_step(all, is_pending(), i as int);
            }
            if self.language_server_statuses.value_of(i).has_pending_diagnostic_updates {
                r.push(*self.language_server_statuses.key_of(i));
            }
        }
        r
    }

    /// A server asks for the inlay hints to be drawn anew. `connected` tells whether messages can be
    /// sent.
    pub fn on_lsp_inlay_hint_refresh(&self, connected: bool, out: &mut Vec<Effect>) -> (r: Result<
        (),
        ProjectError,
    >)
        ensures
            r == refresh_answer(*self, connected),
            final(out)@ == old(out)@ + refresh_effects(*self, connected),
    {
        out.push(Effect::Emit(Event::RefreshInlayHints));
        if let Some(project_id) = self.remote_id() {
            if !connected {
                assert(out@ =~= old(out)@ + refresh_effects(*self, connected));
                return Err(ProjectError::Disconnected);
            }
            out.push(Effect::Send(Message::RefreshInlayHints { project_id }));
        }
        assert(out@ =~= old(out)@ + refresh_effects(*self, connected));
        Ok(())
    }

    /// Keeps the edit that a server has made of its own accord, where it succeeded.
    pub fn on_lsp_workspace_edit(
        &mut self,
        server_id: LanguageServerId,
        transaction: Option<ProjectTransaction>,
    )
        ensures
            edit_kept(*old(self), *final(self), server_id, transaction),
    {
        if let Some(t) = transaction {
            self.last_workspace_edits_by_language_server.insert(server_id, t);
        }
    }
}

/// A piece of work whose begin and end a server reports under a token that it has asked for leaves
/// nothing behind: no work, no token, and no diagnostics that are waited for.
pub proof fn ended_work_leaves_nothing(
    s: StatusView,
    token: Seq<char>,
    message: Option<String>,
    percentage: Option<u32>,
    is_diagnostics: bool,
    start: u64,
    end: u64,
)
    requires
        !s.pending_work.contains_key(token),
        !s.progress_tokens.contains(token),
        !s.has_pending_diagnostic_updates,
    ensures
        status_after(
            status_after(
                s.token_known(token),
                token,
                WorkDoneProgress::Begin { message, percentage },
                is_diagnostics,
                start,
            ),
            token,
            WorkDoneProgress::End,
            is_diagnostics,
            end,
        ) == s,
{
    let progress = LanguageServerProgress {
        message,
        percentage: widened(percentage),
        last_update_at: start,
    };
    assert(s.progress_tokens.insert(token).remove(token) =~= s.progress_tokens);
    assert(s.pending_work.insert(token, progress).remove(token) =~= s.pending_work);
}

/// Beginning, reporting and ending a piece of work concern that piece alone. A report keeps the
/// message or the percentage that it leaves out, and every report renews the time.
pub proof fn work_is_tracked_by_its_token(
    s: StatusView,
    token: Seq<char>,
    other: Seq<char>,
    progress: LanguageServerProgress,
)
    requires
        other != token,
    ensures
        s.work_started(token, progress).pending_work.contains_key(token),
        s.work_started(token, progress).pending_work[token] == progress,
        ({
            let after = s.work_progressed(token, progress).pending_work;
            let before = s.pending_work;
            &&& after.contains_key(token)
            &&& after[token].last_update_at == progress.last_update_at
            &&& progress.message is Some ==> after[token].message == progress.message
            &&& progress.percentage is Some ==> after[token].percentage == progress.percentage
            &&& before.contains_key(token) && progress.message is None ==> after[token].message
                == before[token].message
            &&& before.contains_key(token) && progress.percentage is None
                ==> after[token].percentage == before[token].percentage
            &&& !before.contains_key(token) ==> after[token] == progress
        }),
        !s.work_ended(token).pending_work.contains_key(token),
        s.work_started(token, progress).pending_work.contains_key(other)
            == s.pending_work.contains_key(other),
        s.work_progressed(token, progress).pending_work.contains_key(other)
            == s.pending_work.contains_key(other),
        s.work_ended(token).pending_work.contains_key(other) == s.pending_work.contains_key(other),
        s.pending_work.contains_key(other) ==> s.work_started(token, progress).pending_work[other]
            == s.pending_work[other] && s.work_progressed(token, progress).pending_work[other]
            == s.pending_work[other] && s.work_ended(token).pending_work[other]
            == s.pending_work[other],
{
}

/// Work of the diagnostics is not listed: its begin makes them pending and its end makes them final.
/// Other work is listed under its token from its begin to its end, with what was reported of it and
/// when, and leaves the diagnostics alone.
pub proof fn reports_change_the_status(
    s: StatusView,
    token: Seq<char>,
    message: Option<String>,
    percentage: Option<u32>,
    now: u64,
)
    ensures
        ({
            let begin = WorkDoneProgress::Begin { message, percentage };
            let report = WorkDoneProgress::Report { message, percentage };
            let end = WorkDoneProgress::End;
            &&& status_after(s, token, begin, true, now).has_pending_diagnostic_updates
            &&& status_after(s, token, begin, true, now).pending_work == s.pending_work
            &&& status_after(s, token, report, true, now) == s
            &&& !status_after(s, token, end, true, now).has_pending_diagnostic_updates
            &&& status_after(s, token, end, true, now).pending_work == s.pending_work
            &&& !status_after(s, token, end, true, now).progress_tokens.contains(token)
            &&& ({
                let after = status_after(s, token, begin, false, now);
                &&& after.pending_work.contains_key(token)
                &&& after.pending_work[token].message == message
                &&& after.pending_work[token].last_update_at == now
                &&& percentage is Some ==> after.pending_work[token].percentage is Some
                    && after.pending_work[token].percentage->0 == percentage->0
                &&& percentage is None ==> after.pending_work[token].percentage is None
                &&& after.has_pending_diagnostic_updates == s.has_pending_diagnostic_updates
                &&& after.progress_tokens == s.progress_tokens
            })
            &&& ({
                let after = status_after(s, token, report, false, now);
                &&& after.pending_work.contains_key(token)
                &&& after.pending_work[token].last_update_at == now
                &&& message is Some ==> after.pending_work[token].message == message
                &&& percentage is Some ==> after.pending_work[token].percentage is Some
                    && after.pending_work[token].percentage->0 == percentage->0
                &&& after.has_pending_diagnostic_updates == s.has_pending_diagnostic_updates
                &&& after.progress_tokens == s.progress_tokens
            })
            &&& ({
                let after = status_after(s, token, end, false, now);
                &&& !after.pending_work.contains_key(token)
                &&& !after.progress_tokens.contains(token)
                &&& after.has_pending_diagnostic_updates == s.has_pending_diagnostic_updates
            })
        }),
{
}

/// The other participants hear of every report on a piece of work, with what it says. Of the
/// diagnostics they and the observers hear when they begin and when they are final.
pub proof fn reports_are_passed_on(
    id: LanguageServerId,
    token: String,
    message: Option<String>,
    percentage: Option<u32>,
)
    ensures
        ({
            let begin = WorkDoneProgress::Begin { message, percentage };
            let report = WorkDoneProgress::Report { message, percentage };
            let end = WorkDoneProgress::End;
            &&& progress_effects(id, token, begin, false).last() == Effect::QueueMessage(
                BufferOrderedMessage::LanguageServerUpdate {
                    language_server_id: id,
                    message: ServerUpdate::WorkStart { token, message, percentage },
                },
            )
            &&& progress_effects(id, token, report, false).last() == Effect::QueueMessage(
                BufferOrderedMessage::LanguageServerUpdate {
                    language_server_id: id,
                    message: ServerUpdate::WorkProgress { token, message, percentage },
                },
            )
            &&& progress_effects(id, token, end, false).last() == Effect::QueueMessage(
                BufferOrderedMessage::LanguageServerUpdate {
                    language_server_id: id,
                    message: ServerUpdate::WorkEnd { token },
                },
            )
            &&& progress_effects(id, token, end, false)[0] == Effect::Emit(Event::RefreshInlayHints)
            &&& progress_effects(id, token, begin, true).last() == Effect::QueueMessage(
                BufferOrderedMessage::LanguageServerUpdate {
                    language_server_id: id,
                    message: ServerUpdate::DiskBasedDiagnosticsUpdating,
                },
            )
            &&& progress_effects(id, token, begin, true)[0] == Effect::Emit(
                Event::DiskBasedDiagnosticsStarted { language_server_id: id },
            )
            &&& progress_effects(id, token, report, true).len() == 0
            &&& progress_effects(id, token, end, true).last() == Effect::QueueMessage(
                BufferOrderedMessage::LanguageServerUpdate {
                    language_server_id: id,
                    message: ServerUpdate::DiskBasedDiagnosticsUpdated,
                },
            )
            &&& progress_effects(id, token, end, true)[0] == Effect::Emit(
                Event::DiskBasedDiagnosticsFinished { language_server_id: id },
            )
        }),
{
}

/// A token that is a text is noted for a known server, and nothing else of it changes; a number is
/// not noted.
pub proof fn text_tokens_are_noted(
    before: Project,
    after: Project,
    id: LanguageServerId,
    token: ProgressToken,
)
    requires
        token_created(before, after, id, token),
    ensures
        token is Text && statuses_of(before).contains_key(id) ==> {
            let now = statuses_of(after);
            &&& now.contains_key(id)
            &&& now[id].progress_tokens == statuses_of(before)[id].progress_tokens.insert(
                token->Text_0@,
            )
            &&& now[id].pending_work == statuses_of(before)[id].pending_work
            &&& now[id].name == statuses_of(before)[id].name
        },
        token is Number ==> after == before,
        !statuses_of(before).contains_key(id) ==> after == before,
{
}

/// Reports under a token that the server has not asked for are not heeded.
pub proof fn unknown_tokens_are_ignored(
    before: Project,
    after: Project,
    token: ProgressToken,
    progress: WorkDoneProgress,
    id: LanguageServerId,
    disk_based_token: Option<String>,
    now: u64,
    told: Seq<Effect>,
    out: Seq<Effect>,
)
    requires
        progress_followed(before, after, token, progress, id, disk_based_token, now, told, out),
    ensures
        token is Number || !statuses_of(before).contains_key(id) || !statuses_of(
            before,
        )[id].progress_tokens.contains(token->Text_0@) ==> statuses_of(after) == statuses_of(before)
            && out == told,
        forall|other: LanguageServerId|
            other != id ==> statuses_of(after).contains_key(other) == statuses_of(
                before,
            ).contains_key(other) && (statuses_of(before).contains_key(other)
                ==> #[trigger] statuses_of(after)[other] == statuses_of(before)[other]),
{
}

/// Work belongs to the diagnostics exactly if its token begins with the one that the server has for
/// them.
pub proof fn diagnostics_have_their_token(token: Seq<char>, disk_based_token: Option<String>)
    ensures
        is_diagnostics_token(token, disk_based_token) <==> disk_based_token is Some
            && disk_based_token->0@.is_prefix_of(token),
{
}

/// Observers always hear that hints are to be asked for again. The others of a shared project do if
/// messages can be sent; if not, that is an error.
pub proof fn hints_are_refreshed_for_all(project: Project, connected: bool)
    ensures
        refresh_effects(project, connected)[0] == Effect::Emit(Event::RefreshInlayHints),
        project.remote_id_of() is Some && connected ==> refresh_effects(project, connected) == seq![
            Effect::Emit(Event::RefreshInlayHints),
            Effect::Send(Message::RefreshInlayHints { project_id: project.remote_id_of()->0 }),
        ] && refresh_answer(project, connected) is Ok,
        project.remote_id_of() is Some && !connected ==> refresh_effects(project, connected).len()
            == 1 && refresh_answer(project, connected) == Err::<(), ProjectError>(
            ProjectError::Disconnected,
        ),
        project.remote_id_of() is None ==> refresh_effects(project, connected).len() == 1
            && refresh_answer(project, connected) is Ok,
{
}

/// The last edit of a server is kept for that server; a failed one leaves what was kept.
pub proof fn last_edits_are_kept(
    before: Project,
    after: Project,
    server_id: LanguageServerId,
    transaction: Option<ProjectTransaction>,
)
    requires
        edit_kept(before, after, server_id, transaction),
    ensures
        ({
            let edits = before.last_workspace_edits_by_language_server@;
            let now = after.last_workspace_edits_by_language_server@;
            &&& transaction is Some ==> now.contains_key(server_id) && now[server_id]
                == transaction->0
            &&& transaction is None ==> now == edits
            &&& forall|other: LanguageServerId|
                other != server_id ==> #[trigger] now.contains_key(other) == edits.contains_key(
                    other,
                )
        }),
{
}

/// The servers that run diagnostics are exactly those with pending ones.
pub proof fn pending_servers_are_listed(e: (LanguageServerId, LanguageServerStatus))
    ensures
        is_pending()(e) is Some <==> e.1.has_pending_diagnostic_updates,
        is_pending()(e) is Some ==> is_pending()(e)->0 == e.0,
{
}

} // verus!
