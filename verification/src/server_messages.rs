//! What a language server that has been set up says and asks, and what it is answered.

use crate::buffer_diagnostics::{diagnostics_placed, DiagnosticsTarget};
use crate::diagnostics::{DiagnosticEntry, PublishDiagnosticsParams};
use crate::edit_run::{fresh_run, EditRun};
use crate::effects::{Effect, Event, Message, ServerNotification};
use crate::ids::{EntityId, LanguageServerId};
use crate::model::{AppContext, LanguageServer, LspAdapter};
use crate::path::Path;
use crate::progress::{
    edit_kept, progress_followed, refresh_answer, refresh_effects, token_created, ProgressToken,
    WorkDoneProgress,
};
use crate::project::{Project, ProjectError, ProjectTransaction};
use crate::requests::{configuration_answer, workspace_configuration};
use crate::watch::{
    is_running, placement, registers_watched_files, watchers_replaced, watches_here, GlobPattern,
    WATCHED_FILES_METHOD,
};
use crate::workspace_edits::{operations_of, WorkspaceEdit};
use std::sync::Arc;
use vstd::prelude::*;

verus! {

/// The options of a capability that a server registers.
#[derive(Debug)]
pub enum RegisterOptions {
    Missing,
    /// They are not what the capability asks for.
    Invalid,
    Watchers(Vec<GlobPattern>),
}

/// A capability that a server registers.
#[derive(Debug)]
pub struct Registration {
    pub method: String,
    pub options: RegisterOptions,
}

/// What a server says or asks.
#[derive(Debug)]
pub enum ServerMessage {
    /// The problems of a document, which is missing where it is no file.
    PublishDiagnostics { document: Option<Path>, params: PublishDiagnosticsParams },
    /// It asks for sections of its configuration, which is given as JSON text.
    WorkspaceConfiguration { configuration: String, sections: Vec<Option<String>> },
    WorkDoneProgressCreate { token: ProgressToken },
    RegisterCapability { registrations: Vec<Registration> },
    /// It asks for an edit to be made.
    ApplyWorkspaceEdit { edit: WorkspaceEdit },
    /// The edit that it has asked for has been made and gave the transaction, unless it failed.
    WorkspaceEditMade { transaction: Option<ProjectTransaction> },
    /// It wants its hints to be asked for again; messages can be sent to the other participants
    /// or not.
    InlayHintRefresh { connected: bool },
    Progress { token: ProgressToken, progress: WorkDoneProgress, now: u64 },
}

/// What follows from what a server says, or what it is answered.
#[derive(Debug)]
pub enum ServerReply {
    /// Where the problems belong.
    Diagnostics(Result<(DiagnosticsTarget, Vec<DiagnosticEntry>), ProjectError>),
    Configuration(Vec<String>),
    Registered(Result<(), ProjectError>),
    Refreshed(Result<(), ProjectError>),
    /// The edit that is to be carried out.
    Edit(Result<EditRun, ProjectError>),
    /// The edit counts as made, whether or not it succeeded.
    Applied,
    Done,
}

/// The registration is about watched files.
pub open spec fn is_about_files(r: Registration) -> bool {
    r.method@ == WATCHED_FILES_METHOD@ && !(r.options is Missing)
}

/// The registration cannot be read.
pub open spec fn is_invalid(r: Registration) -> bool {
    is_about_files(r) && r.options is Invalid
}

/// How many registrations are heeded: those before the first that cannot be read.
pub open spec fn heeded(registrations: Seq<Registration>, n: int) -> int
    decreases n,
{
    if n <= 0 {
        0
    } else {
        let before = heeded(registrations, n - 1);
        if before == n - 1 && !is_invalid(registrations[n - 1]) {
            n
        } else {
            before
        }
    }
}

/// The project and what has been asked for so far.
pub struct Stage {
    pub project: Project,
    pub out: Seq<Effect>,
}

/// One registration leads from a stage to the next.
pub open spec fn registered(
    from: Stage,
    to: Stage,
    cx: AppContext,
    id: LanguageServerId,
    r: Registration,
) -> bool {
    match r.options {
        RegisterOptions::Watchers(watchers) if is_about_files(r) => watchers_replaced(
            from.project,
            to.project,
            cx,
            id,
            watchers@,
            from.out,
            to.out,
        ),
        _ => to == from,
    }
}

/// The registrations lead through the stages.
pub open spec fn leads_through(
    stages: Seq<Stage>,
    cx: AppContext,
    id: LanguageServerId,
    registrations: Seq<Registration>,
    n: int,
) -> bool {
    &&& stages.len() == n + 1
    &&& forall|i: int|
        0 <= i < n ==> registered(#[trigger] stages[i], stages[i + 1], cx, id, registrations[i])
}

/// The registrations have been gone through, up to the first that cannot be read.
pub open spec fn all_registered(
    r: Result<(), ProjectError>,
    from: Stage,
    to: Stage,
    cx: AppContext,
    id: LanguageServerId,
    registrations: Seq<Registration>,
) -> bool {
    let n = heeded(registrations, registrations.len() as int);
    &&& r == (if n == registrations.len() {
        Ok::<(), ProjectError>(())
    } else {
        Err::<(), ProjectError>(ProjectError::InvalidOptions)
    })
    &&& exists|stages: Seq<Stage>| #[trigger]
        leads_through(stages, cx, id, registrations, n) && stages[0] == from && stages[n] == to
}

/// All watched files that are heeded lie in worktrees that are kept here.
pub open spec fn all_watch_here(project: Project, cx: AppContext, registrations: Seq<Registration>) -> bool {
    forall|i: int|
        0 <= i < heeded(registrations, registrations.len() as int) && is_about_files(
            #[trigger] registrations[i],
        ) ==> (registrations[i].options matches RegisterOptions::Watchers(watchers)
            ==> watches_here(project, cx, watchers@))
}

proof fn lemma_same_places(a: Project, b: Project, cx: AppContext, watchers: Seq<GlobPattern>)
    requires
        a.worktrees == b.worktrees,
        watches_here(a, cx, watchers),
    ensures
        watches_here(b, cx, watchers),
{
    assert forall|i: int| 0 <= i < watchers.len() implies (placement(b, cx)(
        #[trigger] watchers[i],
    ) matches Some(p) ==> cx.live_worktree(p.worktree)->0.is_local) by {
        assert(placement(a, cx)(watchers[i]) == placement(b, cx)(watchers[i]));
    }
}

proof fn lemma_heeded_stops(registrations: Seq<Registration>, n: int, end: int)
    requires
        0 <= n < end <= registrations.len(),
        heeded(registrations, n) == n,
        is_invalid(registrations[n]),
    ensures
        heeded(registrations, end) == n,
    decreases end,
{
    if end > n + 1 {
        lemma_heeded_stops(registrations, n, end - 1);
    }
}

proof fn lemma_heeded_grows(registrations: Seq<Registration>, n: int, end: int)
    requires
        0 <= n <= end,
        heeded(registrations, n) == n,
    ensures
        n <= heeded(registrations, end),
    decreases end,
{
    if n < end {
        lemma_heeded_grows(registrations, n, end - 1);
    }
}

impl Project {
    /// Goes through the capabilities that a server registers. Only those that are about watched
    /// files are heeded; one that cannot be read ends the request.
    fn register_capabilities(
        &mut self,
        server_id: LanguageServerId,
        registrations: &Vec<Registration>,
        cx: &AppContext,
        out: &mut Vec<Effect>,
    ) -> (r: Result<(), ProjectError>)
        requires
            is_running(*old(self), server_id) ==> all_watch_here(
                *old(self),
                *cx,
                registrations@,
            ),
        ensures
            all_registered(
                r,
                Stage { project: *old(self), out: old(out)@ },
                Stage { project: *final(self), out: final(out)@ },
                *cx,
                server_id,
                registrations@,
            ),
            *final(self) == (Project {
                language_servers: final(self).language_servers,
                ..*old(self)
            }),
    {
        let ghost all = registrations@;
        let ghost mut stages: Seq<Stage> = seq![Stage { project: *self, out: out@ }];
        for i in 0..registrations.len()
            invariant
                all == registrations@,
                is_running(*old(self), server_id) ==> all_watch_here(*old(self), *cx, all),
                is_running(*self, server_id) ==> is_running(*old(self), server_id),
                heeded(all, i as int) == i,
                leads_through(stages, *cx, server_id, all, i as int),
                stages[0] == (Stage { project: *old(self), out: old(out)@ }),
                stages[i as int] == (Stage { project: *self, out: out@ }),
                *self == (Project { language_servers: self.language_servers, ..*old(self) }),
        {
            let has_options = match registrations[i].options {
                RegisterOptions::Missing => false,
                _ => true,
            };
            if registers_watched_files(registrations[i].method.as_str(), has_options) {
                match &registrations[i].options {
                    RegisterOptions::Watchers(watchers) => {
                        proof {
                            assert(heeded(all, i + 1) == i + 1);
                            lemma_heeded_grows(all, i + 1, all.len() as int);
                            if is_running(*self, server_id) {
                                assert(is_about_files(all[i as int]));
                                lemma_same_places(*old(self), *self, *cx, watchers@);
                            }
                        }
                        self.on_lsp_did_change_watched_files(server_id, watchers, cx, out);
                    },
                    _ => {
                        proof {
                            lemma_heeded_stops(all, i as int, all.len() as int);
                            assert(leads_through(stages, *cx, server_id, all, i as int));
                        }
                        return Err(ProjectError::InvalidOptions);
                    },
                }
            }
            proof {
                let next = Stage { project: *self, out: out@ };
                let more = stages.push(next);
                assert(registered(stages[i as int], next, *cx, server_id, all[i as int]));
                assert forall|j: int| 0 <= j < i + 1 implies registered(
                    #[trigger] more[j],
                    more[j + 1],
                    *cx,
                    server_id,
                    all[j],
                ) by {
                    if j < i {
                        assert(registered(stages[j], stages[j + 1], *cx, server_id, all[j]));
                    }
                }
                stages = more;
            }
        }
        assert(leads_through(stages, *cx, server_id, all, all.len() as int));
        Ok(())
    }
}

/// What a server says has been heeded, and the reply answers it.
pub open spec fn is_answered(
    r: ServerReply,
    before: Project,
    after: Project,
    cx: AppContext,
    id: LanguageServerId,
    adapter: LspAdapter,
    message: ServerMessage,
    told: Seq<Effect>,
    out: Seq<Effect>,
) -> bool {
    match (message, r) {
        (ServerMessage::PublishDiagnostics { document, params }, ServerReply::Diagnostics(r)) => {
            &&& diagnostics_placed(
                r,
                before,
                after,
                cx,
                id,
                match document {
                    Some(p) => Some(&p),
                    None => None,
                },
                params,
                adapter.disk_based_diagnostic_sources@,
            )
            &&& out == told
        },
        (
            ServerMessage::WorkspaceConfiguration { configuration, sections },
            ServerReply::Configuration(answers),
        ) => {
            &&& answers@.len() == sections@.len()
            &&& forall|i: int|
                0 <= i < sections@.len() ==> (#[trigger] answers@[i])@ == configuration_answer(
                    configuration@,
                    sections@[i],
                )
            &&& after == before
            &&& out == told
        },
        (ServerMessage::WorkDoneProgressCreate { token }, ServerReply::Done) => token_created(
            before,
            after,
            id,
            token,
        ) && out == told,
        (ServerMessage::RegisterCapability { registrations }, ServerReply::Registered(r)) => {
            all_registered(
                r,
                Stage { project: before, out: told },
                Stage { project: after, out },
                cx,
                id,
                registrations@,
            )
        },
        (ServerMessage::ApplyWorkspaceEdit { edit }, ServerReply::Edit(r)) => {
            &&& match r {
                Ok(run) => before.server_of_id(id) is Some && run@ == fresh_run(edit, true),
                Err(e) => before.server_of_id(id) is None && e == ProjectError::NoSuchServer,
            }
            &&& after == before
            &&& out == told
        },
        (ServerMessage::WorkspaceEditMade { transaction }, ServerReply::Applied) => edit_kept(
            before,
            after,
            id,
            transaction,
        ) && out == told,
        (ServerMessage::InlayHintRefresh { connected }, ServerReply::Refreshed(r)) => {
            &&& r == refresh_answer(before, connected)
            &&& after == before
            &&& out == told + refresh_effects(before, connected)
        },
        (ServerMessage::Progress { token, progress, now }, ServerReply::Done) => progress_followed(
            before,
            after,
            token,
            progress,
            id,
            adapter.disk_based_diagnostics_progress_token,
            now,
            told,
            out,
        ),
        _ => false,
    }
}

impl Project {
    /// Heeds what a server says, or answers what it asks. These are the messages that a server is
    /// listened to for from the moment that it has been set up.
    pub fn handle_server_message(
        &mut self,
        server_id: LanguageServerId,
        adapter: &LspAdapter,
        message: ServerMessage,
        cx: &AppContext,
        out: &mut Vec<Effect>,
    ) -> (r: ServerReply)
        requires
            old(self).snapshots_ordered(),
            match message {
                ServerMessage::PublishDiagnostics { params, .. } => old(
                    self,
                ).next_diagnostic_group_id + params.diagnostics@.len() <= usize::MAX,
                ServerMessage::RegisterCapability { registrations } => is_running(
                    *old(self),
                    server_id,
                ) ==> all_watch_here(*old(self), *cx, registrations@),
                _ => true,
            },
        ensures
            final(self).snapshots_ordered(),
            is_answered(
                r,
                *old(self),
                *final(self),
                *cx,
                server_id,
                *adapter,
                message,
                old(out)@,
                final(out)@,
            ),
    {
        match message {
            ServerMessage::PublishDiagnostics { document, params } => {
                let abs_path = match &document {
                    Some(p) => Some(p),
                    None => None,
                };
                ServerReply::Diagnostics(
                    self.update_diagnostics(
                        server_id,
                        abs_path,
                        params,
                        &adapter.disk_based_diagnostic_sources,
                        cx,
                    ),
                )
            },
            ServerMessage::WorkspaceConfiguration { configuration, sections } => {
                ServerReply::Configuration(workspace_configuration(&configuration, &sections))
            },
            ServerMessage::WorkDoneProgressCreate { token } => {
                self.on_lsp_create_progress_token(server_id, token);
                ServerReply::Done
            },
            ServerMessage::RegisterCapability { registrations } => {
                ServerReply::Registered(
                    self.register_capabilities(server_id, &registrations, cx, out),
                )
            },
            ServerMessage::ApplyWorkspaceEdit { edit } => {
                ServerReply::Edit(
                    match self.language_server_for_id(server_id) {
                        Some(_) => Ok(EditRun::new(edit, true)),
                        None => Err(ProjectError::NoSuchServer),
                    },
                )
            },
            ServerMessage::WorkspaceEditMade { transaction } => {
                self.on_lsp_workspace_edit(server_id, transaction);
                ServerReply::Applied
            },
            ServerMessage::InlayHintRefresh { connected } => {
                ServerReply::Refreshed(self.on_lsp_inlay_hint_refresh(connected, out))
            },
            ServerMessage::Progress { token, progress, now } => {
                self.on_lsp_progress(
                    token,
                    progress,
                    server_id,
                    &adapter.disk_based_diagnostics_progress_token,
                    now,
                    out,
                );
                ServerReply::Done
            },
        }
    }
}

/// Takes up a server that has been asked to initialize itself: it is told its configuration, which is
/// given as JSON text. There is no server where it failed to initialize itself.
pub fn finish_setup(
    initialized: Option<Arc<LanguageServer>>,
    configuration: Arc<String>,
    out: &mut Vec<Effect>,
) -> (r: Result<Arc<LanguageServer>, ProjectError>)
    ensures
        match initialized {
            Some(server) => {
                &&& r == Ok::<Arc<LanguageServer>, ProjectError>(server)
                &&& final(out)@ == old(out)@.push(
                    Effect::NotifyServer(
                        server.server_id,
                        ServerNotification::DidChangeConfiguration { settings: configuration },
                    ),
                )
            },
            None => {
                &&& r == Err::<Arc<LanguageServer>, ProjectError>(
                    ProjectError::InitializationFailed,
                )
                &&& final(out)@ == old(out)@
            },
        },
{
    match initialized {
        Some(server) => {
            out.push(
                Effect::NotifyServer(
                    server.server_id,
                    ServerNotification::DidChangeConfiguration { settings: configuration },
                ),
            );
            Ok(server)
        },
        None => Err(ProjectError::InitializationFailed),
    }
}

/// Registrations are heeded up to the first one about watched files that cannot be read; that one,
/// and all behind it, are not.
pub proof fn registrations_are_heeded_in_order(registrations: Seq<Registration>, n: int)
    requires
        0 <= n <= registrations.len(),
    ensures
        ({
            let k = heeded(registrations, n);
            &&& 0 <= k <= n
            &&& forall|i: int|
                0 <= i < k ==> !((#[trigger] registrations[i]).method@
                    == "workspace/didChangeWatchedFiles"@ && registrations[i].options is Invalid)
            &&& k < n ==> registrations[k].method@ == "workspace/didChangeWatchedFiles"@
                && registrations[k].options is Invalid
        }),
    decreases n,
{
    if n > 0 {
        registrations_are_heeded_in_order(registrations, n - 1);
    }
}

/// A registration has a server watch files exactly if it is about watched files and says which; any
/// other one changes nothing.
pub proof fn other_registrations_change_nothing(
    from: Stage,
    to: Stage,
    cx: AppContext,
    id: LanguageServerId,
    r: Registration,
)
    requires
        registered(from, to, cx, id, r),
    ensures
        r.method@ != "workspace/didChangeWatchedFiles"@ || !(r.options is Watchers) ==> to == from,
        r.method@ == "workspace/didChangeWatchedFiles"@ && r.options is Watchers
            ==> watchers_replaced(
            from.project,
            to.project,
            cx,
            id,
            r.options->Watchers_0@,
            from.out,
            to.out,
        ),
{
}

/// Each message gets the reply of its kind. Questions for the configuration and edits that are asked
/// for change nothing, and an edit is carried out only for a server that is known.
pub proof fn messages_get_their_reply(
    r: ServerReply,
    before: Project,
    after: Project,
    cx: AppContext,
    id: LanguageServerId,
    adapter: LspAdapter,
    message: ServerMessage,
    told: Seq<Effect>,
    out: Seq<Effect>,
)
    requires
        is_answered(r, before, after, cx, id, adapter, message, told, out),
    ensures
        message is PublishDiagnostics <==> r is Diagnostics,
        message is WorkspaceConfiguration <==> r is Configuration,
        message is RegisterCapability <==> r is Registered,
        message is ApplyWorkspaceEdit <==> r is Edit,
        message is WorkspaceEditMade <==> r is Applied,
        message is InlayHintRefresh <==> r is Refreshed,
        message is WorkspaceConfiguration || message is ApplyWorkspaceEdit
            || message is InlayHintRefresh ==> after == before,
        message is WorkspaceConfiguration ==> r->Configuration_0@.len() == message->sections@.len()
            && out == told,
        message is ApplyWorkspaceEdit ==> (r->Edit_0 is Ok <==> before.server_of_id(id) is Some),
        message is PublishDiagnostics && message->document is None ==> r->Diagnostics_0 is Err
            && r->Diagnostics_0->Err_0 is UriIsNotAFile && after == before,
{
}

/// Only a wish to have hints asked for again, a registration and the progress of a task can have
/// effects. The edit that a server wants made is begun at its first step; one that it has made is
/// kept for that server alone. Hints are asked for again, by guests too where they can be reached.
pub proof fn messages_are_heeded(
    r: ServerReply,
    before: Project,
    after: Project,
    cx: AppContext,
    id: LanguageServerId,
    adapter: LspAdapter,
    message: ServerMessage,
    told: Seq<Effect>,
    out: Seq<Effect>,
)
    requires
        is_answered(r, before, after, cx, id, adapter, message, told, out),
    ensures
        message is PublishDiagnostics || message is WorkDoneProgressCreate
            || message is ApplyWorkspaceEdit || message is WorkspaceEditMade ==> out == told,
        message is ApplyWorkspaceEdit && r->Edit_0 is Ok ==> {
            let run = r->Edit_0->Ok_0@;
            &&& run.left == operations_of(message->edit)
            &&& run.doing.len() == 0
            &&& run.transaction == Map::<EntityId, u64>::empty()
            &&& run.push_to_history
        },
        message matches ServerMessage::WorkspaceEditMade { transaction: Some(t) } ==> {
            let kept = after.last_workspace_edits_by_language_server@;
            &&& kept.contains_key(id) && kept[id] == t
            &&& forall|other: LanguageServerId|
                other != id ==> #[trigger] kept.contains_key(other)
                    == before.last_workspace_edits_by_language_server@.contains_key(other)
        },
        message matches ServerMessage::InlayHintRefresh { connected } ==> {
            let n = told.len() as int;
            &&& out.len() > n && out.take(n) == told
            &&& out[n] == Effect::Emit(Event::RefreshInlayHints)
            &&& before.remote_id_of() is Some && connected ==> out.len() == n + 2 && out[n + 1]
                == Effect::Send(
                Message::RefreshInlayHints { project_id: before.remote_id_of()->0 },
            )
            &&& before.remote_id_of() is None || !connected ==> out.len() == n + 1
            &&& r->Refreshed_0 is Err <==> before.remote_id_of() is Some && !connected
        },
{
    if message is InlayHintRefresh {
        assert(out.take(told.len() as int) =~= told);
    }
}

/// A request to register capabilities succeeds exactly if none of those about watched files is
/// unreadable. Registrations that are not about watched files leave everything as it is.
pub proof fn readable_registrations_succeed(
    r: Result<(), ProjectError>,
    from: Stage,
    to: Stage,
    cx: AppContext,
    id: LanguageServerId,
    registrations: Seq<Registration>,
)
    requires
        all_registered(r, from, to, cx, id, registrations),
    ensures
        r is Ok <==> forall|i: int|
            0 <= i < registrations.len() ==> !((#[trigger] registrations[i]).method@
                == "workspace/didChangeWatchedFiles"@ && registrations[i].options is Invalid),
        r is Err ==> r->Err_0 is InvalidOptions,
        (forall|i: int|
            0 <= i < registrations.len() ==> (#[trigger] registrations[i]).method@
                != "workspace/didChangeWatchedFiles"@) ==> to == from,
{
    let n = registrations.len() as int;
    let k = heeded(registrations, n);
    registrations_are_heeded_in_order(registrations, n);
    if k < n {
        assert(registrations[k].options is Invalid);
    }
    if forall|i: int|
        0 <= i < registrations.len() ==> (#[trigger] registrations[i]).method@
            != "workspace/didChangeWatchedFiles"@ {
        let stages = choose|stages: Seq<Stage>| #[trigger]
            leads_through(stages, cx, id, registrations, k) && stages[0] == from && stages[k] == to;
        lemma_stages_stay(stages, cx, id, registrations, k, k);
    }
}

proof fn lemma_stages_stay(
    stages: Seq<Stage>,
    cx: AppContext,
    id: LanguageServerId,
    registrations: Seq<Registration>,
    n: int,
    i: int,
)
    requires
        0 <= i <= n <= registrations.len(),
        leads_through(stages, cx, id, registrations, n),
        forall|j: int|
            0 <= j < registrations.len() ==> (#[trigger] registrations[j]).method@
                != "workspace/didChangeWatchedFiles"@,
    ensures
        stages[i] == stages[0],
    decreases i,
{
    if i > 0 {
        lemma_stages_stay(stages, cx, id, registrations, n, i - 1);
        assert(registered(stages[i - 1], stages[i - 1 + 1], cx, id, registrations[i - 1]));
        assert(registrations[i - 1].method@ != "workspace/didChangeWatchedFiles"@);
    }
}

} // verus!
