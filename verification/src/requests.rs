//! Asking language servers, or the host of the project.

use crate::edits::{Anchor, Bias, TextEdit};
use crate::ids::{LanguageServerId, LanguageServerName};
use crate::map::SortedMap;
use crate::model::{Buffer, LanguageServer, LspAdapter, PointUtf16};
use crate::outside::{
    get_json_member, json_member, json_with_member, optional_text, set_json_member,
};
use crate::path::Path;
use crate::project::{Project, ProjectError, ProjectTransaction};
use crate::seqs::{
    find_map, lemma_filter_map_from, lemma_filter_map_has, lemma_filter_map_matches,
    lemma_filter_map_step, lemma_take_all,
};
use crate::servers::{servers_are_found_by_their_id, with_server_id};
use std::sync::Arc;
use vstd::prelude::*;

verus! {

/// Which of the servers of a buffer is asked.
#[derive(Clone, Copy, Debug, PartialEq, Eq, Structural)]
pub enum LanguageServerToQuery {
    Primary,
    Other(LanguageServerId),
}

/// What is asked.
#[allow(inconsistent_fields)]
#[derive(Debug, PartialEq, Eq)]
pub enum LspRequest {
    Definition { position: PointUtf16 },
    TypeDefinition { position: PointUtf16 },
    References { position: PointUtf16 },
    DocumentHighlights { position: PointUtf16 },
    Hover { position: PointUtf16 },
    CodeActions { start: Anchor, end: Anchor },
    PrepareRename { position: PointUtf16 },
    PerformRename { position: PointUtf16, new_name: String, push_to_history: bool },
    OnTypeFormatting {
        position: PointUtf16,
        trigger: String,
        tab_size: u32,
        push_to_history: bool,
    },
    InlayHints { start: Anchor, end: Anchor },
}

/// Who is asked.
#[derive(Debug)]
pub enum RequestTarget {
    /// Nobody: the answer is empty.
    Nobody,
    /// A server, which knows the buffer as the given document.
    Server { server: Arc<LanguageServer>, document: Path },
    /// The host of the project.
    Host { project_id: u64 },
}

#[derive(Debug)]
pub struct LspQuery {
    pub request: LspRequest,
    pub target: RequestTarget,
}

/// The server of a buffer that is asked.
pub open spec fn queried(project: Project, buffer: Buffer, server: LanguageServerToQuery) -> Option<
    (Arc<LspAdapter>, Arc<LanguageServer>),
> {
    let servers = project.servers_of_buffer(buffer);
    match server {
        LanguageServerToQuery::Primary => if servers.len() > 0 {
            Some(servers[0])
        } else {
            None
        },
        LanguageServerToQuery::Other(id) => find_map(servers, with_server_id(id)),
    }
}

/// Who is asked about a buffer.
pub open spec fn target_of(project: Project, buffer: Buffer, server: LanguageServerToQuery) -> RequestTarget {
    if project.is_guest() {
        match project.remote_id_of() {
            Some(project_id) => RequestTarget::Host { project_id },
            None => RequestTarget::Nobody,
        }
    } else {
        match (queried(project, buffer, server), buffer.file) {
            (Some(s), Some(file)) if file.is_local => RequestTarget::Server {
                server: s.1,
                document: file.abs_path,
            },
            _ => RequestTarget::Nobody,
        }
    }
}

impl Project {
    /// Finds out who is asked about a buffer.
    pub fn request_lsp(&self, buffer: &Buffer, server: LanguageServerToQuery) -> (r: RequestTarget)
        ensures
            r == target_of(*self, *buffer, server),
    {
        if self.is_local() {
            let found = match server {
                LanguageServerToQuery::Primary => self.primary_language_server_for_buffer(buffer),
                LanguageServerToQuery::Other(id) => self.language_server_for_buffer(buffer, id),
            };
            if let Some((_, server)) = found {
                if let Some(file) = &buffer.file {
                    if file.is_local {
                        return RequestTarget::Server { server, document: file.abs_path.clone() };
                    }
                }
            }
            RequestTarget::Nobody
        } else {
            match self.remote_id() {
                Some(project_id) => RequestTarget::Host { project_id },
                None => RequestTarget::Nobody,
            }
        }
    }

    /// Tells whether the host's answer can still be used.
    pub fn check_proto_response(&self) -> (r: Result<(), ProjectError>)
        ensures
            r == (if self.client_state matches Some(
                crate::project::ProjectClientState::Remote { sharing_has_stopped: true, .. },
            ) {
                Err::<(), ProjectError>(ProjectError::Disconnected)
            } else {
                Ok::<(), ProjectError>(())
            }),
    {
        if self.is_read_only() {
            Err(ProjectError::Disconnected)
        } else {
            Ok(())
        }
    }

    /// Asks where what stands at a position is defined.
    pub fn definition(&self, buffer: &Buffer, position: PointUtf16) -> (r: LspQuery)
        ensures
            r.request == (LspRequest::Definition { position }),
            r.target == target_of(*self, *buffer, LanguageServerToQuery::Primary),
    {
        LspQuery {
            request: LspRequest::Definition { position },
            target: self.request_lsp(buffer, LanguageServerToQuery::Primary),
        }
    }

    /// Asks where the type of what stands at a position is defined.
    pub fn type_definition(&self, buffer: &Buffer, position: PointUtf16) -> (r: LspQuery)
        ensures
            r.request == (LspRequest::TypeDefinition { position }),
            r.target == target_of(*self, *buffer, LanguageServerToQuery::Primary),
    {
        LspQuery {
            request: LspRequest::TypeDefinition { position },
            target: self.request_lsp(buffer, LanguageServerToQuery::Primary),
        }
    }

    /// Asks where what stands at a position is used.
    pub fn references(&self, buffer: &Buffer, position: PointUtf16) -> (r: LspQuery)
        ensures
            r.request == (LspRequest::References { position }),
            r.target == target_of(*self, *buffer, LanguageServerToQuery::Primary),
    {
        LspQuery {
            request: LspRequest::References { position },
            target: self.request_lsp(buffer, LanguageServerToQuery::Primary),
        }
    }

    /// Asks where what stands at a position occurs in the buffer.
    pub fn document_highlights(&self, buffer: &Buffer, position: PointUtf16) -> (r: LspQuery)
        ensures
            r.request == (LspRequest::DocumentHighlights { position }),
            r.target == target_of(*self, *buffer, LanguageServerToQuery::Primary),
    {
        LspQuery {
            request: LspRequest::DocumentHighlights { position },
            target: self.request_lsp(buffer, LanguageServerToQuery::Primary),
        }
    }

    /// Asks what is to be shown of a position.
    pub fn hover(&self, buffer: &Buffer, position: PointUtf16) -> (r: LspQuery)
        ensures
            r.request == (LspRequest::Hover { position }),
            r.target == target_of(*self, *buffer, LanguageServerToQuery::Primary),
    {
        LspQuery {
            request: LspRequest::Hover { position },
            target: self.request_lsp(buffer, LanguageServerToQuery::Primary),
        }
    }

    /// Asks what can be done with a stretch of the buffer.
    pub fn code_actions(&self, buffer: &Buffer, start: Anchor, end: Anchor) -> (r: LspQuery)
        ensures
            r.request == (LspRequest::CodeActions { start, end }),
            r.target == target_of(*self, *buffer, LanguageServerToQuery::Primary),
    {
        LspQuery {
            request: LspRequest::CodeActions { start, end },
            target: self.request_lsp(buffer, LanguageServerToQuery::Primary),
        }
    }

    /// Asks what would be renamed at a position.
    pub fn prepare_rename(&self, buffer: &Buffer, position: PointUtf16) -> (r: LspQuery)
        ensures
            r.request == (LspRequest::PrepareRename { position }),
            r.target == target_of(*self, *buffer, LanguageServerToQuery::Primary),
    {
        LspQuery {
            request: LspRequest::PrepareRename { position },
            target: self.request_lsp(buffer, LanguageServerToQuery::Primary),
        }
    }

    /// Asks for a new name for what stands at a position.
    pub fn perform_rename(
        &self,
        buffer: &Buffer,
        position: PointUtf16,
        new_name: String,
        push_to_history: bool,
    ) -> (r: LspQuery)
        ensures
            r.request == (LspRequest::PerformRename { position, new_name, push_to_history }),
            r.target == target_of(*self, *buffer, LanguageServerToQuery::Primary),
    {
        LspQuery {
            request: LspRequest::PerformRename { position, new_name, push_to_history },
            target: self.request_lsp(buffer, LanguageServerToQuery::Primary),
        }
    }

    /// Asks how the buffer is to be formatted after a character was typed.
    pub fn on_type_format(
        &self,
        buffer: &Buffer,
        position: PointUtf16,
        trigger: String,
        tab_size: u32,
        push_to_history: bool,
    ) -> (r: LspQuery)
        ensures
            r.request == (LspRequest::OnTypeFormatting { position, trigger, tab_size, push_to_history }),
            r.target == target_of(*self, *buffer, LanguageServerToQuery::Primary),
    {
        LspQuery {
            request: LspRequest::OnTypeFormatting { position, trigger, tab_size, push_to_history },
            target: self.request_lsp(buffer, LanguageServerToQuery::Primary),
        }
    }

    /// Asks for the hints of a stretch of the buffer.
    pub fn inlay_hints(&self, buffer: &Buffer, start: Anchor, end: Anchor) -> (r: Result<
        LspQuery,
        ProjectError,
    >)
        ensures
            match r {
                Ok(q) => {
                    &&& q.request == (LspRequest::InlayHints { start, end })
                    &&& q.target == target_of(*self, *buffer, LanguageServerToQuery::Primary)
                    &&& !self.is_guest() || self.remote_id_of() is Some
                },
                Err(e) => self.is_guest() && self.remote_id_of() is None && e
                    == ProjectError::ProjectNotShared,
            },
    {
        if self.is_remote() && self.remote_id().is_none() {
            return Err(ProjectError::ProjectNotShared);
        }
        Ok(
            LspQuery {
                request: LspRequest::InlayHints { start, end },
                target: self.request_lsp(buffer, LanguageServerToQuery::Primary),
            },
        )
    }
}

/// Who completes an inlay hint.
#[derive(Debug)]
pub enum HintResolver {
    /// Nobody: the hint stays as it is.
    Nobody,
    Server(Arc<LanguageServer>),
    Host { project_id: u64, buffer_id: u64, language_server_id: u64 },
}

/// Who completes text that is being typed.
#[derive(Debug)]
pub enum CompletionSource {
    Servers(Vec<LanguageServerId>),
    Host { project_id: u64 },
    Nobody,
}

pub open spec fn completes(excluded: Seq<LanguageServerName>) -> spec_fn(
    (Arc<LspAdapter>, Arc<LanguageServer>),
) -> Option<LanguageServerId> {
    |s: (Arc<LspAdapter>, Arc<LanguageServer>)|
        if s.1.has_completion_provider && !is_named(excluded, s.0.name@) {
            Some(s.1.server_id)
        } else {
            None
        }
}

pub open spec fn is_named(names: Seq<LanguageServerName>, name: Seq<char>) -> bool {
    exists|i: int| 0 <= i < names.len() && (#[trigger] names[i])@ == name
}

fn contains_name(names: &Vec<LanguageServerName>, name: &LanguageServerName) -> (r: bool)
    ensures
        r == is_named(names@, name@),
{
    for i in 0..names.len()
        invariant
            forall|j: int| 0 <= j < i ==> (#[trigger] names@[j])@ != name@,
    {
        if crate::order::same(&names[i], name) {
            assert(names@[i as int]@ == name@);
            return true;
        }
    }
    false
}

pub open spec fn hint_resolver(project: Project, buffer: Buffer, server_id: LanguageServerId) -> Result<
    HintResolver,
    ProjectError,
> {
    if project.is_guest() {
        match project.remote_id_of() {
            Some(project_id) => Ok(
                HintResolver::Host {
                    project_id,
                    buffer_id: buffer.remote_id,
                    language_server_id: server_id.0 as u64,
                },
            ),
            None => Err(ProjectError::ProjectNotShared),
        }
    } else {
        match find_map(project.servers_of_buffer(buffer), with_server_id(server_id)) {
            Some(s) if s.1.inlay_hints_can_be_resolved => Ok(HintResolver::Server(s.1)),
            _ => Ok(HintResolver::Nobody),
        }
    }
}

impl Project {
    /// Finds out who completes an inlay hint.
    pub fn resolve_inlay_hint(&self, buffer: &Buffer, server_id: LanguageServerId) -> (r: Result<
        HintResolver,
        ProjectError,
    >)
        ensures
            r == hint_resolver(*self, *buffer, server_id),
    {
        if self.is_local() {
            match self.language_server_for_buffer(buffer, server_id) {
                Some((_, server)) => {
                    if server.inlay_hints_can_be_resolved {
                        Ok(HintResolver::Server(server))
                    } else {
                        Ok(HintResolver::Nobody)
                    }
                },
                None => Ok(HintResolver::Nobody),
            }
        } else {
            match self.remote_id() {
                Some(project_id) => Ok(
                    HintResolver::Host {
                        project_id,
                        buffer_id: buffer.remote_id,
                        language_server_id: server_id.0 as u64,
                    },
                ),
                None => Err(ProjectError::ProjectNotShared),
            }
        }
    }

    /// Finds out who completes text in a buffer. `excluded` are the servers that have no say at
    /// the position.
    pub fn completions(&self, buffer: &Buffer, excluded: &Vec<LanguageServerName>) -> (r:
        CompletionSource)
        ensures
            if self.is_guest() {
                match self.remote_id_of() {
                    Some(project_id) => r == (CompletionSource::Host { project_id }),
                    None => r == CompletionSource::Nobody,
                }
            } else {
                match r {
                    CompletionSource::Servers(ids) => ids@ == self.servers_of_buffer(
                        *buffer,
                    ).filter_map(completes(excluded@)),
                    _ => false,
                }
            },
    {
        if self.is_local() {
            let servers = self.language_servers_for_buffer(buffer);
            let mut ids: Vec<LanguageServerId> = Vec::new();
            let ghost f = completes(excluded@);
            proof {
                lemma_take_all(servers@);
            }
            for i in 0..servers.len()
                invariant
                    f == completes(excluded@),
                    ids@ == servers@.take(i as int).filter_map(f),
            {
                proof {
                    lemma_filter_map_step(servers@, f, i as int);
                }
                let has_say = !contains_name(excluded, &servers[i].0.name);
                if servers[i].1.has_completion_provider && has_say {
                    ids.push(servers[i].1.server_id);
                }
            }
            CompletionSource::Servers(ids)
        } else {
            match self.remote_id() {
                Some(project_id) => CompletionSource::Host { project_id },
                None => CompletionSource::Nobody,
            }
        }
    }
}

/// The answers of the first `n` servers that gave one, one after the other.
pub open spec fn gathered<T>(responses: Seq<Option<Vec<T>>>, n: int) -> Seq<T>
    decreases n,
{
    if n <= 0 {
        Seq::empty()
    } else {
        gathered(responses, n - 1) + (match responses[n - 1] {
            Some(items) => items@,
            None => Seq::empty(),
        })
    }
}

/// Puts the answers of several servers one after the other; a server that failed adds nothing.
pub fn gather<T>(responses: Vec<Option<Vec<T>>>) -> (r: Vec<T>)
    ensures
        r@ == gathered(responses@, responses@.len() as int),
{
    let mut r: Vec<T> = Vec::new();
    let mut left = responses;
    let ghost mut n: int = 0;
    assert(responses@.skip(0) =~= responses@);
    while left.len() > 0
        invariant
            0 <= n <= responses@.len(),
            left@ == responses@.skip(n),
            r@ == gathered(responses@, n),
        decreases left@.len(),
    {
        let first = left.remove(0);
        assert(left@ =~= responses@.skip(n + 1));
        if let Some(items) = first {
            let mut items = items;
            r.append(&mut items);
        } else {
            assert(r@ + Seq::<T>::empty() =~= r@);
        }
        proof {
            n = n + 1;
        }
    }
    r
}

/// Positions are ordered by their offsets; at one offset the one that clings to the left is first.
pub open spec fn anchor_at_or_before(a: Anchor, b: Anchor) -> bool {
    a.offset < b.offset || (a.offset == b.offset && (a.bias == Bias::Left || b.bias == Bias::Right))
}

fn is_at_or_before(a: &Anchor, b: &Anchor) -> (r: bool)
    ensures
        r == anchor_at_or_before(*a, *b),
{
    a.offset < b.offset || (a.offset == b.offset && (a.bias == Bias::Left || b.bias == Bias::Right))
}

/// An edit overlaps with the stretch that a completion replaces: it begins in the stretch or at one
/// of its ends, or it begins before the stretch and ends beyond its start. An edit that ends where
/// the stretch starts does not overlap with it, unless the stretch is empty.
pub open spec fn overlaps(e: TextEdit, start: Anchor, end: Anchor) -> bool {
    anchor_at_or_before(e.start, end) && (anchor_at_or_before(start, e.start)
        || anchor_at_or_before(end, e.end) || !anchor_at_or_before(e.end, start))
}

pub open spec fn kept_edit(start: Anchor, end: Anchor) -> spec_fn(TextEdit) -> Option<TextEdit> {
    |e: TextEdit|
        if overlaps(e, start, end) {
            None
        } else {
            Some(e)
        }
}

/// The additional edits of a completion that do not overlap with what it replaces.
pub fn additional_edits(edits: &Vec<TextEdit>, start: Anchor, end: Anchor) -> (r: Vec<TextEdit>)
    ensures
        r@ == edits@.filter_map(kept_edit(start, end)),
{
    let mut r: Vec<TextEdit> = Vec::new();
    let ghost f = kept_edit(start, end);
    proof {
        lemma_take_all(edits@);
    }
    for i in 0..edits.len()
        invariant
            f == kept_edit(start, end),
            r@ == edits@.take(i as int).filter_map(f),
    {
        proof {
            lemma_filter_map_step(edits@, f, i as int);
        }
        let e = &edits[i];
        let overlaps = is_at_or_before(&e.start, &end) && (is_at_or_before(&start, &e.start)
            || is_at_or_before(&end, &e.end) || !is_at_or_before(&e.end, &start));
        if !overlaps {
            r.push(TextEdit { start: e.start, end: e.end, new_text: e.new_text.clone() });
        }
    }
    r
}

/// Who knows the additional edits of a completion.
#[derive(Debug)]
pub enum AdditionalEdits {
    /// Nobody: there are none.
    Nobody,
    /// The server has to be asked for them.
    Resolve(Arc<LanguageServer>),
    /// They came with the completion.
    AtHand(Arc<LanguageServer>),
    Host { project_id: u64, buffer_id: u64 },
}

pub open spec fn edits_source(project: Project, buffer: Buffer, server_id: LanguageServerId) -> Result<
    AdditionalEdits,
    ProjectError,
> {
    if project.is_guest() {
        match project.remote_id_of() {
            Some(project_id) => Ok(
                AdditionalEdits::Host { project_id, buffer_id: buffer.remote_id },
            ),
            None => Err(ProjectError::ProjectNotShared),
        }
    } else {
        match find_map(project.servers_of_buffer(buffer), with_server_id(server_id)) {
            Some(s) => Ok(
                if s.1.can_resolve_completions {
                    AdditionalEdits::Resolve(s.1)
                } else {
                    AdditionalEdits::AtHand(s.1)
                },
            ),
            None => Ok(AdditionalEdits::Nobody),
        }
    }
}

impl Project {
    /// Finds out who knows the additional edits of a completion.
    pub fn apply_additional_edits_for_completion(
        &self,
        buffer: &Buffer,
        server_id: LanguageServerId,
    ) -> (r: Result<AdditionalEdits, ProjectError>)
        ensures
            r == edits_source(*self, *buffer, server_id),
    {
        if self.is_local() {
            match self.language_server_for_buffer(buffer, server_id) {
                Some((_, server)) => {
                    if server.can_resolve_completions {
                        Ok(AdditionalEdits::Resolve(server))
                    } else {
                        Ok(AdditionalEdits::AtHand(server))
                    }
                },
                None => Ok(AdditionalEdits::Nobody),
            }
        } else {
            match self.remote_id() {
                Some(project_id) => Ok(
                    AdditionalEdits::Host { project_id, buffer_id: buffer.remote_id },
                ),
                None => Err(ProjectError::ProjectNotShared),
            }
        }
    }
}

/// How a code action is brought up to date before it is applied.
#[derive(Debug)]
pub enum CodeActionStep {
    /// There is no server for it: nothing is done.
    Nothing,
    /// The server completes it, given its data with the current range.
    Resolve { server: Arc<LanguageServer>, data: String },
    /// The actions at its place are asked for again.
    Refresh { server: Arc<LanguageServer> },
    /// The host applies it.
    Host { project_id: u64, buffer_id: u64 },
}

/// The step for an action whose data could be brought up to date, or not.
pub open spec fn step_of(server: Arc<LanguageServer>, data: Option<String>) -> CodeActionStep {
    match data {
        Some(data) => CodeActionStep::Resolve { server, data },
        None => CodeActionStep::Refresh { server },
    }
}

/// Decides how an action is brought up to date. `data` is its data with the current range, if it
/// has a range.
pub fn code_action_step(server: Arc<LanguageServer>, data: Option<String>) -> (r: CodeActionStep)
    ensures
        r == step_of(server, data),
{
    match data {
        Some(data) => CodeActionStep::Resolve { server, data },
        None => CodeActionStep::Refresh { server },
    }
}

/// The data of an action with the current range, where the data has a range: it is a member of the
/// parameters, which are a member of the data.
pub open spec fn renewed_data(data: Option<String>, range: Seq<char>) -> Option<Seq<char>> {
    match data {
        Some(d) => match json_member(d@, "codeActionParams"@) {
            Some(parameters) => match json_with_member(parameters, "range"@, range) {
                Some(renewed) => json_with_member(d@, "codeActionParams"@, renewed),
                None => None,
            },
            None => None,
        },
        None => None,
    }
}

/// Puts the current range, given as JSON text, into the data of an action.
pub fn renew_data(data: &Option<String>, range: &str) -> (r: Option<String>)
    ensures
        optional_text(r) == renewed_data(*data, range@),
{
    match data {
        Some(d) => match get_json_member(d.as_str(), "codeActionParams") {
            Some(parameters) => match set_json_member(parameters.as_str(), "range", range) {
                Some(renewed) => set_json_member(
                    d.as_str(),
                    "codeActionParams",
                    renewed.as_str(),
                ),
                None => None,
            },
            None => None,
        },
        None => None,
    }
}

/// The result says how a code action is applied.
pub open spec fn is_step_for(
    r: Result<CodeActionStep, ProjectError>,
    project: Project,
    buffer: Buffer,
    server_id: LanguageServerId,
    data: Option<String>,
    range: Seq<char>,
) -> bool {
    if project.is_guest() {
        r == (match project.remote_id_of() {
            Some(project_id) => Ok::<CodeActionStep, ProjectError>(
                CodeActionStep::Host { project_id, buffer_id: buffer.remote_id },
            ),
            None => Err::<CodeActionStep, ProjectError>(ProjectError::ProjectNotShared),
        })
    } else {
        match find_map(project.servers_of_buffer(buffer), with_server_id(server_id)) {
            None => r == Ok::<CodeActionStep, ProjectError>(CodeActionStep::Nothing),
            Some(s) => match (renewed_data(data, range), r) {
                (Some(text), Ok(CodeActionStep::Resolve { server, data })) => server == s.1 && data@
                    == text,
                (None, Ok(CodeActionStep::Refresh { server })) => server == s.1,
                _ => false,
            },
        }
    }
}

impl Project {
    /// Finds out how a code action is applied. `data` is the action's own data and `range` its
    /// current range, both as JSON text.
    pub fn apply_code_action(
        &self,
        buffer: &Buffer,
        server_id: LanguageServerId,
        data: &Option<String>,
        range: &str,
    ) -> (r: Result<CodeActionStep, ProjectError>)
        ensures
            is_step_for(r, *self, *buffer, server_id, *data, range@),
    {
        if self.is_local() {
            match self.language_server_for_buffer(buffer, server_id) {
                Some((_, server)) => Ok(code_action_step(server, renew_data(data, range))),
                None => Ok(CodeActionStep::Nothing),
            }
        } else {
            match self.remote_id() {
                Some(project_id) => Ok(
                    CodeActionStep::Host { project_id, buffer_id: buffer.remote_id },
                ),
                None => Err(ProjectError::ProjectNotShared),
            }
        }
    }
}

/// Finds an action by its title among those that are offered now.
pub fn find_code_action(titles: &Vec<String>, title: &String) -> (r: Result<usize, ProjectError>)
    ensures
        match r {
            Ok(i) => i < titles@.len() && titles@[i as int]@ == title@ && forall|j: int|
                0 <= j < i ==> (#[trigger] titles@[j])@ != title@,
            Err(e) => e == ProjectError::CodeActionIsOutdated && forall|j: int|
                0 <= j < titles@.len() ==> (#[trigger] titles@[j])@ != title@,
        },
{
    for i in 0..titles.len()
        invariant
            forall|j: int| 0 <= j < i ==> (#[trigger] titles@[j])@ != title@,
    {
        if titles[i] == *title {
            return Ok(i);
        }
    }
    Err(ProjectError::CodeActionIsOutdated)
}

/// What an action does once it is up to date.
#[derive(Clone, Copy, Debug, PartialEq, Eq, Structural)]
pub enum CodeActionEffect {
    /// It makes an edit.
    Edit,
    /// It has the server run a command, which may make an edit.
    Command,
    Nothing,
}

/// Finds out what an action does. An edit that changes nothing does not count.
pub fn code_action_effect(has_changes: bool, has_document_changes: bool, has_command: bool) -> (r:
    CodeActionEffect)
    ensures
        r == (if has_changes || has_document_changes {
            CodeActionEffect::Edit
        } else if has_command {
            CodeActionEffect::Command
        } else {
            CodeActionEffect::Nothing
        }),
{
    if has_changes || has_document_changes {
        CodeActionEffect::Edit
    } else if has_command {
        CodeActionEffect::Command
    } else {
        CodeActionEffect::Nothing
    }
}

impl Project {
    /// Takes out the edit that a server has made of its own accord: before it runs a command, so
    /// that an older one does not count, and after it, for the one that the command made.
    pub fn take_last_workspace_edit(&mut self, server_id: LanguageServerId) -> (r:
        ProjectTransaction)
        ensures
            ({
                let edits = old(self).last_workspace_edits_by_language_server@;
                &&& final(self).last_workspace_edits_by_language_server@ == edits.remove(server_id)
                &&& if edits.contains_key(server_id) {
                    r == edits[server_id]
                } else {
                    r.0@ == Map::<crate::ids::EntityId, u64>::empty()
                }
            }),
            *final(self) == (Project {
                last_workspace_edits_by_language_server: final(
                    self).last_workspace_edits_by_language_server,
                ..*old(self)
            }),
    {
        match self.last_workspace_edits_by_language_server.remove(&server_id) {
            Some(t) => t,
            None => ProjectTransaction(SortedMap::new()),
        }
    }
}

/// A command returns only an edit that was made while it ran: what was kept before is dropped, and
/// what is kept afterwards is handed out.
pub proof fn command_returns_its_own_edit(
    before: Map<LanguageServerId, ProjectTransaction>,
    server_id: LanguageServerId,
    made: Option<ProjectTransaction>,
)
    ensures
        ({
            let cleared = before.remove(server_id);
            let kept = match made {
                Some(t) => cleared.insert(server_id, t),
                None => cleared,
            };
            &&& kept.contains_key(server_id) == (made is Some)
            &&& made is Some ==> kept[server_id] == made->0
            &&& kept.remove(server_id) == cleared
        }),
{
    let cleared = before.remove(server_id);
    if let Some(t) = made {
        assert(cleared.insert(server_id, t).remove(server_id) =~= cleared);
    } else {
        assert(cleared.remove(server_id) =~= cleared);
    }
}

/// Who formats a buffer while something is typed.
#[derive(Clone, Copy, Debug, PartialEq, Eq, Structural)]
pub enum OnTypeFormatter {
    Local,
    /// Nobody: the buffer is being formatted already.
    Nobody,
    Host { project_id: u64, buffer_id: u64 },
}

/// Who formats a buffer of the project while something is typed in it.
pub open spec fn on_type_formatter(project: Project, buffer: Buffer) -> Result<
    OnTypeFormatter,
    ProjectError,
> {
    if !project.is_guest() {
        if project.buffers_being_formatted@.contains(buffer.remote_id) {
            Ok(OnTypeFormatter::Nobody)
        } else {
            Ok(OnTypeFormatter::Local)
        }
    } else {
        match project.remote_id_of() {
            Some(project_id) => Ok(
                OnTypeFormatter::Host { project_id, buffer_id: buffer.remote_id },
            ),
            None => Err(ProjectError::ProjectNotShared),
        }
    }
}

/// The buffers that are being formatted once formatting a buffer after typing has begun.
pub open spec fn formatted_from_now(project: Project, buffer: Buffer) -> Set<u64> {
    if on_type_formatter(project, buffer) == Ok::<OnTypeFormatter, ProjectError>(
        OnTypeFormatter::Local,
    ) {
        project.buffers_being_formatted@.insert(buffer.remote_id)
    } else {
        project.buffers_being_formatted@
    }
}

/// The buffers that are still being formatted once a formatter is done with a buffer.
pub open spec fn still_formatted(formatted: Set<u64>, id: u64, formatter: OnTypeFormatter) -> Set<
    u64,
> {
    if formatter == OnTypeFormatter::Local {
        formatted.remove(id)
    } else {
        formatted
    }
}

impl Project {
    /// Begins to format a buffer after a character was typed. A buffer that is being formatted is
    /// left alone, and while this one is being formatted here it is not formatted otherwise.
    pub fn apply_on_type_formatting(&mut self, buffer: &Buffer) -> (r: Result<
        OnTypeFormatter,
        ProjectError,
    >)
        ensures
            r == on_type_formatter(*old(self), *buffer),
            final(self).buffers_being_formatted@ == formatted_from_now(*old(self), *buffer),
            *final(self) == (Project {
                buffers_being_formatted: final(self).buffers_being_formatted,
                ..*old(self)
            }),
    {
        if self.is_local() {
            if self.buffers_being_formatted.contains(&buffer.remote_id) {
                return Ok(OnTypeFormatter::Nobody);
            }
            self.buffers_being_formatted.insert(buffer.remote_id);
            Ok(OnTypeFormatter::Local)
        } else {
            match self.remote_id() {
                Some(project_id) => Ok(
                    OnTypeFormatter::Host { project_id, buffer_id: buffer.remote_id },
                ),
                None => Err(ProjectError::ProjectNotShared),
            }
        }
    }

    /// The formatter that was chosen for a buffer is done with it.
    pub fn finish_on_type_formatting(&mut self, buffer: &Buffer, formatter: OnTypeFormatter)
        ensures
            final(self).buffers_being_formatted@ == still_formatted(
                old(self).buffers_being_formatted@,
                buffer.remote_id,
                formatter,
            ),
            *final(self) == (Project {
                buffers_being_formatted: final(self).buffers_being_formatted,
                ..*old(self)
            }),
    {
        if let OnTypeFormatter::Local = formatter {
            self.buffers_being_formatted.remove(&buffer.remote_id);
        }
    }
}

/// A buffer that is being formatted is not formatted a second time, and a request that was turned
/// away for that leaves the mark of the other one. A request that goes ahead leaves no mark once
/// it is done.
pub proof fn typing_does_not_disturb_formatting(project: Project, buffer: Buffer)
    requires
        !project.is_guest(),
    ensures
        ({
            let marked = project.buffers_being_formatted@;
            let chosen = on_type_formatter(project, buffer);
            let during = formatted_from_now(project, buffer);
            &&& chosen is Ok
            &&& (chosen->Ok_0 == OnTypeFormatter::Local) == !marked.contains(buffer.remote_id)
            &&& during.contains(buffer.remote_id)
            &&& still_formatted(during, buffer.remote_id, chosen->Ok_0) == marked
        }),
{
    let marked = project.buffers_being_formatted@;
    if !marked.contains(buffer.remote_id) {
        assert(marked.insert(buffer.remote_id).remove(buffer.remote_id) =~= marked);
    }
}

/// The answer for a section of the configuration, where the configuration has it or not.
pub open spec fn section_of(member: Option<Seq<char>>) -> Seq<char> {
    match member {
        Some(text) => text,
        None => "null"@,
    }
}

/// The answer for a section of the configuration.
pub fn section_response(member: Option<String>) -> (r: String)
    ensures
        r@ == section_of(optional_text(member)),
{
    match member {
        Some(text) => text,
        None => "null".to_owned(),
    }
}

/// The answer to a question for a section of the configuration, or for all of it.
pub open spec fn configuration_answer(configuration: Seq<char>, section: Option<String>) -> Seq<char> {
    match section {
        Some(s) => section_of(json_member(configuration, s@)),
        None => configuration,
    }
}

/// Answers a server that asks for its configuration, which is given as JSON text.
pub fn workspace_configuration(configuration: &String, sections: &Vec<Option<String>>) -> (r: Vec<
    String,
>)
    ensures
        r@.len() == sections@.len(),
        forall|i: int|
            0 <= i < sections@.len() ==> (#[trigger] r@[i])@ == configuration_answer(
                configuration@,
                sections@[i],
            ),
{
    let mut r: Vec<String> = Vec::new();
    for i in 0..sections.len()
        invariant
            r@.len() == i,
            forall|j: int|
                0 <= j < i ==> (#[trigger] r@[j])@ == configuration_answer(
                    configuration@,
                    sections@[j],
                ),
    {
        let answer = match &sections[i] {
            Some(section) => section_response(
                get_json_member(configuration.as_str(), section.as_str()),
            ),
            None => configuration.clone(),
        };
        r.push(answer);
    }
    r
}

/// A guest asks the host. Otherwise the server is asked: the first of the buffer's, or the one with
/// the given id, and it gets the absolute path of the buffer's file. Where there is no such server,
/// or no file on this disk, nobody is asked.
pub proof fn questions_go_to_who_knows(
    project: Project,
    buffer: Buffer,
    server: LanguageServerToQuery,
    target: RequestTarget,
)
    requires
        target == target_of(project, buffer, server),
    ensures
        project.is_guest() && project.remote_id_of() is Some ==> target == (RequestTarget::Host {
            project_id: project.remote_id_of()->0,
        }),
        project.is_guest() && project.remote_id_of() is None ==> target is Nobody,
        !project.is_guest() ==> {
            let servers = project.servers_of_buffer(buffer);
            let has_file = buffer.file is Some && buffer.file->0.is_local;
            &&& target !is Host
            &&& !has_file || servers.len() == 0 ==> target is Nobody
            &&& has_file && servers.len() > 0 && server is Primary ==> target == (
            RequestTarget::Server { server: servers[0].1, document: buffer.file->0.abs_path })
            &&& has_file && server is Other ==> {
                &&& target is Server ==> target->server.server_id == server->Other_0
                    && target->document == buffer.file->0.abs_path && exists|i: int|
                    0 <= i < servers.len() && (#[trigger] servers[i]).1 == target->server
                &&& target is Nobody ==> forall|i: int|
                    0 <= i < servers.len() ==> (#[trigger] servers[i]).1.server_id
                        != server->Other_0
            }
        },
{
    if server is Other {
        servers_are_found_by_their_id(project.servers_of_buffer(buffer), server->Other_0);
    }
}

/// A server of a buffer completes text exactly if it can, and is not excluded at the position. The
/// servers are asked in their order.
pub proof fn able_servers_complete(
    servers: Seq<(Arc<LspAdapter>, Arc<LanguageServer>)>,
    excluded: Seq<LanguageServerName>,
    ids: Seq<LanguageServerId>,
)
    requires
        ids == servers.filter_map(completes(excluded)),
    ensures
        ({
            let able = servers.filter(
                |s: (Arc<LspAdapter>, Arc<LanguageServer>)|
                    s.1.has_completion_provider && forall|i: int|
                        0 <= i < excluded.len() ==> (#[trigger] excluded[i])@ != s.0.name@,
            );
            &&& ids.len() == able.len()
            &&& forall|k: int| 0 <= k < ids.len() ==> #[trigger] ids[k] == able[k].1.server_id
        }),
{
    let p = |s: (Arc<LspAdapter>, Arc<LanguageServer>)|
        s.1.has_completion_provider && forall|i: int|
            0 <= i < excluded.len() ==> (#[trigger] excluded[i])@ != s.0.name@;
    let f = completes(excluded);
    assert forall|i: int| 0 <= i < servers.len() implies p(#[trigger] servers[i]) == (f(
        servers[i],
    ) is Some) by {
        if is_named(excluded, servers[i].0.name@) {
            let m = choose|m: int|
                0 <= m < excluded.len() && (#[trigger] excluded[m])@ == servers[i].0.name@;
            assert(excluded[m]@ == servers[i].0.name@);
        }
    }
    lemma_filter_map_matches(servers, f, p);
}

/// Every answer of every server is gathered, each server's as one stretch.
pub proof fn every_answer_is_gathered<T>(responses: Seq<Option<Vec<T>>>, n: int, i: int) -> (at: int)
    requires
        0 <= i < n <= responses.len(),
        responses[i] is Some,
    ensures
        0 <= at,
        at + responses[i]->0@.len() <= gathered(responses, n).len(),
        forall|k: int|
            0 <= k < responses[i]->0@.len() ==> gathered(responses, n)[at + k]
                == #[trigger] responses[i]->0@[k],
    decreases n,
{
    let before = gathered(responses, n - 1);
    if i < n - 1 {
        let at = every_answer_is_gathered(responses, n - 1, i);
        assert forall|k: int| 0 <= k < responses[i]->0@.len() implies gathered(responses, n)[at + k]
            == #[trigger] responses[i]->0@[k] by {
            assert(gathered(responses, n)[at + k] == before[at + k]);
        }
        at
    } else {
        before.len() as int
    }
}

/// What is gathered was answered by some server; the answers of servers come in their order, and a
/// server that failed adds nothing.
pub proof fn only_answers_are_gathered<T>(responses: Seq<Option<Vec<T>>>, n: int, k: int) -> (i: int)
    requires
        n <= responses.len(),
        0 <= k < gathered(responses, n).len(),
    ensures
        0 <= i < n,
        responses[i] is Some,
        responses[i]->0@.contains(gathered(responses, n)[k]),
    decreases n,
{
    let before = gathered(responses, n - 1);
    if k < before.len() {
        assert(gathered(responses, n)[k] == before[k]);
        only_answers_are_gathered(responses, n - 1, k)
    } else {
        assert(gathered(responses, n)[k] == responses[n - 1]->0@[k - before.len()]);
        n - 1
    }
}

/// An additional edit of a completion is made if it lies wholly before or wholly behind what the
/// completion replaces, and dropped if it begins or ends within. Edits keep their order.
pub proof fn overlapping_edits_are_dropped(
    edits: Seq<TextEdit>,
    start: Anchor,
    end: Anchor,
    kept: Seq<TextEdit>,
    i: int,
)
    requires
        kept == edits.filter_map(kept_edit(start, end)),
        0 <= i < edits.len(),
        start.offset < end.offset,
        edits[i].start.offset <= edits[i].end.offset,
    ensures
        edits[i].end.offset < start.offset ==> kept.contains(edits[i]),
        edits[i].start.offset > end.offset ==> kept.contains(edits[i]),
        forall|e: TextEdit| #[trigger]
            kept.contains(e) ==> edits.contains(e) && !(start.offset < e.start.offset
                && e.start.offset < end.offset) && !(start.offset < e.end.offset && e.end.offset
                < end.offset && e.start.offset <= e.end.offset) && !(e.start.offset < start.offset
                && end.offset < e.end.offset),
{
    let f = kept_edit(start, end);
    if edits[i].end.offset < start.offset || edits[i].start.offset > end.offset {
        lemma_filter_map_has(edits, f, i);
    }
    assert forall|e: TextEdit| #[trigger] kept.contains(e) implies edits.contains(e) && !overlaps(
        e,
        start,
        end,
    ) by {
        let k = choose|k: int| 0 <= k < kept.len() && kept[k] == e;
        let j = lemma_filter_map_from(edits, f, k);
        assert(edits[j] == e);
    }
}

/// Of two positions at one offset, the one that clings to the left comes first. No two positions
/// come before each other but equal ones.
pub proof fn anchors_come_by_offset_and_side(a: Anchor, b: Anchor)
    ensures
        a.offset < b.offset ==> anchor_at_or_before(a, b) && !anchor_at_or_before(b, a),
        a.offset == b.offset && a.bias == b.bias ==> anchor_at_or_before(a, b),
        a.offset == b.offset && a.bias == Bias::Left && b.bias == Bias::Right
            ==> anchor_at_or_before(a, b) && !anchor_at_or_before(b, a),
        anchor_at_or_before(a, b) || anchor_at_or_before(b, a),
        anchor_at_or_before(a, b) && anchor_at_or_before(b, a) ==> a.offset == b.offset && a.bias
            == b.bias,
{
}

/// An additional edit that begins where the completion's stretch begins or ends is dropped; one that
/// ends where the stretch begins is made.
pub proof fn edits_may_end_where_the_completion_begins(e: TextEdit, start: Anchor, end: Anchor)
    requires
        start.offset < end.offset,
        e.start.offset <= e.end.offset,
    ensures
        e.start == start || e.start == end ==> kept_edit(start, end)(e) is None,
        e.end == start && e.start.offset < start.offset ==> kept_edit(start, end)(e) == Some(e),
{
}

/// A hint is completed by the host for a guest, and otherwise by the server of the buffer that gave
/// it, if that can.
pub proof fn hints_are_completed_by_their_server(
    project: Project,
    buffer: Buffer,
    server_id: LanguageServerId,
    r: Result<HintResolver, ProjectError>,
)
    requires
        r == hint_resolver(project, buffer, server_id),
    ensures
        project.is_guest() && project.remote_id_of() is Some ==> r == Ok::<
            HintResolver,
            ProjectError,
        >(
            HintResolver::Host {
                project_id: project.remote_id_of()->0,
                buffer_id: buffer.remote_id,
                language_server_id: server_id.0 as u64,
            },
        ),
        project.is_guest() && project.remote_id_of() is None ==> r == Err::<
            HintResolver,
            ProjectError,
        >(ProjectError::ProjectNotShared),
        !project.is_guest() ==> {
            let servers = project.servers_of_buffer(buffer);
            &&& r is Ok
            &&& r->Ok_0 is Server ==> r->Ok_0->Server_0.server_id == server_id
                && r->Ok_0->Server_0.inlay_hints_can_be_resolved
            &&& r->Ok_0 !is Host
            &&& r->Ok_0 is Nobody && (forall|i: int|
                0 <= i < servers.len() ==> (
                #[trigger] servers[i]).1.inlay_hints_can_be_resolved) ==> forall|i: int|
                0 <= i < servers.len() ==> (#[trigger] servers[i]).1.server_id != server_id
        },
{
    let servers = project.servers_of_buffer(buffer);
    servers_are_found_by_their_id(servers, server_id);
    let found = find_map(servers, with_server_id(server_id));
    if found is Some {
        let k = choose|k: int| 0 <= k < servers.len() && servers[k] == found->0;
        assert(servers[k].1.server_id == server_id);
    }
}

/// The additional edits of a completion come from the host for a guest. Otherwise the server that
/// gave the completion is asked for them if it can complete its answers; if it cannot, they came with
/// the completion.
pub proof fn additional_edits_come_from_the_server(
    project: Project,
    buffer: Buffer,
    server_id: LanguageServerId,
    r: Result<AdditionalEdits, ProjectError>,
)
    requires
        r == edits_source(project, buffer, server_id),
    ensures
        project.is_guest() && project.remote_id_of() is Some ==> r == Ok::<
            AdditionalEdits,
            ProjectError,
        >(
            AdditionalEdits::Host {
                project_id: project.remote_id_of()->0,
                buffer_id: buffer.remote_id,
            },
        ),
        project.is_guest() && project.remote_id_of() is None ==> r == Err::<
            AdditionalEdits,
            ProjectError,
        >(ProjectError::ProjectNotShared),
        !project.is_guest() ==> {
            let servers = project.servers_of_buffer(buffer);
            &&& r is Ok
            &&& r->Ok_0 !is Host
            &&& r->Ok_0 is Resolve ==> r->Ok_0->Resolve_0.server_id == server_id
                && r->Ok_0->Resolve_0.can_resolve_completions
            &&& r->Ok_0 is AtHand ==> r->Ok_0->AtHand_0.server_id == server_id
                && !r->Ok_0->AtHand_0.can_resolve_completions
            &&& r->Ok_0 is Nobody ==> forall|i: int|
                0 <= i < servers.len() ==> (#[trigger] servers[i]).1.server_id != server_id
        },
{
    servers_are_found_by_their_id(project.servers_of_buffer(buffer), server_id);
}

/// A code action is completed by its server with the renewed data where there are any, and asked for
/// again where there are none. A guest leaves it to the host.
pub proof fn actions_are_brought_up_to_date(
    r: Result<CodeActionStep, ProjectError>,
    project: Project,
    buffer: Buffer,
    server_id: LanguageServerId,
    data: Option<String>,
    range: Seq<char>,
)
    requires
        is_step_for(r, project, buffer, server_id, data, range),
    ensures
        project.is_guest() && project.remote_id_of() is Some ==> r == Ok::<
            CodeActionStep,
            ProjectError,
        >(
            CodeActionStep::Host {
                project_id: project.remote_id_of()->0,
                buffer_id: buffer.remote_id,
            },
        ),
        project.is_guest() && project.remote_id_of() is None ==> r == Err::<
            CodeActionStep,
            ProjectError,
        >(ProjectError::ProjectNotShared),
        !project.is_guest() ==> {
            let servers = project.servers_of_buffer(buffer);
            &&& r is Ok
            &&& r->Ok_0 !is Host
            &&& r->Ok_0 is Resolve ==> r->Ok_0->Resolve_server.server_id == server_id
            &&& r->Ok_0 is Refresh ==> r->Ok_0->Refresh_server.server_id == server_id
            &&& data is None ==> r->Ok_0 !is Resolve
            &&& r->Ok_0 is Nothing <==> forall|i: int|
                0 <= i < servers.len() ==> (#[trigger] servers[i]).1.server_id != server_id
        },
{
    let servers = project.servers_of_buffer(buffer);
    servers_are_found_by_their_id(servers, server_id);
    let found = find_map(servers, with_server_id(server_id));
    if found is Some {
        let k = choose|k: int| 0 <= k < servers.len() && servers[k] == found->0;
        assert(servers[k].1.server_id == server_id);
    }
}

/// The range of an action's data is renewed in its parameters, and nowhere else. Data without
/// parameters, or whose parameters have no range, cannot be renewed.
pub proof fn data_is_renewed_in_its_parameters(
    data: Option<String>,
    range: Seq<char>,
    renewed: Option<Seq<char>>,
)
    requires
        renewed == renewed_data(data, range),
    ensures
        data is None ==> renewed is None,
        data is Some && json_member(data->0@, "codeActionParams"@) is None ==> renewed is None,
        data is Some && json_member(data->0@, "codeActionParams"@) is Some ==> {
            let parameters = json_with_member(
                json_member(data->0@, "codeActionParams"@)->0,
                "range"@,
                range,
            );
            &&& parameters is None ==> renewed is None
            &&& parameters is Some ==> renewed == json_with_member(
                data->0@,
                "codeActionParams"@,
                parameters->0,
            )
        },
{
}

/// A guest has its host format a buffer while something is typed in it; in a project that is not
/// shared it cannot.
pub proof fn guests_have_the_host_format_on_typing(project: Project, buffer: Buffer)
    requires
        project.is_guest(),
    ensures
        project.remote_id_of() is Some ==> on_type_formatter(project, buffer) == Ok::<
            OnTypeFormatter,
            ProjectError,
        >(
            OnTypeFormatter::Host {
                project_id: project.remote_id_of()->0,
                buffer_id: buffer.remote_id,
            },
        ),
        project.remote_id_of() is None ==> on_type_formatter(project, buffer) == Err::<
            OnTypeFormatter,
            ProjectError,
        >(ProjectError::ProjectNotShared),
        formatted_from_now(project, buffer) == project.buffers_being_formatted@,
{
}

/// A server that asks for all of its configuration gets it unchanged. One that asks for a section
/// gets that section, or `null` where the configuration does not have it.
pub proof fn configurations_are_answered(configuration: Seq<char>, section: Option<String>)
    ensures
        section is None ==> configuration_answer(configuration, section) == configuration,
        section is Some && json_member(configuration, section->0@) is Some ==> configuration_answer(
            configuration,
            section,
        ) == json_member(configuration, section->0@)->0,
        section is Some && json_member(configuration, section->0@) is None ==> configuration_answer(
            configuration,
            section,
        ) == "null"@,
{
}

/// An action whose data could be renewed is completed with them; one without is asked for again.
pub proof fn renewed_actions_are_completed(server: Arc<LanguageServer>, data: Option<String>)
    ensures
        data is Some ==> step_of(server, data) == (CodeActionStep::Resolve { server, data: data->0 }),
        data is None ==> step_of(server, data) == (CodeActionStep::Refresh { server }),
{
}

} // verus!
