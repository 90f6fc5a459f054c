//! Formatting buffers.

use crate::ids::EntityId;
use crate::model::{
    AppContext, Buffer, FormatOnSave, Formatter, LanguageServer, LanguageSettings, Provider,
};
use crate::path::{parent_of, path_text, Part, Path};
use crate::project::Project;
use crate::seqs::{
    lemma_filter_map_from, lemma_filter_map_has, lemma_filter_map_step, lemma_take_all,
};
use crate::text::{
    occurrences_are_replaced, replace_all, replaced, texts_without_the_pattern_stay,
};
use std::sync::Arc;
use vstd::prelude::*;

verus! {

/// Why buffers are formatted.
#[derive(Debug, Clone, Copy, PartialEq, Eq, Structural)]
pub enum FormatTrigger {
    Save,
    Manual,
}

impl FormatTrigger {
    /// The trigger that a number stands for; an unknown number stands for saving.
    pub open spec fn of_number(value: i32) -> FormatTrigger {
        if value == 1 {
            FormatTrigger::Manual
        } else {
            FormatTrigger::Save
        }
    }

    /// The trigger that a number stands for.
    pub fn from_proto(value: i32) -> (r: FormatTrigger)
        ensures
            r == FormatTrigger::of_number(value),
    {
        match value {
            0 => FormatTrigger::Save,
            1 => FormatTrigger::Manual,
            _ => FormatTrigger::Save,
        }
    }

    pub open spec fn number(self) -> i32 {
        match self {
            FormatTrigger::Save => 0,
            FormatTrigger::Manual => 1,
        }
    }

    /// The number that stands for the trigger.
    pub fn to_proto(&self) -> (r: i32)
        ensures
            r == self.number(),
    {
        match self {
            FormatTrigger::Save => 0,
            FormatTrigger::Manual => 1,
        }
    }
}

/// A trigger survives the way to another participant.
pub proof fn trigger_survives_the_wire(t: FormatTrigger)
    ensures
        FormatTrigger::of_number(t.number()) == t,
{
}

/// A buffer that is to be formatted, with the document and the server that it has.
#[derive(Debug)]
pub struct FormatTarget {
    pub buffer: EntityId,
    pub remote_id: u64,
    pub document: Option<Path>,
    pub server: Option<Arc<LanguageServer>>,
}

/// Who formats buffers.
#[derive(Debug)]
pub enum FormatPlan {
    Local { targets: Vec<FormatTarget> },
    Host { project_id: u64, trigger: i32, buffer_ids: Vec<u64> },
    Nobody,
}

/// The target that a buffer is; buffers without a file are not formatted.
pub open spec fn format_target(project: Project, cx: AppContext) -> spec_fn(EntityId) -> Option<
    FormatTarget,
> {
    |id: EntityId|
        match cx.live_buffer(id) {
            Some(b) => match b.file {
                Some(file) => Some(
                    FormatTarget {
                        buffer: b.entity_id,
                        remote_id: b.remote_id,
                        document: if file.is_local {
                            Some(file.abs_path)
                        } else {
                            None
                        },
                        server: if project.servers_of_buffer(b).len() > 0 {
                            Some(project.servers_of_buffer(b)[0].1)
                        } else {
                            None
                        },
                    },
                ),
                None => None,
            },
            None => None,
        }
}

pub open spec fn live_remote_id(cx: AppContext) -> spec_fn(EntityId) -> Option<u64> {
    |id: EntityId|
        match cx.live_buffer(id) {
            Some(b) => Some(b.remote_id),
            None => None,
        }
}

/// A plan says who formats the given buffers.
pub open spec fn is_format_plan(
    plan: FormatPlan,
    project: Project,
    cx: AppContext,
    buffers: Seq<EntityId>,
    trigger: FormatTrigger,
) -> bool {
    if project.is_guest() {
        match (project.remote_id_of(), plan) {
            (Some(id), FormatPlan::Host { project_id, trigger: number, buffer_ids }) => {
                project_id == id && number == trigger.number() && buffer_ids@
                    == buffers.filter_map(live_remote_id(cx))
            },
            (None, FormatPlan::Nobody) => true,
            _ => false,
        }
    } else {
        match plan {
            FormatPlan::Local { targets } => targets@ == buffers.filter_map(
                format_target(project, cx),
            ),
            _ => false,
        }
    }
}

/// The targets among the first `n` that nobody formats yet, each once.
pub open spec fn begun(targets: Seq<FormatTarget>, n: int, formatted: Set<u64>) -> Seq<FormatTarget>
    decreases n,
{
    if n <= 0 {
        Seq::empty()
    } else {
        let head = begun(targets, n - 1, formatted);
        if begun_ids(targets, n - 1, formatted).contains(targets[n - 1].remote_id) {
            head
        } else {
            head.push(targets[n - 1])
        }
    }
}

/// The buffers that are being formatted once the first `n` targets are.
pub open spec fn begun_ids(targets: Seq<FormatTarget>, n: int, formatted: Set<u64>) -> Set<u64>
    decreases n,
{
    if n <= 0 {
        formatted
    } else {
        begun_ids(targets, n - 1, formatted).insert(targets[n - 1].remote_id)
    }
}

/// The buffers that are being formatted once the first `n` targets no longer are.
pub open spec fn finished_ids(targets: Seq<FormatTarget>, n: int, formatted: Set<u64>) -> Set<u64>
    decreases n,
{
    if n <= 0 {
        formatted
    } else {
        finished_ids(targets, n - 1, formatted).remove(targets[n - 1].remote_id)
    }
}

impl Project {
    /// Finds out who formats buffers.
    pub fn format(&self, buffers: &Vec<EntityId>, trigger: FormatTrigger, cx: &AppContext) -> (r:
        FormatPlan)
        ensures
            is_format_plan(r, *self, *cx, buffers@, trigger),
    {
        if self.is_remote() {
            let project_id: u64 = match self.remote_id() {
                Some(id) => id,
                None => return FormatPlan::Nobody,
            };
            let mut buffer_ids: Vec<u64> = Vec::new();
            let ghost f = live_remote_id(*cx);
            proof {
                lemma_take_all(buffers@);
            }
            for i in 0..buffers.len()
                invariant
                    f == live_remote_id(*cx),
                    buffer_ids@ == buffers@.take(i as int).filter_map(f),
            {
                proof {
                    lemma_filter_map_step(buffers@, f, i as int);
                }
                if let Some(b) = cx.buffer(buffers[i]) {
                    buffer_ids.push(b.remote_id);
                }
            }
            return FormatPlan::Host { project_id, trigger: trigger.to_proto(), buffer_ids };
        }
        let mut targets: Vec<FormatTarget> = Vec::new();
        let ghost f = format_target(*self, *cx);
        proof {
            lemma_take_all(buffers@);
        }
        for i in 0..buffers.len()
            invariant
                f == format_target(*self, *cx),
                targets@ == buffers@.take(i as int).filter_map(f),
        {
            proof {
                lemma_filter_map_step(buffers@, f, i as int);
            }
            if let Some(b) = cx.buffer(buffers[i]) {
                if let Some(file) = &b.file {
                    let document = if file.is_local {
                        Some(file.abs_path.clone())
                    } else {
                        None
                    };
                    let server = match self.primary_language_server_for_buffer(b) {
                        Some((_, s)) => Some(s),
                        None => None,
                    };
                    targets.push(
                        FormatTarget {
                            buffer: b.entity_id,
                            remote_id: b.remote_id,
                            document,
                            server,
                        },
                    );
                }
            }
        }
        FormatPlan::Local { targets }
    }

    /// Begins to format buffers. Those that are being formatted already are left out, so that no
    /// buffer is formatted twice at the same time.
    pub fn begin_formatting(&mut self, targets: Vec<FormatTarget>) -> (r: Vec<FormatTarget>)
        ensures
            r@ == begun(targets@, targets@.len() as int, old(self).buffers_being_formatted@),
            final(self).buffers_being_formatted@ == begun_ids(
                targets@,
                targets@.len() as int,
                old(self).buffers_being_formatted@,
            ),
            *final(self) == (Project {
                buffers_being_formatted: final(self).buffers_being_formatted,
                ..*old(self)
            }),
    {
        let mut r: Vec<FormatTarget> = Vec::new();
        let mut left = targets;
        let ghost mut n: int = 0;
        let ghost formatted = self.buffers_being_formatted@;
        assert(targets@.skip(0) =~= targets@);
        while left.len() > 0
            invariant
                0 <= n <= targets@.len(),
                left@ == targets@.skip(n),
                r@ == begun(targets@, n, formatted),
                self.buffers_being_formatted@ == begun_ids(targets@, n, formatted),
                *self == (Project {
                    buffers_being_formatted: self.buffers_being_formatted,
                    ..*old(self)
                }),
            decreases left@.len(),
        {
            let first = left.remove(0);
            assert(left@ =~= targets@.skip(n + 1));
            if self.buffers_being_formatted.insert(first.remote_id) {
                r.push(first);
            }
            proof {
                n = n + 1;
            }
        }
        r
    }

    /// The buffers have been formatted.
    pub fn finish_formatting(&mut self, targets: &Vec<FormatTarget>)
        ensures
            final(self).buffers_being_formatted@ == finished_ids(
                targets@,
                targets@.len() as int,
                old(self).buffers_being_formatted@,
            ),
            *final(self) == (Project {
                buffers_being_formatted: final(self).buffers_being_formatted,
                ..*old(self)
            }),
    {
        let ghost formatted = self.buffers_being_formatted@;
        for i in 0..targets.len()
            invariant
                self.buffers_being_formatted@ == finished_ids(targets@, i as int, formatted),
                *self == (Project {
                    buffers_being_formatted: self.buffers_being_formatted,
                    ..*old(self)
                }),
        {
            self.buffers_being_formatted.remove(&targets[i].remote_id);
        }
    }
}

/// One of the first `n` targets is the buffer.
pub open spec fn targets_buffer(targets: Seq<FormatTarget>, n: int, id: u64) -> bool {
    exists|i: int| 0 <= i < n && (#[trigger] targets[i]).remote_id == id
}

proof fn lemma_begun(targets: Seq<FormatTarget>, n: int, formatted: Set<u64>)
    requires
        0 <= n <= targets.len(),
    ensures
        forall|id: u64|
            begun_ids(targets, n, formatted).contains(id) == (formatted.contains(id)
                || targets_buffer(
                begun(targets, n, formatted),
                begun(targets, n, formatted).len() as int,
                id,
            )),
        forall|i: int|
            0 <= i < begun(targets, n, formatted).len() ==> !formatted.contains(
                (#[trigger] begun(targets, n, formatted)[i]).remote_id,
            ),
        forall|i: int, j: int|
            #![trigger begun(targets, n, formatted)[i], begun(targets, n, formatted)[j]]
            0 <= i < j < begun(targets, n, formatted).len() ==> begun(
                targets,
                n,
                formatted,
            )[i].remote_id != begun(targets, n, formatted)[j].remote_id,
    decreases n,
{
    if n > 0 {
        lemma_begun(targets, n - 1, formatted);
        let head = begun(targets, n - 1, formatted);
        let ids = begun_ids(targets, n - 1, formatted);
        let all = begun(targets, n, formatted);
        let t = targets[n - 1];
        assert forall|id: u64|
            begun_ids(targets, n, formatted).contains(id) == (formatted.contains(id)
                || targets_buffer(all, all.len() as int, id)) by {
            assert(ids.contains(id) == (formatted.contains(id) || targets_buffer(
                head,
                head.len() as int,
                id,
            )));
            if targets_buffer(head, head.len() as int, id) {
                let i = choose|i: int| 0 <= i < head.len() && (#[trigger] head[i]).remote_id == id;
                assert(all[i].remote_id == id);
            }
            if !ids.contains(t.remote_id) && id == t.remote_id {
                assert(all[head.len() as int].remote_id == id);
            }
            if targets_buffer(all, all.len() as int, id) {
                let i = choose|i: int| 0 <= i < all.len() && (#[trigger] all[i]).remote_id == id;
                if i < head.len() {
                    assert(head[i].remote_id == id);
                }
            }
        }
        if !ids.contains(t.remote_id) {
            assert forall|i: int, j: int|
                #![trigger all[i], all[j]]
                0 <= i < j < all.len() implies all[i].remote_id != all[j].remote_id by {
                if j == head.len() {
                    assert(head[i].remote_id == all[i].remote_id);
                    assert(targets_buffer(head, head.len() as int, all[i].remote_id));
                } else {
                    assert(head[i] == all[i] && head[j] == all[j]);
                }
            }
            assert forall|i: int| 0 <= i < all.len() implies !formatted.contains(
                (#[trigger] all[i]).remote_id,
            ) by {
                if i < head.len() {
                    assert(head[i] == all[i]);
                }
            }
        }
    }
}

proof fn lemma_finished(targets: Seq<FormatTarget>, n: int, formatted: Set<u64>)
    requires
        0 <= n <= targets.len(),
    ensures
        forall|id: u64|
            finished_ids(targets, n, formatted).contains(id) == (formatted.contains(id)
                && !targets_buffer(targets, n, id)),
    decreases n,
{
    if n > 0 {
        lemma_finished(targets, n - 1, formatted);
        let t = targets[n - 1];
        assert forall|id: u64|
            finished_ids(targets, n, formatted).contains(id) == (formatted.contains(id)
                && !targets_buffer(targets, n, id)) by {
            assert(finished_ids(targets, n - 1, formatted).contains(id) == (formatted.contains(id)
                && !targets_buffer(targets, n - 1, id)));
            if targets_buffer(targets, n, id) {
                let i = choose|i: int| 0 <= i < n && (#[trigger] targets[i]).remote_id == id;
                if i < n - 1 {
                    assert(targets[i].remote_id == id);
                }
            }
            if id == t.remote_id {
                assert(targets[n - 1].remote_id == id);
            }
            if targets_buffer(targets, n - 1, id) {
                let i = choose|i: int| 0 <= i < n - 1 && (#[trigger] targets[i]).remote_id == id;
                assert(targets[i].remote_id == id);
            }
        }
    }
}

/// No buffer is formatted twice at the same time: a target that is begun was not being formatted,
/// and no two that are begun together are the same buffer. When all that was begun is finished,
/// the same buffers are being formatted as before.
pub proof fn formatting_excludes_itself(targets: Seq<FormatTarget>, formatted: Set<u64>)
    ensures
        ({
            let n = targets.len() as int;
            let started = begun(targets, n, formatted);
            &&& forall|i: int|
                0 <= i < started.len() ==> !formatted.contains((#[trigger] started[i]).remote_id)
            &&& forall|i: int, j: int|
                #![trigger started[i], started[j]]
                0 <= i < j < started.len() ==> started[i].remote_id != started[j].remote_id
            &&& finished_ids(started, started.len() as int, begun_ids(targets, n, formatted))
                == formatted
        }),
{
    let n = targets.len() as int;
    let started = begun(targets, n, formatted);
    let ids = begun_ids(targets, n, formatted);
    lemma_begun(targets, n, formatted);
    lemma_finished(started, started.len() as int, ids);
    let left = finished_ids(started, started.len() as int, ids);
    assert forall|id: u64| left.contains(id) == formatted.contains(id) by {
        assert(ids.contains(id) == (formatted.contains(id) || targets_buffer(
            started,
            started.len() as int,
            id,
        )));
        assert(left.contains(id) == (ids.contains(id) && !targets_buffer(
            started,
            started.len() as int,
            id,
        )));
        if formatted.contains(id) && targets_buffer(started, started.len() as int, id) {
            let i = choose|i: int|
                0 <= i < started.len() && (#[trigger] started[i]).remote_id == id;
            assert(!formatted.contains(started[i].remote_id));
        }
    }
    assert(left =~= formatted);
}

/// What a buffer is formatted with.
#[derive(Debug)]
pub enum FormatStep {
    Nothing,
    ViaLsp { server: Arc<LanguageServer>, document: Path },
    ViaExternalCommand { document: Path, command: Arc<String>, arguments: Arc<Vec<String>> },
    /// With prettier, if there is one; else with the server, if that is given.
    ViaPrettier { otherwise: Option<(Arc<LanguageServer>, Path)> },
}

pub open spec fn server_and_document(target: FormatTarget) -> Option<(Arc<LanguageServer>, Path)> {
    match (target.server, target.document) {
        (Some(server), Some(document)) => Some((server, document)),
        _ => None,
    }
}

pub open spec fn via_lsp(target: FormatTarget) -> FormatStep {
    match server_and_document(target) {
        Some((server, document)) => FormatStep::ViaLsp { server, document },
        None => FormatStep::Nothing,
    }
}

pub open spec fn via_command(
    target: FormatTarget,
    command: Arc<String>,
    arguments: Arc<Vec<String>>,
) -> FormatStep {
    match target.document {
        Some(document) => FormatStep::ViaExternalCommand { document, command, arguments },
        None => FormatStep::Nothing,
    }
}

/// What a buffer is formatted with. When it is saved, the settings for saving can forbid that or
/// name a tool of their own; else the language's formatter is used.
pub open spec fn step_for(settings: LanguageSettings, trigger: FormatTrigger, target: FormatTarget) -> FormatStep {
    match (settings.formatter, settings.format_on_save) {
        (_, FormatOnSave::Off) if trigger == FormatTrigger::Save => FormatStep::Nothing,
        (_, FormatOnSave::LanguageServer) => via_lsp(target),
        (_, FormatOnSave::External { command, arguments }) => via_command(
            target,
            command,
            arguments,
        ),
        (Formatter::LanguageServer, _) => via_lsp(target),
        (Formatter::External { command, arguments }, _) => via_command(target, command, arguments),
        (Formatter::Auto, _) => FormatStep::ViaPrettier { otherwise: server_and_document(target) },
        (Formatter::Prettier, _) => FormatStep::ViaPrettier { otherwise: None },
    }
}

fn pair_of(target: &FormatTarget) -> (r: Option<(Arc<LanguageServer>, Path)>)
    ensures
        r == server_and_document(*target),
{
    match (&target.server, &target.document) {
        (Some(server), Some(document)) => Some((server.clone(), document.clone())),
        _ => None,
    }
}

fn lsp_step(target: &FormatTarget) -> (r: FormatStep)
    ensures
        r == via_lsp(*target),
{
    match pair_of(target) {
        Some((server, document)) => FormatStep::ViaLsp { server, document },
        None => FormatStep::Nothing,
    }
}

fn command_step(target: &FormatTarget, command: &Arc<String>, arguments: &Arc<Vec<String>>) -> (r:
    FormatStep)
    ensures
        r == via_command(*target, *command, *arguments),
{
    match &target.document {
        Some(document) => FormatStep::ViaExternalCommand {
            document: document.clone(),
            command: command.clone(),
            arguments: arguments.clone(),
        },
        None => FormatStep::Nothing,
    }
}

/// Decides what a buffer is formatted with.
pub fn format_step(settings: &LanguageSettings, trigger: FormatTrigger, target: &FormatTarget) -> (r:
    FormatStep)
    ensures
        r == step_for(*settings, trigger, *target),
        (settings.format_on_save is On || (settings.format_on_save is Off && trigger is Manual)) && (
        settings.formatter is External) && target.document is Some ==> r
            == (FormatStep::ViaExternalCommand {
            document: target.document->0,
            command: settings.formatter->command,
            arguments: settings.formatter->arguments,
        }),
{
    match &settings.format_on_save {
        FormatOnSave::Off => {
            if trigger == FormatTrigger::Save {
                return FormatStep::Nothing;
            }
        },
        FormatOnSave::LanguageServer => return lsp_step(target),
        FormatOnSave::External { command, arguments } => return command_step(
            target,
            command,
            arguments,
        ),
        FormatOnSave::On => {},
    }
    match &settings.formatter {
        Formatter::LanguageServer => lsp_step(target),
        Formatter::External { command, arguments } => command_step(target, command, arguments),
        Formatter::Auto => FormatStep::ViaPrettier { otherwise: pair_of(target) },
        Formatter::Prettier => FormatStep::ViaPrettier { otherwise: None },
    }
}

/// What becomes of what a formatter made.
#[derive(Debug, Clone, Copy, PartialEq, Eq, Structural)]
pub struct FormatOutcome {
    pub is_applied: bool,
    /// The transaction that it is to be undone together with.
    pub grouped_with: Option<u64>,
}

/// What becomes of what a formatter made, if it made anything. Where whitespace was formatted first,
/// the two are undone together; where the buffer has been edited since, what the formatter made is
/// dropped, because they could not be.
pub open spec fn outcome_of(
    has_operation: bool,
    whitespace_transaction: Option<u64>,
    last_transaction: Option<u64>,
) -> FormatOutcome {
    let is_applied = has_operation && (whitespace_transaction is None || whitespace_transaction
        == last_transaction);
    FormatOutcome {
        is_applied,
        grouped_with: if is_applied {
            whitespace_transaction
        } else {
            None
        },
    }
}

/// Decides what becomes of what a formatter made.
pub fn format_outcome(
    has_operation: bool,
    whitespace_transaction: Option<u64>,
    last_transaction: Option<u64>,
) -> (r: FormatOutcome)
    ensures
        r == outcome_of(has_operation, whitespace_transaction, last_transaction),
{
    let is_applied = has_operation && match whitespace_transaction {
        None => true,
        Some(id) => match last_transaction {
            Some(last) => last == id,
            None => false,
        },
    };
    FormatOutcome {
        is_applied,
        grouped_with: if is_applied {
            whitespace_transaction
        } else {
            None
        },
    }
}

/// How a server formats a document.
#[derive(Debug, Clone, Copy, PartialEq, Eq, Structural)]
pub enum LspFormatting {
    Document,
    /// As one range from the start to the end.
    WholeRange,
    Unsupported,
}

pub open spec fn provides(provider: Option<Provider>) -> bool {
    provider is Some && provider != Some(Provider::Simple(false))
}

fn is_provided(provider: Option<Provider>) -> (r: bool)
    ensures
        r == provides(provider),
{
    match provider {
        Some(Provider::Simple(b)) => b,
        Some(Provider::Options) => true,
        None => false,
    }
}

/// Finds out how a server formats a document.
pub fn format_via_lsp(server: &LanguageServer) -> (r: LspFormatting)
    ensures
        r == (if provides(server.document_formatting_provider) {
            LspFormatting::Document
        } else if provides(server.document_range_formatting_provider) {
            LspFormatting::WholeRange
        } else {
            LspFormatting::Unsupported
        }),
        r is Document <==> (server.document_formatting_provider is Some
            && server.document_formatting_provider != Some(Provider::Simple(false))),
{
    if is_provided(server.document_formatting_provider) {
        LspFormatting::Document
    } else if is_provided(server.document_range_formatting_provider) {
        LspFormatting::WholeRange
    } else {
        LspFormatting::Unsupported
    }
}

/// A command that formats a buffer: the directory that it runs in and its arguments.
#[derive(Debug)]
pub struct ExternalFormatter {
    pub directory: Path,
    pub arguments: Vec<String>,
}

/// The directory that a command for a buffer runs in: the root of its worktree, or the directory
/// of the root where that is a file.
pub open spec fn working_directory(cx: AppContext, buffer: Buffer) -> Option<Seq<Part>> {
    match buffer.file {
        Some(file) => match cx.live_worktree(file.worktree) {
            Some(w) if w.is_local => match w.entry_of_path(Seq::empty()) {
                Some(root) => if root.is_file {
                    match parent_of(w.abs_path@) {
                        Some(parent) => Some(parent),
                        None => Some(w.abs_path@),
                    }
                } else {
                    Some(w.abs_path@)
                },
                None => None,
            },
            _ => None,
        },
        None => None,
    }
}

fn find_working_directory(buffer: &Buffer, cx: &AppContext) -> (r: Option<Path>)
    ensures
        match r {
            Some(p) => working_directory(*cx, *buffer) == Some(p@),
            None => working_directory(*cx, *buffer) is None,
        },
{
    match &buffer.file {
        Some(file) => match cx.worktree(file.worktree) {
            Some(w) => {
                if !w.is_local {
                    return None;
                }
                match w.entry_for_path(&Path::empty()) {
                    Some(root) => {
                        if root.is_file {
                            match w.abs_path.parent() {
                                Some(parent) => Some(parent),
                                None => Some(w.abs_path.clone()),
                            }
                        } else {
                            Some(w.abs_path.clone())
                        }
                    },
                    None => None,
                }
            },
            None => None,
        },
        None => None,
    }
}

/// An argument of a command with the path of the document put in its place.
pub open spec fn filled_argument(argument: Seq<char>, document: Seq<Part>) -> Seq<char> {
    replaced(argument, "{buffer_path}"@, path_text(document))
}

/// Prepares a command that formats a buffer, where the buffer has a directory to run it in.
pub fn format_via_external_command(
    buffer: &Buffer,
    document: &Path,
    arguments: &Vec<String>,
    cx: &AppContext,
) -> (r: Option<ExternalFormatter>)
    ensures
        match r {
            Some(f) => {
                &&& working_directory(*cx, *buffer) == Some(f.directory@)
                &&& f.arguments@.len() == arguments@.len()
                &&& forall|i: int|
                    0 <= i < arguments@.len() ==> (#[trigger] f.arguments@[i])@ == filled_argument(
                        arguments@[i]@,
                        document@,
                    )
            },
            None => working_directory(*cx, *buffer) is None,
        },
{
    let directory = match find_working_directory(buffer, cx) {
        Some(d) => d,
        None => return None,
    };
    let text = document.to_text();
    let mut filled: Vec<String> = Vec::new();
    proof {
        reveal_strlit("{buffer_path}");
    }
    for i in 0..arguments.len()
        invariant
            text@ == path_text(document@),
            "{buffer_path}"@.len() > 0,
            filled@.len() == i,
            forall|j: int|
                0 <= j < i ==> (#[trigger] filled@[j])@ == filled_argument(
                    arguments@[j]@,
                    document@,
                ),
    {
        filled.push(replace_all(arguments[i].as_str(), "{buffer_path}", text.as_str()));
    }
    Some(ExternalFormatter { directory, arguments: filled })
}

/// The buffers that are read again from disk: those that lie here, and those of the host.
#[derive(Debug)]
pub struct ReloadPlan {
    pub local: Vec<EntityId>,
    /// What the host is asked, if anything.
    pub remote: Option<(u64, Vec<u64>)>,
}

pub open spec fn reloads_here(cx: AppContext, here: bool) -> spec_fn(EntityId) -> Option<Buffer> {
    |id: EntityId|
        match cx.live_buffer(id) {
            Some(b) => match b.file {
                Some(file) if b.is_dirty && file.is_local == here => Some(b),
                _ => None,
            },
            None => None,
        }
}

pub open spec fn reloaded_id(cx: AppContext) -> spec_fn(EntityId) -> Option<EntityId> {
    |id: EntityId|
        match reloads_here(cx, true)(id) {
            Some(b) => Some(b.entity_id),
            None => None,
        }
}

pub open spec fn requested_id(cx: AppContext) -> spec_fn(EntityId) -> Option<u64> {
    |id: EntityId|
        match reloads_here(cx, false)(id) {
            Some(b) => Some(b.remote_id),
            None => None,
        }
}

/// A plan says which of the given buffers are read again, and by whom.
pub open spec fn is_reload_plan(
    plan: ReloadPlan,
    project: Project,
    cx: AppContext,
    buffers: Seq<EntityId>,
) -> bool {
    let wanted = buffers.filter_map(requested_id(cx));
    &&& plan.local@ == buffers.filter_map(reloaded_id(cx))
    &&& match (project.remote_id_of(), plan.remote) {
        (Some(id), Some((project_id, ids))) => wanted.len() > 0 && project_id == id && ids@
            == wanted,
        (Some(_), None) => wanted.len() == 0,
        (None, None) => true,
        _ => false,
    }
}

impl Project {
    /// Finds out which buffers are read again from disk, and by whom. Buffers without changes, and
    /// those without a file, are left alone.
    pub fn reload_buffers(&self, buffers: &Vec<EntityId>, cx: &AppContext) -> (r: ReloadPlan)
        ensures
            is_reload_plan(r, *self, *cx, buffers@),
    {
        let mut local: Vec<EntityId> = Vec::new();
        let mut ids: Vec<u64> = Vec::new();
        let ghost f = reloaded_id(*cx);
        let ghost g = requested_id(*cx);
        proof {
            lemma_take_all(buffers@);
        }
        for i in 0..buffers.len()
            invariant
                f == reloaded_id(*cx),
                g == requested_id(*cx),
                local@ == buffers@.take(i as int).filter_map(f),
                ids@ == buffers@.take(i as int).filter_map(g),
        {
            proof {
                lemma_filter_map_step(buffers@, f, i as int);
                lemma_filter_map_step(buffers@, g, i as int);
            }
            if let Some(b) = cx.buffer(buffers[i]) {
                if b.is_dirty {
                    if let Some(file) = &b.file {
                        if file.is_local {
                            local.push(b.entity_id);
                        } else {
                            ids.push(b.remote_id);
                        }
                    }
                }
            }
        }
        let remote = match self.remote_id() {
            Some(project_id) => {
                if ids.len() > 0 {
                    Some((project_id, ids))
                } else {
                    None
                }
            },
            None => None,
        };
        ReloadPlan { local, remote }
    }
}

/// The tool that the settings name formats a buffer. For saving, the settings can forbid formatting
/// or name a tool of their own; otherwise the language's formatter is in charge. A command gets its
/// arguments as they are configured, and the server is then not asked.
pub proof fn the_configured_tool_formats(
    settings: LanguageSettings,
    trigger: FormatTrigger,
    target: FormatTarget,
    step: FormatStep,
)
    requires
        step == step_for(settings, trigger, target),
    ensures
        settings.format_on_save is Off && trigger is Save ==> step is Nothing,
        settings.format_on_save is LanguageServer && target.server is Some
            && target.document is Some ==> step == (FormatStep::ViaLsp {
            server: target.server->0,
            document: target.document->0,
        }),
        settings.format_on_save is LanguageServer && (target.server is None
            || target.document is None) ==> step is Nothing,
        settings.format_on_save is External && target.document is Some ==> step
            == (FormatStep::ViaExternalCommand {
            document: target.document->0,
            command: settings.format_on_save->command,
            arguments: settings.format_on_save->arguments,
        }),
        settings.format_on_save is External && target.document is None ==> step is Nothing,
        settings.format_on_save is On || (settings.format_on_save is Off && trigger is Manual) ==> {
            &&& settings.formatter is External && target.document is Some ==> step
                == (FormatStep::ViaExternalCommand {
                document: target.document->0,
                command: settings.formatter->command,
                arguments: settings.formatter->arguments,
            })
            &&& settings.formatter is External && target.document is None ==> step is Nothing
            &&& settings.formatter is LanguageServer && target.server is Some
                && target.document is Some ==> step == (FormatStep::ViaLsp {
                server: target.server->0,
                document: target.document->0,
            })
            &&& settings.formatter is LanguageServer && (target.server is None
                || target.document is None) ==> step is Nothing
            &&& settings.formatter is Prettier ==> step == (FormatStep::ViaPrettier {
                otherwise: None,
            })
            &&& settings.formatter is Auto && target.server is Some && target.document is Some
                ==> step == (FormatStep::ViaPrettier {
                otherwise: Some((target.server->0, target.document->0)),
            })
            &&& settings.formatter is Auto && (target.server is None || target.document is None)
                ==> step == (FormatStep::ViaPrettier { otherwise: None })
        },
{
}

/// Manual formatting has the number one, and every other number means saving.
pub proof fn only_one_number_means_manual(value: i32)
    ensures
        FormatTrigger::of_number(value) is Manual <==> value == 1,
        FormatTrigger::Manual.number() == 1,
        FormatTrigger::Save.number() == 0,
{
}

/// Where a buffer lies here, each live buffer with a file is formatted: as the buffer that it is,
/// with its absolute path if the file is on this disk, and with the first of its servers.
pub proof fn every_buffer_with_a_file_is_formatted(
    plan: FormatPlan,
    project: Project,
    cx: AppContext,
    buffers: Seq<EntityId>,
    trigger: FormatTrigger,
    i: int,
) -> (k: int)
    requires
        is_format_plan(plan, project, cx, buffers, trigger),
        !project.is_guest(),
        0 <= i < buffers.len(),
        cx.live_buffer(buffers[i]) is Some,
        cx.live_buffer(buffers[i])->0.file is Some,
    ensures
        plan is Local,
        0 <= k < plan->targets@.len(),
        ({
            let t = plan->targets@[k];
            let b = cx.live_buffer(buffers[i])->0;
            let servers = project.servers_of_buffer(b);
            &&& t.buffer == b.entity_id
            &&& t.remote_id == b.remote_id
            &&& b.file->0.is_local ==> t.document == Some(b.file->0.abs_path)
            &&& !b.file->0.is_local ==> t.document is None
            &&& servers.len() > 0 ==> t.server == Some(servers[0].1)
            &&& servers.len() == 0 ==> t.server is None
        }),
{
    let f = format_target(project, cx);
    lemma_filter_map_has(buffers, f, i);
    let t = f(buffers[i])->0;
    choose|k: int| 0 <= k < plan->targets@.len() && plan->targets@[k] == t
}

/// Only live buffers with a file that were asked for are formatted here.
pub proof fn only_asked_for_buffers_are_formatted(
    plan: FormatPlan,
    project: Project,
    cx: AppContext,
    buffers: Seq<EntityId>,
    trigger: FormatTrigger,
    k: int,
) -> (i: int)
    requires
        is_format_plan(plan, project, cx, buffers, trigger),
        plan is Local,
        0 <= k < plan->targets@.len(),
    ensures
        0 <= i < buffers.len(),
        cx.live_buffer(buffers[i]) is Some,
        cx.live_buffer(buffers[i])->0.file is Some,
        plan->targets@[k].buffer == cx.live_buffer(buffers[i])->0.entity_id,
{
    lemma_filter_map_from(buffers, format_target(project, cx), k)
}

/// A guest leaves formatting to the host, and tells it of every live buffer and of the trigger.
pub proof fn guests_ask_the_host_to_format(
    plan: FormatPlan,
    project: Project,
    cx: AppContext,
    buffers: Seq<EntityId>,
    trigger: FormatTrigger,
)
    requires
        is_format_plan(plan, project, cx, buffers, trigger),
        project.is_guest(),
        project.remote_id_of() is Some,
    ensures
        plan is Host,
        plan->project_id == project.remote_id_of()->0,
        FormatTrigger::of_number(plan->trigger) == trigger,
        forall|i: int|
            0 <= i < buffers.len() && cx.live_buffer(#[trigger] buffers[i]) is Some
                ==> plan->buffer_ids@.contains(cx.live_buffer(buffers[i])->0.remote_id),
        forall|id: u64| #[trigger]
            plan->buffer_ids@.contains(id) ==> exists|i: int|
                0 <= i < buffers.len() && cx.live_buffer(#[trigger] buffers[i]) is Some
                    && cx.live_buffer(buffers[i])->0.remote_id == id,
{
    let f = live_remote_id(cx);
    assert forall|i: int|
        0 <= i < buffers.len() && cx.live_buffer(#[trigger] buffers[i]) is Some implies
        plan->buffer_ids@.contains(cx.live_buffer(buffers[i])->0.remote_id) by {
        lemma_filter_map_has(buffers, f, i);
    }
    assert forall|id: u64| #[trigger] plan->buffer_ids@.contains(id) implies exists|i: int|
        0 <= i < buffers.len() && cx.live_buffer(#[trigger] buffers[i]) is Some && cx.live_buffer(
            buffers[i],
        )->0.remote_id == id by {
        let k = choose|k: int| 0 <= k < plan->buffer_ids@.len() && plan->buffer_ids@[k] == id;
        let i = lemma_filter_map_from(buffers, f, k);
        assert(cx.live_buffer(buffers[i]) is Some);
    }
}

/// A target is begun if its buffer is not being formatted and is not the buffer of a target before
/// it. Everything that is begun is one of the targets, and counts as being formatted.
pub proof fn every_idle_target_is_begun(
    targets: Seq<FormatTarget>,
    n: int,
    formatted: Set<u64>,
    i: int,
)
    requires
        0 <= i < n <= targets.len(),
    ensures
        !formatted.contains(targets[i].remote_id) && (forall|j: int|
            0 <= j < i ==> (#[trigger] targets[j]).remote_id != targets[i].remote_id) ==> begun(
            targets,
            n,
            formatted,
        ).contains(targets[i]),
        begun_ids(targets, n, formatted).contains(targets[i].remote_id),
        forall|t: FormatTarget| #[trigger]
            begun(targets, n, formatted).contains(t) ==> targets.contains(t),
    decreases n,
{
    let head = begun(targets, n - 1, formatted);
    let all = begun(targets, n, formatted);
    lemma_begun_ids(targets, n - 1, formatted);
    if i < n - 1 {
        every_idle_target_is_begun(targets, n - 1, formatted, i);
        if head.contains(targets[i]) {
            let k = choose|k: int| 0 <= k < head.len() && head[k] == targets[i];
            assert(all[k] == targets[i]);
        }
    } else if !begun_ids(targets, n - 1, formatted).contains(targets[i].remote_id) {
        assert(all[head.len() as int] == targets[i]);
    }
    assert forall|t: FormatTarget| #[trigger] all.contains(t) implies targets.contains(t) by {
        let k = choose|k: int| 0 <= k < all.len() && all[k] == t;
        if k < head.len() {
            assert(head.contains(head[k]));
            if n > 1 {
                every_idle_target_is_begun(targets, n - 1, formatted, 0);
            }
        } else {
            assert(t == targets[n - 1]);
        }
    }
}

proof fn lemma_begun_ids(targets: Seq<FormatTarget>, n: int, formatted: Set<u64>)
    requires
        0 <= n <= targets.len(),
    ensures
        forall|id: u64| #[trigger]
            begun_ids(targets, n, formatted).contains(id) ==> formatted.contains(id) || exists|j: int|
                0 <= j < n && (#[trigger] targets[j]).remote_id == id,
    decreases n,
{
    if n > 0 {
        lemma_begun_ids(targets, n - 1, formatted);
        assert forall|id: u64| #[trigger] begun_ids(targets, n, formatted).contains(id) implies
            formatted.contains(id) || exists|j: int|
            0 <= j < n && (#[trigger] targets[j]).remote_id == id by {
            if id == targets[n - 1].remote_id {
            } else {
                assert(begun_ids(targets, n - 1, formatted).contains(id));
            }
        }
    }
}

/// What a formatter made is applied, unless whitespace was formatted first and the buffer has been
/// edited since. What is applied after whitespace is undone together with it.
pub proof fn formatting_is_undone_as_one(
    has_operation: bool,
    whitespace: Option<u64>,
    last: Option<u64>,
    outcome: FormatOutcome,
)
    requires
        outcome == outcome_of(has_operation, whitespace, last),
    ensures
        has_operation && whitespace is None ==> outcome.is_applied && outcome.grouped_with is None,
        has_operation && whitespace is Some && last == whitespace ==> outcome.is_applied
            && outcome.grouped_with == whitespace,
        whitespace is Some && last != whitespace ==> !outcome.is_applied,
        !has_operation ==> !outcome.is_applied,
        !outcome.is_applied ==> outcome.grouped_with is None,
{
}

/// A command for a buffer runs at the root of its worktree, or in the directory that holds the root
/// where the root is a file. A buffer has no such directory if it has no file, if its worktree is
/// gone or lies elsewhere, or if the worktree has no root.
pub proof fn commands_run_at_the_root(cx: AppContext, buffer: Buffer)
    ensures
        buffer.file is None ==> working_directory(cx, buffer) is None,
        buffer.file is Some ==> {
            let worktree = cx.live_worktree(buffer.file->0.worktree);
            &&& worktree is None ==> working_directory(cx, buffer) is None
            &&& worktree is Some ==> {
                let w = worktree->0;
                let root = w.entry_of_path(Seq::empty());
                &&& !w.is_local || root is None ==> working_directory(cx, buffer) is None
                &&& w.is_local && root is Some && !root->0.is_file ==> working_directory(cx, buffer)
                    == Some(w.abs_path@)
                &&& w.is_local && root is Some && root->0.is_file && parent_of(w.abs_path@) is Some
                    ==> working_directory(cx, buffer) == parent_of(w.abs_path@)
            }
        },
{
}

/// A buffer with changes and a file is read again: here if its file lies here, and else by the host.
pub proof fn changed_buffers_are_reloaded(
    plan: ReloadPlan,
    project: Project,
    cx: AppContext,
    buffers: Seq<EntityId>,
    i: int,
)
    requires
        is_reload_plan(plan, project, cx, buffers),
        0 <= i < buffers.len(),
        cx.live_buffer(buffers[i]) is Some,
        cx.live_buffer(buffers[i])->0.is_dirty,
        cx.live_buffer(buffers[i])->0.file is Some,
    ensures
        ({
            let b = cx.live_buffer(buffers[i])->0;
            &&& b.file->0.is_local ==> plan.local@.contains(b.entity_id)
            &&& !b.file->0.is_local && project.remote_id_of() is Some ==> plan.remote is Some
                && (plan.remote->0).0 == project.remote_id_of()->0 && (plan.remote->0).1@.contains(
                b.remote_id,
            )
        }),
{
    if cx.live_buffer(buffers[i])->0.file->0.is_local {
        lemma_filter_map_has(buffers, reloaded_id(cx), i);
    } else {
        lemma_filter_map_has(buffers, requested_id(cx), i);
    }
}

/// Buffers without changes are never read again, and the host is asked only for buffers of its own.
pub proof fn unchanged_buffers_are_left_alone(
    plan: ReloadPlan,
    project: Project,
    cx: AppContext,
    buffers: Seq<EntityId>,
)
    requires
        is_reload_plan(plan, project, cx, buffers),
    ensures
        forall|id: EntityId| #[trigger]
            plan.local@.contains(id) ==> exists|i: int|
                0 <= i < buffers.len() && (cx.live_buffer(#[trigger] buffers[i]) matches Some(b)
                    && b.entity_id == id && b.is_dirty && (b.file matches Some(f) && f.is_local)),
        plan.remote is Some ==> (plan.remote->0).1@.len() > 0,
        plan.remote is Some ==> forall|id: u64| #[trigger]
            (plan.remote->0).1@.contains(id) ==> exists|i: int|
                0 <= i < buffers.len() && (cx.live_buffer(#[trigger] buffers[i]) matches Some(b)
                    && b.remote_id == id && b.is_dirty && (b.file matches Some(f) && !f.is_local)),
{
    assert forall|id: EntityId| #[trigger] plan.local@.contains(id) implies exists|i: int|
        0 <= i < buffers.len() && (cx.live_buffer(#[trigger] buffers[i]) matches Some(b)
            && b.entity_id == id && b.is_dirty && (b.file matches Some(f) && f.is_local)) by {
        let k = choose|k: int| 0 <= k < plan.local@.len() && plan.local@[k] == id;
        let i = lemma_filter_map_from(buffers, reloaded_id(cx), k);
        assert(cx.live_buffer(buffers[i]) is Some);
    }
    if plan.remote is Some {
        assert forall|id: u64| #[trigger] (plan.remote->0).1@.contains(id) implies exists|i: int|
            0 <= i < buffers.len() && (cx.live_buffer(#[trigger] buffers[i]) matches Some(b)
                && b.remote_id == id && b.is_dirty && (b.file matches Some(f) && !f.is_local)) by {
            let ids = (plan.remote->0).1@;
            let k = choose|k: int| 0 <= k < ids.len() && ids[k] == id;
            let i = lemma_filter_map_from(buffers, requested_id(cx), k);
            assert(cx.live_buffer(buffers[i]) is Some);
        }
    }
}

/// A server formats whole documents if it says so, by a switch that is on or by options. Otherwise it
/// formats a document as one range, if it can do that.
pub proof fn servers_format_as_they_can(provider: Option<Provider>)
    ensures
        provider is None ==> !provides(provider),
        provider is Some && provider->0 is Options ==> provides(provider),
        provider is Some && provider->0 is Simple ==> (provides(provider) <==> provider->0->Simple_0),
{
}

/// The placeholder in an argument gives way to the path of the document; an argument without it stays
/// as it is.
pub proof fn arguments_name_the_document(
    before: Seq<char>,
    rest: Seq<char>,
    document: Seq<Part>,
)
    ensures
        (forall|i: int|
            0 <= i < before.len() ==> !"{buffer_path}"@.is_prefix_of(#[trigger] before.skip(i)))
            ==> filled_argument(before, document) == before,
        (forall|i: int|
            0 <= i < before.len() ==> !"{buffer_path}"@.is_prefix_of(
                #[trigger] (before + "{buffer_path}"@ + rest).skip(i),
            )) ==> filled_argument(before + "{buffer_path}"@ + rest, document) == before
            + path_text(document) + filled_argument(rest, document),
{
    reveal_strlit("{buffer_path}");
    let pattern = "{buffer_path}"@;
    let with = path_text(document);
    if forall|i: int|
        0 <= i < before.len() ==> !pattern.is_prefix_of(#[trigger] before.skip(i)) {
        texts_without_the_pattern_stay(before, pattern, with);
    }
    if forall|i: int|
        0 <= i < before.len() ==> !pattern.is_prefix_of(
            #[trigger] (before + pattern + rest).skip(i),
        ) {
        occurrences_are_replaced(before, pattern, rest, with);
    }
}

} // verus!
