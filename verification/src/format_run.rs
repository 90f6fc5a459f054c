//! Formatting several buffers, one after the other.

use crate::formatting::{
    format_outcome, format_step, outcome_of, step_for, FormatOutcome, FormatStep, FormatTarget,
    FormatTrigger,
};
use crate::ids::EntityId;
use crate::map::SortedMap;
use crate::model::{LanguageServer, LanguageSettings};
use crate::path::Path;
use crate::project::ProjectTransaction;
use std::sync::Arc;
use vstd::prelude::*;

verus! {

/// How far the formatting of a buffer has come.
#[derive(Debug)]
pub enum FormatStage {
    /// Its settings are read.
    Settings,
    /// Its whitespace is formatted.
    Whitespace { settings: Arc<LanguageSettings> },
    /// A prettier is looked for, and formats it if there is one.
    Prettier {
        whitespace: Option<u64>,
        tab_size: u32,
        otherwise: Option<(Arc<LanguageServer>, Path)>,
    },
    /// A server formats it.
    Server { whitespace: Option<u64>, tab_size: u32, server: Arc<LanguageServer>, document: Path },
    /// A command formats it.
    Command {
        whitespace: Option<u64>,
        document: Path,
        command: Arc<String>,
        arguments: Arc<Vec<String>>,
    },
    /// Its formatter is done; it is asked for its last transaction.
    Formatted { whitespace: Option<u64>, has_operation: bool },
    /// What the formatter made is applied or dropped, and the transaction is closed.
    Closing { outcome: FormatOutcome },
    /// Something went wrong: no buffer is formatted any more.
    Failed,
}

/// What is to be done next.
#[derive(Debug)]
pub enum FormatAction {
    ReadSettings { buffer: EntityId },
    /// Formats whitespace, as one transaction.
    FormatWhitespace {
        buffer: EntityId,
        remove_trailing_whitespace: bool,
        ensure_final_newline: bool,
    },
    FormatViaPrettier { buffer: EntityId },
    FormatViaLsp {
        buffer: EntityId,
        server: Arc<LanguageServer>,
        document: Path,
        tab_size: u32,
    },
    FormatViaExternalCommand {
        buffer: EntityId,
        document: Path,
        command: Arc<String>,
        arguments: Arc<Vec<String>>,
    },
    ReadLastTransaction { buffer: EntityId },
    /// Applies what the formatter made, as far as the outcome says, and closes the transaction.
    Close { buffer: EntityId, outcome: FormatOutcome, forget: bool },
    /// All buffers are formatted.
    Finish,
    Fail,
}

/// What has been done.
#[derive(Debug)]
pub enum FormatEvent {
    SettingsRead(Arc<LanguageSettings>),
    /// Whitespace is formatted, in a transaction if anything had to be changed.
    WhitespaceFormatted(Option<u64>),
    /// There is no prettier for the buffer.
    NoPrettier,
    /// The formatter is done; it has made something or not.
    Formatted { has_operation: bool },
    LastTransaction(Option<u64>),
    /// The transaction is closed, if anything was changed in it.
    Closed(Option<u64>),
    Failed,
}

/// Buffers that are being formatted one after the other.
#[derive(Debug)]
pub struct FormatRun {
    targets: Vec<FormatTarget>,
    trigger: FormatTrigger,
    push_to_history: bool,
    /// The buffer that it is the turn of.
    place: usize,
    stage: FormatStage,
    transaction: ProjectTransaction,
}

pub struct RunView {
    pub targets: Seq<FormatTarget>,
    pub trigger: FormatTrigger,
    pub push_to_history: bool,
    pub place: int,
    pub stage: FormatStage,
    pub transaction: Map<EntityId, u64>,
}

impl View for FormatRun {
    type V = RunView;

    closed spec fn view(&self) -> RunView {
        RunView {
            targets: self.targets@,
            trigger: self.trigger,
            push_to_history: self.push_to_history,
            place: self.place as int,
            stage: self.stage,
            transaction: self.transaction.0@,
        }
    }
}

/// The stage that follows once whitespace is formatted.
pub open spec fn stage_for(step: FormatStep, whitespace: Option<u64>, tab_size: u32) -> FormatStage {
    match step {
        FormatStep::Nothing => FormatStage::Formatted { whitespace, has_operation: false },
        FormatStep::ViaLsp { server, document } => FormatStage::Server {
            whitespace,
            tab_size,
            server,
            document,
        },
        FormatStep::ViaExternalCommand { document, command, arguments } => FormatStage::Command {
            whitespace,
            document,
            command,
            arguments,
        },
        FormatStep::ViaPrettier { otherwise } => FormatStage::Prettier {
            whitespace,
            tab_size,
            otherwise,
        },
    }
}

/// The stage that follows where there is no prettier.
pub open spec fn without_prettier(
    whitespace: Option<u64>,
    tab_size: u32,
    otherwise: Option<(Arc<LanguageServer>, Path)>,
) -> FormatStage {
    match otherwise {
        Some((server, document)) => FormatStage::Server { whitespace, tab_size, server, document },
        None => FormatStage::Formatted { whitespace, has_operation: false },
    }
}

impl RunView {
    pub open spec fn is_valid(self) -> bool {
        0 <= self.place <= self.targets.len()
    }

    pub open spec fn is_over(self) -> bool {
        self.place == self.targets.len() || self.stage is Failed
    }

    /// What is to be done next.
    pub open spec fn action(self) -> FormatAction {
        if self.stage is Failed {
            FormatAction::Fail
        } else if self.place == self.targets.len() {
            FormatAction::Finish
        } else {
            let buffer = self.targets[self.place].buffer;
            match self.stage {
                FormatStage::Settings => FormatAction::ReadSettings { buffer },
                FormatStage::Whitespace { settings } => FormatAction::FormatWhitespace {
                    buffer,
                    remove_trailing_whitespace: settings.remove_trailing_whitespace_on_save,
                    ensure_final_newline: settings.ensure_final_newline_on_save,
                },
                FormatStage::Prettier { .. } => FormatAction::FormatViaPrettier { buffer },
                FormatStage::Server { server, document, tab_size, .. } => {
                    FormatAction::FormatViaLsp { buffer, server, document, tab_size }
                },
                FormatStage::Command { document, command, arguments, .. } => {
                    FormatAction::FormatViaExternalCommand { buffer, document, command, arguments }
                },
                FormatStage::Formatted { .. } => FormatAction::ReadLastTransaction { buffer },
                FormatStage::Closing { outcome } => FormatAction::Close {
                    buffer,
                    outcome,
                    forget: !self.push_to_history,
                },
                FormatStage::Failed => FormatAction::Fail,
            }
        }
    }

    /// The event answers what was to be done.
    pub open spec fn fits(self, event: FormatEvent) -> bool {
        !self.is_over() && match (self.stage, event) {
            (_, FormatEvent::Failed) => true,
            (FormatStage::Settings, FormatEvent::SettingsRead(_)) => true,
            (FormatStage::Whitespace { .. }, FormatEvent::WhitespaceFormatted(_)) => true,
            (FormatStage::Prettier { .. }, FormatEvent::NoPrettier) => true,
            (FormatStage::Prettier { .. }, FormatEvent::Formatted { .. }) => true,
            (FormatStage::Server { .. }, FormatEvent::Formatted { .. }) => true,
            (FormatStage::Command { .. }, FormatEvent::Formatted { .. }) => true,
            (FormatStage::Formatted { .. }, FormatEvent::LastTransaction(_)) => true,
            (FormatStage::Closing { .. }, FormatEvent::Closed(_)) => true,
            _ => false,
        }
    }

    /// The run after an event that fits.
    pub open spec fn after(self, event: FormatEvent) -> RunView {
        match (self.stage, event) {
            (_, FormatEvent::Failed) => RunView { stage: FormatStage::Failed, ..self },
            (_, FormatEvent::SettingsRead(settings)) => RunView {
                stage: FormatStage::Whitespace { settings },
                ..self
            },
            (
                FormatStage::Whitespace { settings },
                FormatEvent::WhitespaceFormatted(whitespace),
            ) => RunView {
                stage: stage_for(
                    step_for(*settings, self.trigger, self.targets[self.place]),
                    whitespace,
                    settings.tab_size,
                ),
                ..self
            },
            (
                FormatStage::Prettier { whitespace, tab_size, otherwise },
                FormatEvent::NoPrettier,
            ) => RunView { stage: without_prettier(whitespace, tab_size, otherwise), ..self },
            (
                FormatStage::Prettier { whitespace, .. },
                FormatEvent::Formatted { has_operation },
            ) => RunView { stage: FormatStage::Formatted { whitespace, has_operation }, ..self },
            (FormatStage::Server { whitespace, .. }, FormatEvent::Formatted { has_operation }) => {
                RunView { stage: FormatStage::Formatted { whitespace, has_operation }, ..self }
            },
            (FormatStage::Command { whitespace, .. }, FormatEvent::Formatted { has_operation }) => {
                RunView { stage: FormatStage::Formatted { whitespace, has_operation }, ..self }
            },
            (
                FormatStage::Formatted { whitespace, has_operation },
                FormatEvent::LastTransaction(last),
            ) => RunView {
                stage: FormatStage::Closing { outcome: outcome_of(has_operation, whitespace, last) },
                ..self
            },
            (FormatStage::Closing { .. }, FormatEvent::Closed(transaction)) => RunView {
                place: self.place + 1,
                stage: FormatStage::Settings,
                transaction: match transaction {
                    Some(t) => self.transaction.insert(self.targets[self.place].buffer, t),
                    None => self.transaction,
                },
                ..self
            },
            _ => self,
        }
    }

    /// How many events may still follow.
    pub open spec fn rank(self) -> int {
        if self.is_over() {
            0
        } else {
            6 * (self.targets.len() - self.place - 1) + (match self.stage {
                FormatStage::Settings => 6int,
                FormatStage::Whitespace { .. } => 5,
                FormatStage::Prettier { .. } => 4,
                FormatStage::Server { .. } => 3,
                FormatStage::Command { .. } => 3,
                FormatStage::Formatted { .. } => 2,
                FormatStage::Closing { .. } => 1,
                FormatStage::Failed => 0,
            })
        }
    }
}

/// Formatting comes to an end: each event leaves fewer that may follow, and none is expected of a run
/// that is over.
pub proof fn formatting_comes_to_an_end(run: RunView, event: FormatEvent)
    requires
        run.is_valid(),
        run.fits(event),
    ensures
        run.after(event).is_valid(),
        0 <= run.after(event).rank() < run.rank(),
        run.rank() <= 6 * run.targets.len(),
{
}

/// A run keeps no transaction for a buffer that it does not format.
pub proof fn only_targets_are_changed(run: RunView, event: FormatEvent, buffer: EntityId)
    requires
        run.is_valid(),
        run.fits(event),
        !run.transaction.contains_key(buffer),
        run.after(event).transaction.contains_key(buffer),
    ensures
        run.targets[run.place].buffer == buffer,
        run.stage is Closing,
{
}

fn clone_pair(pair: &Option<(Arc<LanguageServer>, Path)>) -> (r: Option<
    (Arc<LanguageServer>, Path),
>)
    ensures
        r == *pair,
{
    match pair {
        Some((server, document)) => Some((server.clone(), document.clone())),
        None => None,
    }
}

impl FormatRun {
    /// Begins to format buffers.
    pub fn new(targets: Vec<FormatTarget>, trigger: FormatTrigger, push_to_history: bool) -> (r: Self)
        ensures
            r@ == (RunView {
                targets: targets@,
                trigger,
                push_to_history,
                place: 0,
                stage: FormatStage::Settings,
                transaction: Map::empty(),
            }),
            r@.is_valid(),
    {
        FormatRun {
            targets,
            trigger,
            push_to_history,
            place: 0,
            stage: FormatStage::Settings,
            transaction: ProjectTransaction(SortedMap::new()),
        }
    }

    /// What is to be done next.
    pub fn action(&self) -> (r: FormatAction)
        requires
            self@.is_valid(),
        ensures
            r == self@.action(),
    {
        if let FormatStage::Failed = self.stage {
            return FormatAction::Fail;
        }
        if self.place == self.targets.len() {
            return FormatAction::Finish;
        }
        let buffer = self.targets[self.place].buffer;
        match &self.stage {
            FormatStage::Settings => FormatAction::ReadSettings { buffer },
            FormatStage::Whitespace { settings } => FormatAction::FormatWhitespace {
                buffer,
                remove_trailing_whitespace: settings.remove_trailing_whitespace_on_save,
                ensure_final_newline: settings.ensure_final_newline_on_save,
            },
            FormatStage::Prettier { .. } => FormatAction::FormatViaPrettier { buffer },
            FormatStage::Server { server, document, tab_size, .. } => FormatAction::FormatViaLsp {
                buffer,
                server: server.clone(),
                document: document.clone(),
                tab_size: *tab_size,
            },
            FormatStage::Command { document, command, arguments, .. } => {
                FormatAction::FormatViaExternalCommand {
                    buffer,
                    document: document.clone(),
                    command: command.clone(),
                    arguments: arguments.clone(),
                }
            },
            FormatStage::Formatted { .. } => FormatAction::ReadLastTransaction { buffer },
            FormatStage::Closing { outcome } => FormatAction::Close {
                buffer,
                outcome: *outcome,
                forget: !self.push_to_history,
            },
            FormatStage::Failed => FormatAction::Fail,
        }
    }

    /// Tells whether an event answers what was to be done.
    pub fn fits(&self, event: &FormatEvent) -> (r: bool)
        requires
            self@.is_valid(),
        ensures
            r == self@.fits(*event),
    {
        if self.place == self.targets.len() {
            return false;
        }
        match (&self.stage, event) {
            (FormatStage::Failed, _) => false,
            (_, FormatEvent::Failed) => true,
            (FormatStage::Settings, FormatEvent::SettingsRead(_)) => true,
            (FormatStage::Whitespace { .. }, FormatEvent::WhitespaceFormatted(_)) => true,
            (FormatStage::Prettier { .. }, FormatEvent::NoPrettier) => true,
            (FormatStage::Prettier { .. }, FormatEvent::Formatted { .. }) => true,
            (FormatStage::Server { .. }, FormatEvent::Formatted { .. }) => true,
            (FormatStage::Command { .. }, FormatEvent::Formatted { .. }) => true,
            (FormatStage::Formatted { .. }, FormatEvent::LastTransaction(_)) => true,
            (FormatStage::Closing { .. }, FormatEvent::Closed(_)) => true,
            _ => false,
        }
    }

    /// Goes on after an event.
    pub fn advance(&mut self, event: FormatEvent)
        requires
            old(self)@.is_valid(),
            old(self)@.fits(event),
        ensures
            final(self)@ == old(self)@.after(event),
            final(self)@.is_valid(),
    {
        assert(self.place < self.targets.len());
        let next = match (&self.stage, event) {
            (_, FormatEvent::Failed) => FormatStage::Failed,
            (_, FormatEvent::SettingsRead(settings)) => FormatStage::Whitespace { settings },
            (
                FormatStage::Whitespace { settings },
                FormatEvent::WhitespaceFormatted(whitespace),
            ) => {
                let tab_size: u32 = settings.tab_size;
                match format_step(settings, self.trigger, &self.targets[self.place]) {
                    FormatStep::Nothing => FormatStage::Formatted {
                        whitespace,
                        has_operation: false,
                    },
                    FormatStep::ViaLsp { server, document } => FormatStage::Server {
                        whitespace,
                        tab_size,
                        server,
                        document,
                    },
                    FormatStep::ViaExternalCommand { document, command, arguments } => {
                        FormatStage::Command { whitespace, document, command, arguments }
                    },
                    FormatStep::ViaPrettier { otherwise } => FormatStage::Prettier {
                        whitespace,
                        tab_size,
                        otherwise,
                    },
                }
            },
            (
                FormatStage::Prettier { whitespace, tab_size, otherwise },
                FormatEvent::NoPrettier,
            ) => match clone_pair(otherwise) {
                Some((server, document)) => FormatStage::Server {
                    whitespace: *whitespace,
                    tab_size: *tab_size,
                    server,
                    document,
                },
                None => FormatStage::Formatted { whitespace: *whitespace, has_operation: false },
            },
            (
                FormatStage::Prettier { whitespace, .. },
                FormatEvent::Formatted { has_operation },
            ) => FormatStage::Formatted { whitespace: *whitespace, has_operation },
            (FormatStage::Server { whitespace, .. }, FormatEvent::Formatted { has_operation }) => {
                FormatStage::Formatted { whitespace: *whitespace, has_operation }
            },
            (FormatStage::Command { whitespace, .. }, FormatEvent::Formatted { has_operation }) => {
                FormatStage::Formatted { whitespace: *whitespace, has_operation }
            },
            (
                FormatStage::Formatted { whitespace, has_operation },
                FormatEvent::LastTransaction(last),
            ) => FormatStage::Closing {
                outcome: format_outcome(*has_operation, *whitespace, last),
            },
            (_, FormatEvent::Closed(transaction)) => {
                self.transaction.enter(self.targets[self.place].buffer, transaction);
                self.place = self.place + 1;
                FormatStage::Settings
            },
            _ => return,
        };
        self.stage = next;
    }

    /// The transactions that were made, once all buffers are formatted.
    pub fn finish(self) -> (r: Option<ProjectTransaction>)
        requires
            self@.is_valid(),
        ensures
            match r {
                Some(t) => !(self@.stage is Failed) && self@.place == self@.targets.len() && t.0@
                    == self@.transaction,
                None => self@.stage is Failed || self@.place < self@.targets.len(),
            },
    {
        if let FormatStage::Failed = self.stage {
            return None;
        }
        if self.place == self.targets.len() {
            Some(self.transaction)
        } else {
            None
        }
    }
}

/// How the whitespace of a buffer is formatted, and what is then done with it: what the settings say
/// for saving, and the tool that they name. A command runs with the configured arguments, a server
/// works with the configured tab size, and prettier is looked for where it is wanted.
pub proof fn buffers_are_formatted_as_configured(
    run: RunView,
    settings: Arc<LanguageSettings>,
    whitespace: Option<u64>,
)
    requires
        run.is_valid(),
        !run.is_over(),
        run.stage is Settings,
    ensures
        ({
            let target = run.targets[run.place];
            let read = run.after(FormatEvent::SettingsRead(settings));
            let next = read.after(FormatEvent::WhitespaceFormatted(whitespace));
            let in_charge = settings.format_on_save is On || (settings.format_on_save is Off
                && run.trigger is Manual);
            &&& run.action() == (FormatAction::ReadSettings { buffer: target.buffer })
            &&& read.action() == (FormatAction::FormatWhitespace {
                buffer: target.buffer,
                remove_trailing_whitespace: settings.remove_trailing_whitespace_on_save,
                ensure_final_newline: settings.ensure_final_newline_on_save,
            })
            &&& settings.format_on_save is Off && run.trigger is Save ==> next.action()
                == (FormatAction::ReadLastTransaction { buffer: target.buffer })
            &&& in_charge && settings.formatter is External && target.document is Some
                ==> next.action() == (FormatAction::FormatViaExternalCommand {
                buffer: target.buffer,
                document: target.document->0,
                command: settings.formatter->command,
                arguments: settings.formatter->arguments,
            })
            &&& settings.format_on_save is External && target.document is Some ==> next.action()
                == (FormatAction::FormatViaExternalCommand {
                buffer: target.buffer,
                document: target.document->0,
                command: settings.format_on_save->command,
                arguments: settings.format_on_save->arguments,
            })
            &&& (in_charge && settings.formatter is LanguageServer
                || settings.format_on_save is LanguageServer) && target.document is Some
                && target.server is Some ==> next.action() == (FormatAction::FormatViaLsp {
                buffer: target.buffer,
                server: target.server->0,
                document: target.document->0,
                tab_size: settings.tab_size,
            })
            &&& in_charge && (settings.formatter is Prettier || settings.formatter is Auto)
                ==> next.action() == (FormatAction::FormatViaPrettier { buffer: target.buffer })
            &&& in_charge && settings.formatter is Auto && target.document is Some
                && target.server is Some ==> next.after(FormatEvent::NoPrettier).action() == (
            FormatAction::FormatViaLsp {
                buffer: target.buffer,
                server: target.server->0,
                document: target.document->0,
                tab_size: settings.tab_size,
            })
            &&& in_charge && settings.formatter is Prettier ==> next.after(
                FormatEvent::NoPrettier,
            ).action() == (FormatAction::ReadLastTransaction { buffer: target.buffer })
        }),
{
}

/// Once a tool is done, the buffer is asked for its last transaction, and what the tool made is
/// applied together with the whitespace, or dropped if the buffer was edited in between. The
/// transaction is kept in the history only if that was wanted.
pub proof fn what_was_made_is_applied(
    run: RunView,
    whitespace: Option<u64>,
    has_operation: bool,
    last: Option<u64>,
)
    requires
        run.is_valid(),
        !run.is_over(),
        match run.stage {
            FormatStage::Prettier { whitespace: w, .. } => w == whitespace,
            FormatStage::Server { whitespace: w, .. } => w == whitespace,
            FormatStage::Command { whitespace: w, .. } => w == whitespace,
            _ => false,
        },
    ensures
        ({
            let buffer = run.targets[run.place].buffer;
            let done = run.after(FormatEvent::Formatted { has_operation });
            let closing = done.after(FormatEvent::LastTransaction(last));
            &&& done.action() == (FormatAction::ReadLastTransaction { buffer })
            &&& closing.action() is Close
            &&& closing.action()->Close_buffer == buffer
            &&& closing.action()->forget == !run.push_to_history
            &&& closing.action()->outcome.is_applied <==> has_operation && (whitespace is None
                || whitespace == last)
            &&& closing.action()->outcome.is_applied ==> closing.action()->outcome.grouped_with
                == whitespace
            &&& !closing.action()->outcome.is_applied
                ==> closing.action()->outcome.grouped_with is None
        }),
{
}

/// When a transaction is closed, it is kept for its buffer, those of the other buffers stay, and it
/// is the turn of the next buffer, or the run is finished.
pub proof fn each_buffer_gets_its_turn(run: RunView, transaction: Option<u64>)
    requires
        run.is_valid(),
        !run.is_over(),
        run.stage is Closing,
    ensures
        ({
            let next = run.after(FormatEvent::Closed(transaction));
            let buffer = run.targets[run.place].buffer;
            &&& next.targets == run.targets
            &&& next.trigger == run.trigger
            &&& next.push_to_history == run.push_to_history
            &&& next.place == run.place + 1
            &&& transaction is Some ==> next.transaction.contains_key(buffer)
                && next.transaction[buffer] == transaction->0
            &&& transaction is None ==> next.transaction == run.transaction
            &&& forall|other: EntityId|
                other != buffer ==> next.transaction.contains_key(other)
                    == run.transaction.contains_key(other) && (run.transaction.contains_key(other)
                    ==> #[trigger] next.transaction[other] == run.transaction[other])
            &&& run.place + 1 < run.targets.len() ==> next.action() == (
            FormatAction::ReadSettings { buffer: run.targets[run.place + 1].buffer })
            &&& run.place + 1 == run.targets.len() ==> next.action() is Finish
        }),
{
}

/// A failure ends the run, at whatever stage it comes.
pub proof fn failures_end_the_run(run: RunView)
    requires
        run.is_valid(),
        !run.is_over(),
    ensures
        run.fits(FormatEvent::Failed),
        run.after(FormatEvent::Failed).is_over(),
        run.after(FormatEvent::Failed).action() is Fail,
        run.after(FormatEvent::Failed).transaction == run.transaction,
{
}

/// What is answered to an action is accepted.
pub proof fn answers_fit_their_actions(
    run: RunView,
    settings: Arc<LanguageSettings>,
    transaction: Option<u64>,
    has_operation: bool,
)
    requires
        run.is_valid(),
    ensures
        run.action() is ReadSettings <==> run.fits(FormatEvent::SettingsRead(settings)),
        run.action() is FormatWhitespace <==> run.fits(
            FormatEvent::WhitespaceFormatted(transaction),
        ),
        run.action() is FormatViaPrettier <==> run.fits(FormatEvent::NoPrettier),
        run.action() is FormatViaPrettier || run.action() is FormatViaLsp
            || run.action() is FormatViaExternalCommand <==> run.fits(
            FormatEvent::Formatted { has_operation },
        ),
        run.action() is ReadLastTransaction <==> run.fits(FormatEvent::LastTransaction(transaction)),
        run.action() is Close <==> run.fits(FormatEvent::Closed(transaction)),
        run.action() is Finish || run.action() is Fail <==> run.is_over(),
{
}

} // verus!
