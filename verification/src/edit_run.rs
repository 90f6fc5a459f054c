//! Carrying out an edit of several documents, one step after the other.

use crate::ids::EntityId;
use crate::map::SortedMap;
use crate::project::{ProjectError, ProjectTransaction};
use crate::workspace_edits::{
    action_views, actions_of, deserialize_workspace_edit, file_actions, operations_of,
    DocumentEdit, DocumentOperation, FileAction, FileActionView, WorkspaceEdit,
};
use std::sync::Arc;
use vstd::prelude::*;

verus! {

/// What is to be done next.
#[derive(Debug)]
pub enum EditAction {
    /// Do something in the file system.
    File(FileAction),
    /// Open the document and edit it, as one transaction. Where `push_to_history` is off, the
    /// buffer's history is not to know of the transaction.
    Edit { edit: Arc<DocumentEdit>, push_to_history: bool },
}

/// What such an action stands for.
pub enum EditActionView {
    File(FileActionView),
    Edit { edit: DocumentEdit, push_to_history: bool },
}

impl View for EditAction {
    type V = EditActionView;

    open spec fn view(&self) -> EditActionView {
        match *self {
            EditAction::File(action) => EditActionView::File(action@),
            EditAction::Edit { edit, push_to_history } => EditActionView::Edit {
                edit: *edit,
                push_to_history,
            },
        }
    }
}

pub open spec fn optional_action(action: Option<EditAction>) -> Option<EditActionView> {
    match action {
        Some(a) => Some(a@),
        None => None,
    }
}

/// What has happened.
#[derive(Clone, Copy, Debug, PartialEq, Eq, Structural)]
pub enum EditEvent {
    /// The run is to begin.
    Started,
    /// The action in the file system is done.
    Done,
    /// The document is edited, in a transaction if that changed anything.
    Edited { buffer: EntityId, transaction: Option<u64> },
    /// The action could not be done.
    Failed(ProjectError),
}

/// An edit of several documents that is being carried out.
#[derive(Debug)]
pub struct EditRun {
    /// The steps that have not begun, the next one last.
    left: Vec<DocumentOperation>,
    /// What the current step has still to do in the file system, the next action last.
    doing: Vec<FileAction>,
    editing: Option<Arc<DocumentEdit>>,
    failed: Option<ProjectError>,
    transaction: ProjectTransaction,
    push_to_history: bool,
}

/// What a run stands for.
#[verifier::ext_equal]
pub struct EditRunView {
    /// The steps that have not begun.
    pub left: Seq<DocumentOperation>,
    /// What the current step has still to do in the file system.
    pub doing: Seq<FileActionView>,
    /// The document that the current step edits.
    pub editing: Option<DocumentEdit>,
    /// Why the run has ended early.
    pub failed: Option<ProjectError>,
    /// The transactions that were made so far.
    pub transaction: Map<EntityId, u64>,
    pub push_to_history: bool,
}

impl View for EditRun {
    type V = EditRunView;

    closed spec fn view(&self) -> EditRunView {
        EditRunView {
            left: self.left@.reverse(),
            doing: action_views(self.doing@).reverse(),
            editing: match self.editing {
                Some(edit) => Some(*edit),
                None => None,
            },
            failed: self.failed,
            transaction: self.transaction.0@,
            push_to_history: self.push_to_history,
        }
    }
}

impl EditRunView {
    /// No action is being waited for.
    pub open spec fn is_idle(self) -> bool {
        self.doing.len() == 0 && self.editing is None
    }

    /// The run after it ended early.
    pub open spec fn ended(self, e: ProjectError) -> EditRunView {
        EditRunView { doing: Seq::empty(), editing: None, failed: Some(e), ..self }
    }

    /// An idle run goes on to its next step. A step that names what is no file ends the run.
    pub open spec fn begun(self) -> EditRunView {
        if self.failed is Some || !self.is_idle() || self.left.len() == 0 {
            self
        } else {
            let rest = EditRunView { left: self.left.skip(1), ..self };
            match self.left[0] {
                DocumentOperation::Edit(edit) => if edit.document is Some {
                    EditRunView { editing: Some(edit), ..rest }
                } else {
                    rest.ended(ProjectError::UriIsNotAFile)
                },
                operation => match actions_of(operation) {
                    Some(actions) => EditRunView { doing: actions, ..rest },
                    None => rest.ended(ProjectError::UriIsNotAFile),
                },
            }
        }
    }
}

/// The event answers what the run waits for.
pub open spec fn fits(run: EditRunView, event: EditEvent) -> bool {
    run.failed is None && match event {
        EditEvent::Started => run.is_idle(),
        EditEvent::Done => run.doing.len() > 0,
        EditEvent::Edited { .. } => run.doing.len() == 0 && run.editing is Some,
        EditEvent::Failed(_) => !run.is_idle(),
    }
}

/// The run after an event. An event that does not fit changes nothing.
pub open spec fn run_after(run: EditRunView, event: EditEvent) -> EditRunView {
    if !fits(run, event) {
        run
    } else {
        match event {
            EditEvent::Started => run.begun(),
            EditEvent::Done => EditRunView { doing: run.doing.skip(1), ..run }.begun(),
            EditEvent::Edited { buffer, transaction } => EditRunView {
                editing: None,
                transaction: match transaction {
                    Some(t) => run.transaction.insert(buffer, t),
                    None => run.transaction,
                },
                ..run
            }.begun(),
            EditEvent::Failed(e) => run.ended(e),
        }
    }
}

/// What a run waits for.
pub open spec fn action_of(run: EditRunView) -> Option<EditActionView> {
    if run.failed is Some {
        None
    } else if run.doing.len() > 0 {
        Some(EditActionView::File(run.doing[0]))
    } else {
        match run.editing {
            Some(edit) => Some(
                EditActionView::Edit { edit, push_to_history: run.push_to_history },
            ),
            None => None,
        }
    }
}

/// A run of the steps of an edit, of which none has begun.
pub open spec fn fresh_run(edit: WorkspaceEdit, push_to_history: bool) -> EditRunView {
    EditRunView {
        left: operations_of(edit),
        doing: Seq::empty(),
        editing: None,
        failed: None,
        transaction: Map::empty(),
        push_to_history,
    }
}

impl Clone for FileAction {
    fn clone(&self) -> (r: Self)
        ensures
            r == *self,
    {
        match self {
            FileAction::CreateDir { path } => FileAction::CreateDir { path: path.clone() },
            FileAction::CreateFile { path, overwrite, ignore_if_exists } => FileAction::CreateFile {
                path: path.clone(),
                overwrite: *overwrite,
                ignore_if_exists: *ignore_if_exists,
            },
            FileAction::Rename { source, target, overwrite, ignore_if_exists } => {
                FileAction::Rename {
                    source: source.clone(),
                    target: target.clone(),
                    overwrite: *overwrite,
                    ignore_if_exists: *ignore_if_exists,
                }
            },
            FileAction::RemoveDir { path, recursive, ignore_if_not_exists } => {
                FileAction::RemoveDir {
                    path: path.clone(),
                    recursive: *recursive,
                    ignore_if_not_exists: *ignore_if_not_exists,
                }
            },
            FileAction::RemoveFile { path, recursive, ignore_if_not_exists } => {
                FileAction::RemoveFile {
                    path: path.clone(),
                    recursive: *recursive,
                    ignore_if_not_exists: *ignore_if_not_exists,
                }
            },
        }
    }
}

/// The items in the opposite order.
fn reversed<T>(items: Vec<T>) -> (r: Vec<T>)
    ensures
        r@ == items@.reverse(),
{
    let mut left = items;
    let mut r: Vec<T> = Vec::new();
    let ghost n = items@.len() as int;
    assert(items@.reverse().take(0) =~= Seq::empty());
    assert(items@.take(n) =~= items@);
    while left.len() > 0
        invariant
            n == items@.len(),
            left@.len() + r@.len() == n,
            left@ == items@.take(left@.len() as int),
            r@ == items@.reverse().take(r@.len() as int),
        decreases left@.len(),
    {
        let ghost before = left@;
        if let Some(last) = left.pop() {
            r.push(last);
            assert(left@ =~= items@.take(left@.len() as int));
            assert(r@ =~= items@.reverse().take(r@.len() as int));
        }
    }
    assert(items@.reverse().take(n) =~= items@.reverse());
    r
}

impl EditRun {
    /// A run of the steps of an edit, of which none has begun.
    pub fn new(edit: WorkspaceEdit, push_to_history: bool) -> (r: EditRun)
        ensures
            r@ == fresh_run(edit, push_to_history),
    {
        let operations = deserialize_workspace_edit(edit);
        let ghost all = operations@;
        let r = EditRun {
            left: reversed(operations),
            doing: Vec::new(),
            editing: None,
            failed: None,
            transaction: ProjectTransaction(SortedMap::new()),
            push_to_history,
        };
        assert(all.reverse().reverse() =~= all);
        assert(r@.doing =~= Seq::empty());
        r
    }

    fn end(&mut self, e: ProjectError)
        ensures
            final(self)@ == old(self)@.ended(e),
    {
        self.doing = Vec::new();
        self.editing = None;
        self.failed = Some(e);
        assert(self@.doing =~= Seq::empty());
    }

    fn begin(&mut self)
        ensures
            final(self)@ == old(self)@.begun(),
    {
        if self.failed.is_some() || self.doing.len() > 0 || self.editing.is_some() {
            return;
        }
        let ghost before = self@;
        let ghost steps = self.left@;
        let operation = match self.left.pop() {
            Some(operation) => operation,
            None => return,
        };
        assert(before.left[0] == operation);
        assert(self@.left =~= before.left.skip(1));
        match operation {
            DocumentOperation::Edit(edit) => {
                if edit.document.is_some() {
                    self.editing = Some(Arc::new(edit));
                } else {
                    self.end(ProjectError::UriIsNotAFile);
                }
            },
            operation => match file_actions(&operation) {
                Ok(actions) => {
                    let ghost all = actions@;
                    self.doing = reversed(actions);
                    assert(self@.doing =~= action_views(all));
                },
                Err(e) => self.end(e),
            },
        }
    }

    /// What the run waits for.
    pub fn action(&self) -> (r: Option<EditAction>)
        ensures
            optional_action(r) == action_of(self@),
    {
        if self.failed.is_some() {
            return None;
        }
        let n: usize = self.doing.len();
        if n > 0 {
            assert(self@.doing[0] == self.doing@[n - 1]@);
            return Some(EditAction::File(self.doing[n - 1].clone()));
        }
        match &self.editing {
            Some(edit) => Some(
                EditAction::Edit { edit: edit.clone(), push_to_history: self.push_to_history },
            ),
            None => None,
        }
    }

    /// Takes note of an event, and tells what is to be done next. There is nothing left to do
    /// once all steps are done or one has failed.
    pub fn advance(&mut self, event: EditEvent) -> (r: Option<EditAction>)
        ensures
            final(self)@ == run_after(old(self)@, event),
            optional_action(r) == action_of(final(self)@),
            final(self)@.failed is Some ==> r is None,
    {
        let ghost before = self@;
        let working = self.doing.len() > 0;
        if self.failed.is_none() {
            match event {
                EditEvent::Started => self.begin(),
                EditEvent::Done => {
                    if working {
                        self.doing.pop();
                        assert(self@.doing =~= before.doing.skip(1));
                        self.begin();
                    }
                },
                EditEvent::Edited { buffer, transaction } => {
                    if !working && self.editing.is_some() {
                        self.editing = None;
                        self.transaction.enter(buffer, transaction);
                        self.begin();
                    }
                },
                EditEvent::Failed(e) => {
                    if working || self.editing.is_some() {
                        self.end(e);
                    }
                },
            }
        }
        self.action()
    }

    /// The transactions that the run has made, unless a step failed: then why it failed.
    pub fn finish(self) -> (r: Result<ProjectTransaction, ProjectError>)
        ensures
            match r {
                Ok(t) => self@.failed is None && t.0@ == self@.transaction,
                Err(e) => self@.failed == Some(e),
            },
    {
        match self.failed {
            Some(e) => Err(e),
            None => Ok(self.transaction),
        }
    }
}

/// A run after several events.
pub open spec fn run_through(run: EditRunView, events: Seq<EditEvent>) -> EditRunView
    decreases events.len(),
{
    if events.len() == 0 {
        run
    } else {
        run_after(run_through(run, events.drop_last()), events.last())
    }
}

/// The first step that fails ends the run with its error: whatever happens afterwards, nothing
/// more is to be done, the error stays, and the steps that had not begun do not begin.
pub proof fn failed_step_ends_the_run(
    run: EditRunView,
    e: ProjectError,
    events: Seq<EditEvent>,
)
    requires
        run.failed is None,
        !run.is_idle(),
    ensures
        ({
            let after = run_through(run_after(run, EditEvent::Failed(e)), events);
            &&& after.failed == Some(e)
            &&& action_of(after) is None
            &&& after.left == run.left
            &&& after.transaction == run.transaction
        }),
    decreases events.len(),
{
    if events.len() > 0 {
        failed_step_ends_the_run(run, e, events.drop_last());
    }
}

/// What a step is to do.
pub open spec fn step_actions(operation: DocumentOperation, push_to_history: bool) -> Option<
    Seq<EditActionView>,
> {
    match operation {
        DocumentOperation::Edit(edit) => if edit.document is Some {
            Some(seq![EditActionView::Edit { edit, push_to_history }])
        } else {
            None
        },
        operation => match actions_of(operation) {
            Some(actions) => Some(
                actions.map_values(|a: FileActionView| EditActionView::File(a)),
            ),
            None => None,
        },
    }
}

/// What steps are to do, one after the other, up to the first that names what is no file.
pub open spec fn steps_actions(left: Seq<DocumentOperation>, push_to_history: bool) -> Seq<
    EditActionView,
>
    decreases left.len(),
{
    if left.len() == 0 {
        Seq::empty()
    } else {
        match step_actions(left[0], push_to_history) {
            Some(actions) => actions + steps_actions(left.skip(1), push_to_history),
            None => Seq::empty(),
        }
    }
}

/// What a run has still to do if nothing fails.
pub open spec fn remaining(run: EditRunView) -> Seq<EditActionView> {
    if run.failed is Some {
        Seq::empty()
    } else {
        let now = match run.editing {
            Some(edit) => seq![
                EditActionView::Edit { edit, push_to_history: run.push_to_history },
            ],
            None => Seq::empty(),
        };
        run.doing.map_values(|a: FileActionView| EditActionView::File(a)) + now + steps_actions(
            run.left,
            run.push_to_history,
        )
    }
}

proof fn lemma_begun(run: EditRunView)
    requires
        run.failed is None,
    ensures
        remaining(run.begun()) == remaining(run),
        remaining(run).len() > 0 ==> action_of(run.begun()) == Some(remaining(run)[0]),
        remaining(run).len() == 0 ==> action_of(run.begun()) is None,
{
    let file = |a: FileActionView| EditActionView::File(a);
    if run.is_idle() {
        assert(run.doing.map_values(file) =~= Seq::empty());
        if run.left.len() > 0 {
            let after = run.begun();
            match run.left[0] {
                DocumentOperation::Edit(edit) => {
                    if edit.document is Some {
                        assert(after.doing.map_values(file) =~= Seq::empty());
                    }
                },
                operation => {
                    if let Some(actions) = actions_of(operation) {
                        assert(actions.len() > 0);
                    }
                },
            }
        }
        assert(remaining(run.begun()) =~= remaining(run));
    } else if run.doing.len() > 0 {
        assert(remaining(run)[0] == EditActionView::File(run.doing[0]));
    } else {
        assert(run.doing.map_values(file) =~= Seq::empty());
    }
}

/// The events answer the actions of the run one after the other, and nothing fails.
pub open spec fn all_succeed(run: EditRunView, events: Seq<EditEvent>) -> bool {
    forall|k: int|
        0 <= k < events.len() ==> (#[trigger] events[k] is Done || events[k] is Edited) && fits(
            run_through(run, events.take(k)),
            events[k],
        )
}

/// The transactions that events have made.
pub open spec fn made_by(events: Seq<EditEvent>) -> Map<EntityId, u64>
    decreases events.len(),
{
    if events.len() == 0 {
        Map::empty()
    } else {
        match events.last() {
            EditEvent::Edited { buffer, transaction: Some(t) } => made_by(events.drop_last()).insert(
                buffer,
                t,
            ),
            _ => made_by(events.drop_last()),
        }
    }
}

proof fn lemma_step(run: EditRunView, event: EditEvent)
    requires
        fits(run, event),
        event is Done || event is Edited,
    ensures
        ({
            let after = run_after(run, event);
            let next = remaining(run).skip(1);
            &&& remaining(run).len() > 0
            &&& remaining(after) == next
            &&& action_of(after) == (if next.len() > 0 {
                Some(next[0])
            } else {
                None
            })
            &&& after.transaction == (match event {
                EditEvent::Edited { buffer, transaction: Some(t) } => run.transaction.insert(
                    buffer,
                    t,
                ),
                _ => run.transaction,
            })
        }),
{
    let file = |a: FileActionView| EditActionView::File(a);
    match event {
        EditEvent::Done => {
            let next = EditRunView { doing: run.doing.skip(1), ..run };
            assert(next.doing.map_values(file) =~= run.doing.map_values(file).skip(1));
            assert(remaining(next) =~= remaining(run).skip(1));
            lemma_begun(next);
        },
        EditEvent::Edited { buffer, transaction } => {
            let next = EditRunView {
                editing: None,
                transaction: match transaction {
                    Some(t) => run.transaction.insert(buffer, t),
                    None => run.transaction,
                },
                ..run
            };
            assert(run.doing.map_values(file) =~= Seq::empty());
            assert(remaining(next) =~= remaining(run).skip(1));
            lemma_begun(next);
        },
        _ => {},
    }
}

proof fn lemma_carried_out(run: EditRunView, events: Seq<EditEvent>)
    requires
        run.transaction == Map::<EntityId, u64>::empty(),
        action_of(run) == (if remaining(run).len() > 0 {
            Some(remaining(run)[0])
        } else {
            None
        }),
        all_succeed(run, events),
    ensures
        ({
            let after = run_through(run, events);
            &&& events.len() <= remaining(run).len()
            &&& remaining(after) == remaining(run).skip(events.len() as int)
            &&& action_of(after) == (if events.len() < remaining(run).len() {
                Some(remaining(run)[events.len() as int])
            } else {
                None
            })
            &&& after.transaction == made_by(events)
        }),
    decreases events.len(),
{
    if events.len() == 0 {
        assert(remaining(run).skip(0) =~= remaining(run));
    } else {
        let n = events.len() - 1;
        let before = events.drop_last();
        assert(events.take(n) =~= before);
        assert forall|k: int| 0 <= k < before.len() implies (#[trigger] before[k] is Done
            || before[k] is Edited) && fits(run_through(run, before.take(k)), before[k]) by {
            assert(before[k] == events[k]);
            assert(before.take(k) =~= events.take(k));
        }
        lemma_carried_out(run, before);
        assert(events[n] is Done || events[n] is Edited);
        lemma_step(run_through(run, before), events[n]);
        assert(remaining(run).skip(n).skip(1) =~= remaining(run).skip(n + 1));
    }
}

/// The actions of an edit are asked for in the order of its steps, each once the one before it is
/// done, and the transactions are gathered: of a buffer that is edited more than once the last one
/// counts. `events` are the answers to the actions so far.
pub proof fn steps_are_carried_out_in_order(
    edit: WorkspaceEdit,
    push_to_history: bool,
    events: Seq<EditEvent>,
)
    requires
        all_succeed(run_after(fresh_run(edit, push_to_history), EditEvent::Started), events),
    ensures
        ({
            let run = run_after(fresh_run(edit, push_to_history), EditEvent::Started);
            let all = steps_actions(operations_of(edit), push_to_history);
            let after = run_through(run, events);
            &&& events.len() <= all.len()
            &&& action_of(after) == (if events.len() < all.len() {
                Some(all[events.len() as int])
            } else {
                None
            })
            &&& after.transaction == made_by(events)
        }),
{
    let fresh = fresh_run(edit, push_to_history);
    let file = |a: FileActionView| EditActionView::File(a);
    let all = steps_actions(operations_of(edit), push_to_history);
    assert(fresh.doing.map_values(file) =~= Seq::empty());
    assert(remaining(fresh) =~= all);
    lemma_begun(fresh);
    let run = fresh.begun();
    lemma_carried_out(run, events);
}

/// The event tells of a transaction that was made in a buffer.
pub open spec fn tells_of(event: EditEvent, buffer: EntityId) -> bool {
    event is Edited && event->buffer == buffer && event->transaction is Some
}

/// Of each buffer the last transaction that was made counts.
pub proof fn last_transaction_of_a_buffer_counts(events: Seq<EditEvent>, buffer: EntityId, i: int)
    requires
        0 <= i < events.len(),
        tells_of(events[i], buffer),
        forall|j: int| i < j < events.len() ==> !tells_of(#[trigger] events[j], buffer),
    ensures
        made_by(events).contains_key(buffer),
        Some(made_by(events)[buffer]) == events[i]->transaction,
    decreases events.len(),
{
    let head = events.drop_last();
    let n = events.len() - 1;
    if i < n {
        assert(!tells_of(events[n], buffer));
        last_transaction_of_a_buffer_counts(head, buffer, i);
    }
}

/// A buffer that nothing was changed in has no transaction.
pub proof fn unchanged_buffers_have_no_transaction(events: Seq<EditEvent>, buffer: EntityId)
    requires
        forall|j: int| 0 <= j < events.len() ==> !tells_of(#[trigger] events[j], buffer),
    ensures
        !made_by(events).contains_key(buffer),
    decreases events.len(),
{
    if events.len() > 0 {
        let n = events.len() - 1;
        assert(!tells_of(events[n], buffer));
        unchanged_buffers_have_no_transaction(events.drop_last(), buffer);
    }
}

/// A run edits exactly the documents that its steps name, and each edit goes to the history as the
/// run was told.
pub proof fn documents_are_edited_as_asked_for(left: Seq<DocumentOperation>, push_to_history: bool)
    ensures
        forall|i: int|
            0 <= i < steps_actions(left, push_to_history).len() && (#[trigger] steps_actions(
                left,
                push_to_history,
            )[i]) is Edit ==> {
                let a = steps_actions(left, push_to_history)[i];
                &&& a->push_to_history == push_to_history
                &&& left.contains(DocumentOperation::Edit(a->edit))
                &&& a->edit.document is Some
            },
    decreases left.len(),
{
    if left.len() > 0 {
        let rest = left.skip(1);
        documents_are_edited_as_asked_for(rest, push_to_history);
        let all = steps_actions(left, push_to_history);
        if let Some(now) = step_actions(left[0], push_to_history) {
            assert forall|i: int| 0 <= i < all.len() && (#[trigger] all[i]) is Edit implies {
                &&& all[i]->push_to_history == push_to_history
                &&& left.contains(DocumentOperation::Edit(all[i]->edit))
                &&& all[i]->edit.document is Some
            } by {
                if i < now.len() {
                    assert(all[i] == now[i]);
                    assert(left[0] == DocumentOperation::Edit(all[i]->edit));
                } else {
                    let k = i - now.len();
                    assert(all[i] == steps_actions(rest, push_to_history)[k]);
                    assert(rest.contains(DocumentOperation::Edit(all[i]->edit)));
                    let j = choose|j: int|
                        0 <= j < rest.len() && rest[j] == DocumentOperation::Edit(all[i]->edit);
                    assert(left[j + 1] == rest[j]);
                }
            }
        }
    }
}

/// Where all steps name files, each of them is carried out: the actions of a run are those of its
/// steps, and an edit of a document is asked for once per step.
pub proof fn every_edit_is_asked_for(left: Seq<DocumentOperation>, push_to_history: bool, i: int)
    requires
        0 <= i < left.len(),
        left[i] matches DocumentOperation::Edit(e) && e.document is Some,
        forall|j: int|
            0 <= j < i ==> match #[trigger] left[j] {
                DocumentOperation::Create { path, .. } => path is Some,
                DocumentOperation::Rename { source, target, .. } => source is Some
                    && target is Some,
                DocumentOperation::Delete { path, .. } => path is Some,
                DocumentOperation::Edit(e) => e.document is Some,
            },
    ensures
        steps_actions(left, push_to_history).contains(
            EditActionView::Edit { edit: left[i]->Edit_0, push_to_history },
        ),
    decreases left.len(),
{
    let rest = left.skip(1);
    let all = steps_actions(left, push_to_history);
    let wanted = EditActionView::Edit { edit: left[i]->Edit_0, push_to_history };
    if i == 0 {
        assert(all[0] == wanted);
    } else {
        assert forall|j: int| 0 <= j < i - 1 implies match #[trigger] rest[j] {
            DocumentOperation::Create { path, .. } => path is Some,
            DocumentOperation::Rename { source, target, .. } => source is Some && target is Some,
            DocumentOperation::Delete { path, .. } => path is Some,
            DocumentOperation::Edit(e) => e.document is Some,
        } by {
            assert(rest[j] == left[j + 1]);
        }
        every_edit_is_asked_for(rest, push_to_history, i - 1);
        assert(step_actions(left[0], push_to_history) is Some) by {
            assert(match left[0] {
                DocumentOperation::Create { path, .. } => path is Some,
                DocumentOperation::Rename { source, target, .. } => source is Some
                    && target is Some,
                DocumentOperation::Delete { path, .. } => path is Some,
                DocumentOperation::Edit(e) => e.document is Some,
            });
        }
        let now = step_actions(left[0], push_to_history)->0;
        let more = steps_actions(rest, push_to_history);
        let k = choose|k: int| 0 <= k < more.len() && more[k] == wanted;
        assert(all[now.len() + k] == wanted);
    }
}

} // verus!
