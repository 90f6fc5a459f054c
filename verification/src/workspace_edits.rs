//! Edits of several documents at once.

use crate::edits::LspEdit;
use crate::ids::EntityId;
use crate::path::{joined, parent_of, Component, Part, Path};
use crate::project::{ProjectError, ProjectTransaction};
use vstd::prelude::*;

verus! {

/// The edits of a document. The path is missing where the document is no file.
#[derive(Debug, PartialEq, Eq)]
pub struct DocumentEdit {
    pub document: Option<Path>,
    pub version: Option<i32>,
    pub edits: Vec<LspEdit>,
}

/// How a file is created or renamed where there is one already.
#[derive(Clone, Copy, Debug, PartialEq, Eq, Structural)]
pub struct OverwriteOptions {
    pub overwrite: Option<bool>,
    pub ignore_if_exists: Option<bool>,
}

/// How a file is deleted.
#[derive(Clone, Copy, Debug, PartialEq, Eq, Structural)]
pub struct DeleteOptions {
    pub recursive: Option<bool>,
    pub ignore_if_not_exists: Option<bool>,
}

/// A step of an edit of several documents.
#[allow(inconsistent_fields)]
#[derive(Debug, PartialEq, Eq)]
pub enum DocumentOperation {
    Create { path: Option<Path>, options: Option<OverwriteOptions> },
    Rename { source: Option<Path>, target: Option<Path>, options: Option<OverwriteOptions> },
    Delete { path: Option<Path>, options: Option<DeleteOptions> },
    Edit(DocumentEdit),
}

#[derive(Debug, PartialEq, Eq)]
pub enum DocumentChanges {
    Edits(Vec<DocumentEdit>),
    Operations(Vec<DocumentOperation>),
}

/// An edit of several documents, in one of the two forms that servers know.
#[derive(Debug, PartialEq, Eq)]
pub struct WorkspaceEdit {
    pub changes: Option<Vec<(Option<Path>, Vec<LspEdit>)>>,
    pub document_changes: Option<DocumentChanges>,
}

pub open spec fn edit_operation() -> spec_fn(DocumentEdit) -> DocumentOperation {
    |e: DocumentEdit| DocumentOperation::Edit(e)
}

pub open spec fn change_operation() -> spec_fn((Option<Path>, Vec<LspEdit>)) -> DocumentOperation {
    |c: (Option<Path>, Vec<LspEdit>)|
        DocumentOperation::Edit(DocumentEdit { document: c.0, version: None, edits: c.1 })
}

/// The steps of an edit. The form that knows versions counts if there is one.
pub open spec fn operations_of(edit: WorkspaceEdit) -> Seq<DocumentOperation> {
    match edit.document_changes {
        Some(DocumentChanges::Edits(edits)) => edits@.map_values(edit_operation()),
        Some(DocumentChanges::Operations(operations)) => operations@,
        None => match edit.changes {
            Some(changes) => changes@.map_values(change_operation()),
            None => Seq::empty(),
        },
    }
}

/// Takes an edit of several documents apart into its steps.
pub fn deserialize_workspace_edit(edit: WorkspaceEdit) -> (r: Vec<DocumentOperation>)
    ensures
        r@ == operations_of(edit),
        edit.document_changes matches Some(DocumentChanges::Edits(es)) ==> r@.len() == es@.len()
            && forall|i: int|
            0 <= i < es@.len() ==> #[trigger] r@[i] == DocumentOperation::Edit(es@[i]),
        edit.document_changes matches Some(DocumentChanges::Operations(os)) ==> r@ == os@,
{
    proof {
        every_change_is_a_step(edit, operations_of(edit));
    }
    let mut r: Vec<DocumentOperation> = Vec::new();
    match edit.document_changes {
        Some(DocumentChanges::Operations(operations)) => operations,
        Some(DocumentChanges::Edits(edits)) => {
            let ghost all = edits@.map_values(edit_operation());
            let ghost given = edits@;
            let mut left = edits;
            let ghost mut n: int = 0;
            assert(given.skip(0) =~= given);
            assert(all.take(0) =~= Seq::empty());
            while left.len() > 0
                invariant
                    all == given.map_values(edit_operation()),
                    0 <= n <= given.len(),
                    left@ == given.skip(n),
                    r@ == all.take(n),
                decreases left@.len(),
            {
                let first = left.remove(0);
                assert(left@ =~= given.skip(n + 1));
                r.push(DocumentOperation::Edit(first));
                assert(r@ =~= all.take(n + 1));
                proof {
                    n = n + 1;
                }
            }
            assert(r@ =~= all);
            r
        },
        None => match edit.changes {
            None => r,
            Some(changes) => {
                let ghost all = changes@.map_values(change_operation());
                let ghost given = changes@;
                let mut left = changes;
                let ghost mut n: int = 0;
                assert(given.skip(0) =~= given);
                assert(all.take(0) =~= Seq::empty());
                while left.len() > 0
                    invariant
                        all == given.map_values(change_operation()),
                        0 <= n <= given.len(),
                        left@ == given.skip(n),
                        r@ == all.take(n),
                    decreases left@.len(),
                {
                    let (document, edits) = left.remove(0);
                    assert(left@ =~= given.skip(n + 1));
                    r.push(
                        DocumentOperation::Edit(DocumentEdit { document, version: None, edits }),
                    );
                    assert(r@ =~= all.take(n + 1));
                    proof {
                        n = n + 1;
                    }
                }
                assert(r@ =~= all);
                r
            },
        },
    }
}

/// What is done in the file system.
#[allow(inconsistent_fields)]
#[derive(Debug, PartialEq, Eq)]
pub enum FileAction {
    CreateDir { path: Path },
    CreateFile { path: Path, overwrite: bool, ignore_if_exists: bool },
    Rename { source: Path, target: Path, overwrite: bool, ignore_if_exists: bool },
    RemoveDir { path: Path, recursive: bool, ignore_if_not_exists: bool },
    RemoveFile { path: Path, recursive: bool, ignore_if_not_exists: bool },
}

/// What an action in the file system stands for.
#[allow(inconsistent_fields)]
pub enum FileActionView {
    CreateDir { path: Seq<Part> },
    CreateFile { path: Seq<Part>, overwrite: bool, ignore_if_exists: bool },
    Rename { source: Seq<Part>, target: Seq<Part>, overwrite: bool, ignore_if_exists: bool },
    RemoveDir { path: Seq<Part>, recursive: bool, ignore_if_not_exists: bool },
    RemoveFile { path: Seq<Part>, recursive: bool, ignore_if_not_exists: bool },
}

impl View for FileAction {
    type V = FileActionView;

    open spec fn view(&self) -> FileActionView {
        match *self {
            FileAction::CreateDir { path } => FileActionView::CreateDir { path: path@ },
            FileAction::CreateFile { path, overwrite, ignore_if_exists } => {
                FileActionView::CreateFile { path: path@, overwrite, ignore_if_exists }
            },
            FileAction::Rename { source, target, overwrite, ignore_if_exists } => {
                FileActionView::Rename {
                    source: source@,
                    target: target@,
                    overwrite,
                    ignore_if_exists,
                }
            },
            FileAction::RemoveDir { path, recursive, ignore_if_not_exists } => {
                FileActionView::RemoveDir { path: path@, recursive, ignore_if_not_exists }
            },
            FileAction::RemoveFile { path, recursive, ignore_if_not_exists } => {
                FileActionView::RemoveFile { path: path@, recursive, ignore_if_not_exists }
            },
        }
    }
}

pub open spec fn action_views(actions: Seq<FileAction>) -> Seq<FileActionView> {
    actions.map_values(|a: FileAction| a@)
}

/// A flag that is off unless it is set.
pub open spec fn is_set(flag: Option<bool>) -> bool {
    flag == Some(true)
}

fn flag_is_set(flag: Option<bool>) -> (r: bool)
    ensures
        r == is_set(flag),
{
    match flag {
        Some(b) => b,
        None => false,
    }
}

pub open spec fn overwrites(options: Option<OverwriteOptions>) -> (bool, bool) {
    match options {
        Some(o) => (is_set(o.overwrite), is_set(o.ignore_if_exists)),
        None => (false, false),
    }
}

fn overwrite_flags(options: Option<OverwriteOptions>) -> (r: (bool, bool))
    ensures
        r == overwrites(options),
{
    match options {
        Some(o) => (flag_is_set(o.overwrite), flag_is_set(o.ignore_if_exists)),
        None => (false, false),
    }
}

/// The path is that of the root directory.
pub open spec fn is_root(path: Seq<Part>) -> bool {
    seq![Part::Root].is_suffix_of(path)
}

/// What a step does in the file system, or nothing where it names what is no file.
pub open spec fn actions_of(operation: DocumentOperation) -> Option<Seq<FileActionView>> {
    match operation {
        DocumentOperation::Create { path: Some(p), options } => {
            let flags = overwrites(options);
            Some(
                (match parent_of(p@) {
                    Some(parent) => seq![FileActionView::CreateDir { path: parent }],
                    None => Seq::empty(),
                }).push(
                    if is_root(p@) {
                        FileActionView::CreateDir { path: p@ }
                    } else {
                        FileActionView::CreateFile {
                            path: p@,
                            overwrite: flags.0,
                            ignore_if_exists: flags.1,
                        }
                    },
                ),
            )
        },
        DocumentOperation::Rename { source: Some(s), target: Some(t), options } => {
            let flags = overwrites(options);
            Some(
                seq![
                    FileActionView::Rename {
                        source: s@,
                        target: t@,
                        overwrite: flags.0,
                        ignore_if_exists: flags.1,
                    },
                ],
            )
        },
        DocumentOperation::Delete { path: Some(p), options } => {
            let (recursive, ignore) = match options {
                Some(o) => (is_set(o.recursive), is_set(o.ignore_if_not_exists)),
                None => (false, false),
            };
            Some(
                seq![
                    if is_root(p@) {
                        FileActionView::RemoveDir {
                            path: p@,
                            recursive,
                            ignore_if_not_exists: ignore,
                        }
                    } else {
                        FileActionView::RemoveFile {
                            path: p@,
                            recursive,
                            ignore_if_not_exists: ignore,
                        }
                    },
                ],
            )
        },
        DocumentOperation::Edit(_) => Some(Seq::empty()),
        _ => None,
    }
}

fn ends_with_root(path: &Path) -> (r: bool)
    ensures
        r == is_root(path@),
{
    let mut components: Vec<Component> = Vec::new();
    components.push(Component::RootDir);
    let ghost parts = crate::path::parts_of(components@);
    let root = Path::from_components(components);
    proof {
        assert(parts =~= seq![Part::Root]);
        assert(parts.drop_last() =~= Seq::<Part>::empty());
        reveal_with_fuel(joined, 2);
        assert(root@ =~= seq![Part::Root]);
    }
    path.ends_with(&root)
}

/// What a step of an edit does in the file system.
pub fn file_actions(operation: &DocumentOperation) -> (r: Result<Vec<FileAction>, ProjectError>)
    ensures
        match r {
            Ok(actions) => actions_of(*operation) == Some(action_views(actions@)),
            Err(e) => actions_of(*operation) is None && e == ProjectError::UriIsNotAFile,
        },
{
    let mut actions: Vec<FileAction> = Vec::new();
    assert(action_views(actions@) =~= Seq::empty());
    match operation {
        DocumentOperation::Create { path: Some(path), options } => {
            let (overwrite, ignore_if_exists) = overwrite_flags(*options);
            if let Some(parent) = path.parent() {
                actions.push(FileAction::CreateDir { path: parent });
            }
            if ends_with_root(path) {
                actions.push(FileAction::CreateDir { path: path.clone() });
            } else {
                actions.push(
                    FileAction::CreateFile { path: path.clone(), overwrite, ignore_if_exists },
                );
            }
            assert(action_views(actions@) =~= actions_of(*operation)->0);
            Ok(actions)
        },
        DocumentOperation::Rename { source: Some(source), target: Some(target), options } => {
            let (overwrite, ignore_if_exists) = overwrite_flags(*options);
            actions.push(
                FileAction::Rename {
                    source: source.clone(),
                    target: target.clone(),
                    overwrite,
                    ignore_if_exists,
                },
            );
            assert(action_views(actions@) =~= actions_of(*operation)->0);
            Ok(actions)
        },
        DocumentOperation::Delete { path: Some(path), options } => {
            let (recursive, ignore_if_not_exists) = match options {
                Some(o) => (flag_is_set(o.recursive), flag_is_set(o.ignore_if_not_exists)),
                None => (false, false),
            };
            if ends_with_root(path) {
                actions.push(
                    FileAction::RemoveDir { path: path.clone(), recursive, ignore_if_not_exists },
                );
            } else {
                actions.push(
                    FileAction::RemoveFile { path: path.clone(), recursive, ignore_if_not_exists },
                );
            }
            assert(action_views(actions@) =~= actions_of(*operation)->0);
            Ok(actions)
        },
        DocumentOperation::Edit(_) => Ok(actions),
        _ => Err(ProjectError::UriIsNotAFile),
    }
}

/// What becomes of a transaction that edits have made in a buffer, if they have changed anything.
#[derive(Clone, Copy, Debug, PartialEq, Eq, Structural)]
pub struct EditOutcome {
    pub transaction: Option<u64>,
    /// The buffer's history is not to know of the transaction.
    pub is_forgotten: bool,
}

/// Decides what becomes of the transaction that edits have made in a buffer.
pub fn deserialize_edits(transaction: Option<u64>, push_to_history: bool) -> (r: EditOutcome)
    ensures
        r.transaction == transaction,
        r.is_forgotten == (transaction is Some && !push_to_history),
{
    EditOutcome { transaction, is_forgotten: transaction.is_some() && !push_to_history }
}

impl ProjectTransaction {
    /// Notes the transaction that a step has made in a buffer, if it has changed anything there.
    pub fn enter(&mut self, buffer: EntityId, transaction: Option<u64>)
        ensures
            final(self).0@ == (match transaction {
                Some(t) => old(self).0@.insert(buffer, t),
                None => old(self).0@,
            }),
    {
        if let Some(t) = transaction {
            self.0.insert(buffer, t);
        }
    }
}

/// No change of an edit is lost, made up or put in another place: each edit of a document is one
/// step, in the order of the edit, and so is each operation. The form without versions counts only
/// where the other one is missing.
pub proof fn every_change_is_a_step(edit: WorkspaceEdit, steps: Seq<DocumentOperation>)
    requires
        steps == operations_of(edit),
    ensures
        edit.document_changes matches Some(DocumentChanges::Edits(es)) ==> steps.len() == es@.len()
            && forall|i: int|
            0 <= i < es@.len() ==> #[trigger] steps[i] == DocumentOperation::Edit(es@[i]),
        edit.document_changes matches Some(DocumentChanges::Operations(os)) ==> steps == os@,
        edit.document_changes is None ==> (edit.changes matches Some(cs) ==> steps.len()
            == cs@.len() && forall|i: int|
            0 <= i < cs@.len() ==> (#[trigger] steps[i] matches DocumentOperation::Edit(e)
                && e.document == cs@[i].0 && e.version is None && e.edits == cs@[i].1)),
        edit.document_changes is None && edit.changes is None ==> steps.len() == 0,
{
}

/// A created file is created last and under its own path, after the directory that it lies in. It
/// overwrites another one, or gives way to it, exactly if the options say so.
pub proof fn file_is_created_where_it_belongs(
    path: Path,
    options: Option<OverwriteOptions>,
    actions: Seq<FileActionView>,
)
    requires
        actions_of(DocumentOperation::Create { path: Some(path), options }) == Some(actions),
    ensures
        actions.len() > 0,
        path@.len() > 0 && path@.last() is Normal ==> {
            &&& actions.len() == 2
            &&& actions[0] == (FileActionView::CreateDir { path: path@.drop_last() })
            &&& actions[1] matches FileActionView::CreateFile { path: p, overwrite, ignore_if_exists }
                && p == path@
                && overwrite == (options is Some && options->0.overwrite == Some(true))
                && ignore_if_exists == (options is Some && options->0.ignore_if_exists == Some(
                true,
            ))
        },
        path@ == seq![Part::Root] ==> actions == seq![FileActionView::CreateDir { path: path@ }],
{
    if path@.len() > 0 && path@.last() is Normal {
        if is_root(path@) {
            assert(path@.last() == seq![Part::Root].last());
        }
    }
    if path@ == seq![Part::Root] {
        assert(path@.last() is Root);
        assert(path@.subrange(0, 1) =~= seq![Part::Root]);
        assert(is_root(path@));
        assert(Seq::<FileActionView>::empty().push(FileActionView::CreateDir { path: path@ })
            =~= seq![FileActionView::CreateDir { path: path@ }]);
    }
}

/// A rename is one action: it leads from the source to the target, and the options decide what
/// becomes of a file that is there already.
pub proof fn rename_leads_from_source_to_target(
    source: Path,
    target: Path,
    options: Option<OverwriteOptions>,
    actions: Seq<FileActionView>,
)
    requires
        actions_of(
            DocumentOperation::Rename { source: Some(source), target: Some(target), options },
        ) == Some(actions),
    ensures
        actions.len() == 1,
        actions[0] matches FileActionView::Rename {
            source: from,
            target: to,
            overwrite,
            ignore_if_exists,
        } && from == source@ && to == target@
            && overwrite == (options is Some && options->0.overwrite == Some(true))
            && ignore_if_exists == (options is Some && options->0.ignore_if_exists == Some(true)),
{
}

/// A deletion takes away the path that it names, and nothing else. Whether directories are emptied
/// and whether a missing file matters is what the options say.
pub proof fn deletion_takes_away_its_path(
    path: Path,
    options: Option<DeleteOptions>,
    actions: Seq<FileActionView>,
)
    requires
        actions_of(DocumentOperation::Delete { path: Some(path), options }) == Some(actions),
    ensures
        actions.len() == 1,
        path@.len() > 0 && path@.last() is Normal ==> (actions[0] matches FileActionView::RemoveFile {
            path: p,
            recursive,
            ignore_if_not_exists,
        } && p == path@ && recursive == (options is Some && options->0.recursive == Some(true))
            && ignore_if_not_exists == (options is Some && options->0.ignore_if_not_exists == Some(
            true,
        ))),
        path@ == seq![Part::Root] ==> (actions[0] matches FileActionView::RemoveDir {
            path: p,
            recursive,
            ..
        } && p == path@ && recursive == (options is Some && options->0.recursive == Some(true))),
{
    if path@.len() > 0 && path@.last() is Normal {
        if is_root(path@) {
            assert(path@.last() == seq![Part::Root].last());
        }
    }
    if path@ == seq![Part::Root] {
        assert(path@.subrange(0, 1) =~= seq![Part::Root]);
        assert(is_root(path@));
    }
}

/// A step is refused exactly if it names what is no file; edits do nothing in the file system.
pub proof fn only_files_can_be_worked_on(operation: DocumentOperation)
    ensures
        (actions_of(operation) is None) == (match operation {
            DocumentOperation::Create { path, .. } => path is None,
            DocumentOperation::Rename { source, target, .. } => source is None || target is None,
            DocumentOperation::Delete { path, .. } => path is None,
            DocumentOperation::Edit(_) => false,
        }),
        operation is Edit ==> actions_of(operation)->0.len() == 0,
{
}

} // verus!
