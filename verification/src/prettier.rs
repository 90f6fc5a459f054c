//! Finding, starting and installing prettier.

use crate::effects::{Effect, Event};
use crate::ids::{LanguageServerId, LanguageServerName, WorktreeId};
use crate::map::SortedSet;
use crate::model::{
    AppContext, Buffer, Formatter, Language, LanguageServer, LanguageSettings, LspAdapter,
};
use crate::order::same;
use crate::path::{path_text, Part, Path};
use crate::project::{DefaultPrettier, Project, ProjectError};
use std::sync::Arc;
use vstd::prelude::*;

verus! {

/// Where prettier is looked for.
#[derive(Debug)]
pub struct LocateStart {
    pub worktree_root_path: Path,
    pub starting_path: Path,
}

/// Whether there is a prettier for a buffer.
#[derive(Debug)]
pub enum PrettierLookup {
    /// There is none.
    Nobody,
    /// One is to be looked for, from the given place on, and used for the worktree.
    Locate { start: Option<LocateStart>, worktree_id: Option<WorktreeId> },
}

/// The place that the prettier of a buffer is looked for, if the buffer has a file.
pub open spec fn start_of(cx: AppContext, buffer: Buffer) -> Option<LocateStart> {
    match buffer.file {
        Some(file) => match cx.live_worktree(file.worktree) {
            Some(w) => Some(
                LocateStart { worktree_root_path: w.abs_path, starting_path: file.path },
            ),
            None => None,
        },
        None => None,
    }
}

/// The prettier for a buffer can be one that runs here.
pub open spec fn runs_here(project: Project, cx: AppContext, buffer: Buffer) -> bool {
    !project.is_guest() || start_of(cx, buffer) is None
}

/// The worktree of a buffer's file.
pub open spec fn worktree_of_buffer(buffer: Buffer) -> Option<WorktreeId> {
    match buffer.file {
        Some(file) => Some(file.worktree_id),
        None => None,
    }
}

impl Project {
    /// Finds out whether there can be a prettier for a buffer.
    pub fn prettier_instance_for_buffer(&self, buffer: &Buffer, cx: &AppContext) -> (r: Result<
        PrettierLookup,
        ProjectError,
    >)
        ensures
            match buffer.language {
                Some(language) if language.prettier_parser_name is Some => {
                    if runs_here(*self, *cx, *buffer) {
                        r == Ok::<PrettierLookup, ProjectError>(
                            if self.has_node {
                                PrettierLookup::Locate {
                                    start: start_of(*cx, *buffer),
                                    worktree_id: worktree_of_buffer(*buffer),
                                }
                            } else {
                                PrettierLookup::Nobody
                            },
                        )
                    } else if self.remote_id_of() is Some {
                        r == Ok::<PrettierLookup, ProjectError>(PrettierLookup::Nobody)
                    } else {
                        r == Err::<PrettierLookup, ProjectError>(ProjectError::ProjectNotShared)
                    }
                },
                _ => r == Ok::<PrettierLookup, ProjectError>(PrettierLookup::Nobody),
            },
    {
        match &buffer.language {
            Some(language) => {
                if language.prettier_parser_name.is_none() {
                    return Ok(PrettierLookup::Nobody);
                }
            },
            None => return Ok(PrettierLookup::Nobody),
        }
        let worktree_id = match &buffer.file {
            Some(file) => Some(file.worktree_id),
            None => None,
        };
        let start = match &buffer.file {
            Some(file) => match cx.worktree(file.worktree) {
                Some(w) => Some(
                    LocateStart {
                        worktree_root_path: w.abs_path.clone(),
                        starting_path: file.path.clone(),
                    },
                ),
                None => None,
            },
            None => None,
        };
        if self.is_local() || start.is_none() {
            if self.has_node {
                Ok(PrettierLookup::Locate { start, worktree_id })
            } else {
                Ok(PrettierLookup::Nobody)
            }
        } else if self.remote_id().is_some() {
            Ok(PrettierLookup::Nobody)
        } else {
            Err(ProjectError::ProjectNotShared)
        }
    }

    /// Notes that a prettier is used for a worktree, and tells whether it has to be started.
    pub fn use_prettier(&mut self, worktree_id: Option<WorktreeId>, directory: Path) -> (r: bool)
        ensures
            r == !old(self).prettier_instances@.contains((worktree_id, directory@)),
            final(self).prettier_instances@ == old(self).prettier_instances@.insert(
                (worktree_id, directory@),
            ),
            *final(self) == (Project {
                prettier_instances: final(self).prettier_instances,
                ..*old(self)
            }),
    {
        self.prettier_instances.insert((worktree_id, directory))
    }
}

/// What is shown of the directory of a prettier: its name where it is the worktree's own, and
/// its path below the worktree where it lies there.
pub open spec fn shown_directory(directory: Seq<Part>, worktree: Option<Seq<Part>>) -> Seq<char> {
    match worktree {
        Some(w) => if w == directory {
            match directory.last() {
                Part::Normal(name) if directory.len() > 0 => name,
                _ => Seq::empty(),
            }
        } else if w.is_prefix_of(directory) {
            path_text(directory.skip(w.len() as int))
        } else {
            path_text(directory)
        },
        None => path_text(directory),
    }
}

/// The name under which a prettier is known as a server.
pub fn prettier_name(is_default: bool, directory: &Path, worktree: Option<&Path>) -> (r:
    LanguageServerName)
    ensures
        r@ == (if is_default {
            "prettier (default)"@
        } else {
            "prettier ("@ + shown_directory(
                directory@,
                match worktree {
                    Some(w) => Some(w@),
                    None => None,
                },
            ) + ")"@
        }),
{
    if is_default {
        return LanguageServerName("prettier (default)".to_owned());
    }
    let shown: String = match worktree {
        Some(w) => {
            if same(w, directory) {
                match directory.file_name() {
                    Some(name) => name,
                    None => {
                        proof {
                            reveal_strlit("");
                        }
                        let empty = String::new();
                        assert(empty@ =~= Seq::<char>::empty());
                        empty
                    },
                }
            } else {
                match directory.strip_prefix(w) {
                    Some(rest) => rest.to_text(),
                    None => directory.to_text(),
                }
            }
        },
        None => directory.to_text(),
    };
    let mut name = "prettier (".to_owned();
    name.append(shown.as_str());
    name.append(")");
    LanguageServerName(name)
}

impl Project {
    /// Adds a server that works for the project beside the servers of its languages.
    pub fn add_supplementary_server(
        &mut self,
        server_id: LanguageServerId,
        name: LanguageServerName,
        server: Arc<LanguageServer>,
        out: &mut Vec<Effect>,
    )
        ensures
            final(self).supplementary_language_servers@ == old(
                self,
            ).supplementary_language_servers@.insert(server_id, (name, server)),
            final(out)@ == old(out)@.push(Effect::Emit(Event::LanguageServerAdded(server_id))),
            *final(self) == (Project {
                supplementary_language_servers: final(self).supplementary_language_servers,
                ..*old(self)
            }),
    {
        self.supplementary_language_servers.insert(server_id, (name, server));
        out.push(Effect::Emit(Event::LanguageServerAdded(server_id)));
    }

    /// Copilot's server has started. A server that is known already, whose log is being listened
    /// to, is not added again.
    pub fn copilot_server_started(
        &mut self,
        name: LanguageServerName,
        server: Arc<LanguageServer>,
        is_listened_to: bool,
        out: &mut Vec<Effect>,
    )
        ensures
            if is_listened_to {
                *final(self) == *old(self) && final(out)@ == old(out)@
            } else {
                &&& final(self).supplementary_language_servers@ == old(
                    self,
                ).supplementary_language_servers@.insert(server.server_id, (name, server))
                &&& final(self).has_copilot_log_subscription
                &&& final(out)@ == old(out)@.push(
                    Effect::Emit(Event::LanguageServerAdded(server.server_id)),
                )
                &&& *final(self) == (Project {
                    supplementary_language_servers: final(self).supplementary_language_servers,
                    has_copilot_log_subscription: true,
                    ..*old(self)
                })
            },
    {
        if !is_listened_to {
            let id = server.server_id;
            self.has_copilot_log_subscription = true;
            self.add_supplementary_server(id, name, server, out);
        }
    }

    /// Copilot's server has logged a message.
    pub fn copilot_logged(
        &self,
        server_id: LanguageServerId,
        message: String,
        out: &mut Vec<Effect>,
    )
        ensures
            final(out)@ == old(out)@.push(
                Effect::Emit(Event::LanguageServerLog(server_id, message)),
            ),
    {
        out.push(Effect::Emit(Event::LanguageServerLog(server_id, message)));
    }
}

/// The plugins that the first `n` adapters want.
pub open spec fn wanted_plugins(adapters: Seq<Arc<LspAdapter>>, n: int) -> Set<Seq<char>>
    decreases n,
{
    if n <= 0 {
        Set::empty()
    } else {
        plugins_added(
            wanted_plugins(adapters, n - 1),
            adapters[n - 1].prettier_plugins@,
            adapters[n - 1].prettier_plugins@.len() as int,
        )
    }
}

/// A set of plugins with the first `n` of a list.
pub open spec fn plugins_added(plugins: Set<Seq<char>>, list: Seq<String>, n: int) -> Set<Seq<char>>
    decreases n,
{
    if n <= 0 {
        plugins
    } else {
        plugins_added(plugins, list, n - 1).insert(list[n - 1]@)
    }
}

/// The plugins that are installed for the default prettier.
pub open spec fn installed(project: Project) -> Set<Seq<char>> {
    match project.default_prettier {
        Some(p) => p.installed_plugins@,
        None => Set::empty(),
    }
}

/// The installation that a language needs.
#[derive(Debug)]
pub struct Installation {
    pub plugins: SortedSet<String>,
    /// Another installation runs, which has to end first.
    pub waits: bool,
    /// The default prettier runs for the worktree.
    pub is_running: bool,
}

/// The language is formatted with prettier, and prettier can be installed for it.
pub open spec fn needs_prettier(project: Project, language: Language, settings: LanguageSettings) -> bool {
    &&& settings.formatter is Prettier || settings.formatter is Auto
    &&& project.has_node
    &&& language.prettier_parser_name is Some
}

fn collect_plugins(language: &Language) -> (r: SortedSet<String>)
    ensures
        r@ == wanted_plugins(language.lsp_adapters@, language.lsp_adapters@.len() as int),
{
    let mut r: SortedSet<String> = SortedSet::new();
    for i in 0..language.lsp_adapters.len()
        invariant
            r@ == wanted_plugins(language.lsp_adapters@, i as int),
    {
        let adapter = &language.lsp_adapters[i];
        let ghost before = r@;
        for j in 0..adapter.prettier_plugins.len()
            invariant
                r@ == plugins_added(before, adapter.prettier_plugins@, j as int),
        {
            r.insert(adapter.prettier_plugins[j].clone());
        }
    }
    r
}

/// The plugins that are not installed.
fn without_installed(plugins: &SortedSet<String>, installed: &SortedSet<String>) -> (r: SortedSet<
    String,
>)
    ensures
        r@ == plugins@.difference(installed@),
{
    let mut r: SortedSet<String> = SortedSet::new();
    let n: usize = plugins.len();
    let ghost items = plugins.items();
    for i in 0..n
        invariant
            n == items.len(),
            items == plugins.items(),
            crate::map::lists(items, plugins@),
            forall|p: Seq<char>| #[trigger]
                r@.contains(p) == (!installed@.contains(p) && is_among(items, i as int, p)),
    {
        let ghost before = r@;
        let plugin = plugins.item(i);
        if !installed.contains(plugin) {
            r.insert(plugin.clone());
        }
        assert forall|p: Seq<char>| #[trigger]
            r@.contains(p) == (!installed@.contains(p) && is_among(items, i + 1, p)) by {
            assert(before.contains(p) == (!installed@.contains(p) && is_among(
                items,
                i as int,
                p,
            )));
            lemma_among_step(items, i as int, p);
        }
    }
    assert forall|p: Seq<char>| #[trigger]
        r@.contains(p) == plugins@.difference(installed@).contains(p) by {
        if plugins@.contains(p) {
            assert(crate::map::has_key(items, p));
            let i = choose|i: int|
                0 <= i < items.len() && crate::order::Key::key(#[trigger] items[i]) == p;
            assert(items[i]@ == p);
        }
        if is_among(items, n as int, p) {
            let i = choose|i: int| 0 <= i < n && (#[trigger] items[i])@ == p;
            assert(plugins@.contains(crate::order::Key::key(items[i])));
        }
    }
    assert(r@ =~= plugins@.difference(installed@));
    r
}

spec fn is_among(items: Seq<String>, n: int, p: Seq<char>) -> bool {
    exists|i: int| 0 <= i < n && (#[trigger] items[i])@ == p
}

proof fn lemma_among_step(items: Seq<String>, n: int, p: Seq<char>)
    requires
        0 <= n < items.len(),
    ensures
        is_among(items, n + 1, p) == (is_among(items, n, p) || items[n]@ == p),
{
    if is_among(items, n + 1, p) {
        let i = choose|i: int| 0 <= i < n + 1 && (#[trigger] items[i])@ == p;
        if i < n {
            assert(items[i]@ == p);
        }
    }
    if is_among(items, n, p) {
        let i = choose|i: int| 0 <= i < n && (#[trigger] items[i])@ == p;
        assert(items[i]@ == p);
    }
    if items[n]@ == p {
        assert(items[n]@ == p);
    }
}

impl Project {
    /// Finds out what has to be installed for a language, and begins to. Nothing is, where the
    /// language is formatted otherwise, or where all its plugins have been installed.
    pub fn install_default_formatters(
        &mut self,
        worktree_id: Option<WorktreeId>,
        language: &Language,
        settings: &LanguageSettings,
        default_directory: &Path,
    ) -> (r: Option<Installation>)
        ensures
            ({
                let wanted = wanted_plugins(
                    language.lsp_adapters@,
                    language.lsp_adapters@.len() as int,
                );
                let missing = wanted.difference(installed(*old(self)));
                let idle = !needs_prettier(*old(self), *language, *settings) || (old(
                    self,
                ).default_prettier is Some && missing == Set::<Seq<char>>::empty());
                match r {
                    None => idle && *final(self) == *old(self),
                    Some(i) => {
                        &&& !idle
                        &&& i.plugins@ == missing
                        &&& i.is_running == old(self).prettier_instances@.contains(
                            (worktree_id, default_directory@),
                        )
                        &&& match old(self).default_prettier {
                            Some(p) => {
                                &&& i.waits == p.is_installing
                                &&& final(self).default_prettier is Some
                                &&& final(self).default_prettier->0.is_installing
                                &&& installed(*final(self)) == installed(*old(self))
                            },
                            None => !i.waits && final(self).default_prettier is None,
                        }
                    },
                }
            }),
            *final(self) == (Project {
                default_prettier: final(self).default_prettier,
                ..*old(self)
            }),
    {
        let with_prettier = match settings.formatter {
            Formatter::Prettier => true,
            Formatter::Auto => true,
            _ => false,
        };
        if !with_prettier || !self.has_node || language.prettier_parser_name.is_none() {
            return None;
        }
        let plugins = collect_plugins(language);
        let key = (worktree_id, default_directory.clone());
        let is_running = self.prettier_instances.contains(&key);
        match self.default_prettier.take() {
            Some(p) => {
                let missing = without_installed(&plugins, &p.installed_plugins);
                if missing.is_empty() {
                    self.default_prettier = Some(p);
                    return None;
                }
                let waits = p.is_installing;
                self.default_prettier = Some(
                    DefaultPrettier {
                        is_installing: true,
                        installed_plugins: p.installed_plugins,
                    },
                );
                Some(Installation { plugins: missing, waits, is_running })
            },
            None => {
                assert(plugins@.difference(Set::empty()) =~= plugins@);
                Some(Installation { plugins, waits: false, is_running })
            },
        }
    }

    /// Goes on with an installation once an earlier one has ended. What that has installed is left
    /// out, and `None` says that nothing is left to do.
    pub fn continue_installation(&mut self, plugins: SortedSet<String>) -> (r: Option<
        SortedSet<String>,
    >)
        ensures
            match old(self).default_prettier {
                Some(_) => {
                    let missing = plugins@.difference(installed(*old(self)));
                    &&& *final(self) == *old(self)
                    &&& match r {
                        Some(p) => p@ == missing && missing != Set::<Seq<char>>::empty(),
                        None => missing == Set::<Seq<char>>::empty(),
                    }
                },
                None => {
                    &&& r is Some && r->0@ == plugins@
                    &&& final(self).default_prettier is Some
                    &&& final(self).default_prettier->0.is_installing
                    &&& installed(*final(self)) == Set::<Seq<char>>::empty()
                },
            },
            *final(self) == (Project {
                default_prettier: final(self).default_prettier,
                ..*old(self)
            }),
    {
        match &self.default_prettier {
            Some(p) => {
                let missing = without_installed(&plugins, &p.installed_plugins);
                if missing.is_empty() {
                    None
                } else {
                    Some(missing)
                }
            },
            None => {
                self.default_prettier = Some(
                    DefaultPrettier { is_installing: true, installed_plugins: SortedSet::new() },
                );
                Some(plugins)
            },
        }
    }

    /// Notes that plugins have been installed.
    pub fn finish_installation(&mut self, plugins: SortedSet<String>)
        ensures
            final(self).default_prettier is Some,
            final(self).default_prettier->0.is_installing == (match old(self).default_prettier {
                Some(p) => p.is_installing,
                None => false,
            }),
            installed(*final(self)) == installed(*old(self)).union(plugins@),
            *final(self) == (Project {
                default_prettier: final(self).default_prettier,
                ..*old(self)
            }),
    {
        let (is_installing, mut all) = match self.default_prettier.take() {
            Some(p) => (p.is_installing, p.installed_plugins),
            None => (false, SortedSet::new()),
        };
        let ghost before = all@;
        let n: usize = plugins.len();
        let ghost items = plugins.items();
        for i in 0..n
            invariant
                n == items.len(),
                items == plugins.items(),
                crate::map::lists(items, plugins@),
                forall|p: Seq<char>| #[trigger]
                    all@.contains(p) == (before.contains(p) || is_among(items, i as int, p)),
        {
            let ghost mid = all@;
            all.insert(plugins.item(i).clone());
            assert forall|p: Seq<char>| #[trigger]
                all@.contains(p) == (before.contains(p) || is_among(items, i + 1, p)) by {
                assert(mid.contains(p) == (before.contains(p) || is_among(items, i as int, p)));
                lemma_among_step(items, i as int, p);
            }
        }
        assert forall|p: Seq<char>| #[trigger]
            all@.contains(p) == before.union(plugins@).contains(p) by {
            if plugins@.contains(p) {
                assert(crate::map::has_key(items, p));
                let i = choose|i: int|
                    0 <= i < items.len() && crate::order::Key::key(#[trigger] items[i]) == p;
                assert(items[i]@ == p);
            }
            if is_among(items, n as int, p) {
                let i = choose|i: int| 0 <= i < n && (#[trigger] items[i])@ == p;
                assert(plugins@.contains(crate::order::Key::key(items[i])));
            }
        }
        assert(all@ =~= before.union(plugins@));
        self.default_prettier = Some(DefaultPrettier { is_installing, installed_plugins: all });
    }
}

/// The packages of an installation: the plugins, and prettier itself.
pub fn packages_to_install(plugins: &SortedSet<String>) -> (r: Vec<String>)
    ensures
        r@.len() == plugins.items().len() + 1,
        forall|i: int| 0 <= i < plugins.items().len() ==> #[trigger] r@[i] == plugins.items()[i],
        r@.last()@ == "prettier"@,
{
    let mut r: Vec<String> = Vec::new();
    let n: usize = plugins.len();
    for i in 0..n
        invariant
            n == plugins.items().len(),
            r@.len() == i,
            forall|j: int| 0 <= j < i ==> #[trigger] r@[j] == plugins.items()[j],
    {
        r.push(plugins.item(i).clone());
    }
    r.push("prettier".to_owned());
    r
}

/// Tells whether a running prettier has to read its plugins again after an installation.
pub fn clears_cache(plugins: &SortedSet<String>, is_running: bool) -> (r: bool)
    ensures
        r == (plugins@ == Set::<Seq<char>>::empty() && is_running),
{
    plugins.is_empty() && is_running
}

/// Once all plugins of a language have been installed, nothing more is installed for it.
pub proof fn installed_plugins_are_not_missing(before: Set<Seq<char>>, plugins: Set<Seq<char>>)
    ensures
        plugins.difference(before.union(plugins.difference(before))) == Set::<Seq<char>>::empty(),
{
    assert(plugins.difference(before.union(plugins.difference(before))) =~= Set::<
        Seq<char>,
    >::empty());
}

/// Prettier is looked for from the file of a buffer on, below the root of its worktree. A buffer
/// without a file, or whose worktree is gone, has no such place.
pub proof fn prettier_is_looked_for_at_the_file(cx: AppContext, buffer: Buffer)
    ensures
        buffer.file is None ==> start_of(cx, buffer) is None,
        buffer.file is Some && cx.live_worktree(buffer.file->0.worktree) is None ==> start_of(
            cx,
            buffer,
        ) is None,
        buffer.file is Some && cx.live_worktree(buffer.file->0.worktree) is Some ==> {
            let start = start_of(cx, buffer);
            &&& start is Some
            &&& start->0.worktree_root_path == cx.live_worktree(
                buffer.file->0.worktree,
            )->0.abs_path
            &&& start->0.starting_path == buffer.file->0.path
        },
        buffer.file is Some ==> worktree_of_buffer(buffer) == Some(buffer.file->0.worktree_id),
        buffer.file is None ==> worktree_of_buffer(buffer) is None,
{
}

/// A host runs prettier here. A guest does only for a buffer that lies in no worktree of the host.
pub proof fn guests_leave_prettier_to_the_host(project: Project, cx: AppContext, buffer: Buffer)
    ensures
        !project.is_guest() ==> runs_here(project, cx, buffer),
        project.is_guest() && start_of(cx, buffer) is Some ==> !runs_here(project, cx, buffer),
        project.is_guest() && start_of(cx, buffer) is None ==> runs_here(project, cx, buffer),
{
}

/// The prettier of a worktree is shown by the name of its directory. One below the worktree is shown
/// by its path from there, and any other one by its whole path.
pub proof fn prettiers_are_shown_by_their_place(root: Seq<Part>, tail: Seq<Part>, name: Seq<char>)
    ensures
        shown_directory(root.push(Part::Normal(name)), Some(root.push(Part::Normal(name)))) == name,
        tail.len() > 0 ==> shown_directory(root + tail, Some(root)) == path_text(tail),
        shown_directory(root, None) == path_text(root),
        tail.len() > 0 ==> shown_directory(root, Some(root + tail)) == path_text(root),
{
    assert(root.push(Part::Normal(name)).last() == Part::Normal(name));
    if tail.len() > 0 {
        assert((root + tail).subrange(0, root.len() as int) =~= root);
        assert(root.is_prefix_of(root + tail));
        assert((root + tail).skip(root.len() as int) =~= tail);
        assert((root + tail).len() != root.len());
        assert(root + tail != root);
        assert(!(root + tail).is_prefix_of(root));
    }
}

proof fn lemma_plugins_added(plugins: Set<Seq<char>>, list: Seq<String>, n: int, p: Seq<char>)
    requires
        n <= list.len(),
    ensures
        plugins_added(plugins, list, n).contains(p) <==> plugins.contains(p) || exists|i: int|
            0 <= i < n && (#[trigger] list[i])@ == p,
    decreases n,
{
    if n > 0 {
        lemma_plugins_added(plugins, list, n - 1, p);
        if list[n - 1]@ == p {
            assert(list[n - 1]@ == p);
        }
    }
}

/// A plugin is wanted exactly if some adapter of the language lists it.
pub proof fn listed_plugins_are_wanted(adapters: Seq<Arc<LspAdapter>>, n: int, p: Seq<char>)
    requires
        n <= adapters.len(),
    ensures
        wanted_plugins(adapters, n).contains(p) <==> exists|i: int, k: int|
            #![trigger adapters[i].prettier_plugins@[k]]
            0 <= i < n && 0 <= k < adapters[i].prettier_plugins@.len()
                && adapters[i].prettier_plugins@[k]@ == p,
    decreases n,
{
    if n > 0 {
        listed_plugins_are_wanted(adapters, n - 1, p);
        let list = adapters[n - 1].prettier_plugins@;
        lemma_plugins_added(wanted_plugins(adapters, n - 1), list, list.len() as int, p);
        if exists|k: int| 0 <= k < list.len() && (#[trigger] list[k])@ == p {
            let k = choose|k: int| 0 <= k < list.len() && (#[trigger] list[k])@ == p;
            assert(adapters[n - 1].prettier_plugins@[k]@ == p);
        }
        if exists|i: int, k: int|
            #![trigger adapters[i].prettier_plugins@[k]]
            0 <= i < n && 0 <= k < adapters[i].prettier_plugins@.len()
                && adapters[i].prettier_plugins@[k]@ == p {
            let (i, k) = choose|i: int, k: int|
                #![trigger adapters[i].prettier_plugins@[k]]
                0 <= i < n && 0 <= k < adapters[i].prettier_plugins@.len()
                    && adapters[i].prettier_plugins@[k]@ == p;
            if i == n - 1 {
                assert(list[k]@ == p);
            } else {
                assert(adapters[i].prettier_plugins@[k]@ == p);
            }
        }
    }
}

/// Prettier is installed for a language exactly if the settings ask for it, or leave the choice, the
/// tools to install it are there, and prettier knows the language.
pub proof fn prettier_is_installed_where_wanted(
    project: Project,
    language: Language,
    settings: LanguageSettings,
)
    ensures
        settings.formatter is LanguageServer || settings.formatter is External ==> !needs_prettier(
            project,
            language,
            settings,
        ),
        !project.has_node || language.prettier_parser_name is None ==> !needs_prettier(
            project,
            language,
            settings,
        ),
        (settings.formatter is Prettier || settings.formatter is Auto) && project.has_node
            && language.prettier_parser_name is Some ==> needs_prettier(
            project,
            language,
            settings,
        ),
        project.default_prettier is None ==> installed(project) == Set::<Seq<char>>::empty(),
        project.default_prettier is Some ==> installed(project)
            == project.default_prettier->0.installed_plugins@,
{
}

} // verus!
