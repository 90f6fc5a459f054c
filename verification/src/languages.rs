//! What follows from the languages of buffers and from their settings.

use crate::buffers::close_effects;
use crate::effects::{Effect, ServerNotification};
use crate::ids::{EntityId, LanguageServerId, LanguageServerName, WorktreeId};
use crate::map::SortedMap;
use crate::model::{AppContext, Buffer, Language, LanguageServer, LanguageSettings, LspAdapter};
use crate::project::{LanguageServerState, LspBufferSnapshot, OpenBuffer, Project};
use crate::seqs::{
    find_map, lemma_filter_map_step, lemma_find_map_found, lemma_find_map_none, lemma_take_all,
};
use crate::snapshots::{snapshot_map, without_buffer};
use std::sync::Arc;
use vstd::prelude::*;

verus! {

/// What has to be done after settings have changed, in this order.
#[derive(Debug)]
pub struct SettingsPlan {
    pub servers_to_stop: Vec<(WorktreeId, LanguageServerName)>,
    pub formatters_to_check: Vec<(Option<WorktreeId>, Arc<Language>, Arc<LanguageSettings>)>,
    pub servers_to_start: Vec<(EntityId, Arc<Language>)>,
    pub servers_to_restart: Vec<(EntityId, Arc<Language>)>,
}

/// The worktree and language of an open buffer whose settings ask for a server.
pub open spec fn server_wanted(cx: AppContext) -> spec_fn((u64, OpenBuffer)) -> Option<
    (EntityId, Arc<Language>),
> {
    |e: (u64, OpenBuffer)|
        match e.1.live(cx) {
            Some(b) => match (b.language, b.file) {
                (Some(language), Some(file)) if b.settings.enable_language_server => Some(
                    (file.worktree, language),
                ),
                _ => None,
            },
            None => None,
        }
}

/// The language of an open buffer, whose formatter is to be there.
pub open spec fn formatter_wanted(cx: AppContext) -> spec_fn((u64, OpenBuffer)) -> Option<
    (Option<WorktreeId>, Arc<Language>, Arc<LanguageSettings>),
> {
    |e: (u64, OpenBuffer)|
        match e.1.live(cx) {
            Some(b) => match b.language {
                Some(language) => Some(
                    (
                        match b.file {
                            Some(file) => Some(file.worktree_id),
                            None => None,
                        },
                        language,
                        b.settings,
                    ),
                ),
                None => None,
            },
            None => None,
        }
}

pub open spec fn has_adapter_named(name: Seq<char>) -> spec_fn(Arc<Language>) -> Option<
    Arc<Language>,
> {
    |l: Arc<Language>|
        if crate::registration::has_adapter(*l, name) {
            Some(l)
        } else {
            None
        }
}

/// The first language that has a server of the given name.
pub open spec fn language_of_server(languages: Seq<Arc<Language>>, name: Seq<char>) -> Option<
    Arc<Language>,
> {
    find_map(languages, has_adapter_named(name))
}

/// A server works on a worktree whose settings no longer want it.
pub open spec fn is_disabled(
    project: Project,
    cx: AppContext,
    languages: Seq<Arc<Language>>,
    key: (WorktreeId, LanguageServerName),
) -> bool {
    match language_of_server(languages, key.1@) {
        Some(language) => {
            let root = match project.worktree_of_id(cx, key.0) {
                Some(w) => w.root(),
                None => None,
            };
            !cx.settings_in(language.id, root).enable_language_server
        },
        None => false,
    }
}

/// The settings of a server differ.
pub open spec fn settings_differ(
    before: Map<Seq<char>, String>,
    after: Map<Seq<char>, String>,
    name: Seq<char>,
) -> bool {
    if before.contains_key(name) && after.contains_key(name) {
        before[name]@ != after[name]@
    } else {
        before.contains_key(name) != after.contains_key(name)
    }
}

pub open spec fn stops(project: Project, cx: AppContext, languages: Seq<Arc<Language>>) -> spec_fn(
    ((WorktreeId, LanguageServerName), LanguageServerId),
) -> Option<(WorktreeId, LanguageServerName)> {
    |e: ((WorktreeId, LanguageServerName), LanguageServerId)|
        if is_disabled(project, cx, languages, e.0) {
            Some(e.0)
        } else {
            None
        }
}

pub open spec fn restarts(
    project: Project,
    cx: AppContext,
    languages: Seq<Arc<Language>>,
    settings: Map<Seq<char>, String>,
) -> spec_fn(((WorktreeId, LanguageServerName), LanguageServerId)) -> Option<
    (EntityId, Arc<Language>),
> {
    |e: ((WorktreeId, LanguageServerName), LanguageServerId)|
        match (language_of_server(languages, e.0.1@), project.worktree_of_id(cx, e.0.0)) {
            (Some(language), Some(w)) => if !is_disabled(project, cx, languages, e.0)
                && settings_differ(project.current_lsp_settings@, settings, e.0.1@) {
                Some((w.entity_id, language))
            } else {
                None
            },
            _ => None,
        }
}

fn find_language(languages: &Vec<Arc<Language>>, name: &LanguageServerName) -> (r: Option<
    Arc<Language>,
>)
    ensures
        r == language_of_server(languages@, name@),
{
    let ghost f = has_adapter_named(name@);
    for i in 0..languages.len()
        invariant
            f == has_adapter_named(name@),
            forall|j: int| 0 <= j < i ==> f(#[trigger] languages@[j]) is None,
    {
        if crate::registration::names_adapter(&languages[i], name) {
            proof {
                lemma_find_map_found(languages@, f, i as int);
            }
            return Some(languages[i].clone());
        }
    }
    proof {
        lemma_find_map_none(languages@, f);
    }
    None
}

fn differ(before: &SortedMap<String, String>, after: &SortedMap<String, String>, name: &String) -> (r:
    bool)
    ensures
        r == settings_differ(before@, after@, name@),
{
    match (before.get(name), after.get(name)) {
        (Some(a), Some(b)) => *a != *b,
        (None, None) => false,
        _ => true,
    }
}

impl Project {
    /// Finds out what has to be done now that settings have changed. `settings` holds the new
    /// settings of each server, as JSON text.
    pub fn on_settings_changed(
        &mut self,
        languages: &Vec<Arc<Language>>,
        settings: SortedMap<String, String>,
        cx: &AppContext,
    ) -> (r: SettingsPlan)
        ensures
            r.servers_to_stop@ == old(self).language_server_ids.entries().filter_map(
                stops(*old(self), *cx, languages@),
            ),
            r.formatters_to_check@ == old(self).opened_buffers.entries().filter_map(
                formatter_wanted(*cx),
            ),
            r.servers_to_start@ == old(self).opened_buffers.entries().filter_map(
                server_wanted(*cx),
            ),
            r.servers_to_restart@ == old(self).language_server_ids.entries().filter_map(
                restarts(*old(self), *cx, languages@, settings@),
            ),
            *final(self) == (Project { current_lsp_settings: settings, ..*old(self) }),
    {
        let mut servers_to_start: Vec<(EntityId, Arc<Language>)> = Vec::new();
        let mut formatters_to_check: Vec<
            (Option<WorktreeId>, Arc<Language>, Arc<LanguageSettings>),
        > = Vec::new();
        let n: usize = self.opened_buffers.len();
        let ghost es = self.opened_buffers.entries();
        let ghost f = server_wanted(*cx);
        let ghost g = formatter_wanted(*cx);
        proof {
            lemma_take_all(es);
        }
        for i in 0..n
            invariant
                n == es.len(),
                es == self.opened_buffers.entries(),
                f == server_wanted(*cx),
                g == formatter_wanted(*cx),
                servers_to_start@ == es.take(i as int).filter_map(f),
                formatters_to_check@ == es.take(i as int).filter_map(g),
        {
            proof {
                lemma_filter_map_step(es, f, i as int);
                lemma_filter_map_step(es, g, i as int);
            }
            if let Some(b) = self.opened_buffers.value_of(i).upgrade(cx) {
                if let Some(language) = &b.language {
                    if b.settings.enable_language_server {
                        if let Some(file) = &b.file {
                            servers_to_start.push((file.worktree, language.clone()));
                        }
                    }
                    let worktree_id = match &b.file {
                        Some(file) => Some(file.worktree_id),
                        None => None,
                    };
                    formatters_to_check.push((worktree_id, language.clone(), b.settings.clone()));
                }
            }
        }
        let mut servers_to_stop: Vec<(WorktreeId, LanguageServerName)> = Vec::new();
        let mut servers_to_restart: Vec<(EntityId, Arc<Language>)> = Vec::new();
        let m: usize = self.language_server_ids.len();
        let ghost ids = self.language_server_ids.entries();
        let ghost stop = stops(*self, *cx, languages@);
        let ghost restart = restarts(*self, *cx, languages@, settings@);
        proof {
            lemma_take_all(ids);
        }
        for i in 0..m
            invariant
                *self == *old(self),
                m == ids.len(),
                ids == self.language_server_ids.entries(),
                stop == stops(*self, *cx, languages@),
                restart == restarts(*self, *cx, languages@, settings@),
                servers_to_stop@ == ids.take(i as int).filter_map(stop),
                servers_to_restart@ == ids.take(i as int).filter_map(restart),
        {
            proof {
                lemma_filter_map_step(ids, stop, i as int);
                lemma_filter_map_step(ids, restart, i as int);
            }
            let key = self.language_server_ids.key_of(i);
            if let Some(language) = find_language(languages, &key.1) {
                let worktree = self.worktree_for_id(key.0, cx);
                let root = match worktree {
                    Some(w) => w.root_file(),
                    None => None,
                };
                if !cx.language_settings(language.id, root).enable_language_server {
                    servers_to_stop.push((key.0, key.1.clone()));
                } else if let Some(w) = worktree {
                    if differ(&self.current_lsp_settings, &settings, &key.1.0) {
                        servers_to_restart.push((w.entity_id, language));
                    }
                }
            }
        }
        self.current_lsp_settings = settings;
        SettingsPlan { servers_to_stop, formatters_to_check, servers_to_start, servers_to_restart }
    }
}

pub open spec fn copilot_effect(cx: AppContext) -> spec_fn((u64, OpenBuffer)) -> Option<Effect> {
    |e: (u64, OpenBuffer)|
        match e.1.live(cx) {
            Some(b) => Some(Effect::RegisterWithCopilot(b.entity_id)),
            None => None,
        }
}

impl Project {
    /// Ends a change of settings: Copilot, if it has come to be there, hears of the open buffers.
    pub fn finish_settings_change(
        &mut self,
        has_copilot: bool,
        cx: &AppContext,
        out: &mut Vec<Effect>,
    )
        ensures
            ({
                let begins = has_copilot && !old(self).has_copilot_subscription;
                &&& final(out)@ == (if begins {
                    old(out)@ + old(self).opened_buffers.entries().filter_map(copilot_effect(*cx))
                } else {
                    old(out)@
                }).push(Effect::Notify)
                &&& *final(self) == (Project {
                    has_copilot_subscription: old(self).has_copilot_subscription || has_copilot,
                    ..*old(self)
                })
            }),
    {
        if !self.has_copilot_subscription && has_copilot {
            let n: usize = self.opened_buffers.len();
            let ghost es = self.opened_buffers.entries();
            let ghost f = copilot_effect(*cx);
            proof {
                lemma_take_all(es);
                assert(out@ + Seq::<Effect>::empty() =~= out@);
            }
            for i in 0..n
                invariant
                    *self == *old(self),
                    n == es.len(),
                    es == self.opened_buffers.entries(),
                    f == copilot_effect(*cx),
                    out@ == old(out)@ + es.take(i as int).filter_map(f),
            {
                let ghost done = es.take(i as int).filter_map(f);
                proof {
                    lemma_filter_map_step(es, f, i as int);
                }
                if let Some(b) = self.opened_buffers.value_of(i).upgrade(cx) {
                    out.push(Effect::RegisterWithCopilot(b.entity_id));
                    assert(out@ =~= old(out)@ + done.push(
                        Effect::RegisterWithCopilot(b.entity_id),
                    ));
                }
            }
            self.has_copilot_subscription = true;
        }
        out.push(Effect::Notify);
    }
}

/// What follows from the language that a buffer has got: the settings that hold for it, the
/// worktree whose prettier is used, and the local worktree whose servers are started.
#[derive(Debug)]
pub struct LanguagePlan {
    pub settings: Arc<LanguageSettings>,
    pub worktree_id: Option<WorktreeId>,
    pub start_in: Option<EntityId>,
}

pub open spec fn plan_for(cx: AppContext, buffer: Buffer, language: Language) -> LanguagePlan {
    LanguagePlan {
        settings: cx.settings_in(
            language.id,
            match buffer.file {
                Some(file) => Some(file.worktree),
                None => None,
            },
        ),
        worktree_id: match buffer.file {
            Some(file) => Some(file.worktree_id),
            None => None,
        },
        start_in: match buffer.file {
            Some(file) => match cx.live_worktree(file.worktree) {
                Some(w) if w.is_local => Some(w.entity_id),
                _ => None,
            },
            None => None,
        },
    }
}

/// A language other than the one that a buffer has.
pub open spec fn is_new_language(buffer: Buffer, language: Language) -> bool {
    match buffer.language {
        Some(l) => l.id != language.id,
        None => true,
    }
}

impl Project {
    /// Gives a buffer a language.
    pub fn set_language_for_buffer(
        &self,
        buffer: &Buffer,
        language: &Language,
        cx: &AppContext,
        out: &mut Vec<Effect>,
    ) -> (r: LanguagePlan)
        ensures
            r == plan_for(*cx, *buffer, *language),
            final(out)@ == (if is_new_language(*buffer, *language) {
                old(out)@.push(
                    Effect::SetLanguage { buffer: buffer.entity_id, language: Some(language.id) },
                )
            } else {
                old(out)@
            }),
    {
        let is_new = match &buffer.language {
            Some(l) => l.id != language.id,
            None => true,
        };
        if is_new {
            out.push(
                Effect::SetLanguage { buffer: buffer.entity_id, language: Some(language.id) },
            );
        }
        match &buffer.file {
            Some(file) => {
                let start_in = match cx.worktree(file.worktree) {
                    Some(w) => {
                        if w.is_local {
                            Some(w.entity_id)
                        } else {
                            None
                        }
                    },
                    None => None,
                };
                LanguagePlan {
                    settings: cx.language_settings(language.id, Some(file.worktree)),
                    worktree_id: Some(file.worktree_id),
                    start_in,
                }
            },
            None => LanguagePlan {
                settings: cx.language_settings(language.id, None),
                worktree_id: None,
                start_in: None,
            },
        }
    }

    /// Gives a buffer with a file the language that was found for it, if one was found.
    pub fn detect_language_for_buffer(
        &self,
        buffer: &Buffer,
        found: Option<&Arc<Language>>,
        cx: &AppContext,
        out: &mut Vec<Effect>,
    ) -> (r: Option<LanguagePlan>)
        ensures
            match (buffer.file, found) {
                (Some(_), Some(language)) => {
                    &&& r == Some(plan_for(*cx, *buffer, **language))
                    &&& final(out)@ == (if is_new_language(*buffer, **language) {
                        old(out)@.push(
                            Effect::SetLanguage {
                                buffer: buffer.entity_id,
                                language: Some(language.id),
                            },
                        )
                    } else {
                        old(out)@
                    })
                },
                _ => r is None && final(out)@ == old(out)@,
            },
    {
        if buffer.file.is_none() {
            return None;
        }
        match found {
            Some(language) => Some(self.set_language_for_buffer(buffer, language, cx, out)),
            None => None,
        }
    }
}

/// The texts that are known once the first `n` buffers have left their servers.
pub open spec fn forgotten_snapshots(
    m: Map<(u64, LanguageServerId), Seq<LspBufferSnapshot>>,
    cx: AppContext,
    es: Seq<(u64, OpenBuffer)>,
    n: int,
) -> Map<(u64, LanguageServerId), Seq<LspBufferSnapshot>>
    decreases n,
{
    if n <= 0 {
        m
    } else {
        let head = forgotten_snapshots(m, cx, es, n - 1);
        match es[n - 1].1.live(cx) {
            Some(b) => match b.file {
                Some(file) if file.is_local => without_buffer(head, b.remote_id),
                _ => head,
            },
            None => head,
        }
    }
}

/// How a buffer leaves its servers and its language.
pub open spec fn forget_effects_of(project: Project, b: Buffer) -> Seq<Effect> {
    match b.file {
        Some(file) => (if file.is_local {
            close_effects(project, b, file)
        } else {
            Seq::empty()
        }).push(Effect::SetLanguage { buffer: b.entity_id, language: None }),
        None => Seq::empty(),
    }
}

/// How the first `n` buffers leave their servers and their languages.
pub open spec fn forget_effects(project: Project, cx: AppContext, es: Seq<(u64, OpenBuffer)>, n: int) -> Seq<
    Effect,
>
    decreases n,
{
    if n <= 0 {
        Seq::empty()
    } else {
        let head = forget_effects(project, cx, es, n - 1);
        match es[n - 1].1.live(cx) {
            Some(b) => head + forget_effects_of(project, b),
            None => head,
        }
    }
}

pub open spec fn undetected(cx: AppContext) -> spec_fn((u64, OpenBuffer)) -> Option<EntityId> {
    |e: (u64, OpenBuffer)|
        match e.1.live(cx) {
            Some(b) => if b.language is None || b.is_plain_text {
                Some(b.entity_id)
            } else {
                None
            },
            None => None,
        }
}

pub open spec fn reparse_effect(cx: AppContext) -> spec_fn((u64, OpenBuffer)) -> Option<Effect> {
    |e: (u64, OpenBuffer)|
        match e.1.live(cx) {
            Some(b) => if !(b.language is None || b.is_plain_text)
                && b.contains_unknown_injections {
                Some(Effect::Reparse(b.entity_id))
            } else {
                None
            },
            None => None,
        }
}

impl Project {
    /// The languages have been loaded anew: every open file leaves its servers and its language.
    fn forget_languages(&mut self, cx: &AppContext, out: &mut Vec<Effect>)
        requires
            old(self).snapshots_ordered(),
        ensures
            final(self).snapshots_ordered(),
            ({
                let es = old(self).opened_buffers.entries();
                let n = es.len() as int;
                &&& snapshot_map(final(self).buffer_snapshots) == forgotten_snapshots(
                    snapshot_map(old(self).buffer_snapshots),
                    *cx,
                    es,
                    n,
                )
                &&& final(out)@ == old(out)@ + forget_effects(*old(self), *cx, es, n)
            }),
            *final(self) == (Project {
                buffer_snapshots: final(self).buffer_snapshots,
                ..*old(self)
            }),
    {
        let n: usize = self.opened_buffers.len();
        let ghost es = self.opened_buffers.entries();
        let ghost m = snapshot_map(self.buffer_snapshots);
        assert(out@ + Seq::<Effect>::empty() =~= out@);
        for i in 0..n
            invariant
                n == es.len(),
                es == old(self).opened_buffers.entries(),
                m == snapshot_map(old(self).buffer_snapshots),
                self.snapshots_ordered(),
                *self == (Project {
                    buffer_snapshots: self.buffer_snapshots,
                    ..*old(self)
                }),
                snapshot_map(self.buffer_snapshots) == forgotten_snapshots(m, *cx, es, i as int),
                out@ == old(out)@ + forget_effects(*old(self), *cx, es, i as int),
        {
            let ghost done = forget_effects(*old(self), *cx, es, i as int);
            if let Some(b) = self.opened_buffers.value_of(i).upgrade(cx) {
                let ghost before = out@;
                let ghost now = *self;
                assert(now.servers_of_buffer(*b) == old(self).servers_of_buffer(*b));
                if let Some(file) = &b.file {
                    self.unregister_buffer_from_language_servers(b, file, out);
                    out.push(Effect::SetLanguage { buffer: b.entity_id, language: None });
                }
                assert(out@ =~= old(out)@ + (done + forget_effects_of(*old(self), *b)));
            }
        }
    }

    /// Follows the registry of languages. Where it was loaded anew since the count that was last
    /// seen, every open file leaves its servers and its language. What comes back is the count that
    /// has now been seen.
    pub fn follow_languages(
        &mut self,
        seen: usize,
        reload_count: usize,
        cx: &AppContext,
        out: &mut Vec<Effect>,
    ) -> (r: usize)
        requires
            old(self).snapshots_ordered(),
        ensures
            final(self).snapshots_ordered(),
            if reload_count > seen {
                let es = old(self).opened_buffers.entries();
                let n = es.len() as int;
                &&& r == reload_count
                &&& snapshot_map(final(self).buffer_snapshots) == forgotten_snapshots(
                    snapshot_map(old(self).buffer_snapshots),
                    *cx,
                    es,
                    n,
                )
                &&& final(out)@ == old(out)@ + forget_effects(*old(self), *cx, es, n)
            } else {
                r == seen && *final(self) == *old(self) && final(out)@ == old(out)@
            },
            *final(self) == (Project {
                buffer_snapshots: final(self).buffer_snapshots,
                ..*old(self)
            }),
    {
        if reload_count > seen {
            self.forget_languages(cx, out);
            reload_count
        } else {
            seen
        }
    }

    /// The buffers that have no language of their own, for which one is to be looked for. Buffers
    /// that hold text in languages that were unknown are parsed again.
    pub fn maintain_buffer_languages(&self, cx: &AppContext, out: &mut Vec<Effect>) -> (r: Vec<
        EntityId,
    >)
        ensures
            r@ == self.opened_buffers.entries().filter_map(undetected(*cx)),
            final(out)@ == old(out)@ + self.opened_buffers.entries().filter_map(
                reparse_effect(*cx),
            ),
    {
        let mut r: Vec<EntityId> = Vec::new();
        let n: usize = self.opened_buffers.len();
        let ghost es = self.opened_buffers.entries();
        let ghost f = undetected(*cx);
        let ghost g = reparse_effect(*cx);
        proof {
            lemma_take_all(es);
            assert(out@ + Seq::<Effect>::empty() =~= out@);
        }
        for i in 0..n
            invariant
                n == es.len(),
                es == self.opened_buffers.entries(),
                f == undetected(*cx),
                g == reparse_effect(*cx),
                r@ == es.take(i as int).filter_map(f),
                out@ == old(out)@ + es.take(i as int).filter_map(g),
        {
            let ghost done = es.take(i as int).filter_map(g);
            proof {
                lemma_filter_map_step(es, f, i as int);
                lemma_filter_map_step(es, g, i as int);
            }
            if let Some(b) = self.opened_buffers.value_of(i).upgrade(cx) {
                if b.language.is_none() || b.is_plain_text {
                    r.push(b.entity_id);
                } else if b.contains_unknown_injections {
                    out.push(Effect::Reparse(b.entity_id));
                    assert(out@ =~= old(out)@ + done.push(Effect::Reparse(b.entity_id)));
                }
            }
        }
        r
    }
}

pub open spec fn running_pair() -> spec_fn((LanguageServerId, LanguageServerState)) -> Option<
    (Arc<LspAdapter>, Arc<LanguageServer>),
> {
    |e: (LanguageServerId, LanguageServerState)|
        match e.1 {
            LanguageServerState::Running { adapter, server, .. } => Some((adapter, server)),
            LanguageServerState::Starting => None,
        }
}

impl Project {
    /// The running servers, which are to be told their configuration.
    pub fn maintain_workspace_config(&self) -> (r: Vec<(Arc<LspAdapter>, Arc<LanguageServer>)>)
        ensures
            r@ == self.language_servers.entries().filter_map(running_pair()),
    {
        let mut r: Vec<(Arc<LspAdapter>, Arc<LanguageServer>)> = Vec::new();
        let n: usize = self.language_servers.len();
        let ghost es = self.language_servers.entries();
        proof {
            lemma_take_all(es);
        }
        for i in 0..n
            invariant
                n == es.len(),
                es == self.language_servers.entries(),
                r@ == es.take(i as int).filter_map(running_pair()),
        {
            proof {
                lemma_filter_map_step(es, running_pair(), i as int);
            }
            if let LanguageServerState::Running { adapter, server, .. } =
                self.language_servers.value_of(i) {
                r.push((adapter.clone(), server.clone()));
            }
        }
        r
    }

    /// Tells a server its configuration, given as JSON text.
    pub fn notify_configuration(
        &self,
        server: &LanguageServer,
        settings: Arc<String>,
        out: &mut Vec<Effect>,
    )
        ensures
            final(out)@ == old(out)@.push(
                Effect::NotifyServer(
                    server.server_id,
                    ServerNotification::DidChangeConfiguration { settings },
                ),
            ),
    {
        out.push(
            Effect::NotifyServer(
                server.server_id,
                ServerNotification::DidChangeConfiguration { settings },
            ),
        );
    }

    /// Forgets all servers. What comes back are the servers that have to be shut down.
    pub fn shutdown_language_servers(&mut self) -> (r: Vec<LanguageServerId>)
        ensures
            r@ == old(self).language_servers.entries().map_values(
                |e: (LanguageServerId, LanguageServerState)| e.0,
            ),
            final(self).language_servers@ == Map::<
                LanguageServerId,
                LanguageServerState,
            >::empty(),
            *final(self) == (Project {
                language_servers: final(self).language_servers,
                ..*old(self)
            }),
    {
        let mut r: Vec<LanguageServerId> = Vec::new();
        let n: usize = self.language_servers.len();
        let ghost ids = self.language_servers.entries().map_values(
            |e: (LanguageServerId, LanguageServerState)| e.0,
        );
        assert(ids.take(0) =~= Seq::empty());
        for i in 0..n
            invariant
                *self == *old(self),
                n == self.language_servers.entries().len(),
                ids == self.language_servers.entries().map_values(
                    |e: (LanguageServerId, LanguageServerState)| e.0,
                ),
                r@ == ids.take(i as int),
        {
            r.push(*self.language_servers.key_of(i));
            assert(r@ =~= ids.take(i + 1));
        }
        assert(ids.take(n as int) =~= ids);
        self.language_servers.clear();
        r
    }
}

/// The worktrees and languages of the first `n` buffers that have a file and a language.
pub open spec fn languages_of_buffers(
    cx: AppContext,
    buffers: Seq<EntityId>,
    found: Seq<Option<Arc<Language>>>,
    n: int,
) -> Map<(EntityId, u64), Arc<Language>>
    decreases n,
{
    if n <= 0 {
        Map::empty()
    } else {
        let head = languages_of_buffers(cx, buffers, found, n - 1);
        match (cx.live_buffer(buffers[n - 1]), found[n - 1]) {
            (Some(b), Some(language)) => match b.file {
                Some(file) => head.insert((file.worktree, language.id), language),
                None => head,
            },
            _ => head,
        }
    }
}

impl Project {
    /// The languages whose servers are restarted for the sake of buffers, each once per worktree.
    /// `found` holds the language that each buffer is found to have.
    pub fn restart_language_servers_for_buffers(
        &self,
        buffers: &Vec<EntityId>,
        found: &Vec<Option<Arc<Language>>>,
        cx: &AppContext,
    ) -> (r: SortedMap<(EntityId, u64), Arc<Language>>)
        requires
            buffers@.len() == found@.len(),
        ensures
            r@ == languages_of_buffers(*cx, buffers@, found@, buffers@.len() as int),
    {
        let mut r: SortedMap<(EntityId, u64), Arc<Language>> = SortedMap::new();
        for i in 0..buffers.len()
            invariant
                buffers@.len() == found@.len(),
                r@ == languages_of_buffers(*cx, buffers@, found@, i as int),
        {
            if let Some(b) = cx.buffer(buffers[i]) {
                if let Some(language) = &found[i] {
                    if let Some(file) = &b.file {
                        r.insert((file.worktree, language.id), language.clone());
                    }
                }
            }
        }
        r
    }
}

/// What is started once a server has been installed anew, in the first `n` worktrees.
pub open spec fn restarted(
    project: Project,
    cx: AppContext,
    adapter: LspAdapter,
    language: Language,
    pending: Seq<Option<LanguageServerId>>,
    n: int,
) -> (
    Map<(WorktreeId, Seq<char>), LanguageServerId>,
    Map<LanguageServerId, LanguageServerState>,
    Seq<Effect>,
)
    decreases n,
{
    if n <= 0 {
        (project.language_server_ids@, project.language_servers@, Seq::empty())
    } else {
        let (ids, servers, effects) = restarted(project, cx, adapter, language, pending, n - 1);
        match project.worktrees@[n - 1].live(cx) {
            Some(w) => if crate::servers::adapter_starts(
                ids,
                w.id,
                adapter,
                pending[n - 1],
            ) {
                let id = pending[n - 1]->0;
                (
                    ids.insert((w.id, adapter.name@), id),
                    servers.insert(id, LanguageServerState::Starting),
                    effects.push(
                        Effect::StartServer {
                            server_id: id,
                            worktree_id: w.id,
                            root_path: w.abs_path,
                            language: language.id,
                        },
                    ),
                )
            } else {
                (ids, servers, effects)
            },
            None => (ids, servers, effects),
        }
    }
}

impl Project {
    /// Starts a server in every worktree, after it has been installed anew. `pending` holds the
    /// ids that the registry of languages gives for the worktrees, in their order.
    pub fn start_in_all_worktrees(
        &mut self,
        adapter: &LspAdapter,
        language: &Language,
        pending: &Vec<Option<LanguageServerId>>,
        cx: &AppContext,
        out: &mut Vec<Effect>,
    )
        requires
            pending@.len() == old(self).worktrees@.len(),
        ensures
            ({
                let all = restarted(
                    *old(self),
                    *cx,
                    *adapter,
                    *language,
                    pending@,
                    pending@.len() as int,
                );
                &&& final(self).language_server_ids@ == all.0
                &&& final(self).language_servers@ == all.1
                &&& final(out)@ == old(out)@ + all.2
            }),
            *final(self) == (Project {
                language_servers: final(self).language_servers,
                language_server_ids: final(self).language_server_ids,
                ..*old(self)
            }),
    {
        assert(out@ + Seq::<Effect>::empty() =~= out@);
        for i in 0..pending.len()
            invariant
                pending@.len() == old(self).worktrees@.len(),
                ({
                    let all = restarted(
                        *old(self),
                        *cx,
                        *adapter,
                        *language,
                        pending@,
                        i as int,
                    );
                    &&& self.language_server_ids@ == all.0
                    &&& self.language_servers@ == all.1
                    &&& out@ == old(out)@ + all.2
                }),
                *self == (Project {
                    language_servers: self.language_servers,
                    language_server_ids: self.language_server_ids,
                    ..*old(self)
                }),
        {
            let handle = self.worktrees[i];
            if let Some(w) = handle.upgrade(cx) {
                self.start_language_server(w.id, &w.abs_path, adapter, language, pending[i], out);
            }
            assert(out@ =~= old(out)@ + restarted(
                *old(self),
                *cx,
                *adapter,
                *language,
                pending@,
                i + 1,
            ).2);
        }
    }
}

/// Settings that have not changed restart no server.
pub proof fn same_settings_restart_nothing(
    project: Project,
    cx: AppContext,
    languages: Seq<Arc<Language>>,
    e: ((WorktreeId, LanguageServerName), LanguageServerId),
)
    ensures
        restarts(project, cx, languages, project.current_lsp_settings@)(e) is None,
{
}

/// A server is started for an open buffer exactly if the buffer lives, has a file and a language, and
/// its settings want a server: in the worktree of the file, for that language.
pub proof fn servers_are_started_where_wanted(cx: AppContext, e: (u64, OpenBuffer))
    ensures
        ({
            let b = e.1.live(cx)->0;
            let wanted = server_wanted(cx)(e);
            &&& wanted is Some <==> e.1.live(cx) is Some && b.language is Some && b.file is Some
                && b.settings.enable_language_server
            &&& wanted is Some ==> wanted->0 == (b.file->0.worktree, b.language->0)
        }),
{
}

/// The formatter of every live buffer with a language is checked, with the settings of the buffer and
/// the worktree of its file, if it has one.
pub proof fn formatters_are_checked_for_buffers(cx: AppContext, e: (u64, OpenBuffer))
    ensures
        ({
            let b = e.1.live(cx)->0;
            let wanted = formatter_wanted(cx)(e);
            &&& wanted is Some <==> e.1.live(cx) is Some && b.language is Some
            &&& wanted is Some ==> (wanted->0).1 == b.language->0 && (wanted->0).2 == b.settings
            &&& wanted is Some && b.file is Some ==> (wanted->0).0 == Some(b.file->0.worktree_id)
            &&& wanted is Some && b.file is None ==> (wanted->0).0 is None
        }),
{
}

/// The language of a server is the first that has an adapter of its name.
pub proof fn servers_belong_to_the_first_language(
    languages: Seq<Arc<Language>>,
    name: Seq<char>,
    i: int,
)
    requires
        0 <= i < languages.len(),
        exists|k: int|
            0 <= k < languages[i].lsp_adapters@.len() && (
            #[trigger] languages[i].lsp_adapters@[k]).name@ == name,
        forall|j: int, k: int|
            0 <= j < i && 0 <= k < languages[j].lsp_adapters@.len() ==> (
            #[trigger] languages[j].lsp_adapters@[k]).name@ != name,
    ensures
        language_of_server(languages, name) == Some(languages[i]),
{
    let f = has_adapter_named(name);
    assert forall|j: int| 0 <= j < i implies f(#[trigger] languages[j]) is None by {
        if crate::registration::has_adapter(*languages[j], name) {
            let k = choose|k: int|
                0 <= k < languages[j].lsp_adapters@.len() && (
                #[trigger] languages[j].lsp_adapters@[k]).name@ == name;
            assert(languages[j].lsp_adapters@[k].name@ != name);
        }
    }
    assert(crate::registration::has_adapter(*languages[i], name));
    lemma_find_map_found(languages, f, i);
}

/// A server is stopped exactly if the settings of its language in its worktree no longer want it. One
/// that belongs to no language is left alone.
pub proof fn unwanted_servers_are_stopped(
    project: Project,
    cx: AppContext,
    languages: Seq<Arc<Language>>,
    e: ((WorktreeId, LanguageServerName), LanguageServerId),
)
    ensures
        ({
            let language = language_of_server(languages, e.0.1@);
            let w = project.worktree_of_id(cx, e.0.0);
            let stopped = stops(project, cx, languages)(e);
            &&& language is None ==> stopped is None
            &&& language is Some && w is Some ==> (stopped is None <==> cx.settings_in(
                language->0.id,
                w->0.root(),
            ).enable_language_server)
            &&& language is Some && w is None ==> (stopped is None <==> cx.settings_in(
                language->0.id,
                None,
            ).enable_language_server)
            &&& stopped is Some ==> stopped->0 == e.0
        }),
{
}

/// A server is restarted exactly if it is still wanted, its language and its worktree are known, and
/// its settings have changed: have come, have gone, or have another text.
pub proof fn changed_settings_restart_their_server(
    project: Project,
    cx: AppContext,
    languages: Seq<Arc<Language>>,
    settings: Map<Seq<char>, String>,
    e: ((WorktreeId, LanguageServerName), LanguageServerId),
)
    ensures
        ({
            let name = e.0.1@;
            let before = project.current_lsp_settings@;
            let language = language_of_server(languages, name);
            let w = project.worktree_of_id(cx, e.0.0);
            let changed = before.contains_key(name) != settings.contains_key(name) || (
            before.contains_key(name) && before[name]@ != settings[name]@);
            let r = restarts(project, cx, languages, settings)(e);
            &&& r is Some <==> language is Some && w is Some && changed && stops(
                project,
                cx,
                languages,
            )(e) is None
            &&& r is Some ==> r->0 == (w->0.entity_id, language->0)
        }),
{
}

/// Copilot hears of every live buffer, and of nothing else.
pub proof fn copilot_hears_of_live_buffers(cx: AppContext, e: (u64, OpenBuffer))
    ensures
        copilot_effect(cx)(e) is Some <==> e.1.live(cx) is Some,
        copilot_effect(cx)(e) is Some ==> copilot_effect(cx)(e)->0 == Effect::RegisterWithCopilot(
            e.1.live(cx)->0.entity_id,
        ),
{
}

/// What follows from a language: its settings as they hold at the file of the buffer, the worktree of
/// the file, and that the servers are started there if the worktree lives on this disk.
pub proof fn languages_hold_where_the_file_lies(cx: AppContext, buffer: Buffer, language: Language)
    ensures
        ({
            let plan = plan_for(cx, buffer, language);
            &&& buffer.file is None ==> plan.worktree_id is None && plan.start_in is None
                && plan.settings == cx.settings_in(language.id, None)
            &&& buffer.file is Some ==> {
                let file = buffer.file->0;
                let w = cx.live_worktree(file.worktree);
                &&& plan.settings == cx.settings_in(language.id, Some(file.worktree))
                &&& plan.worktree_id == Some(file.worktree_id)
                &&& w is Some && w->0.is_local ==> plan.start_in == Some(w->0.entity_id)
                &&& w is None || !w->0.is_local ==> plan.start_in is None
            }
            &&& is_new_language(buffer, language) <==> buffer.language is None
                || buffer.language->0.id != language.id
        }),
{
}

/// When languages are loaded anew, each live buffer with a file loses its language, and each local
/// one is closed in its servers.
pub proof fn every_file_loses_its_language(
    project: Project,
    cx: AppContext,
    es: Seq<(u64, OpenBuffer)>,
    n: int,
    i: int,
)
    requires
        0 <= i < n <= es.len(),
        es[i].1.live(cx) is Some,
        es[i].1.live(cx)->0.file is Some,
    ensures
        forget_effects(project, cx, es, n).contains(
            Effect::SetLanguage { buffer: es[i].1.live(cx)->0.entity_id, language: None },
        ),
        es[i].1.live(cx)->0.file->0.is_local ==> forall|e: Effect|
            close_effects(
                project,
                es[i].1.live(cx)->0,
                es[i].1.live(cx)->0.file->0,
            ).contains(e) ==> #[trigger] forget_effects(project, cx, es, n).contains(e),
    decreases n,
{
    let b = es[i].1.live(cx)->0;
    let before = forget_effects(project, cx, es, n - 1);
    let after = forget_effects(project, cx, es, n);
    let set = Effect::SetLanguage { buffer: b.entity_id, language: None };
    let own = forget_effects_of(project, b);
    let closed = close_effects(project, b, b.file->0);
    if i < n - 1 {
        every_file_loses_its_language(project, cx, es, n - 1, i);
        assert forall|e: Effect| before.contains(e) implies #[trigger] after.contains(e) by {
            let k = choose|k: int| 0 <= k < before.len() && before[k] == e;
            assert(after[k] == e);
        }
    } else {
        assert(own.last() == set);
        assert(after[before.len() + own.len() - 1] == set);
        if b.file->0.is_local {
            assert forall|e: Effect| closed.contains(e) implies #[trigger] after.contains(e) by {
                let k = choose|k: int| 0 <= k < closed.len() && closed[k] == e;
                assert(own[k] == e);
                assert(after[before.len() + k] == e);
            }
        }
    }
}

/// When languages are loaded anew, nothing is known any more of local buffers, and all that is known
/// of others stays.
pub proof fn only_local_texts_are_forgotten(
    m: Map<(u64, LanguageServerId), Seq<LspBufferSnapshot>>,
    cx: AppContext,
    es: Seq<(u64, OpenBuffer)>,
    n: int,
    key: (u64, LanguageServerId),
)
    requires
        n <= es.len(),
    ensures
        ({
            let now = forgotten_snapshots(m, cx, es, n);
            let is_left = exists|i: int|
                0 <= i < n && ((#[trigger] es[i]).1.live(cx) matches Some(b) && b.remote_id == key.0
                    && (b.file matches Some(f) && f.is_local));
            &&& is_left ==> !now.contains_key(key)
            &&& !is_left ==> now.contains_key(key) == m.contains_key(key)
            &&& !is_left && m.contains_key(key) ==> now[key] == m[key]
        }),
    decreases n,
{
    if n > 0 {
        only_local_texts_are_forgotten(m, cx, es, n - 1, key);
        assert(es[n - 1].1.live(cx) is Some || es[n - 1].1.live(cx) is None);
    }
}

/// A language is looked for exactly for the live buffers that have none of their own. Of the others
/// those are parsed again that hold text in unknown languages.
pub proof fn buffers_without_language_are_detected(cx: AppContext, e: (u64, OpenBuffer))
    ensures
        ({
            let b = e.1.live(cx)->0;
            let lacks = b.language is None || b.is_plain_text;
            &&& undetected(cx)(e) is Some <==> e.1.live(cx) is Some && lacks
            &&& undetected(cx)(e) is Some ==> undetected(cx)(e)->0 == b.entity_id
            &&& reparse_effect(cx)(e) is Some <==> e.1.live(cx) is Some && !lacks
                && b.contains_unknown_injections
            &&& reparse_effect(cx)(e) is Some ==> reparse_effect(cx)(e)->0 == Effect::Reparse(
                b.entity_id,
            )
        }),
{
}

/// Exactly the running servers are told their configuration.
pub proof fn running_servers_are_configured(e: (LanguageServerId, LanguageServerState))
    ensures
        running_pair()(e) is Some <==> e.1 is Running,
        e.1 is Running ==> running_pair()(e)->0 == (e.1->adapter, e.1->server),
{
}

/// The servers of a language are restarted in a worktree exactly if some live buffer with a file there
/// is found to have the language.
pub proof fn servers_restart_for_their_buffers(
    cx: AppContext,
    buffers: Seq<EntityId>,
    found: Seq<Option<Arc<Language>>>,
    n: int,
    key: (EntityId, u64),
)
    requires
        n <= buffers.len(),
        n <= found.len(),
    ensures
        languages_of_buffers(cx, buffers, found, n).contains_key(key) <==> exists|i: int|
            0 <= i < n && (cx.live_buffer(#[trigger] buffers[i]) matches Some(b) && (
            b.file matches Some(f) && f.worktree == key.0 && (found[i] matches Some(l) && l.id
                == key.1))),
        languages_of_buffers(cx, buffers, found, n).contains_key(key) ==> languages_of_buffers(
            cx,
            buffers,
            found,
            n,
        )[key].id == key.1,
    decreases n,
{
    if n > 0 {
        servers_restart_for_their_buffers(cx, buffers, found, n - 1, key);
        let head = languages_of_buffers(cx, buffers, found, n - 1);
        let now = languages_of_buffers(cx, buffers, found, n);
        assert(cx.live_buffer(buffers[n - 1]) is Some || cx.live_buffer(buffers[n - 1]) is None);
        if head.contains_key(key) {
            let i = choose|i: int|
                0 <= i < n - 1 && (cx.live_buffer(#[trigger] buffers[i]) matches Some(b) && (
                b.file matches Some(f) && f.worktree == key.0 && (found[i] matches Some(l) && l.id
                    == key.1)));
            assert(cx.live_buffer(buffers[i]) is Some);
        }
    }
}

/// A server that was installed anew keeps all servers that work, and is started, at the root of each
/// live worktree that has an id for it and no server of its name.
pub proof fn reinstalled_servers_start_everywhere(
    project: Project,
    cx: AppContext,
    adapter: LspAdapter,
    language: Language,
    pending: Seq<Option<LanguageServerId>>,
    n: int,
    i: int,
)
    requires
        0 <= i < n <= project.worktrees@.len(),
        n <= pending.len(),
        pending[i] is Some,
        adapter.reinstall_attempt_count <= 4,
        project.worktrees@[i].live(cx) is Some,
        !project.language_server_ids@.contains_key(
            (project.worktrees@[i].live(cx)->0.id, adapter.name@),
        ),
        forall|j: int|
            0 <= j < i && (#[trigger] project.worktrees@[j]).live(cx) is Some
                ==> project.worktrees@[j].live(cx)->0.id != project.worktrees@[i].live(cx)->0.id,
    ensures
        ({
            let w = project.worktrees@[i].live(cx)->0;
            let all = restarted(project, cx, adapter, language, pending, n);
            &&& all.0.contains_key((w.id, adapter.name@))
            &&& all.0[(w.id, adapter.name@)] == pending[i]->0
            &&& all.1.contains_key(pending[i]->0)
            &&& all.1[pending[i]->0] is Starting
            &&& all.2.contains(
                Effect::StartServer {
                    server_id: pending[i]->0,
                    worktree_id: w.id,
                    root_path: w.abs_path,
                    language: language.id,
                },
            )
        }),
    decreases n,
{
    let w = project.worktrees@[i].live(cx)->0;
    let key = (w.id, adapter.name@);
    let before = restarted(project, cx, adapter, language, pending, n - 1);
    let all = restarted(project, cx, adapter, language, pending, n);
    lemma_restarted_ids(project, cx, adapter, language, pending, n - 1, key);
    if i < n - 1 {
        reinstalled_servers_start_everywhere(
            project,
            cx,
            adapter,
            language,
            pending,
            n - 1,
            i,
        );
        assert forall|e: Effect| before.2.contains(e) implies #[trigger] all.2.contains(e) by {
            let k = choose|k: int| 0 <= k < before.2.len() && before.2[k] == e;
            assert(all.2[k] == e);
        }
    } else {
        assert(!before.0.contains_key(key));
        assert(all.2[before.2.len() as int] == all.2.last());
    }
}

proof fn lemma_restarted_ids(
    project: Project,
    cx: AppContext,
    adapter: LspAdapter,
    language: Language,
    pending: Seq<Option<LanguageServerId>>,
    n: int,
    key: (WorktreeId, Seq<char>),
)
    requires
        n <= project.worktrees@.len(),
    ensures
        ({
            let ids = restarted(project, cx, adapter, language, pending, n).0;
            &&& project.language_server_ids@.contains_key(key) ==> ids.contains_key(key)
                && ids[key] == project.language_server_ids@[key]
            &&& ids.contains_key(key) && !project.language_server_ids@.contains_key(key) ==> key.1
                == adapter.name@ && exists|j: int|
                0 <= j < n && ((#[trigger] project.worktrees@[j]).live(cx) matches Some(w) && w.id
                    == key.0)
        }),
    decreases n,
{
    if n > 0 {
        lemma_restarted_ids(project, cx, adapter, language, pending, n - 1, key);
        assert(project.worktrees@[n - 1].live(cx) is Some || project.worktrees@[n - 1].live(
            cx,
        ) is None);
    }
}

/// Starting a server that was installed anew leaves every server that works already as it is.
pub proof fn reinstalling_keeps_working_servers(
    project: Project,
    cx: AppContext,
    adapter: LspAdapter,
    language: Language,
    pending: Seq<Option<LanguageServerId>>,
    n: int,
    key: (WorktreeId, Seq<char>),
)
    requires
        n <= project.worktrees@.len(),
        project.language_server_ids@.contains_key(key),
    ensures
        restarted(project, cx, adapter, language, pending, n).0.contains_key(key),
        restarted(project, cx, adapter, language, pending, n).0[key]
            == project.language_server_ids@[key],
{
    lemma_restarted_ids(project, cx, adapter, language, pending, n, key);
}

} // verus!
