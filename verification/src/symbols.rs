//! Symbols that language servers find, and the signatures by which a host knows them again.

use crate::diagnostics::TextRange;
use crate::ids::{LanguageServerId, LanguageServerName, WorktreeId};
use crate::model::{
    AppContext, Language, LanguageServer, LspAdapter, PointUtf16, ProjectPath, ProjectPathView,
};
use crate::outside::{sha256, sha256_digest};
use crate::path::{
    descending, join_undoes_strip_prefix, joined, path_text, plain, relative_parts,
    relative_path_leads_to_path, relativize_path, walked, Part, Path,
};
use crate::project::{LanguageServerState, Project, ProjectError};
use crate::seqs::{
    lemma_filter_map_from, lemma_filter_map_has, lemma_filter_map_matches, lemma_filter_map_step,
    lemma_take_all,
};
use std::sync::Arc;
use vstd::prelude::*;
use vstd::utf8::encode_utf8;

verus! {

/// A number as `n` bytes, the most significant first.
pub open spec fn be_bytes(value: nat, n: nat) -> Seq<u8>
    decreases n,
{
    if n == 0 {
        Seq::empty()
    } else {
        be_bytes(value / 256, (n - 1) as nat).push((value % 256) as u8)
    }
}

fn to_be_bytes(value: u128, n: usize) -> (r: Vec<u8>)
    ensures
        r@ == be_bytes(value as nat, n as nat),
    decreases n,
{
    if n == 0 {
        let r: Vec<u8> = Vec::new();
        assert(r@ =~= Seq::<u8>::empty());
        r
    } else {
        let mut r = to_be_bytes(value / 256, n - 1);
        r.push((value % 256) as u8);
        r
    }
}

/// What the signature of a path is made of: its worktree, its text, and the host's secret.
pub open spec fn signed_message(path: ProjectPathView, nonce: u128) -> Seq<u8> {
    be_bytes(path.worktree_id.0 as nat, 8) + encode_utf8(path_text(path.path)) + be_bytes(
        nonce as nat,
        16,
    )
}

/// The signature of a path.
pub open spec fn signature_of(path: ProjectPathView, nonce: u128) -> Seq<u8> {
    sha256_digest(signed_message(path, nonce))
}

/// A symbol of a document, with the path and range that it has.
#[derive(Debug, PartialEq, Eq)]
pub struct Symbol {
    pub language_server_name: LanguageServerName,
    pub source_worktree_id: WorktreeId,
    pub path: ProjectPath,
    /// How the symbol is shown.
    pub label: String,
    pub name: String,
    pub kind: i32,
    pub range: TextRange,
    pub signature: Vec<u8>,
}

/// What a symbol stands for.
pub struct SymbolView {
    pub language_server_name: Seq<char>,
    pub source_worktree_id: WorktreeId,
    pub path: ProjectPathView,
    pub label: Seq<char>,
    pub name: Seq<char>,
    pub kind: i32,
    pub range: TextRange,
    pub signature: Seq<u8>,
}

impl View for Symbol {
    type V = SymbolView;

    open spec fn view(&self) -> SymbolView {
        SymbolView {
            language_server_name: self.language_server_name@,
            source_worktree_id: self.source_worktree_id,
            path: self.path@,
            label: self.label@,
            name: self.name@,
            kind: self.kind,
            range: self.range,
            signature: self.signature@,
        }
    }
}

pub open spec fn symbol_views(symbols: Seq<Symbol>) -> Seq<SymbolView> {
    symbols.map_values(|s: Symbol| s@)
}

/// A symbol as a server reports it. The path is missing where the symbol has no place in a file.
#[derive(Debug, PartialEq, Eq)]
pub struct LspSymbol {
    pub name: String,
    pub kind: i32,
    pub abs_path: Option<Path>,
    pub range: TextRange,
}

/// A server that is asked for symbols, with what is needed to place them.
#[derive(Debug)]
pub struct SymbolRequest {
    pub adapter: Arc<LspAdapter>,
    pub language: Arc<Language>,
    pub server: Arc<LanguageServer>,
    pub worktree_id: WorktreeId,
    pub worktree_abs_path: Path,
    /// What is asked for.
    pub query: Arc<String>,
}

/// Who is asked for symbols.
#[derive(Debug)]
pub enum SymbolSource {
    Servers(Vec<SymbolRequest>),
    Host { project_id: u64, query: Arc<String> },
    Nobody,
}

/// How the server that works under a name on a worktree is asked for symbols.
pub open spec fn request_for(project: Project, cx: AppContext, query: Arc<String>) -> spec_fn(
    ((WorktreeId, LanguageServerName), LanguageServerId),
) -> Option<SymbolRequest> {
    |e: ((WorktreeId, LanguageServerName), LanguageServerId)|
        match project.worktree_of_id(cx, e.0.0) {
            Some(w) if w.is_local && project.language_servers@.contains_key(e.1) => {
                match project.language_servers@[e.1] {
                    LanguageServerState::Running { language, adapter, server, .. } => Some(
                        SymbolRequest {
                            adapter,
                            language,
                            server,
                            worktree_id: e.0.0,
                            worktree_abs_path: w.abs_path,
                            query,
                        },
                    ),
                    LanguageServerState::Starting => None,
                }
            },
            _ => None,
        }
}

/// The path of the project that a symbol lies at: below the worktree that contains it, or else as
/// seen from the worktree that the server was asked about.
pub open spec fn symbol_path(
    project: Project,
    cx: AppContext,
    source_worktree_id: WorktreeId,
    worktree_abs_path: Seq<Part>,
    abs_path: Seq<Part>,
) -> ProjectPathView {
    match project.worktree_containing(cx, abs_path) {
        Some(w) => ProjectPathView {
            worktree_id: w.id,
            path: abs_path.skip(w.abs_path@.len() as int),
        },
        None => ProjectPathView {
            worktree_id: source_worktree_id,
            path: relative_parts(worktree_abs_path, abs_path),
        },
    }
}

/// The symbol of the project that a reported symbol is, if it lies in a file.
pub open spec fn placed_symbol(project: Project, cx: AppContext, request: SymbolRequest) -> spec_fn(
    LspSymbol,
) -> Option<SymbolView> {
    |s: LspSymbol|
        match s.abs_path {
            Some(abs_path) => {
                let path = symbol_path(
                    project,
                    cx,
                    request.worktree_id,
                    request.worktree_abs_path@,
                    abs_path@,
                );
                Some(
                    SymbolView {
                        language_server_name: request.adapter.name@,
                        source_worktree_id: request.worktree_id,
                        path,
                        label: s.name@,
                        name: s.name@,
                        kind: s.kind,
                        range: s.range,
                        signature: signature_of(path, project.nonce),
                    },
                )
            },
            None => None,
        }
}

/// Where the buffer of a symbol is opened.
#[derive(Debug)]
pub enum SymbolBuffer {
    /// As a document that a server knows.
    Local { document: Path, server_id: LanguageServerId },
    /// By the host.
    Host { project_id: u64 },
}

/// The result says where the buffer of a symbol is opened.
pub open spec fn is_symbol_buffer(
    r: Result<SymbolBuffer, ProjectError>,
    project: Project,
    cx: AppContext,
    symbol: SymbolView,
) -> bool {
    let key = (symbol.source_worktree_id, symbol.language_server_name);
    if project.is_guest() {
        r == (match project.remote_id_of() {
            Some(project_id) => Ok::<SymbolBuffer, ProjectError>(SymbolBuffer::Host { project_id }),
            None => Err::<SymbolBuffer, ProjectError>(ProjectError::ProjectNotShared),
        })
    } else if !project.language_server_ids@.contains_key(key) {
        r == Err::<SymbolBuffer, ProjectError>(ProjectError::NoSuchServer)
    } else {
        match project.worktree_of_id(cx, symbol.path.worktree_id) {
            Some(w) if w.is_local => match r {
                Ok(SymbolBuffer::Local { document, server_id }) => document@ == joined(
                    w.abs_path@,
                    symbol.path.path,
                ) && server_id == project.language_server_ids@[key],
                _ => false,
            },
            _ => r == Err::<SymbolBuffer, ProjectError>(ProjectError::NoSuchWorktree),
        }
    }
}

impl Project {
    /// The signature that the project gives to a path.
    pub fn symbol_signature(&self, project_path: &ProjectPath) -> (r: Vec<u8>)
        ensures
            r@ == signature_of(project_path@, self.nonce),
            r@.len() == 32,
    {
        let mut message = to_be_bytes(project_path.worktree_id.to_proto() as u128, 8);
        let text = project_path.path.to_text();
        message.extend_from_slice(text.as_str().as_bytes());
        let mut secret = to_be_bytes(self.nonce, 16);
        message.append(&mut secret);
        assert(message@ =~= signed_message(project_path@, self.nonce));
        sha256(&message)
    }

    /// Finds out who is asked for the symbols that match a query.
    pub fn symbols(&self, query: Arc<String>, cx: &AppContext) -> (r: SymbolSource)
        ensures
            if self.is_guest() {
                match self.remote_id_of() {
                    Some(project_id) => r == (SymbolSource::Host { project_id, query }),
                    None => r == SymbolSource::Nobody,
                }
            } else {
                match r {
                    SymbolSource::Servers(requests) => requests@
                        == self.language_server_ids.entries().filter_map(
                        request_for(*self, *cx, query),
                    ),
                    _ => false,
                }
            },
    {
        if self.is_remote() {
            return match self.remote_id() {
                Some(project_id) => SymbolSource::Host { project_id, query },
                None => SymbolSource::Nobody,
            };
        }
        let mut requests: Vec<SymbolRequest> = Vec::new();
        let n: usize = self.language_server_ids.len();
        let ghost es = self.language_server_ids.entries();
        let ghost f = request_for(*self, *cx, query);
        proof {
            lemma_take_all(es);
        }
        for i in 0..n
            invariant
                n == es.len(),
                es == self.language_server_ids.entries(),
                f == request_for(*self, *cx, query),
                requests@ == es.take(i as int).filter_map(f),
        {
            proof {
                lemma_filter_map_step(es, f, i as int);
            }
            let worktree_id = self.language_server_ids.key_of(i).0;
            let server_id = *self.language_server_ids.value_of(i);
            if let Some(w) = self.worktree_for_id(worktree_id, cx) {
                if w.is_local {
                    if let Some(LanguageServerState::Running { language, adapter, server, .. }) =
                        self.language_servers.get(&server_id) {
                        requests.push(
                            SymbolRequest {
                                adapter: adapter.clone(),
                                language: language.clone(),
                                server: server.clone(),
                                worktree_id,
                                worktree_abs_path: w.abs_path.clone(),
                                query: query.clone(),
                            },
                        );
                    }
                }
            }
        }
        SymbolSource::Servers(requests)
    }

    /// Places the symbols that a server has reported. Each is shown by its name until its language
    /// says otherwise.
    pub fn place_symbols(
        &self,
        request: &SymbolRequest,
        reported: &Vec<LspSymbol>,
        cx: &AppContext,
    ) -> (r: Vec<Symbol>)
        ensures
            symbol_views(r@) == reported@.filter_map(placed_symbol(*self, *cx, *request)),
            r@.len() == reported@.filter(|s: LspSymbol| s.abs_path is Some).len(),
            forall|k: int|
                0 <= k < r@.len() ==> {
                    let s = reported@.filter(|s: LspSymbol| s.abs_path is Some)[k];
                    &&& (#[trigger] r@[k]).name@ == s.name@
                    &&& r@[k].kind == s.kind
                    &&& r@[k].range.start == s.range.start
                    &&& r@[k].range.end == s.range.end
                },
    {
        let mut r: Vec<Symbol> = Vec::new();
        let ghost f = placed_symbol(*self, *cx, *request);
        proof {
            lemma_take_all(reported@);
            assert(symbol_views(r@) =~= Seq::<SymbolView>::empty());
        }
        for i in 0..reported.len()
            invariant
                f == placed_symbol(*self, *cx, *request),
                symbol_views(r@) == reported@.take(i as int).filter_map(f),
        {
            proof {
                lemma_filter_map_step(reported@, f, i as int);
            }
            let s = &reported[i];
            if let Some(abs_path) = &s.abs_path {
                let path = match self.find_local_worktree(abs_path, cx) {
                    Some((w, rest)) => ProjectPath { worktree_id: w.id, path: rest },
                    None => ProjectPath {
                        worktree_id: request.worktree_id,
                        path: relativize_path(&request.worktree_abs_path, abs_path),
                    },
                };
                let signature = self.symbol_signature(&path);
                let ghost before = symbol_views(r@);
                let symbol = Symbol {
                    language_server_name: request.adapter.name.clone(),
                    source_worktree_id: request.worktree_id,
                    path,
                    label: s.name.clone(),
                    name: s.name.clone(),
                    kind: s.kind,
                    range: s.range,
                    signature,
                };
                let ghost v = symbol@;
                r.push(symbol);
                assert(symbol_views(r@) =~= before.push(v));
            }
        }
        proof {
            every_symbol_of_a_file_is_placed(*self, *cx, *request, reported@, symbol_views(r@));
            assert forall|k: int| 0 <= k < r@.len() implies (#[trigger] r@[k])@ == symbol_views(
                r@,
            )[k] by {}
        }
        r
    }

    /// Checks that a symbol that a guest names is one that this project has placed.
    pub fn check_symbol(&self, symbol: &Symbol) -> (r: Result<(), ProjectError>)
        ensures
            r == (if symbol.signature@ == signature_of(symbol.path@, self.nonce) {
                Ok::<(), ProjectError>(())
            } else {
                Err::<(), ProjectError>(ProjectError::InvalidSymbolSignature)
            }),
    {
        let expected = self.symbol_signature(&symbol.path);
        if expected.len() != symbol.signature.len() {
            return Err(ProjectError::InvalidSymbolSignature);
        }
        for i in 0..expected.len()
            invariant
                expected@ == signature_of(symbol.path@, self.nonce),
                expected@.len() == symbol.signature@.len(),
                forall|j: int| 0 <= j < i ==> expected@[j] == symbol.signature@[j],
        {
            if expected[i] != symbol.signature[i] {
                return Err(ProjectError::InvalidSymbolSignature);
            }
        }
        assert(expected@ =~= symbol.signature@);
        Ok(())
    }

    /// Finds out where the buffer of a symbol is opened.
    pub fn open_buffer_for_symbol(&self, symbol: &Symbol, cx: &AppContext) -> (r: Result<
        SymbolBuffer,
        ProjectError,
    >)
        ensures
            is_symbol_buffer(r, *self, *cx, symbol@),
    {
        if self.is_remote() {
            return match self.remote_id() {
                Some(project_id) => Ok(SymbolBuffer::Host { project_id }),
                None => Err(ProjectError::ProjectNotShared),
            };
        }
        let key = (symbol.source_worktree_id, symbol.language_server_name.clone());
        let server_id = match self.language_server_ids.get(&key) {
            Some(id) => *id,
            None => return Err(ProjectError::NoSuchServer),
        };
        match self.worktree_for_id(symbol.path.worktree_id, cx) {
            Some(w) => {
                if w.is_local {
                    Ok(
                        SymbolBuffer::Local {
                            document: w.abs_path.join(&symbol.path.path),
                            server_id,
                        },
                    )
                } else {
                    Err(ProjectError::NoSuchWorktree)
                }
            },
            None => Err(ProjectError::NoSuchWorktree),
        }
    }
}

/// A symbol as it is sent.
#[derive(Debug, PartialEq, Eq)]
pub struct SymbolMessage {
    pub language_server_name: String,
    pub source_worktree_id: u64,
    pub worktree_id: u64,
    pub path: Path,
    pub name: String,
    pub kind: i32,
    pub start: Option<PointUtf16>,
    pub end: Option<PointUtf16>,
    pub signature: Vec<u8>,
}

/// The message carries a symbol.
pub open spec fn carries(m: SymbolMessage, s: Symbol) -> bool {
    &&& m.language_server_name == s.language_server_name.0
    &&& m.source_worktree_id == s.source_worktree_id.0 as u64
    &&& m.worktree_id == s.path.worktree_id.0 as u64
    &&& m.path == s.path.path
    &&& m.name == s.name
    &&& m.kind == s.kind
    &&& m.start == Some(s.range.start)
    &&& m.end == Some(s.range.end)
    &&& m.signature@ == s.signature@
}

/// The message that carries a symbol.
pub fn serialize_symbol(symbol: &Symbol) -> (r: SymbolMessage)
    ensures
        carries(r, *symbol),
{
    let mut signature: Vec<u8> = Vec::new();
    signature.extend_from_slice(symbol.signature.as_slice());
    assert(signature@ =~= symbol.signature@);
    SymbolMessage {
        language_server_name: symbol.language_server_name.0.clone(),
        source_worktree_id: symbol.source_worktree_id.to_proto(),
        worktree_id: symbol.path.worktree_id.to_proto(),
        path: symbol.path.path.clone(),
        name: symbol.name.clone(),
        kind: symbol.kind,
        start: Some(symbol.range.start),
        end: Some(symbol.range.end),
        signature,
    }
}

/// What a message says of a symbol; it is shown by `label`, or else by its name.
pub open spec fn read_symbol(m: SymbolMessage, label: Option<String>) -> Result<
    SymbolView,
    ProjectError,
> {
    match (m.start, m.end) {
        (Some(start), Some(end)) => if m.signature@.len() == 32 {
            Ok(
                SymbolView {
                    language_server_name: m.language_server_name@,
                    source_worktree_id: WorktreeId(m.source_worktree_id as usize),
                    path: ProjectPathView {
                        worktree_id: WorktreeId(m.worktree_id as usize),
                        path: m.path@,
                    },
                    label: match label {
                        Some(l) => l@,
                        None => m.name@,
                    },
                    name: m.name@,
                    kind: m.kind,
                    range: TextRange { start, end },
                    signature: m.signature@,
                },
            )
        } else {
            Err(ProjectError::InvalidSymbolSignature)
        },
        _ => Err(ProjectError::InvalidSymbolPosition),
    }
}

/// Reads a symbol from a message.
pub fn deserialize_symbol(message: SymbolMessage, label: Option<String>) -> (r: Result<
    Symbol,
    ProjectError,
>)
    ensures
        match r {
            Ok(s) => read_symbol(message, label) == Ok::<SymbolView, ProjectError>(s@),
            Err(e) => read_symbol(message, label) == Err::<SymbolView, ProjectError>(e),
        },
{
    let start = match message.start {
        Some(p) => p,
        None => return Err(ProjectError::InvalidSymbolPosition),
    };
    let end = match message.end {
        Some(p) => p,
        None => return Err(ProjectError::InvalidSymbolPosition),
    };
    if message.signature.len() != 32 {
        return Err(ProjectError::InvalidSymbolSignature);
    }
    let label = match label {
        Some(l) => l,
        None => message.name.clone(),
    };
    Ok(
        Symbol {
            language_server_name: LanguageServerName(message.language_server_name),
            source_worktree_id: WorktreeId::from_proto(message.source_worktree_id),
            path: ProjectPath {
                worktree_id: WorktreeId::from_proto(message.worktree_id),
                path: message.path,
            },
            label,
            name: message.name,
            kind: message.kind,
            range: TextRange { start, end },
            signature: message.signature,
        },
    )
}

/// A symbol survives the way to another participant.
pub proof fn symbol_survives_the_wire(s: Symbol, m: SymbolMessage)
    requires
        carries(m, s),
        s.signature@.len() == 32,
    ensures
        read_symbol(m, Some(s.label)) == Ok::<SymbolView, ProjectError>(s@),
{
}

/// A symbol that a host has placed is accepted when a guest sends it back.
pub proof fn placed_symbol_is_accepted(
    project: Project,
    cx: AppContext,
    request: SymbolRequest,
    reported: LspSymbol,
)
    requires
        reported.abs_path is Some,
    ensures
        ({
            let placed = placed_symbol(project, cx, request)(reported)->0;
            placed.signature == signature_of(placed.path, project.nonce)
        }),
{
}

proof fn lemma_be_bytes_len(value: nat, n: nat)
    ensures
        be_bytes(value, n).len() == n,
    decreases n,
{
    if n > 0 {
        lemma_be_bytes_len(value / 256, (n - 1) as nat);
    }
}

spec fn pow256(n: nat) -> nat
    decreases n,
{
    if n == 0 {
        1
    } else {
        256 * pow256((n - 1) as nat)
    }
}

proof fn lemma_be_bytes_injective(a: nat, b: nat, n: nat)
    requires
        be_bytes(a, n) == be_bytes(b, n),
        a < pow256(n),
        b < pow256(n),
    ensures
        a == b,
    decreases n,
{
    if n > 0 {
        let m = (n - 1) as nat;
        let x = be_bytes(a / 256, m);
        let y = be_bytes(b / 256, m);
        lemma_be_bytes_len(a / 256, m);
        lemma_be_bytes_len(b / 256, m);
        assert(be_bytes(a, n).drop_last() =~= x);
        assert(be_bytes(b, n).drop_last() =~= y);
        assert(be_bytes(a, n).last() == (a % 256) as u8);
        assert(be_bytes(b, n).last() == (b % 256) as u8);
        assert(a % 256 == ((a % 256) as u8) as nat && b % 256 == ((b % 256) as u8) as nat);
        assert(a / 256 < pow256(m) && b / 256 < pow256(m));
        lemma_be_bytes_injective(a / 256, b / 256, m);
    }
}

/// What is signed tells any two paths apart: with one secret, paths whose worktrees or texts
/// differ are signed as different messages.
pub proof fn signed_messages_tell_paths_apart(a: ProjectPathView, b: ProjectPathView, nonce: u128)
    requires
        signed_message(a, nonce) == signed_message(b, nonce),
    ensures
        a.worktree_id == b.worktree_id,
        path_text(a.path) == path_text(b.path),
{
    let m = signed_message(a, nonce);
    let ia = be_bytes(a.worktree_id.0 as nat, 8);
    let ib = be_bytes(b.worktree_id.0 as nat, 8);
    let ta = encode_utf8(path_text(a.path));
    let tb = encode_utf8(path_text(b.path));
    let s = be_bytes(nonce as nat, 16);
    lemma_be_bytes_len(a.worktree_id.0 as nat, 8);
    lemma_be_bytes_len(b.worktree_id.0 as nat, 8);
    lemma_be_bytes_len(nonce as nat, 16);
    assert(m.take(8) =~= ia);
    assert(signed_message(b, nonce).take(8) =~= ib);
    assert(pow256(8) == 0x1_0000_0000_0000_0000) by {
        reveal_with_fuel(pow256, 9);
    }
    lemma_be_bytes_injective(a.worktree_id.0 as nat, b.worktree_id.0 as nat, 8);
    assert(m.len() == 24 + ta.len());
    assert(m.len() == 24 + tb.len());
    assert(m.subrange(8, m.len() - 16) =~= ta);
    assert(signed_message(b, nonce).subrange(8, m.len() - 16) =~= tb);
    vstd::utf8::encode_utf8_decode_utf8(path_text(a.path));
    vstd::utf8::encode_utf8_decode_utf8(path_text(b.path));
}

/// A reported symbol becomes a symbol of the project exactly if it lies in a file. The symbols come
/// in the order in which they were reported. Each keeps its name, its kind, and the start and the
/// end of its range, and remembers the server that found it and the worktree it was asked about.
pub proof fn every_symbol_of_a_file_is_placed(
    project: Project,
    cx: AppContext,
    request: SymbolRequest,
    reported: Seq<LspSymbol>,
    placed: Seq<SymbolView>,
)
    requires
        placed == reported.filter_map(placed_symbol(project, cx, request)),
    ensures
        placed.len() == reported.filter(|s: LspSymbol| s.abs_path is Some).len(),
        forall|k: int|
            0 <= k < placed.len() ==> {
                let s = reported.filter(|s: LspSymbol| s.abs_path is Some)[k];
                &&& (#[trigger] placed[k]).name == s.name@
                &&& placed[k].label == s.name@
                &&& placed[k].kind == s.kind
                &&& placed[k].range.start == s.range.start
                &&& placed[k].range.end == s.range.end
                &&& placed[k].language_server_name == request.adapter.name@
                &&& placed[k].source_worktree_id == request.worktree_id
            },
{
    let f = placed_symbol(project, cx, request);
    let p = |s: LspSymbol| s.abs_path is Some;
    lemma_filter_map_matches(reported, f, p);
    assert forall|k: int| 0 <= k < placed.len() implies f(reported.filter(p)[k]) == Some(
        #[trigger] placed[k],
    ) by {}
}

/// A symbol lies below the worktree that contains its file, at the path that leads there. Where no
/// worktree contains it, the path leads from the worktree that the server was asked about.
pub proof fn symbols_lie_where_their_files_do(
    project: Project,
    cx: AppContext,
    request: SymbolRequest,
    reported: LspSymbol,
)
    requires
        reported.abs_path is Some,
    ensures
        placed_symbol(project, cx, request)(reported) is Some,
        ({
            let path = placed_symbol(project, cx, request)(reported)->0.path;
            let abs_path = reported.abs_path->0@;
            let found = project.worktree_containing(cx, abs_path);
            &&& found is Some && found->0.abs_path@.is_prefix_of(abs_path) ==> path.worktree_id
                == found->0.id && found->0.abs_path@ + path.path == abs_path
            &&& found is None ==> path.worktree_id == request.worktree_id
            &&& found is None && plain(request.worktree_abs_path@) && plain(abs_path) ==> walked(
                request.worktree_abs_path@,
                path.path,
            ) == abs_path
        }),
{
    let abs_path = reported.abs_path->0@;
    let found = project.worktree_containing(cx, abs_path);
    if found is Some && found->0.abs_path@.is_prefix_of(abs_path) {
        let base = found->0.abs_path@;
        assert forall|i: int| 0 <= i < base.len() implies base[i] == abs_path[i] by {
            assert(abs_path.subrange(0, base.len() as int)[i] == abs_path[i]);
        }
        assert(base + abs_path.skip(base.len() as int) =~= abs_path);
    }
    if found is None && plain(request.worktree_abs_path@) && plain(abs_path) {
        relative_path_leads_to_path(request.worktree_abs_path@, abs_path);
    }
}

/// A running server is asked for symbols for each worktree on this disk that it works on, with the
/// query and with the root of that worktree.
pub proof fn every_running_server_is_asked(
    project: Project,
    cx: AppContext,
    query: Arc<String>,
    requests: Seq<SymbolRequest>,
    i: int,
) -> (k: int)
    requires
        requests == project.language_server_ids.entries().filter_map(
            request_for(project, cx, query),
        ),
        0 <= i < project.language_server_ids.entries().len(),
        ({
            let e = project.language_server_ids.entries()[i];
            let worktree = project.worktree_of_id(cx, e.0.0);
            &&& worktree is Some
            &&& worktree->0.is_local
            &&& project.language_servers@.contains_key(e.1)
            &&& project.language_servers@[e.1] is Running
        }),
    ensures
        0 <= k < requests.len(),
        ({
            let e = project.language_server_ids.entries()[i];
            let state = project.language_servers@[e.1];
            &&& requests[k].query == query
            &&& requests[k].worktree_id == e.0.0
            &&& requests[k].worktree_abs_path == project.worktree_of_id(cx, e.0.0)->0.abs_path
            &&& requests[k].server == state->server
            &&& requests[k].adapter == state->adapter
            &&& requests[k].language == state->language
        }),
{
    let es = project.language_server_ids.entries();
    let f = request_for(project, cx, query);
    lemma_filter_map_has(es, f, i);
    let q = f(es[i])->0;
    choose|k: int| 0 <= k < requests.len() && requests[k] == q
}

/// Only servers that run are asked, and only for worktrees on this disk.
pub proof fn only_running_servers_are_asked(
    project: Project,
    cx: AppContext,
    query: Arc<String>,
    requests: Seq<SymbolRequest>,
    k: int,
) -> (i: int)
    requires
        requests == project.language_server_ids.entries().filter_map(
            request_for(project, cx, query),
        ),
        0 <= k < requests.len(),
    ensures
        0 <= i < project.language_server_ids.entries().len(),
        ({
            let e = project.language_server_ids.entries()[i];
            let worktree = project.worktree_of_id(cx, e.0.0);
            &&& worktree is Some
            &&& worktree->0.is_local
            &&& project.language_servers@.contains_key(e.1)
            &&& project.language_servers@[e.1] is Running
            &&& requests[k].server == project.language_servers@[e.1]->server
            &&& requests[k].worktree_id == e.0.0
        }),
{
    lemma_filter_map_from(project.language_server_ids.entries(), request_for(project, cx, query), k)
}

/// A host opens the buffer of a symbol that it has placed below a worktree as the very file in which
/// the server reported the symbol, and with the server that reported it.
pub proof fn symbols_are_opened_where_they_were_reported(
    r: Result<SymbolBuffer, ProjectError>,
    project: Project,
    cx: AppContext,
    request: SymbolRequest,
    reported: LspSymbol,
)
    requires
        !project.is_guest(),
        reported.abs_path is Some,
        ({
            let symbol = placed_symbol(project, cx, request)(reported)->0;
            let abs_path = reported.abs_path->0@;
            let found = project.worktree_containing(cx, abs_path);
            &&& is_symbol_buffer(r, project, cx, symbol)
            &&& project.language_server_ids@.contains_key(
                (request.worktree_id, request.adapter.name@),
            )
            &&& found is Some
            &&& project.worktree_of_id(cx, found->0.id) == found
            &&& found->0.is_local
            &&& found->0.abs_path@.is_prefix_of(abs_path)
            &&& descending(abs_path.skip(found->0.abs_path@.len() as int))
        }),
    ensures
        r is Ok,
        r->Ok_0 is Local,
        r->Ok_0->document@ == reported.abs_path->0@,
        r->Ok_0->server_id == project.language_server_ids@[(
            request.worktree_id,
            request.adapter.name@,
        )],
{
    let abs_path = reported.abs_path->0@;
    join_undoes_strip_prefix(project.worktree_containing(cx, abs_path)->0.abs_path@, abs_path);
}

/// Where the buffer of a symbol cannot be opened, the error says why: the project of a guest is not
/// shared, no server works under the name, or the worktree is not on this disk.
pub proof fn symbols_without_a_place_are_refused(
    r: Result<SymbolBuffer, ProjectError>,
    project: Project,
    cx: AppContext,
    symbol: SymbolView,
)
    requires
        is_symbol_buffer(r, project, cx, symbol),
    ensures
        project.is_guest() && project.remote_id_of() is Some ==> r is Ok && r->Ok_0 is Host
            && r->Ok_0->project_id == project.remote_id_of()->0,
        project.is_guest() && project.remote_id_of() is None ==> r is Err
            && r->Err_0 is ProjectNotShared,
        !project.is_guest() && !project.language_server_ids@.contains_key(
            (symbol.source_worktree_id, symbol.language_server_name),
        ) ==> r is Err && r->Err_0 is NoSuchServer,
        !project.is_guest() && project.language_server_ids@.contains_key(
            (symbol.source_worktree_id, symbol.language_server_name),
        ) && (project.worktree_of_id(cx, symbol.path.worktree_id) is None
            || !project.worktree_of_id(cx, symbol.path.worktree_id)->0.is_local) ==> r is Err
            && r->Err_0 is NoSuchWorktree,
{
}

/// A message without both ends of a range, or with a signature of the wrong length, is refused.
/// Every other one is read, with the label that is given for it, or else with its name.
pub proof fn complete_symbols_are_read(m: SymbolMessage, label: Option<String>)
    ensures
        m.start is None || m.end is None ==> read_symbol(m, label) == Err::<
            SymbolView,
            ProjectError,
        >(ProjectError::InvalidSymbolPosition),
        m.start is Some && m.end is Some && m.signature@.len() != 32 ==> read_symbol(m, label)
            == Err::<SymbolView, ProjectError>(ProjectError::InvalidSymbolSignature),
        m.start is Some && m.end is Some && m.signature@.len() == 32 ==> {
            let r = read_symbol(m, label);
            &&& r is Ok
            &&& r->Ok_0.name == m.name@
            &&& r->Ok_0.kind == m.kind
            &&& r->Ok_0.range.start == m.start->0
            &&& r->Ok_0.range.end == m.end->0
            &&& r->Ok_0.path.path == m.path@
            &&& r->Ok_0.language_server_name == m.language_server_name@
            &&& r->Ok_0.signature == m.signature@
            &&& label is Some ==> r->Ok_0.label == label->0@
            &&& label is None ==> r->Ok_0.label == m.name@
        },
{
}

/// What is signed depends on the whole secret: with different secrets, a path is signed as different
/// messages.
pub proof fn signed_messages_tell_secrets_apart(path: ProjectPathView, a: u128, b: u128)
    requires
        signed_message(path, a) == signed_message(path, b),
    ensures
        a == b,
{
    let m = signed_message(path, a);
    lemma_be_bytes_len(path.worktree_id.0 as nat, 8);
    lemma_be_bytes_len(a as nat, 16);
    lemma_be_bytes_len(b as nat, 16);
    assert(m.skip(m.len() - 16) =~= be_bytes(a as nat, 16));
    assert(signed_message(path, b).skip(m.len() - 16) =~= be_bytes(b as nat, 16));
    assert(pow256(16) == 0x1_0000_0000_0000_0000_0000_0000_0000_0000) by {
        reveal_with_fuel(pow256, 17);
    }
    lemma_be_bytes_injective(a as nat, b as nat, 16);
}

/// The bytes of a number, read with the most significant first, give the number.
pub proof fn bytes_are_in_big_endian_order(value: nat, n: nat, i: int)
    requires
        0 <= i < n,
    ensures
        be_bytes(value, n).len() == n,
        be_bytes(value, n)[n - 1] == value % 256,
        i < n - 1 ==> be_bytes(value, n)[i] == be_bytes(value / 256, (n - 1) as nat)[i],
{
    lemma_be_bytes_len(value, n);
    lemma_be_bytes_len(value / 256, (n - 1) as nat);
}

} // verus!
