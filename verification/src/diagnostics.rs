//! The problems that language servers report.

use crate::ids::LanguageServerId;
use crate::model::{DiagnosticSummary, PointUtf16};
use crate::order::Key;
use crate::path::{path_text, Path};
use crate::sort::{has_key, sort_by_key, stable_sort};
use vstd::prelude::*;

verus! {

/// How bad a problem is.
#[derive(Clone, Copy, Debug, PartialEq, Eq, Structural)]
pub enum DiagnosticSeverity {
    Error,
    Warning,
    Information,
    Hint,
}

#[derive(Clone, Copy, Debug, PartialEq, Eq, Structural)]
pub enum DiagnosticTag {
    Unnecessary,
    Deprecated,
}

#[derive(Clone, Copy, Debug, PartialEq, Eq, Structural)]
pub struct TextRange {
    pub start: PointUtf16,
    pub end: PointUtf16,
}

/// A place that has to do with a problem.
#[derive(Debug, PartialEq, Eq)]
pub struct RelatedInformation {
    pub uri: String,
    pub range: TextRange,
    pub message: String,
}

/// A problem as a language server reports it.
#[derive(Debug, PartialEq, Eq)]
pub struct LspDiagnostic {
    pub range: TextRange,
    pub severity: Option<DiagnosticSeverity>,
    pub code: Option<String>,
    pub source: Option<String>,
    pub message: String,
    pub related_information: Option<Vec<RelatedInformation>>,
    pub tags: Option<Vec<DiagnosticTag>>,
}

/// The problems that a server reports for a document.
#[derive(Debug, PartialEq, Eq)]
pub struct PublishDiagnosticsParams {
    pub uri: String,
    pub diagnostics: Vec<LspDiagnostic>,
    pub version: Option<i32>,
}

/// A problem, or a note that belongs to the problem of its group.
#[derive(Debug, PartialEq, Eq)]
pub struct Diagnostic {
    pub source: Option<String>,
    pub code: Option<String>,
    pub severity: DiagnosticSeverity,
    pub message: String,
    pub group_id: usize,
    pub is_primary: bool,
    pub is_valid: bool,
    pub is_disk_based: bool,
    pub is_unnecessary: bool,
}

#[derive(Debug, PartialEq, Eq)]
pub struct DiagnosticEntry {
    pub range: TextRange,
    pub diagnostic: Diagnostic,
}

impl Clone for DiagnosticEntry {
    fn clone(&self) -> (r: Self)
        ensures
            r == *self,
    {
        DiagnosticEntry {
            range: self.range,
            diagnostic: Diagnostic {
                source: clone_text(&self.diagnostic.source),
                code: clone_text(&self.diagnostic.code),
                severity: self.diagnostic.severity,
                message: self.diagnostic.message.clone(),
                group_id: self.diagnostic.group_id,
                is_primary: self.diagnostic.is_primary,
                is_valid: self.diagnostic.is_valid,
                is_disk_based: self.diagnostic.is_disk_based,
                is_unnecessary: self.diagnostic.is_unnecessary,
            },
        }
    }
}

pub(crate) fn clone_text(text: &Option<String>) -> (r: Option<String>)
    ensures
        r == *text,
{
    match text {
        Some(t) => Some(t.clone()),
        None => None,
    }
}

/// What an optional text holds.
pub open spec fn text_view(text: Option<String>) -> Option<Seq<char>> {
    match text {
        Some(t) => Some(t@),
        None => None,
    }
}

fn same_text(a: &Option<String>, b: &Option<String>) -> (r: bool)
    ensures
        r == (text_view(*a) == text_view(*b)),
{
    match (a, b) {
        (Some(x), Some(y)) => *x == *y,
        (None, None) => true,
        _ => false,
    }
}

/// The place of a severity in the order of gravity; one that is not given comes first.
pub open spec fn gravity(severity: Option<DiagnosticSeverity>) -> usize {
    match severity {
        None => 0,
        Some(DiagnosticSeverity::Error) => 1,
        Some(DiagnosticSeverity::Warning) => 2,
        Some(DiagnosticSeverity::Information) => 3,
        Some(DiagnosticSeverity::Hint) => 4,
    }
}

fn gravity_of(severity: Option<DiagnosticSeverity>) -> (r: usize)
    ensures
        r == gravity(severity),
{
    match severity {
        None => 0,
        Some(DiagnosticSeverity::Error) => 1,
        Some(DiagnosticSeverity::Warning) => 2,
        Some(DiagnosticSeverity::Information) => 3,
        Some(DiagnosticSeverity::Hint) => 4,
    }
}

/// What identifies a problem among those of a document.
pub struct ProblemKey {
    pub source: Option<Seq<char>>,
    pub code: Option<Seq<char>>,
    pub range: TextRange,
}

pub open spec fn problem_key(d: LspDiagnostic) -> ProblemKey {
    ProblemKey { source: text_view(d.source), code: text_view(d.code), range: d.range }
}

pub open spec fn related(d: LspDiagnostic) -> Seq<RelatedInformation> {
    match d.related_information {
        Some(infos) => infos@,
        None => Seq::empty(),
    }
}

/// The place at `k` of what `d` relates to is where the problem `p` stands, and `p` has the source
/// and the code of `d`.
pub open spec fn points_at(d: LspDiagnostic, k: int, p: LspDiagnostic) -> bool {
    &&& 0 <= k < related(d).len()
    &&& problem_key(p) == (ProblemKey {
        source: text_view(d.source),
        code: text_view(d.code),
        range: related(d)[k].range,
    })
}

/// The problem at `i` supports one before it: it relates to the place of a problem that has the
/// same source and code and supports none itself.
pub open spec fn supports(ds: Seq<LspDiagnostic>, i: int) -> bool
    decreases i,
{
    exists|j: int, k: int|
        0 <= j < i && !supports(ds, j) && #[trigger] points_at(ds[i], k, ds[j])
}

/// How many of the first `n` problems support none before them.
pub open spec fn groups(ds: Seq<LspDiagnostic>, n: int) -> nat
    decreases n,
{
    if n <= 0 {
        0
    } else {
        groups(ds, n - 1) + (if supports(ds, n - 1) {
            0nat
        } else {
            1nat
        })
    }
}

pub open spec fn is_unnecessary(d: LspDiagnostic) -> bool {
    match d.tags {
        Some(tags) => tags@.contains(DiagnosticTag::Unnecessary),
        None => false,
    }
}

/// One of the texts is the source of the problem.
pub open spec fn comes_from(d: LspDiagnostic, sources: Seq<String>) -> bool {
    d.source is Some && exists|i: int|
        0 <= i < sources.len() && #[trigger] sources[i]@ == d.source->0@
}

/// The entry for a problem that heads a group.
pub open spec fn primary_entry(d: LspDiagnostic, group_id: usize, is_disk_based: bool) -> DiagnosticEntry {
    DiagnosticEntry {
        range: d.range,
        diagnostic: Diagnostic {
            source: d.source,
            code: d.code,
            severity: match d.severity {
                Some(s) => s,
                None => DiagnosticSeverity::Error,
            },
            message: d.message,
            group_id,
            is_primary: true,
            is_valid: true,
            is_disk_based,
            is_unnecessary: is_unnecessary(d),
        },
    }
}

/// The entry for a place of the same document that the head of a group relates to.
pub open spec fn note_entry(
    d: LspDiagnostic,
    uri: Seq<char>,
    group_id: usize,
    is_disk_based: bool,
) -> spec_fn(RelatedInformation) -> Option<DiagnosticEntry> {
    |info: RelatedInformation|
        if info.uri@ == uri && info.message@.len() > 0 {
            Some(
                DiagnosticEntry {
                    range: info.range,
                    diagnostic: Diagnostic {
                        source: d.source,
                        code: d.code,
                        severity: DiagnosticSeverity::Information,
                        message: info.message,
                        group_id,
                        is_primary: false,
                        is_valid: true,
                        is_disk_based,
                        is_unnecessary: false,
                    },
                },
            )
        } else {
            None
        }
}

/// The entries for the first `n` problems: for each that heads a group its own, and those for the
/// places that it relates to.
pub open spec fn entries(
    ds: Seq<LspDiagnostic>,
    n: int,
    uri: Seq<char>,
    sources: Seq<String>,
    first_group: usize,
) -> Seq<DiagnosticEntry>
    decreases n,
{
    if n <= 0 {
        Seq::empty()
    } else {
        let rest = entries(ds, n - 1, uri, sources, first_group);
        let d = ds[n - 1];
        if supports(ds, n - 1) {
            rest
        } else {
            let group_id = (first_group + groups(ds, n - 1)) as usize;
            let disk = comes_from(d, sources);
            rest.push(primary_entry(d, group_id, disk)) + related(d).filter_map(
                note_entry(d, uri, group_id, disk),
            )
        }
    }
}

/// The last of the first `n` problems that supports another one and has the given key.
pub open spec fn support_at(ds: Seq<LspDiagnostic>, n: int, key: ProblemKey) -> Option<int>
    decreases n,
{
    if n <= 0 {
        None
    } else if supports(ds, n - 1) && problem_key(ds[n - 1]) == key {
        Some(n - 1)
    } else {
        support_at(ds, n - 1, key)
    }
}

/// An entry with what a supporting problem at its place says of it.
pub open spec fn with_support(ds: Seq<LspDiagnostic>) -> spec_fn(DiagnosticEntry) -> DiagnosticEntry {
    |e: DiagnosticEntry|
        if e.diagnostic.is_primary {
            e
        } else {
            match support_at(
                ds,
                ds.len() as int,
                ProblemKey {
                    source: text_view(e.diagnostic.source),
                    code: text_view(e.diagnostic.code),
                    range: e.range,
                },
            ) {
                Some(i) => DiagnosticEntry {
                    range: e.range,
                    diagnostic: Diagnostic {
                        severity: match ds[i].severity {
                            Some(s) => s,
                            None => e.diagnostic.severity,
                        },
                        is_unnecessary: is_unnecessary(ds[i]),
                        ..e.diagnostic
                    },
                },
                None => e,
            }
        }
}

pub open spec fn keyed_by_gravity() -> spec_fn(LspDiagnostic) -> (usize, LspDiagnostic) {
    |d: LspDiagnostic| (gravity(d.severity), d)
}

/// The problems, the gravest first; equally grave ones stay in their order.
pub open spec fn by_gravity(ds: Seq<LspDiagnostic>) -> Seq<LspDiagnostic> {
    stable_sort(ds.map_values(keyed_by_gravity())).map_values(|p: (usize, LspDiagnostic)| p.1)
}

/// The entries for reported problems.
pub open spec fn grouped(
    ds: Seq<LspDiagnostic>,
    uri: Seq<char>,
    sources: Seq<String>,
    first_group: usize,
) -> Seq<DiagnosticEntry> {
    entries(ds, ds.len() as int, uri, sources, first_group).map_values(with_support(ds))
}

proof fn lemma_groups_bound(ds: Seq<LspDiagnostic>, n: int, m: int)
    requires
        0 <= n <= m,
    ensures
        groups(ds, n) <= groups(ds, m) <= m,
        groups(ds, n) <= n,
    decreases m,
{
    if n < m {
        lemma_groups_bound(ds, n, m - 1);
    } else if n > 0 {
        lemma_groups_bound(ds, n - 1, n - 1);
    }
}

fn sort_by_gravity(ds: Vec<LspDiagnostic>) -> (r: Vec<LspDiagnostic>)
    ensures
        r@ == by_gravity(ds@),
{
    let ghost all = ds@;
    let n: usize = ds.len();
    let mut ds = ds;
    let mut turned: Vec<(usize, LspDiagnostic)> = Vec::new();
    for i in 0..n
        invariant
            n == all.len(),
            ds@ == all.take(n - i),
            turned@ == all.skip(n - i).map_values(keyed_by_gravity()).reverse(),
    {
        match ds.pop() {
            Some(d) => {
                turned.push((gravity_of(d.severity), d));
                assert(ds@ =~= all.take(n - i - 1));
                assert(turned@ =~= all.skip(n - i - 1).map_values(keyed_by_gravity()).reverse());
            },
            None => {},
        }
    }
    let ghost keyed = all.map_values(keyed_by_gravity());
    assert(turned@ =~= keyed.reverse());
    let mut items: Vec<(usize, LspDiagnostic)> = Vec::new();
    for i in 0..n
        invariant
            n == keyed.len(),
            turned@ == keyed.skip(i as int).reverse(),
            items@ == keyed.take(i as int),
    {
        assert(keyed.skip(i as int).reverse().last() == keyed[i as int]);
        match turned.pop() {
            Some(x) => {
                items.push(x);
                assert(turned@ =~= keyed.skip(i + 1).reverse());
                assert(items@ =~= keyed.take(i + 1));
            },
            None => {},
        }
    }
    assert(items@ =~= keyed);
    let mut sorted = sort_by_key(items);
    let ghost s = sorted@;
    let ghost t = s.map_values(|p: (usize, LspDiagnostic)| p.1);
    let m: usize = sorted.len();
    let mut backwards: Vec<LspDiagnostic> = Vec::new();
    for i in 0..m
        invariant
            m == s.len(),
            t == s.map_values(|p: (usize, LspDiagnostic)| p.1),
            sorted@ == s.take(m - i),
            backwards@ == t.skip(m - i).reverse(),
    {
        match sorted.pop() {
            Some(p) => {
                backwards.push(p.1);
                assert(sorted@ =~= s.take(m - i - 1));
                assert(backwards@ =~= t.skip(m - i - 1).reverse());
            },
            None => {},
        }
    }
    assert(backwards@ =~= t.reverse());
    let mut r: Vec<LspDiagnostic> = Vec::new();
    for i in 0..m
        invariant
            m == t.len(),
            backwards@ == t.skip(i as int).reverse(),
            r@ == t.take(i as int),
    {
        assert(t.skip(i as int).reverse().last() == t[i as int]);
        match backwards.pop() {
            Some(x) => {
                r.push(x);
                assert(backwards@ =~= t.skip(i + 1).reverse());
                assert(r@ =~= t.take(i + 1));
            },
            None => {},
        }
    }
    assert(r@ =~= t);
    r
}

/// Tells whether the problem at `i` supports one before it, given which of those do.
fn find_support(ds: &Vec<LspDiagnostic>, i: usize, known: &Vec<bool>) -> (r: bool)
    requires
        i < ds@.len(),
        known@.len() == i,
        forall|j: int| 0 <= j < i ==> #[trigger] known@[j] == supports(ds@, j),
    ensures
        r == supports(ds@, i as int),
{
    let d = &ds[i];
    match &d.related_information {
        Some(infos) => {
            for k in 0..infos.len()
                invariant
                    i < ds@.len(),
                    d == ds@[i as int],
                    d.related_information == Some(*infos),
                    known@.len() == i,
                    forall|j: int| 0 <= j < i ==> #[trigger] known@[j] == supports(ds@, j),
                    forall|j: int, l: int|
                        0 <= j < i && 0 <= l < k && !supports(ds@, j) ==> !#[trigger] points_at(
                            ds@[i as int],
                            l,
                            ds@[j],
                        ),
            {
                for j in 0..i
                    invariant
                        i < ds@.len(),
                        d == ds@[i as int],
                        d.related_information == Some(*infos),
                        k < infos@.len(),
                        known@.len() == i,
                        forall|m: int| 0 <= m < i ==> #[trigger] known@[m] == supports(ds@, m),
                        forall|m: int|
                            0 <= m < j && !supports(ds@, m) ==> !#[trigger] points_at(
                                ds@[i as int],
                                k as int,
                                ds@[m],
                            ),
                {
                    if !known[j] {
                        let p = &ds[j];
                        if same_text(&p.source, &d.source) && same_text(&p.code, &d.code) && p.range
                            == infos[k].range {
                            assert(points_at(ds@[i as int], k as int, ds@[j as int]));
                            return true;
                        }
                    }
                }
            }
            assert forall|j: int, l: int|
                0 <= j < i && !supports(ds@, j) implies !#[trigger] points_at(
                ds@[i as int],
                l,
                ds@[j],
            ) by {
                if 0 <= l < infos@.len() {
                } else {
                    assert(related(ds@[i as int]) == infos@);
                }
            }
            false
        },
        None => false,
    }
}

fn has_unnecessary_tag(d: &LspDiagnostic) -> (r: bool)
    ensures
        r == is_unnecessary(*d),
{
    match &d.tags {
        Some(tags) => {
            for i in 0..tags.len()
                invariant
                    d.tags == Some(*tags),
                    forall|j: int| 0 <= j < i ==> tags@[j] != DiagnosticTag::Unnecessary,
            {
                if tags[i] == DiagnosticTag::Unnecessary {
                    assert(tags@[i as int] == DiagnosticTag::Unnecessary);
                    return true;
                }
            }
            false
        },
        None => false,
    }
}

fn has_source_among(d: &LspDiagnostic, sources: &Vec<String>) -> (r: bool)
    ensures
        r == comes_from(*d, sources@),
{
    match &d.source {
        Some(source) => {
            for i in 0..sources.len()
                invariant
                    d.source == Some(*source),
                    forall|j: int| 0 <= j < i ==> (#[trigger] sources@[j])@ != source@,
            {
                if sources[i] == *source {
                    assert(sources@[i as int]@ == d.source->0@);
                    return true;
                }
            }
            false
        },
        None => false,
    }
}

fn push_notes(
    out: &mut Vec<DiagnosticEntry>,
    d: &LspDiagnostic,
    uri: &String,
    group_id: usize,
    is_disk_based: bool,
)
    ensures
        final(out)@ == old(out)@ + related(*d).filter_map(
            note_entry(*d, uri@, group_id, is_disk_based),
        ),
{
    let ghost f = note_entry(*d, uri@, group_id, is_disk_based);
    match &d.related_information {
        Some(infos) => {
            proof {
                crate::seqs::lemma_take_all(infos@);
                assert(out@ + Seq::<DiagnosticEntry>::empty() =~= out@);
            }
            for k in 0..infos.len()
                invariant
                    f == note_entry(*d, uri@, group_id, is_disk_based),
                    out@ == old(out)@ + infos@.take(k as int).filter_map(f),
            {
                let info = &infos[k];
                let ghost before = infos@.take(k as int).filter_map(f);
                proof {
                    crate::seqs::lemma_filter_map_step(infos@, f, k as int);
                }
                let has_text = !text_is_empty(&info.message);
                if info.uri == *uri && has_text {
                    let e = DiagnosticEntry {
                        range: info.range,
                        diagnostic: Diagnostic {
                            source: clone_text(&d.source),
                            code: clone_text(&d.code),
                            severity: DiagnosticSeverity::Information,
                            message: info.message.clone(),
                            group_id,
                            is_primary: false,
                            is_valid: true,
                            is_disk_based,
                            is_unnecessary: false,
                        },
                    };
                    out.push(e);
                    assert(out@ =~= old(out)@ + before.push(e));
                }
            }
        },
        None => {
            assert(related(*d).filter_map(f) =~= Seq::<DiagnosticEntry>::empty());
            assert(out@ + Seq::<DiagnosticEntry>::empty() =~= out@);
        },
    }
}

pub(crate) fn text_is_empty(text: &String) -> (r: bool)
    ensures
        r == (text@.len() == 0),
{
    text.as_str().is_empty()
}

/// Turns reported problems into entries. The gravest come first, so that the head of a group is
/// never less grave than a problem that supports it. Each group gets the next number.
pub fn group_diagnostics(
    params: PublishDiagnosticsParams,
    disk_based_sources: &Vec<String>,
    next_group_id: &mut usize,
) -> (r: Vec<DiagnosticEntry>)
    requires
        *old(next_group_id) + params.diagnostics@.len() <= usize::MAX,
    ensures
        r@ == grouped(
            by_gravity(params.diagnostics@),
            params.uri@,
            disk_based_sources@,
            *old(next_group_id),
        ),
        *final(next_group_id) == *old(next_group_id) + groups(
            by_gravity(params.diagnostics@),
            params.diagnostics@.len() as int,
        ),
        forall|q: int|
            0 <= q < params.diagnostics@.len() && (
            #[trigger] params.diagnostics@[q]).related_information is None ==> exists|i: int|
                0 <= i < r@.len() && {
                    let d = params.diagnostics@[q];
                    &&& (#[trigger] r@[i]).range == d.range
                    &&& r@[i].diagnostic.message == d.message
                    &&& r@[i].diagnostic.is_primary
                    &&& d.severity is Some ==> r@[i].diagnostic.severity == d.severity->0
                    &&& d.severity is None ==> r@[i].diagnostic.severity is Error
                },
{
    let uri = params.uri;
    let ghost reported = params.diagnostics@;
    let ds = sort_by_gravity(params.diagnostics);
    proof {
        crate::sort::sorting_orders_and_keeps(reported.map_values(keyed_by_gravity()));
    }
    let n: usize = ds.len();
    let first: usize = *next_group_id;
    let mut known: Vec<bool> = Vec::new();
    let mut list: Vec<DiagnosticEntry> = Vec::new();
    for i in 0..n
        invariant
            n == ds@.len(),
            n == reported.len(),
            first + n <= usize::MAX,
            known@.len() == i,
            forall|j: int| 0 <= j < i ==> #[trigger] known@[j] == supports(ds@, j),
            *next_group_id == first + groups(ds@, i as int),
            list@ == entries(ds@, i as int, uri@, disk_based_sources@, first),
    {
        proof {
            lemma_groups_bound(ds@, i as int, i as int);
        }
        let supporting = find_support(&ds, i, &known);
        if !supporting {
            let d = &ds[i];
            let group_id: usize = *next_group_id;
            let is_disk_based = has_source_among(d, disk_based_sources);
            let unnecessary = has_unnecessary_tag(d);
            let severity = match d.severity {
                Some(s) => s,
                None => DiagnosticSeverity::Error,
            };
            list.push(
                DiagnosticEntry {
                    range: d.range,
                    diagnostic: Diagnostic {
                        source: clone_text(&d.source),
                        code: clone_text(&d.code),
                        severity,
                        message: d.message.clone(),
                        group_id,
                        is_primary: true,
                        is_valid: true,
                        is_disk_based,
                        is_unnecessary: unnecessary,
                    },
                },
            );
            push_notes(&mut list, d, &uri, group_id, is_disk_based);
            *next_group_id = group_id + 1;
        }
        known.push(supporting);
    }
    let ghost plain = list@;
    let total: usize = list.len();
    for e in 0..total
        invariant
            n == ds@.len(),
            known@.len() == n,
            forall|j: int| 0 <= j < n ==> #[trigger] known@[j] == supports(ds@, j),
            total == plain.len(),
            list@.len() == total,
            forall|m: int| 0 <= m < e ==> #[trigger] list@[m] == with_support(ds@)(plain[m]),
            forall|m: int| e <= m < total ==> #[trigger] list@[m] == plain[m],
    {
        assert(list@[e as int] == plain[e as int]);
        if !list[e].diagnostic.is_primary {
            if let Some(i) = find_support_at(&ds, &known, &list[e]) {
                let old_entry = &list[e];
                let severity = match ds[i].severity {
                    Some(s) => s,
                    None => old_entry.diagnostic.severity,
                };
                let unnecessary = has_unnecessary_tag(&ds[i]);
                let mut entry = old_entry.clone();
                entry.diagnostic.severity = severity;
                entry.diagnostic.is_unnecessary = unnecessary;
                list.set(e, entry);
            }
        }
    }
    assert(list@ =~= grouped(ds@, uri@, disk_based_sources@, first));
    proof {
        assert forall|q: int|
            0 <= q < reported.len() && (#[trigger] reported[q]).related_information is None implies exists|
            i: int,
        |
            0 <= i < list@.len() && {
                let d = reported[q];
                &&& (#[trigger] list@[i]).range == d.range
                &&& list@[i].diagnostic.message == d.message
                &&& list@[i].diagnostic.is_primary
                &&& d.severity is Some ==> list@[i].diagnostic.severity == d.severity->0
                &&& d.severity is None ==> list@[i].diagnostic.severity is Error
            } by {
            let i = every_lone_problem_has_its_entry(
                reported,
                uri@,
                disk_based_sources@,
                first,
                q,
            );
            assert(list@[i].range == reported[q].range);
        }
    }
    list
}

fn find_support_at(ds: &Vec<LspDiagnostic>, known: &Vec<bool>, e: &DiagnosticEntry) -> (r: Option<
    usize,
>)
    requires
        known@.len() == ds@.len(),
        forall|j: int| 0 <= j < ds@.len() ==> #[trigger] known@[j] == supports(ds@, j),
    ensures
        r matches Some(i) ==> i < ds@.len(),
        support_at(
            ds@,
            ds@.len() as int,
            ProblemKey {
                source: text_view(e.diagnostic.source),
                code: text_view(e.diagnostic.code),
                range: e.range,
            },
        ) == (match r {
            Some(i) => Some(i as int),
            None => None,
        }),
{
    let ghost key = ProblemKey {
        source: text_view(e.diagnostic.source),
        code: text_view(e.diagnostic.code),
        range: e.range,
    };
    let mut n: usize = ds.len();
    while n > 0
        invariant
            n <= ds@.len(),
            known@.len() == ds@.len(),
            forall|j: int| 0 <= j < ds@.len() ==> #[trigger] known@[j] == supports(ds@, j),
            key == (ProblemKey {
                source: text_view(e.diagnostic.source),
                code: text_view(e.diagnostic.code),
                range: e.range,
            }),
            support_at(ds@, ds@.len() as int, key) == support_at(ds@, n as int, key),
        decreases n,
    {
        let i: usize = n - 1;
        if known[i] && same_text(&ds[i].source, &e.diagnostic.source) && same_text(
            &ds[i].code,
            &e.diagnostic.code,
        ) && ds[i].range == e.range {
            return Some(i);
        }
        n = i;
    }
    None
}

pub open spec fn primary_errors(entries: Seq<DiagnosticEntry>, severity: DiagnosticSeverity) -> nat
    decreases entries.len(),
{
    if entries.len() == 0 {
        0
    } else {
        let d = entries.last().diagnostic;
        primary_errors(entries.drop_last(), severity) + (if d.is_primary && d.severity == severity {
            1nat
        } else {
            0nat
        })
    }
}

proof fn lemma_primary_errors_bound(entries: Seq<DiagnosticEntry>, severity: DiagnosticSeverity)
    ensures
        primary_errors(entries, severity) <= entries.len(),
    decreases entries.len(),
{
    if entries.len() > 0 {
        lemma_primary_errors_bound(entries.drop_last(), severity);
    }
}

/// What is sent of a summary.
#[derive(Debug, PartialEq, Eq)]
pub struct SummaryMessage {
    pub path: String,
    pub language_server_id: u64,
    pub error_count: u32,
    pub warning_count: u32,
}

impl DiagnosticSummary {
    /// Counts the errors and warnings that head a group.
    pub fn new(diagnostics: &Vec<DiagnosticEntry>) -> (r: Self)
        ensures
            r.error_count == primary_errors(diagnostics@, DiagnosticSeverity::Error),
            r.warning_count == primary_errors(diagnostics@, DiagnosticSeverity::Warning),
    {
        let mut r = DiagnosticSummary { error_count: 0, warning_count: 0 };
        proof {
            crate::seqs::lemma_take_all(diagnostics@);
        }
        for i in 0..diagnostics.len()
            invariant
                r.error_count == primary_errors(
                    diagnostics@.take(i as int),
                    DiagnosticSeverity::Error,
                ),
                r.warning_count == primary_errors(
                    diagnostics@.take(i as int),
                    DiagnosticSeverity::Warning,
                ),
        {
            proof {
                let head = diagnostics@.take(i as int);
                assert(diagnostics@.take(i + 1).drop_last() =~= head);
                lemma_primary_errors_bound(head, DiagnosticSeverity::Error);
                lemma_primary_errors_bound(head, DiagnosticSeverity::Warning);
            }
            let d = &diagnostics[i].diagnostic;
            if d.is_primary {
                match d.severity {
                    DiagnosticSeverity::Error => {
                        r.error_count = r.error_count + 1;
                    },
                    DiagnosticSeverity::Warning => {
                        r.warning_count = r.warning_count + 1;
                    },
                    _ => {},
                }
            }
        }
        r
    }

    pub fn is_empty(&self) -> (r: bool)
        ensures
            r == (self.error_count == 0 && self.warning_count == 0),
    {
        self.error_count == 0 && self.warning_count == 0
    }

    /// The message that carries the summary; counts beyond 32 bits lose their upper bits.
    pub fn to_proto(&self, language_server_id: LanguageServerId, path: &Path) -> (r: SummaryMessage)
        ensures
            r.path@ == path_text(path@),
            r.language_server_id == language_server_id.0 as u64,
            r.error_count == self.error_count as u32,
            r.warning_count == self.warning_count as u32,
    {
        SummaryMessage {
            path: path.to_text(),
            language_server_id: language_server_id.0 as u64,
            error_count: #[verifier::truncate]
            (self.error_count as u32),
            warning_count: #[verifier::truncate]
            (self.warning_count as u32),
        }
    }
}

/// A problem supports only problems that are at least as grave: the head of a group is never less
/// grave than a problem that was found to support it.
pub proof fn heads_are_the_gravest(reported: Seq<LspDiagnostic>, i: int)
    requires
        0 <= i < by_gravity(reported).len(),
        supports(by_gravity(reported), i),
    ensures
        exists|j: int, k: int|
            0 <= j < i && !supports(by_gravity(reported), j) && #[trigger] points_at(
                by_gravity(reported)[i],
                k,
                by_gravity(reported)[j],
            ) && gravity(by_gravity(reported)[j].severity) <= gravity(
                by_gravity(reported)[i].severity,
            ),
{
    let keyed = reported.map_values(keyed_by_gravity());
    let s = stable_sort(keyed);
    let ds = by_gravity(reported);
    crate::sort::sorting_orders_and_keeps(keyed);
    assert forall|m: int| 0 <= m < s.len() implies (#[trigger] s[m]).0 == gravity(s[m].1.severity) by {
        broadcast use vstd::seq_lib::group_to_multiset_ensures;

        assert(s.contains(s[m]));
        assert(s.to_multiset().count(s[m]) > 0);
        assert(keyed.contains(s[m]));
        let q = choose|q: int| 0 <= q < keyed.len() && keyed[q] == s[m];
        assert(keyed[q] == keyed_by_gravity()(reported[q]));
    }
    let (j, k) = choose|j: int, k: int|
        0 <= j < i && !supports(ds, j) && #[trigger] points_at(ds[i], k, ds[j]);
    assert(s[j].0 == gravity(ds[j].severity));
    assert(s[i].0 == gravity(ds[i].severity));
    assert(!<usize as Key>::before(s[i].0, s[j].0));
}

/// The entry at `j` heads the group of the entry at `i`.
pub open spec fn heads(es: Seq<DiagnosticEntry>, j: int, i: int) -> bool {
    &&& 0 <= j <= i < es.len()
    &&& es[j].diagnostic.is_primary
    &&& es[j].diagnostic.group_id == es[i].diagnostic.group_id
}

/// Two entries have the same source and code, and both come from the disk or neither does.
pub open spec fn same_origin(a: DiagnosticEntry, b: DiagnosticEntry) -> bool {
    &&& a.diagnostic.source == b.diagnostic.source
    &&& a.diagnostic.code == b.diagnostic.code
    &&& a.diagnostic.is_disk_based == b.diagnostic.is_disk_based
}

/// The entry at `i` belongs to a group whose head does not come after it and has the same origin.
pub open spec fn has_head(es: Seq<DiagnosticEntry>, i: int) -> bool {
    exists|j: int| #[trigger] heads(es, j, i) && same_origin(es[j], es[i])
}

/// The numbers that entries of the first `n` problems carry.
proof fn lemma_groups_of_entries(
    ds: Seq<LspDiagnostic>,
    n: int,
    uri: Seq<char>,
    sources: Seq<String>,
    first: usize,
)
    requires
        0 <= n,
        first + n <= usize::MAX,
    ensures
        ({
            let es = entries(ds, n, uri, sources, first);
            &&& forall|i: int|
                0 <= i < es.len() ==> first <= (#[trigger] es[i]).diagnostic.group_id < first
                    + groups(ds, n)
            &&& forall|i: int, j: int|
                #[trigger] heads(es, i, j) && es[j].diagnostic.is_primary ==> i == j
            &&& forall|i: int| 0 <= i < es.len() ==> #[trigger] has_head(es, i)
        }),
    decreases n,
{
    if n > 0 {
        lemma_groups_of_entries(ds, n - 1, uri, sources, first);
        lemma_groups_bound(ds, n - 1, n);
        let rest = entries(ds, n - 1, uri, sources, first);
        let es = entries(ds, n, uri, sources, first);
        let d = ds[n - 1];
        if !supports(ds, n - 1) {
            let group_id = (first + groups(ds, n - 1)) as usize;
            let disk = comes_from(d, sources);
            let f = note_entry(d, uri, group_id, disk);
            let notes = related(d).filter_map(f);
            let head = rest.len() as int;
            assert(es == rest.push(primary_entry(d, group_id, disk)) + notes);
            assert forall|i: int| 0 <= i < notes.len() implies !(
            #[trigger] notes[i]).diagnostic.is_primary && notes[i].diagnostic.group_id
                == group_id && same_origin(primary_entry(d, group_id, disk), notes[i]) by {
                assert(notes.contains(notes[i]));
                related(d).lemma_filter_map_contains(f, notes[i]);
            }
            assert(es[head] == primary_entry(d, group_id, disk));
            assert forall|i: int| 0 <= i < head implies #[trigger] es[i] == rest[i] by {}
            assert forall|i: int| head < i < es.len() implies !(
            #[trigger] es[i]).diagnostic.is_primary && es[i].diagnostic.group_id == group_id
                && same_origin(es[head], es[i]) by {
                assert(es[i] == notes[i - head - 1]);
            }
            assert forall|i: int, j: int|
                #[trigger] heads(es, i, j) && es[j].diagnostic.is_primary implies i == j by {
                if j < head {
                    assert(heads(rest, i, j));
                } else if i < head {
                    assert(es[i] == rest[i]);
                    assert(rest[i].diagnostic.group_id < group_id);
                }
            }
            assert forall|i: int| 0 <= i < es.len() implies #[trigger] has_head(es, i) by {
                if i < head {
                    assert(has_head(rest, i));
                    let j = choose|j: int| #[trigger]
                        heads(rest, j, i) && same_origin(rest[j], rest[i]);
                    assert(heads(es, j, i) && same_origin(es[j], es[i]));
                } else {
                    assert(heads(es, head, i) && same_origin(es[head], es[i]));
                }
            }
        }
    }
}

/// Each group of entries has exactly one head, the head comes first, and the notes of the group have
/// its source and its code and come from the disk as it does.
pub proof fn each_group_has_one_head(
    ds: Seq<LspDiagnostic>,
    uri: Seq<char>,
    sources: Seq<String>,
    first: usize,
)
    requires
        first + ds.len() <= usize::MAX,
    ensures
        ({
            let es = grouped(ds, uri, sources, first);
            &&& forall|i: int, j: int|
                #[trigger] heads(es, i, j) && es[j].diagnostic.is_primary ==> i == j
            &&& forall|i: int| 0 <= i < es.len() ==> #[trigger] has_head(es, i)
        }),
{
    lemma_groups_of_entries(ds, ds.len() as int, uri, sources, first);
    let plain = entries(ds, ds.len() as int, uri, sources, first);
    let es = grouped(ds, uri, sources, first);
    assert forall|i: int| 0 <= i < es.len() implies (#[trigger] es[i]).diagnostic.is_primary
        == plain[i].diagnostic.is_primary && es[i].diagnostic.group_id
        == plain[i].diagnostic.group_id && same_origin(es[i], plain[i]) by {
        assert(es[i] == with_support(ds)(plain[i]));
    }
    assert forall|i: int, j: int|
        #[trigger] heads(es, i, j) && es[j].diagnostic.is_primary implies i == j by {
        assert(heads(plain, i, j));
    }
    assert forall|i: int| 0 <= i < es.len() implies #[trigger] has_head(es, i) by {
        assert(has_head(plain, i));
        let j = choose|j: int| #[trigger] heads(plain, j, i) && same_origin(plain[j], plain[i]);
        assert(heads(es, j, i) && same_origin(es[j], es[i]));
    }
}

/// Where the entries of the problem at `p` stand, if it heads a group.
proof fn lemma_entries_at(
    ds: Seq<LspDiagnostic>,
    n: int,
    uri: Seq<char>,
    sources: Seq<String>,
    first: usize,
    p: int,
) -> (i: int)
    requires
        0 <= p < n,
        !supports(ds, p),
    ensures
        ({
            let es = entries(ds, n, uri, sources, first);
            let group_id = (first + groups(ds, p)) as usize;
            let disk = comes_from(ds[p], sources);
            let notes = related(ds[p]).filter_map(note_entry(ds[p], uri, group_id, disk));
            &&& 0 <= i
            &&& i + 1 + notes.len() <= es.len()
            &&& es[i] == primary_entry(ds[p], group_id, disk)
            &&& forall|m: int| 0 <= m < notes.len() ==> es[i + 1 + m] == #[trigger] notes[m]
        }),
    decreases n,
{
    let rest = entries(ds, n - 1, uri, sources, first);
    let es = entries(ds, n, uri, sources, first);
    if p == n - 1 {
        rest.len() as int
    } else {
        let i = lemma_entries_at(ds, n - 1, uri, sources, first, p);
        assert(forall|m: int| 0 <= m < rest.len() ==> es[m] == #[trigger] rest[m]);
        i
    }
}

/// Where the entry at `i` comes from: the head of its group, and the place among what it relates
/// to, or -1 for the entry of the head itself.
proof fn lemma_entry_from(
    ds: Seq<LspDiagnostic>,
    n: int,
    uri: Seq<char>,
    sources: Seq<String>,
    first: usize,
    i: int,
) -> (r: (int, int))
    requires
        0 <= i < entries(ds, n, uri, sources, first).len(),
    ensures
        ({
            let e = entries(ds, n, uri, sources, first)[i];
            let (p, k) = r;
            let group_id = (first + groups(ds, p)) as usize;
            let disk = comes_from(ds[p], sources);
            &&& 0 <= p < n
            &&& !supports(ds, p)
            &&& -1 <= k < related(ds[p]).len()
            &&& k == -1 ==> e == primary_entry(ds[p], group_id, disk)
            &&& k >= 0 ==> note_entry(ds[p], uri, group_id, disk)(related(ds[p])[k]) == Some(e)
        }),
    decreases n,
{
    let rest = entries(ds, n - 1, uri, sources, first);
    let es = entries(ds, n, uri, sources, first);
    if i < rest.len() {
        assert(es[i] == rest[i]);
        lemma_entry_from(ds, n - 1, uri, sources, first, i)
    } else {
        let p = n - 1;
        let group_id = (first + groups(ds, p)) as usize;
        let disk = comes_from(ds[p], sources);
        let f = note_entry(ds[p], uri, group_id, disk);
        let notes = related(ds[p]).filter_map(f);
        if i == rest.len() {
            (p, -1)
        } else {
            let k = crate::seqs::lemma_filter_map_from(
                related(ds[p]),
                f,
                i - rest.len() - 1,
            );
            assert(es[i] == notes[i - rest.len() - 1]);
            (p, k)
        }
    }
}

proof fn lemma_support_at(ds: Seq<LspDiagnostic>, n: int, key: ProblemKey)
    ensures
        support_at(ds, n, key) is None ==> forall|m: int|
            0 <= m < n && #[trigger] supports(ds, m) ==> problem_key(ds[m]) != key,
        support_at(ds, n, key) matches Some(i) ==> 0 <= i < n && supports(ds, i) && problem_key(
            ds[i],
        ) == key && forall|m: int|
            i < m < n && #[trigger] supports(ds, m) ==> problem_key(ds[m]) != key,
    decreases n,
{
    if n > 0 && !(supports(ds, n - 1) && problem_key(ds[n - 1]) == key) {
        lemma_support_at(ds, n - 1, key);
    }
}

/// A problem that supports no other has an entry that tells what was reported of it: its range, its
/// message, its source and code, and its severity. Only a problem without a severity counts as an
/// error. It is shown as unnecessary if it is tagged so, and comes from the disk if its source is
/// one of those that do.
pub proof fn every_head_has_its_entry(
    ds: Seq<LspDiagnostic>,
    uri: Seq<char>,
    sources: Seq<String>,
    first: usize,
    p: int,
) -> (i: int)
    requires
        0 <= p < ds.len(),
        !supports(ds, p),
    ensures
        ({
            let es = grouped(ds, uri, sources, first);
            let e = es[i];
            let d = ds[p];
            &&& 0 <= i < es.len()
            &&& e.range == d.range
            &&& e.diagnostic.message == d.message
            &&& e.diagnostic.source == d.source
            &&& e.diagnostic.code == d.code
            &&& d.severity is Some ==> e.diagnostic.severity == d.severity->0
            &&& d.severity is None ==> e.diagnostic.severity is Error
            &&& e.diagnostic.is_primary
            &&& e.diagnostic.is_valid
            &&& e.diagnostic.is_unnecessary <==> d.tags is Some && d.tags->0@.contains(
                DiagnosticTag::Unnecessary,
            )
            &&& e.diagnostic.is_disk_based <==> d.source is Some && exists|q: int|
                0 <= q < sources.len() && (#[trigger] sources[q])@ == d.source->0@
        }),
{
    let i = lemma_entries_at(ds, ds.len() as int, uri, sources, first, p);
    let plain = entries(ds, ds.len() as int, uri, sources, first);
    assert(grouped(ds, uri, sources, first)[i] == with_support(ds)(plain[i]));
    i
}

/// A problem supports another one exactly if it relates to the place of one before it that has the
/// same source and the same code and supports none itself. One that relates to nothing supports
/// none.
pub proof fn problems_support_what_they_relate_to(ds: Seq<LspDiagnostic>, i: int)
    requires
        0 <= i < ds.len(),
    ensures
        supports(ds, i) <==> ds[i].related_information is Some && exists|j: int, k: int|
            #![trigger ds[j], ds[i].related_information->0@[k]]
            0 <= j < i && 0 <= k < ds[i].related_information->0@.len() && !supports(ds, j)
                && ds[j].range == ds[i].related_information->0@[k].range && text_view(ds[j].source)
                == text_view(ds[i].source) && text_view(ds[j].code) == text_view(ds[i].code),
{
    if supports(ds, i) {
        let (j, k) = choose|j: int, k: int|
            0 <= j < i && !supports(ds, j) && #[trigger] points_at(ds[i], k, ds[j]);
        assert(ds[j].range == ds[i].related_information->0@[k].range);
    }
    if ds[i].related_information is Some && exists|j: int, k: int|
        #![trigger ds[j], ds[i].related_information->0@[k]]
        0 <= j < i && 0 <= k < ds[i].related_information->0@.len() && !supports(ds, j)
            && ds[j].range == ds[i].related_information->0@[k].range && text_view(ds[j].source)
            == text_view(ds[i].source) && text_view(ds[j].code) == text_view(ds[i].code) {
        let (j, k) = choose|j: int, k: int|
            #![trigger ds[j], ds[i].related_information->0@[k]]
            0 <= j < i && 0 <= k < ds[i].related_information->0@.len() && !supports(ds, j)
                && ds[j].range == ds[i].related_information->0@[k].range && text_view(ds[j].source)
                == text_view(ds[i].source) && text_view(ds[j].code) == text_view(ds[i].code);
        assert(points_at(ds[i], k, ds[j]));
    }
}

/// Optional texts are the same exactly if both are missing or both hold the same characters.
pub proof fn texts_are_told_apart(a: Option<String>, b: Option<String>)
    ensures
        text_view(a) == text_view(b) <==> (a is None && b is None) || (a is Some && b is Some
            && a->0@ == b->0@),
{
}

/// A place of the same document that the head of a group relates to, and that says something, has a
/// note in that group. The note tells the place and the message, and has the source and the code of
/// the head. It is an information, unless a problem that supports another one is reported at its
/// place: then the last such problem says how grave it is, if it does, and whether it is
/// unnecessary.
pub proof fn every_related_place_has_its_note(
    ds: Seq<LspDiagnostic>,
    uri: Seq<char>,
    sources: Seq<String>,
    first: usize,
    p: int,
    k: int,
) -> (r: (int, int))
    requires
        0 <= p < ds.len(),
        !supports(ds, p),
        ds[p].related_information is Some,
        0 <= k < ds[p].related_information->0@.len(),
        ds[p].related_information->0@[k].uri@ == uri,
        ds[p].related_information->0@[k].message@.len() > 0,
    ensures
        ({
            let es = grouped(ds, uri, sources, first);
            let (h, i) = r;
            let head = es[h];
            let e = es[i];
            let info = ds[p].related_information->0@[k];
            &&& 0 <= h < i < es.len()
            &&& head.diagnostic.is_primary
            &&& head.range == ds[p].range
            &&& head.diagnostic.message == ds[p].message
            &&& e.diagnostic.group_id == head.diagnostic.group_id
            &&& e.diagnostic.is_disk_based == head.diagnostic.is_disk_based
            &&& e.range == info.range
            &&& e.diagnostic.message == info.message
            &&& e.diagnostic.source == ds[p].source
            &&& e.diagnostic.code == ds[p].code
            &&& !e.diagnostic.is_primary
            &&& e.diagnostic.is_valid
            &&& (forall|m: int|
                0 <= m < ds.len() && #[trigger] supports(ds, m) && ds[m].range == info.range
                    && text_view(ds[m].source) == text_view(ds[p].source) ==> text_view(ds[m].code)
                    != text_view(ds[p].code)) ==> e.diagnostic.severity is Information
                && !e.diagnostic.is_unnecessary
            &&& forall|m: int|
                0 <= m < ds.len() && #[trigger] supports(ds, m) && ds[m].range == info.range
                    && text_view(ds[m].source) == text_view(ds[p].source) && text_view(ds[m].code)
                    == text_view(ds[p].code) && (forall|l: int|
                    m < l < ds.len() && #[trigger] supports(ds, l) && ds[l].range == info.range
                        && text_view(ds[l].source) == text_view(ds[p].source) ==> text_view(
                        ds[l].code,
                    ) != text_view(ds[p].code)) ==> {
                    &&& ds[m].severity is Some ==> e.diagnostic.severity == ds[m].severity->0
                    &&& ds[m].severity is None ==> e.diagnostic.severity is Information
                    &&& e.diagnostic.is_unnecessary <==> ds[m].tags is Some
                        && ds[m].tags->0@.contains(DiagnosticTag::Unnecessary)
                }
        }),
{
    let d = ds[p];
    let h = lemma_entries_at(ds, ds.len() as int, uri, sources, first, p);
    let plain = entries(ds, ds.len() as int, uri, sources, first);
    let es = grouped(ds, uri, sources, first);
    let group_id = (first + groups(ds, p)) as usize;
    let disk = comes_from(d, sources);
    let f = note_entry(d, uri, group_id, disk);
    let notes = related(d).filter_map(f);
    let info = related(d)[k];
    crate::seqs::lemma_filter_map_has(related(d), f, k);
    let note = f(info)->0;
    let m = choose|m: int| 0 <= m < notes.len() && notes[m] == note;
    let i = h + 1 + m;
    assert(plain[i] == note);
    assert(es[h] == with_support(ds)(plain[h]));
    assert(es[i] == with_support(ds)(plain[i]));
    let key = ProblemKey {
        source: text_view(d.source),
        code: text_view(d.code),
        range: info.range,
    };
    lemma_support_at(ds, ds.len() as int, key);
    (h, i)
}

/// No entry is made up: each tells either of a reported problem that supports no other, with its
/// range and its message, or of a place of the same document that such a problem relates to.
pub proof fn every_entry_was_reported(
    ds: Seq<LspDiagnostic>,
    uri: Seq<char>,
    sources: Seq<String>,
    first: usize,
    i: int,
) -> (r: (int, int))
    requires
        0 <= i < grouped(ds, uri, sources, first).len(),
    ensures
        ({
            let e = grouped(ds, uri, sources, first)[i];
            let (p, k) = r;
            &&& 0 <= p < ds.len()
            &&& !supports(ds, p)
            &&& e.diagnostic.source == ds[p].source
            &&& e.diagnostic.code == ds[p].code
            &&& e.diagnostic.is_valid
            &&& e.diagnostic.is_primary ==> e.range == ds[p].range && e.diagnostic.message
                == ds[p].message
            &&& !e.diagnostic.is_primary ==> {
                &&& ds[p].related_information is Some
                &&& 0 <= k < ds[p].related_information->0@.len()
                &&& ds[p].related_information->0@[k].uri@ == uri
                &&& ds[p].related_information->0@[k].message@.len() > 0
                &&& e.range == ds[p].related_information->0@[k].range
                &&& e.diagnostic.message == ds[p].related_information->0@[k].message
            }
        }),
{
    let plain = entries(ds, ds.len() as int, uri, sources, first);
    assert(grouped(ds, uri, sources, first)[i] == with_support(ds)(plain[i]));
    lemma_entry_from(ds, ds.len() as int, uri, sources, first, i)
}

proof fn lemma_heads_are_numbered(
    ds: Seq<LspDiagnostic>,
    n: int,
    uri: Seq<char>,
    sources: Seq<String>,
    first: usize,
)
    requires
        0 <= n,
        first + n <= usize::MAX,
    ensures
        ({
            let heads = entries(ds, n, uri, sources, first).filter(
                |e: DiagnosticEntry| e.diagnostic.is_primary,
            );
            &&& heads.len() == groups(ds, n)
            &&& forall|k: int|
                0 <= k < heads.len() ==> (#[trigger] heads[k]).diagnostic.group_id == first + k
        }),
    decreases n,
{
    reveal(Seq::filter);
    if n > 0 {
        lemma_heads_are_numbered(ds, n - 1, uri, sources, first);
        lemma_groups_bound(ds, n - 1, n);
        let f = |e: DiagnosticEntry| e.diagnostic.is_primary;
        let rest = entries(ds, n - 1, uri, sources, first);
        if !supports(ds, n - 1) {
            let d = ds[n - 1];
            let group_id = (first + groups(ds, n - 1)) as usize;
            let disk = comes_from(d, sources);
            let note = note_entry(d, uri, group_id, disk);
            let notes = related(d).filter_map(note);
            let head = primary_entry(d, group_id, disk);
            Seq::filter_distributes_over_add(rest.push(head), notes, f);
            assert(rest.push(head).drop_last() =~= rest);
            notes.lemma_filter_len(f);
            assert(notes.filter(f).len() == 0) by {
                if notes.filter(f).len() > 0 {
                    let e = notes.filter(f)[0];
                    assert(notes.filter(f).contains(e));
                    notes.lemma_filter_pred(f, 0);
                    notes.lemma_filter_contains_rev(f, e);
                    related(d).lemma_filter_map_contains(note, e);
                }
            }
            assert(entries(ds, n, uri, sources, first).filter(f) =~= rest.filter(f).push(head));
        }
    }
}

/// Groups are numbered one after the other, from the first number on, in the order of their heads.
pub proof fn groups_are_numbered_in_order(
    ds: Seq<LspDiagnostic>,
    uri: Seq<char>,
    sources: Seq<String>,
    first: usize,
)
    requires
        first + ds.len() <= usize::MAX,
    ensures
        ({
            let heads = grouped(ds, uri, sources, first).filter(
                |e: DiagnosticEntry| e.diagnostic.is_primary,
            );
            &&& heads.len() == groups(ds, ds.len() as int)
            &&& forall|k: int|
                0 <= k < heads.len() ==> (#[trigger] heads[k]).diagnostic.group_id == first + k
        }),
{
    let plain = entries(ds, ds.len() as int, uri, sources, first);
    lemma_heads_are_numbered(ds, ds.len() as int, uri, sources, first);
    lemma_heads_stay(ds, plain);
}

proof fn lemma_heads_stay(ds: Seq<LspDiagnostic>, plain: Seq<DiagnosticEntry>)
    ensures
        plain.map_values(with_support(ds)).filter(|e: DiagnosticEntry| e.diagnostic.is_primary)
            == plain.filter(|e: DiagnosticEntry| e.diagnostic.is_primary),
    decreases plain.len(),
{
    reveal(Seq::filter);
    let g = with_support(ds);
    if plain.len() > 0 {
        lemma_heads_stay(ds, plain.drop_last());
        assert(plain.map_values(g).drop_last() =~= plain.drop_last().map_values(g));
        assert(plain.map_values(g).last() == g(plain.last()));
    } else {
        assert(plain.map_values(g) =~= plain);
    }
}

/// Graver problems come first: those without a severity, then errors, warnings, informations and
/// hints. No problem is lost or made up.
pub proof fn problems_come_by_gravity(reported: Seq<LspDiagnostic>, i: int, j: int)
    requires
        0 <= i < j < reported.len(),
    ensures
        ({
            let ds = by_gravity(reported);
            &&& ds.len() == reported.len()
            &&& ds.to_multiset() == reported.to_multiset()
            &&& ds[j].severity is None ==> ds[i].severity is None
            &&& ds[j].severity == Some(DiagnosticSeverity::Error) ==> ds[i].severity is None
                || ds[i].severity == Some(DiagnosticSeverity::Error)
            &&& ds[j].severity == Some(DiagnosticSeverity::Warning) ==> ds[i].severity != Some(
                DiagnosticSeverity::Information,
            ) && ds[i].severity != Some(DiagnosticSeverity::Hint)
            &&& ds[j].severity == Some(DiagnosticSeverity::Information) ==> ds[i].severity != Some(
                DiagnosticSeverity::Hint,
            )
        }),
{
    lemma_by_gravity(reported);
    let s = stable_sort(reported.map_values(keyed_by_gravity()));
    crate::sort::sorting_orders_and_keeps(reported.map_values(keyed_by_gravity()));
    assert(s[i].0 == gravity(s[i].1.severity));
    assert(s[j].0 == gravity(s[j].1.severity));
    assert(!<usize as Key>::before(s[j].0, s[i].0));
}

proof fn lemma_by_gravity(reported: Seq<LspDiagnostic>)
    ensures
        ({
            let s = stable_sort(reported.map_values(keyed_by_gravity()));
            &&& by_gravity(reported).len() == reported.len()
            &&& by_gravity(reported).to_multiset() == reported.to_multiset()
            &&& forall|m: int|
                0 <= m < s.len() ==> (#[trigger] s[m]).0 == gravity(s[m].1.severity)
        }),
{
    let keyed = reported.map_values(keyed_by_gravity());
    let s = stable_sort(keyed);
    let second = |p: (usize, LspDiagnostic)| p.1;
    crate::sort::sorting_orders_and_keeps(keyed);
    assert forall|m: int| 0 <= m < s.len() implies (#[trigger] s[m]).0 == gravity(s[m].1.severity) by {
        broadcast use vstd::seq_lib::group_to_multiset_ensures;

        assert(s.contains(s[m]));
        assert(s.to_multiset().count(s[m]) > 0);
        assert(keyed.contains(s[m]));
        let q = choose|q: int| 0 <= q < keyed.len() && keyed[q] == s[m];
        assert(keyed[q] == keyed_by_gravity()(reported[q]));
    }
    crate::sort::lemma_same_items_mapped(s, keyed, second);
    assert(keyed.map_values(second) =~= reported);
    assert(s.map_values(second) =~= by_gravity(reported));
}

proof fn lemma_filter_mapped<A, B>(
    s: Seq<A>,
    g: spec_fn(A) -> B,
    f: spec_fn(B) -> bool,
    h: spec_fn(A) -> bool,
)
    requires
        forall|i: int| 0 <= i < s.len() ==> h(#[trigger] s[i]) == f(g(s[i])),
    ensures
        s.map_values(g).filter(f) == s.filter(h).map_values(g),
    decreases s.len(),
{
    reveal(Seq::filter);
    if s.len() > 0 {
        let head = s.drop_last();
        assert forall|i: int| 0 <= i < head.len() implies h(#[trigger] head[i]) == f(g(head[i])) by {
            assert(head[i] == s[i]);
        }
        lemma_filter_mapped(head, g, f, h);
        assert(s.map_values(g).drop_last() =~= head.map_values(g));
        assert(h(s[s.len() - 1]) == f(g(s[s.len() - 1])));
        assert(s.map_values(g).filter(f) =~= s.filter(h).map_values(g));
    } else {
        assert(s.map_values(g).filter(f) =~= s.filter(h).map_values(g));
    }
}

/// Equally grave problems stay in the order in which they were reported.
pub proof fn equally_grave_problems_keep_their_order(
    reported: Seq<LspDiagnostic>,
    severity: Option<DiagnosticSeverity>,
)
    ensures
        by_gravity(reported).filter(|d: LspDiagnostic| d.severity == severity) == reported.filter(
            |d: LspDiagnostic| d.severity == severity,
        ),
{
    let keyed = reported.map_values(keyed_by_gravity());
    let s = stable_sort(keyed);
    let second = |p: (usize, LspDiagnostic)| p.1;
    let f = |d: LspDiagnostic| d.severity == severity;
    let k = gravity(severity);
    let g = has_key::<usize, LspDiagnostic>(k);
    crate::sort::sorting_keeps_equals_in_their_order(keyed, k);
    lemma_by_gravity(reported);
    assert(by_gravity(reported) =~= s.map_values(second));
    assert(keyed.map_values(second) =~= reported);
    lemma_filter_mapped(s, second, f, g);
    lemma_filter_mapped(keyed, second, f, g);
}

/// A summary counts exactly the heads of groups that have the severity.
pub proof fn summaries_count_heads(es: Seq<DiagnosticEntry>, severity: DiagnosticSeverity)
    ensures
        primary_errors(es, severity) == es.filter(
            |e: DiagnosticEntry| e.diagnostic.is_primary && e.diagnostic.severity == severity,
        ).len(),
    decreases es.len(),
{
    reveal(Seq::filter);
    if es.len() > 0 {
        summaries_count_heads(es.drop_last(), severity);
    }
}

/// A reported problem that relates to no other place has an entry of its own, whatever else was
/// reported with it: with its range, its message, its source and code, and the severity that was
/// reported, or that of an error if none was.
pub proof fn every_lone_problem_has_its_entry(
    reported: Seq<LspDiagnostic>,
    uri: Seq<char>,
    sources: Seq<String>,
    first: usize,
    q: int,
) -> (i: int)
    requires
        0 <= q < reported.len(),
        reported[q].related_information is None,
    ensures
        ({
            let es = grouped(by_gravity(reported), uri, sources, first);
            let e = es[i];
            let d = reported[q];
            &&& 0 <= i < es.len()
            &&& e.range == d.range
            &&& e.diagnostic.message == d.message
            &&& e.diagnostic.source == d.source
            &&& e.diagnostic.code == d.code
            &&& d.severity is Some ==> e.diagnostic.severity == d.severity->0
            &&& d.severity is None ==> e.diagnostic.severity is Error
            &&& e.diagnostic.is_primary
            &&& e.diagnostic.is_unnecessary <==> d.tags is Some && d.tags->0@.contains(
                DiagnosticTag::Unnecessary,
            )
        }),
{
    broadcast use vstd::seq_lib::group_to_multiset_ensures;

    lemma_by_gravity(reported);
    let ds = by_gravity(reported);
    assert(reported.contains(reported[q]));
    assert(ds.to_multiset().count(reported[q]) > 0);
    let p = choose|p: int| 0 <= p < ds.len() && ds[p] == reported[q];
    problems_support_what_they_relate_to(ds, p);
    every_head_has_its_entry(ds, uri, sources, first, p)
}

} // verus!
