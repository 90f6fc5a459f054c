use project2::buffer_diagnostics::update_buffer_diagnostics;
use project2::buffer_events::{content_changes, BufferEdit};
use project2::diagnostics::{
    group_diagnostics, Diagnostic, DiagnosticEntry, DiagnosticSeverity, DiagnosticTag,
    LspDiagnostic, PublishDiagnosticsParams, RelatedInformation, TextRange,
};
use project2::edits::{edits_for_changes, edits_for_text, Anchor, Bias, LspEdit, TextEdit};
use project2::hints::{
    Hover, HoverBlock, HoverBlockKind, InlayHint, InlayHintLabel, InlayHintLabelPart, ResolveState,
};
use project2::ids::LanguageServerId;
use project2::model::{DiagnosticSummary, PointUtf16};
use project2::outside::{LineChange, LineTag};
use project2::path::{Component, Path};
use project2::text::{has_prefix, replace_all, slice_of, without_prefix, LineText};
use std::sync::Arc;

fn path(text: &str) -> Path {
    let mut components = Vec::new();
    if text.starts_with('/') {
        components.push(Component::RootDir);
    }
    for part in text.split('/') {
        match part {
            "" => {}
            "." => components.push(Component::CurDir),
            ".." => components.push(Component::ParentDir),
            name => components.push(Component::Normal(name.to_string())),
        }
    }
    Path::from_components(components)
}

fn point(row: u32, column: u32) -> PointUtf16 {
    PointUtf16 { row, column }
}

fn range(a: u32, b: u32, c: u32, d: u32) -> TextRange {
    TextRange { start: point(a, b), end: point(c, d) }
}

fn lsp_edit(range: TextRange, text: &str) -> LspEdit {
    LspEdit { range, new_text: text.to_string() }
}

/// Carries edits out on a text.
fn edited(text: &str, edits: &Vec<TextEdit>) -> String {
    let chars: Vec<char> = text.chars().collect();
    let mut result = String::new();
    let mut at: usize = 0;
    for e in edits {
        result.extend(&chars[at..e.start.offset]);
        result.push_str(&e.new_text);
        at = e.end.offset;
    }
    result.extend(&chars[at..]);
    result
}

fn problem(range: TextRange, severity: Option<DiagnosticSeverity>, message: &str) -> LspDiagnostic {
    LspDiagnostic {
        range,
        severity,
        code: None,
        source: Some("rustc".to_string()),
        message: message.to_string(),
        related_information: None,
        tags: None,
    }
}

fn entry(range: TextRange, severity: DiagnosticSeverity, message: &str) -> DiagnosticEntry {
    DiagnosticEntry {
        range,
        diagnostic: Diagnostic {
            source: None,
            code: None,
            severity,
            message: message.to_string(),
            group_id: 0,
            is_primary: true,
            is_valid: true,
            is_disk_based: false,
            is_unnecessary: false,
        },
    }
}

#[test]
fn prefixes_of_texts() {
    assert!(has_prefix("/a/b", "/a"));
    assert!(!has_prefix("/a", "/a/b"));
    assert_eq!(without_prefix("/a/b", "/a"), Some("/b"));
    assert_eq!(without_prefix("/a/b", "b"), None);
    assert_eq!(slice_of("h\u{e9}llo", 1, 3), "\u{e9}l");
}

#[test]
fn every_occurrence_is_replaced() {
    assert_eq!(replace_all("x {p} y {p}", "{p}", "/a"), "x /a y /a");
    assert_eq!(replace_all("aaa", "aa", "b"), "ba");
    assert_eq!(replace_all("none", "zz", "b"), "none");
}

#[test]
fn points_are_counted_in_utf16_units() {
    let text = LineText::new("ab\n\u{1F600}c\n");
    assert_eq!(text.len(), 6);
    assert_eq!(text.point(4), point(1, 2));
    assert_eq!(text.point(6), point(2, 0));
    assert_eq!(text.clip(point(1, 2), false), 4);
    // Inside of a surrogate pair.
    assert_eq!(text.clip(point(1, 1), false), 3);
    assert_eq!(text.clip(point(1, 1), true), 4);
    // Beyond the end of a line, and beyond the text.
    assert_eq!(text.clip(point(0, 9), false), 2);
    assert_eq!(text.clip(point(7, 0), true), 6);
}

#[test]
fn clipping_keeps_a_position() {
    let text = LineText::new("one\ntwo");
    for n in 0..8 {
        assert_eq!(text.clip(text.point(n), false), n);
        assert_eq!(text.clip(text.point(n), true), n);
    }
}

#[test]
fn changed_lines_become_edits() {
    let change = |tag, text: &str| LineChange { tag, text: text.to_string() };
    let changes = vec![
        change(LineTag::Equal, "a\n"),
        change(LineTag::Delete, "b\n"),
        change(LineTag::Insert, "B\n"),
        change(LineTag::Insert, "C\n"),
        change(LineTag::Equal, "d\n"),
        change(LineTag::Insert, "e\n"),
    ];
    let edits = edits_for_changes(10, &changes);
    assert_eq!(
        edits,
        vec![
            TextEdit {
                start: Anchor { offset: 12, bias: Bias::Right },
                end: Anchor { offset: 14, bias: Bias::Left },
                new_text: "B\nC\n".to_string(),
            },
            TextEdit {
                start: Anchor { offset: 16, bias: Bias::Right },
                end: Anchor { offset: 16, bias: Bias::Right },
                new_text: "e\n".to_string(),
            },
        ]
    );
}

#[test]
fn large_replacement_is_reduced_to_the_lines_that_differ() {
    // A server replaces a stretch of several lines, most of which stay the same.
    let text = "use a;\nuse b;\nuse c;\n\nfn f() {}\n";
    let edits = edits_for_text(
        text,
        &vec![lsp_edit(range(0, 0, 3, 0), "use a;\nuse x;\nuse c;\n")],
    );
    assert_eq!(edited(text, &edits), "use a;\nuse x;\nuse c;\n\nfn f() {}\n");
    assert_eq!(edits.len(), 1);
    assert_eq!((edits[0].start.offset, edits[0].end.offset), (7, 14));
    assert_eq!(edits[0].new_text, "use x;\n");
}

#[test]
fn edits_are_applied_in_the_order_of_their_places() {
    let text = "abc\ndef\n";
    let edits = edits_for_text(
        text,
        &vec![lsp_edit(range(1, 0, 1, 1), "D"), lsp_edit(range(0, 1, 0, 2), "B")],
    );
    assert_eq!(edited(text, &edits), "aBc\nDef\n");
}

#[test]
fn adjacent_edits_are_merged() {
    let text = "abc\n";
    let edits = edits_for_text(
        text,
        &vec![lsp_edit(range(0, 0, 0, 1), "x"), lsp_edit(range(0, 1, 0, 2), "y")],
    );
    assert_eq!(edits.len(), 1);
    assert_eq!(edited(text, &edits), "xyc\n");
}

#[test]
fn insertion_stays_right_of_its_place() {
    let edits = edits_for_text("ab", &vec![lsp_edit(range(0, 1, 0, 1), "-")]);
    assert_eq!(
        edits,
        vec![TextEdit {
            start: Anchor { offset: 1, bias: Bias::Right },
            end: Anchor { offset: 1, bias: Bias::Right },
            new_text: "-".to_string(),
        }]
    );
}

#[test]
fn supporting_problems_join_the_group_of_their_head() {
    let mut head = problem(range(1, 8, 1, 9), Some(DiagnosticSeverity::Warning), "unused");
    head.related_information = Some(vec![
        RelatedInformation {
            uri: "file:///a.rs".to_string(),
            range: range(1, 8, 1, 9),
            message: "here".to_string(),
        },
        RelatedInformation {
            uri: "file:///b.rs".to_string(),
            range: range(0, 0, 0, 1),
            message: "elsewhere".to_string(),
        },
        RelatedInformation {
            uri: "file:///a.rs".to_string(),
            range: range(2, 0, 2, 1),
            message: "".to_string(),
        },
    ]);
    let mut hint = problem(range(1, 8, 1, 9), Some(DiagnosticSeverity::Hint), "here");
    hint.related_information = Some(vec![RelatedInformation {
        uri: "file:///a.rs".to_string(),
        range: range(1, 8, 1, 9),
        message: "original".to_string(),
    }]);
    hint.tags = Some(vec![DiagnosticTag::Unnecessary]);
    let error = problem(range(2, 8, 2, 17), None, "broken");
    let mut next: usize = 5;
    let entries = group_diagnostics(
        PublishDiagnosticsParams {
            uri: "file:///a.rs".to_string(),
            diagnostics: vec![hint, head, error],
            version: None,
        },
        &vec!["rustc".to_string()],
        &mut next,
    );
    // One without a severity comes first, then the warning, then the hint.
    assert_eq!(next, 7);
    assert_eq!(entries.len(), 3);
    assert_eq!(entries[0].diagnostic.message, "broken");
    assert_eq!(entries[0].diagnostic.severity, DiagnosticSeverity::Error);
    assert_eq!((entries[0].diagnostic.group_id, entries[0].diagnostic.is_primary), (5, true));
    assert!(entries[0].diagnostic.is_disk_based);
    assert_eq!(entries[1].diagnostic.message, "unused");
    assert_eq!((entries[1].diagnostic.group_id, entries[1].diagnostic.is_primary), (6, true));
    assert!(!entries[1].diagnostic.is_unnecessary);
    assert_eq!(entries[2].diagnostic.message, "here");
    assert_eq!((entries[2].diagnostic.group_id, entries[2].diagnostic.is_primary), (6, false));
    assert_eq!(entries[2].diagnostic.severity, DiagnosticSeverity::Hint);
    assert!(entries[2].diagnostic.is_unnecessary);
}

#[test]
fn problems_that_nobody_supports_are_information() {
    let mut head = problem(range(0, 0, 0, 1), Some(DiagnosticSeverity::Error), "bad");
    head.source = None;
    head.related_information = Some(vec![RelatedInformation {
        uri: "u".to_string(),
        range: range(3, 0, 3, 1),
        message: "see".to_string(),
    }]);
    let mut next: usize = 0;
    let entries = group_diagnostics(
        PublishDiagnosticsParams { uri: "u".to_string(), diagnostics: vec![head], version: None },
        &vec!["rustc".to_string()],
        &mut next,
    );
    assert_eq!(entries.len(), 2);
    assert_eq!(entries[1].diagnostic.severity, DiagnosticSeverity::Information);
    assert_eq!(entries[1].diagnostic.group_id, 0);
    assert!(!entries[1].diagnostic.is_disk_based);
    assert!(!entries[1].diagnostic.is_unnecessary);
}

#[test]
fn empty_ranges_are_widened() {
    let text = "let a = ;\n\nx";
    let shown = |r: TextRange| {
        update_buffer_diagnostics(text, &vec![(entry(r, DiagnosticSeverity::Error, "m"), r)])[0]
            .range
    };
    // In the middle of a line, at its end, and on an empty line.
    assert_eq!(shown(range(0, 8, 0, 8)), range(0, 8, 0, 9));
    assert_eq!(shown(range(0, 9, 0, 9)), range(0, 8, 0, 9));
    assert_eq!(shown(range(1, 0, 1, 0)), range(1, 0, 1, 0));
    // Beyond the text.
    assert_eq!(shown(range(9, 9, 9, 9)), range(2, 0, 2, 1));
    // A character that takes two units is not torn apart.
    let wide = "\u{1F600}";
    let shown = |r: TextRange| {
        update_buffer_diagnostics(wide, &vec![(entry(r, DiagnosticSeverity::Error, "m"), r)])[0]
            .range
    };
    assert_eq!(shown(range(0, 2, 0, 2)), range(0, 0, 0, 2));
    assert_eq!(shown(range(0, 0, 0, 0)), range(0, 0, 0, 2));
}

#[test]
fn problems_are_sorted_by_start_and_then_the_longest_first() {
    let text = "abcdef\n";
    let entries = vec![
        entry(range(0, 2, 0, 3), DiagnosticSeverity::Error, "c"),
        entry(range(0, 0, 0, 1), DiagnosticSeverity::Error, "a"),
        entry(range(0, 0, 0, 4), DiagnosticSeverity::Warning, "long"),
        entry(range(0, 0, 0, 1), DiagnosticSeverity::Hint, "a"),
    ];
    let pairs = entries.into_iter().map(|e| { let r = e.range; (e, r) }).collect();
    let shown = update_buffer_diagnostics(text, &pairs);
    let got: Vec<_> =
        shown.iter().map(|e| (e.diagnostic.message.as_str(), e.diagnostic.severity)).collect();
    assert_eq!(
        got,
        vec![
            ("long", DiagnosticSeverity::Warning),
            ("a", DiagnosticSeverity::Error),
            ("a", DiagnosticSeverity::Hint),
            ("c", DiagnosticSeverity::Error),
        ]
    );
}

#[test]
fn problems_from_the_disk_move_with_unsaved_edits() {
    let text = "abc\ndef\n";
    let mut e = entry(range(0, 0, 0, 1), DiagnosticSeverity::Error, "m");
    let moved = range(1, 0, 1, 1);
    assert_eq!(
        update_buffer_diagnostics(text, &vec![(e.clone(), moved)])[0].range,
        range(0, 0, 0, 1)
    );
    e.diagnostic.is_disk_based = true;
    assert_eq!(update_buffer_diagnostics(text, &vec![(e, moved)])[0].range, moved);
}

#[test]
fn summary_counts_the_heads_of_groups() {
    let mut second = entry(range(0, 0, 0, 1), DiagnosticSeverity::Error, "m");
    second.diagnostic.is_primary = false;
    let summary = DiagnosticSummary::new(&vec![
        entry(range(0, 0, 0, 1), DiagnosticSeverity::Error, "m"),
        second,
        entry(range(0, 0, 0, 1), DiagnosticSeverity::Warning, "m"),
        entry(range(0, 0, 0, 1), DiagnosticSeverity::Hint, "m"),
    ]);
    assert_eq!((summary.error_count, summary.warning_count), (1, 1));
    assert!(!summary.is_empty());
    assert!(DiagnosticSummary::new(&vec![]).is_empty());
    let message = summary.to_proto(LanguageServerId(3), &path("src/a.rs"));
    assert_eq!(message.path, "src/a.rs");
    assert_eq!(
        (message.language_server_id, message.error_count, message.warning_count),
        (3, 1, 1)
    );
}

#[test]
fn changes_name_the_old_extent_at_the_new_place() {
    let edit = |old_start, old_end, new_start, text: &str| BufferEdit {
        old_start,
        old_end,
        new_start,
        new_text: Arc::new(text.to_string()),
    };
    let changes = content_changes(&vec![
        edit(point(0, 2), point(0, 5), point(0, 2), "x"),
        edit(point(2, 4), point(4, 1), point(1, 7), "y"),
    ]);
    assert_eq!(changes[0].range, Some((point(0, 2), point(0, 5))));
    assert_eq!(*changes[0].text, "x");
    // Two rows further down, and in the column where the old stretch ended.
    assert_eq!(changes[1].range, Some((point(1, 7), point(3, 1))));
}

#[test]
fn servers_follow_the_text() {
    // "ab\ncd\nef" becomes "aXYd\nZf": what is told is made one change after the other.
    let edit = |old_start, old_end, new_start, text: &str| BufferEdit {
        old_start,
        old_end,
        new_start,
        new_text: Arc::new(text.to_string()),
    };
    let changes = content_changes(&vec![
        edit(point(0, 1), point(1, 1), point(0, 1), "XY"),
        edit(point(2, 0), point(2, 1), point(1, 0), "Z"),
    ]);
    let mut text = "ab\ncd\nef".to_string();
    for change in changes {
        let lines = LineText::new(&text);
        let (start, end) = change.range.unwrap();
        let start = lines.clip(start, false);
        let end = lines.clip(end, false);
        text.replace_range(start..end, &change.text);
    }
    assert_eq!(text, "aXYd\nZf");
}

#[test]
fn edits_in_any_order_come_out_in_order() {
    let text = "one\ntwo\nthree\n";
    let edits = vec![
        lsp_edit(range(2, 0, 2, 5), "3"),
        lsp_edit(range(0, 0, 0, 3), "1"),
        lsp_edit(range(1, 1, 1, 2), "W"),
    ];
    let made = edits_for_text(text, &edits);
    let places: Vec<_> = made.iter().map(|e| (e.start.offset, e.end.offset)).collect();
    assert!(places.windows(2).all(|w| w[0].1 <= w[1].0));
    let mut changed = text.to_string();
    for e in made.iter().rev() {
        changed.replace_range(e.start.offset..e.end.offset, &e.new_text);
    }
    assert_eq!(changed, "1\ntWo\n3\n");
}

#[test]
fn text_of_a_hint_is_that_of_its_parts() {
    let mut hint = InlayHint {
        position: Anchor { offset: 0, bias: Bias::Left },
        label: InlayHintLabel::Plain("i32".to_string()),
        kind: None,
        padding_left: false,
        padding_right: false,
        tooltip: None,
        resolve_state: ResolveState::Resolved,
    };
    assert_eq!(hint.text(), "i32");
    let part = |value: &str| InlayHintLabelPart {
        value: value.to_string(),
        tooltip: None,
        location: None,
    };
    hint.label = InlayHintLabel::LabelParts(vec![part("Vec<"), part("u8"), part(">")]);
    assert_eq!(hint.text(), "Vec<u8>");
}

#[test]
fn hover_without_text_is_empty() {
    let block = |text: &str| HoverBlock {
        text: text.to_string(),
        kind: HoverBlockKind::PlainText,
    };
    assert!(Hover { contents: vec![], range: None, language: None }.is_empty());
    assert!(Hover { contents: vec![block(""), block("")], range: None, language: None }.is_empty());
    assert!(!Hover { contents: vec![block(""), block("x")], range: None, language: None }
        .is_empty());
}
