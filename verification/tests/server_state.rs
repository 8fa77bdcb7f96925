use cyberls::diagnostics::{
    check_tree_error, get_parser_errors, merge_diagnostics, parse_compiler_output,
    DiagnosticSeverity, ErrorInfo,
};
use cyberls::document::{ChangeEvent, FullTextDocument};
use cyberls::documents::TextDocuments;
use cyberls::knowledge::{
    hover_response, Config, KeywordDetail, LanguageDefinition, TypeCategory,
};
use cyberls::position::{Point, Position, Range};
use cyberls::query::PositionType;
use cyberls::semantic::{SemanticToken, TokensBuilder, TokenType};
use cyberls::tree::{has_error, pretty_display, SyntaxNode, TreeState, TreeWrapper};

fn leaf(kind: &str, sr: usize, sc: usize, er: usize, ec: usize) -> SyntaxNode {
    SyntaxNode {
        kind: kind.to_string(),
        named: true,
        error: false,
        start: Point { row: sr, column: sc },
        end: Point { row: er, column: ec },
        start_byte: 0,
        end_byte: 0,
        children: vec![],
    }
}

fn error_leaf(sr: usize, sc: usize, er: usize, ec: usize) -> SyntaxNode {
    let mut n = leaf("ERROR", sr, sc, er, ec);
    n.error = true;
    n
}

fn node(kind: &str, children: Vec<SyntaxNode>) -> SyntaxNode {
    SyntaxNode {
        kind: kind.to_string(),
        named: true,
        error: false,
        start: Point { row: 0, column: 0 },
        end: Point { row: 9, column: 0 },
        start_byte: 0,
        end_byte: 0,
        children,
    }
}

#[test]
fn grammar_scan_collects_error_nodes_in_order() {
    let root = node(
        "module",
        vec![
            leaf("a", 0, 0, 0, 1),
            error_leaf(1, 2, 1, 5),
            node("block", vec![error_leaf(2, 0, 2, 1)]),
        ],
    );
    assert!(has_error(&root));
    let info = check_tree_error("irrelevant", &root).expect("errors expected");
    assert_eq!(info.entries.len(), 2);
    assert_eq!(info.entries[0].start, Point { row: 1, column: 2 });
    assert_eq!(info.entries[0].message, "Grammar Error");
    assert_eq!(info.entries[0].severity, None);
    assert_eq!(info.entries[1].start, Point { row: 2, column: 0 });
}

#[test]
fn clean_tree_reports_nothing() {
    let root = node("module", vec![leaf("a", 0, 0, 0, 1)]);
    assert!(!has_error(&root));
    assert!(check_tree_error("irrelevant", &root).is_none());
}

#[test]
fn parser_errors_without_tree_give_sentinel() {
    let spans = get_parser_errors(None);
    assert_eq!(spans, vec![(Point { row: 0, column: 0 }, Point { row: 1, column: 0 })]);
    let root = node("module", vec![error_leaf(3, 1, 3, 4)]);
    let spans = get_parser_errors(Some(&root));
    assert_eq!(spans, vec![(Point { row: 3, column: 1 }, Point { row: 3, column: 4 })]);
}

#[test]
fn compiler_parse_error_is_read() {
    let err = "ParseError: unexpected token\nsome context\n  at :12:7\n";
    let e = parse_compiler_output(err).expect("entry expected");
    assert_eq!(e.start, Point { row: 11, column: 7 });
    assert_eq!(e.end, Point { row: 11, column: 7 });
    assert_eq!(e.message, "unexpected token");
    assert_eq!(e.severity, Some(DiagnosticSeverity::Error));
}

#[test]
fn compiler_bytecode_dump_is_benign() {
    assert!(parse_compiler_output("Bytecode:\n...").is_none());
}

#[test]
fn compiler_garbled_output_is_ignored() {
    assert!(parse_compiler_output("").is_none());
    assert!(parse_compiler_output("something else entirely").is_none());
    assert!(parse_compiler_output("ParseError: broken\nctx\nno numbers here").is_none());
    assert!(parse_compiler_output("ParseError: broken\nctx\n  at :zero:7").is_none());
}

#[test]
fn merged_diagnostics_empty_iff_both_sources_empty() {
    let merged = merge_diagnostics(None, None);
    assert!(merged.entries.is_empty());

    let empty_tree = Some(ErrorInfo::new());
    let merged = merge_diagnostics(empty_tree, None);
    assert!(merged.entries.is_empty());

    let mut grammar = ErrorInfo::new();
    grammar.add(
        Point { row: 0, column: 0 },
        Point { row: 0, column: 1 },
        "Grammar Error".to_string(),
        None,
    );
    let merged = merge_diagnostics(Some(grammar), None);
    assert_eq!(merged.entries.len(), 1);
}

#[test]
fn absent_compiler_degrades_to_grammar_only() {
    // The external tool is unavailable: its side contributes nothing, and
    // publishing still succeeds with the grammar entries alone.
    let root = node("module", vec![error_leaf(1, 0, 1, 2)]);
    let grammar = check_tree_error("x", &root);
    let merged = merge_diagnostics(grammar, None);
    assert_eq!(merged.entries.len(), 1);
    assert_eq!(merged.entries[0].message, "Grammar Error");
}

#[test]
fn combine_moves_entries() {
    let mut a = ErrorInfo::new();
    a.add(Point { row: 0, column: 0 }, Point { row: 0, column: 1 }, "a".to_string(), None);
    let mut b = ErrorInfo::new();
    b.add(Point { row: 1, column: 0 }, Point { row: 1, column: 1 }, "b".to_string(), None);
    a.combine(&mut b);
    assert_eq!(a.entries.len(), 2);
    assert!(b.entries.is_empty());
    assert_eq!(a.entries[1].message, "b");
}

#[test]
fn documents_open_get_change_close() {
    let mut docs = TextDocuments::new();
    assert!(docs.open_document(
        "file:///a.cy".to_string(),
        "cyber".to_string(),
        1,
        "hello".to_string()
    ));
    // A second open of the same uri fails and changes nothing.
    assert!(!docs.open_document(
        "file:///a.cy".to_string(),
        "cyber".to_string(),
        2,
        "other".to_string()
    ));
    assert_eq!(docs.get_document_content("file:///a.cy"), Some("hello"));
    assert_eq!(docs.get_document_language("file:///a.cy"), Some("cyber"));

    let change = ChangeEvent {
        range: Some(Range::new(Position::new(0, 0), Position::new(0, 5))),
        range_length: Some(5),
        text: "bye".to_string(),
    };
    assert!(docs.change_document("file:///a.cy", vec![change], 2));
    assert_eq!(docs.get_document_content("file:///a.cy"), Some("bye"));

    // A version moving backwards is refused.
    let stale = ChangeEvent {
        range: None,
        range_length: None,
        text: "old".to_string(),
    };
    assert!(!docs.change_document("file:///a.cy", vec![stale], 1));
    assert_eq!(docs.get_document_content("file:///a.cy"), Some("bye"));

    assert!(docs.close_document("file:///a.cy"));
    assert!(docs.get_document("file:///a.cy").is_none());
    assert!(!docs.close_document("file:///a.cy"));
}

fn sample_storage() -> Vec<LanguageDefinition> {
    vec![LanguageDefinition {
        lsp_action: "hover".to_string(),
        type_categories: vec![TypeCategory {
            category: "ControlFlow".to_string(),
            keywords: vec!["if".to_string(), "while".to_string()],
            keyword_details: vec![KeywordDetail {
                keyword: "if".to_string(),
                syntax: "if cond:".to_string(),
                keyword_detail_type: "keyword".to_string(),
                node_type: vec!["if_statement".to_string()],
                description: "Branches on a condition.".to_string(),
                example: "if x > 0:\n  pass".to_string(),
            }],
        }],
    }]
}

#[test]
fn lookup_finds_keyword_details() {
    let storage = sample_storage();
    let def = &storage[0];
    let d = def.lookup("if").expect("detail expected");
    assert_eq!(d.keyword, "if");
    // Listed keyword without a record: the listing category answers, and it
    // has no matching record.
    assert!(def.lookup("while").is_none());
    assert!(def.lookup("unknown").is_none());
}

#[test]
fn hover_on_known_keyword_renders_markdown() {
    let storage = sample_storage();
    let kw = leaf("keyword", 0, 0, 0, 2);
    let root = node("module", vec![kw]);
    let r = hover_response(Position::new(0, 1), &root, "if x:", "nvim", &storage)
        .expect("hover expected");
    assert!(r.contains("Branches on a condition."));
    assert!(r.starts_with("\n```cyber\nif\n```"));
    let v = hover_response(Position::new(0, 1), &root, "if x:", "vscode", &storage)
        .expect("hover expected");
    assert!(v.starts_with("\n### if"));
}

#[test]
fn action_lookup_falls_back_to_lowercase_folding() {
    // The stored definition answers "hover"; a request arriving with mixed
    // case finds it through the lowercase folding of the action.
    let storage = sample_storage();
    let kw = leaf("keyword", 0, 0, 0, 2);
    let root = node("module", vec![kw]);
    let d = cyberls::knowledge::get_from_position(
        Position::new(0, 1),
        &root,
        "if x:",
        "HoVeR",
        &storage,
    )
    .expect("detail expected");
    assert_eq!(d.keyword, "if");
    assert!(cyberls::knowledge::get_from_position(
        Position::new(0, 1),
        &root,
        "if x:",
        "definition",
        &storage
    )
    .is_none());
}

#[test]
fn empty_document_translation() {
    let mut d = FullTextDocument::new(
        "file:///e.cy".to_string(),
        "cyber".to_string(),
        1,
        String::new(),
    );
    assert_eq!(d.offset_at(Position::new(0, 0)), 0);
    assert_eq!(d.offset_at(Position::new(3, 7)), 0);
    assert_eq!(d.position_at(0), Position::new(0, 0));
    assert_eq!(d.position_at(9), Position::new(0, 0));
    assert_eq!(d.line_count(), 1);
}

#[test]
fn hover_in_whitespace_is_none_not_error() {
    let storage = sample_storage();
    let kw = leaf("keyword", 0, 0, 0, 2);
    let root = node("module", vec![kw]);
    // Column 4 is in the gap after the keyword: no token, no hover.
    let r = hover_response(Position::new(0, 4), &root, "if  x:", "nvim", &storage);
    assert!(r.is_none());
}

#[test]
fn hover_after_close_finds_no_document() {
    let mut docs = TextDocuments::new();
    docs.open_document(
        "file:///h.cy".to_string(),
        "cyber".to_string(),
        1,
        "if x:".to_string(),
    );
    docs.close_document("file:///h.cy");
    // The hover path first resolves the uri; a closed uri yields the
    // document-not-found outcome, an empty result rather than stale data.
    assert!(docs.get_document_content("file:///h.cy").is_none());
}

#[test]
fn parse_outcome_lifecycle() {
    let mut d = FullTextDocument::new(
        "file:///t.cy".to_string(),
        "cyber".to_string(),
        1,
        "a".to_string(),
    );
    assert!(d.tree_root().is_none());
    // A successful parse installs a current tree.
    let failed = d.apply_parse_outcome(Some(leaf("module", 0, 0, 0, 1)));
    assert!(!failed);
    assert!(d.has_current_tree());
    // A buffer mutation marks the kept tree stale without dropping it.
    let change = ChangeEvent {
        range: None,
        range_length: None,
        text: "ab".to_string(),
    };
    d.update(vec![change], 2);
    assert!(!d.has_current_tree());
    assert!(d.tree_root().is_some());
    // A failed reparse keeps the previous tree and reports the failure.
    let failed = d.apply_parse_outcome(None);
    assert!(failed);
    assert!(d.tree_root().is_some());
    assert!(!d.has_current_tree());
}

#[test]
fn incremental_and_full_parse_see_the_same_text() {
    // The textual half of incremental consistency: applying a sequence of
    // incremental changes leaves exactly the text a single full pass over
    // the final content would see, so both reparse paths read equal input;
    // equal trees then carry equal error-node counts.
    let mut incremental = FullTextDocument::new(
        "file:///c.cy".to_string(),
        "cyber".to_string(),
        1,
        "ab\ncd".to_string(),
    );
    let c1 = ChangeEvent {
        range: Some(Range::new(Position::new(0, 2), Position::new(0, 2))),
        range_length: Some(0),
        text: "X".to_string(),
    };
    let c2 = ChangeEvent {
        range: Some(Range::new(Position::new(1, 0), Position::new(1, 2))),
        range_length: Some(2),
        text: "Y".to_string(),
    };
    incremental.update(vec![c1], 2);
    incremental.update(vec![c2], 3);

    let mut full = FullTextDocument::new(
        "file:///c.cy".to_string(),
        "cyber".to_string(),
        1,
        "irrelevant".to_string(),
    );
    let replace = ChangeEvent {
        range: None,
        range_length: None,
        text: incremental.get_content().to_string(),
    };
    full.update(vec![replace], 3);
    assert_eq!(incremental.get_content(), full.get_content());
    assert_eq!(incremental.get_content(), "abX\nY");
}

#[test]
fn tree_state_transitions_expose_versions() {
    let state = TreeState::Valid {
        root: leaf("module", 0, 0, 0, 0),
        version: 4,
    };
    match state {
        TreeState::Valid { version, .. } => assert_eq!(version, 4),
        _ => panic!("expected a current tree"),
    }
}

#[test]
fn semantic_tokens_are_sorted_and_delta_encoded() {
    let mut b = TokensBuilder::new();
    let mut second = leaf("identifier", 1, 4, 1, 7);
    second.start_byte = 10;
    second.end_byte = 13;
    let mut first = leaf("keyword", 0, 0, 0, 2);
    first.start_byte = 0;
    first.end_byte = 2;
    let mut third = leaf("number", 1, 9, 1, 11);
    third.start_byte = 15;
    third.end_byte = 17;
    // Pushed out of order on purpose: the builder sorts by position.
    b.push_node(&second, TokenType::Namespace);
    b.push_node(&third, TokenType::Number);
    b.push_node(&first, TokenType::Keyword);
    let tokens = b.into_tokens().expect("tokens expected");
    assert_eq!(
        tokens,
        vec![
            SemanticToken { delta_line: 0, delta_start: 0, length: 2, token_type: 1, token_modifiers_bitset: 0 },
            SemanticToken { delta_line: 1, delta_start: 4, length: 3, token_type: 2, token_modifiers_bitset: 0 },
            SemanticToken { delta_line: 0, delta_start: 5, length: 2, token_type: 7, token_modifiers_bitset: 0 },
        ]
    );
}

#[test]
fn oversized_token_yields_no_encoding() {
    if usize::MAX as u128 <= u32::MAX as u128 {
        return;
    }
    let mut b = TokensBuilder::new();
    let mut wide = leaf("string", 0, 0, 0, 1);
    wide.start_byte = 0;
    wide.end_byte = (u32::MAX as usize) + 1;
    b.push_node(&wide, TokenType::String);
    assert!(b.into_tokens().is_none());
}

#[test]
fn pretty_display_renders_named_nodes() {
    let child = leaf("identifier", 0, 5, 0, 10);
    let root = node("module", vec![child]);
    let text = pretty_display(&root);
    assert_eq!(
        text,
        "\nSyntax Tree: Child Count: 1\nmodule [0, 0] - [9, 0] \n  identifier [0, 5] - [0, 10] \n"
    );
    let wrapped = TreeWrapper(node("module", vec![]));
    assert!(wrapped.pretty().starts_with("\nSyntax Tree: Child Count: 0\n"));
}

#[test]
fn config_defaults() {
    let c = Config::default();
    assert!(c.enable);
    assert!(!c.verbose);
    assert!(c.show_warnings);
    assert!(!c.unstable_features);
    assert!(!c.performance_metrics);
    assert!(c.root_dir.is_none());
    assert!(c.log_level.is_none());
    assert!(c.client_name.is_none());
}

#[test]
fn labels_of_small_enums() {
    assert_eq!(cyberls::knowledge::FileType::Dir.label(), "Dir");
    assert_eq!(cyberls::knowledge::FileType::File.label(), "File");
    assert_eq!(cyberls::knowledge::Type::Error.to_string(), "Error");
    assert_eq!(cyberls::knowledge::Type::Warning.to_string(), "Warning");
    assert_eq!(cyberls::knowledge::Type::Info.to_string(), "Info");
    let def = LanguageDefinition {
        lsp_action: "hover".to_string(),
        type_categories: vec![],
    };
    assert_eq!(def._to_string(), "hover");
    // The classification default argument is echoed for plain leaves.
    let _ = PositionType::NotFind;
}
