use cyberls::completion::{get_completion, get_nested_completion, collect_includes, VisitedSet};
use cyberls::position::{Point, Position};
use cyberls::query::{get_pos_type, get_position_range, get_string_at_pos, PositionType};
use cyberls::tree::SyntaxNode;

fn leaf(kind: &str, sr: usize, sc: usize, er: usize, ec: usize) -> SyntaxNode {
    SyntaxNode {
        kind: kind.to_string(),
        named: true,
        error: false,
        start: Point { row: sr, column: sc },
        end: Point { row: er, column: ec },
        start_byte: 0,
        end_byte: 0,
        children: vec![],
    }
}

fn node(kind: &str, sr: usize, sc: usize, er: usize, ec: usize, children: Vec<SyntaxNode>) -> SyntaxNode {
    SyntaxNode {
        kind: kind.to_string(),
        named: true,
        error: false,
        start: Point { row: sr, column: sc },
        end: Point { row: er, column: ec },
        start_byte: 0,
        end_byte: 0,
        children,
    }
}

// A small module: a function definition on line 0 and a call in progress on
// line 1.
//   func greet():
//   gre
fn sample_tree() -> SyntaxNode {
    let name = leaf("identifier", 0, 5, 0, 10);
    let fndef = node("function_definition", 0, 0, 0, 13, vec![name]);
    let call = leaf("normal_var", 1, 0, 1, 3);
    node("module", 0, 0, 1, 3, vec![fndef, call])
}

const SAMPLE: &str = "func greet():\ngre";

#[test]
fn string_at_pos_finds_leaf_text() {
    let root = sample_tree();
    let s = get_string_at_pos(Position::new(1, 1), &root, SAMPLE);
    assert_eq!(s.as_deref(), Some("gre"));
}

#[test]
fn string_at_pos_recurses_into_containers() {
    let root = sample_tree();
    let s = get_string_at_pos(Position::new(0, 7), &root, SAMPLE);
    assert_eq!(s.as_deref(), Some("greet"));
}

#[test]
fn string_at_pos_in_whitespace_is_none() {
    // A gap between tokens on line 0: the name leaf covers columns 5..=10
    // only; place another leaf far right and ask in between.
    let name = leaf("identifier", 0, 0, 0, 4);
    let tail = leaf("identifier", 0, 10, 0, 13);
    let root = node("module", 0, 0, 0, 13, vec![name, tail]);
    let s = get_string_at_pos(Position::new(0, 7), &root, "func   greet:");
    assert!(s.is_none());
}

#[test]
fn string_at_pos_out_of_bounds_is_none() {
    // The leaf's columns run past the end of its line: the query yields
    // nothing rather than failing.
    let bad = leaf("identifier", 0, 0, 0, 99);
    let root = node("module", 0, 0, 0, 99, vec![bad]);
    let s = get_string_at_pos(Position::new(0, 1), &root, "ab");
    assert!(s.is_none());
}

#[test]
fn position_range_of_leaf() {
    let root = sample_tree();
    let r = get_position_range(Position::new(1, 2), &root).expect("range expected");
    assert_eq!(r.0, Point { row: 1, column: 0 });
    assert_eq!(r.1, Point { row: 1, column: 3 });
}

#[test]
fn position_range_in_whitespace_is_none() {
    let name = leaf("identifier", 0, 0, 0, 2);
    let root = node("module", 0, 0, 0, 2, vec![name]);
    assert!(get_position_range(Position::new(5, 0), &root).is_none());
}

#[test]
fn pos_type_classifies_variables_comments_and_default() {
    let var = leaf("normal_var", 0, 0, 0, 3);
    let comment = leaf("comment", 1, 0, 1, 5);
    let plain = leaf("plain_token", 2, 0, 2, 3);
    let root = node("module", 0, 0, 2, 3, vec![var, comment, plain]);
    assert_eq!(
        get_pos_type(Position::new(0, 1), &root, "", PositionType::NotFind),
        PositionType::Variable
    );
    assert_eq!(
        get_pos_type(Position::new(1, 1), &root, "", PositionType::NotFind),
        PositionType::Comment
    );
    assert_eq!(
        get_pos_type(Position::new(2, 1), &root, "", PositionType::Variable),
        PositionType::Variable
    );
    assert_eq!(
        get_pos_type(Position::new(9, 0), &root, "", PositionType::Variable),
        PositionType::NotFind
    );
}

#[test]
fn completion_includes_function_defined_above() {
    let root = sample_tree();
    let items = get_completion(SAMPLE, Position::new(1, 3), &root, "main.cy")
        .expect("candidates expected");
    assert_eq!(items.len(), 1);
    assert_eq!(items[0].label, "greet()");
    assert_eq!(items[0].detail, "defined function\nfrom: main.cy");
    assert_eq!(items[0].line, 0);
}

#[test]
fn completion_prunes_definitions_after_cursor() {
    let name_a = leaf("identifier", 0, 5, 0, 6);
    let def_a = node("function_definition", 0, 0, 0, 9, vec![name_a]);
    let name_b = leaf("identifier", 5, 5, 5, 6);
    let def_b = node("function_definition", 5, 0, 5, 9, vec![name_b]);
    let root = node("module", 0, 0, 5, 9, vec![def_a, def_b]);
    let source = "func a():\n\n\n\n\nfunc b():";
    let items =
        get_nested_completion(&root, source, "m.cy", PositionType::NotFind, Some(Position::new(2, 0)))
            .expect("candidates expected");
    assert_eq!(items.len(), 1);
    assert_eq!(items[0].label, "a()");
    // No candidate starts after the cursor line.
    for item in &items {
        assert!(item.line <= 2);
    }
}

#[test]
fn completion_recurses_into_scopes() {
    let name_in = leaf("identifier", 1, 7, 1, 8);
    let def_in = node("function_definition", 1, 2, 1, 11, vec![name_in]);
    let scope = node("if_condition", 0, 0, 2, 0, vec![def_in]);
    let root = node("module", 0, 0, 3, 0, vec![scope]);
    let source = "if x:\n  func g():\n  pass\ny";
    let items =
        get_nested_completion(&root, source, "m.cy", PositionType::NotFind, Some(Position::new(3, 0)))
            .expect("candidates expected");
    assert_eq!(items.len(), 1);
    assert_eq!(items[0].label, "g()");
}

#[test]
fn completion_without_definitions_is_none() {
    let root = node("module", 0, 0, 0, 3, vec![leaf("normal_var", 0, 0, 0, 3)]);
    assert!(get_nested_completion(&root, "abc", "m.cy", PositionType::NotFind, None).is_none());
}

#[test]
fn includes_are_collected_with_cursor_bound() {
    let kw = leaf("keyword", 0, 0, 0, 3);
    let target = leaf("string", 0, 4, 0, 12);
    let imp = node("import_statement", 0, 0, 0, 12, vec![kw, target]);
    let kw2 = leaf("keyword", 5, 0, 5, 3);
    let target2 = leaf("string", 5, 4, 5, 12);
    let imp2 = node("import_statement", 5, 0, 5, 12, vec![kw2, target2]);
    let root = node("module", 0, 0, 5, 12, vec![imp, imp2]);
    let source = "use lib_a.cy\n\n\n\n\nuse lib_b.cy";
    let found = collect_includes(&root, source, Some(Position::new(2, 0)));
    assert_eq!(found, vec!["lib_a.cy".to_string()]);
    let all = collect_includes(&root, source, None);
    assert_eq!(all, vec!["lib_a.cy".to_string(), "lib_b.cy".to_string()]);
}

#[test]
fn visited_set_guards_against_cycles() {
    let mut seen = VisitedSet::new();
    assert!(!seen.contains("a.cy"));
    seen.insert("a.cy".to_string());
    assert!(seen.contains("a.cy"));
    assert!(!seen.contains("b.cy"));
    seen.insert("b.cy".to_string());
    assert!(seen.contains("a.cy"));
    assert!(seen.contains("b.cy"));
}

#[test]
fn top_level_collection_ignores_cursor() {
    let name = leaf("identifier", 7, 5, 7, 6);
    let def = node("function_definition", 7, 0, 7, 9, vec![name]);
    let root = node("module", 0, 0, 7, 9, vec![def]);
    let source = "\n\n\n\n\n\n\nfunc z():";
    let items = cyberls::completion::collect_top_level_definitions(&root, source, "inc.cy");
    assert_eq!(items.len(), 1);
    assert_eq!(items[0].label, "z()");
    assert_eq!(items[0].detail, "defined function\nfrom: inc.cy");
}
