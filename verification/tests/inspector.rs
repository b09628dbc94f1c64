use ast_inspector::engine::parse;
use ast_inspector::error::Error;
use ast_inspector::grammar::{validate_language, LoadedLanguage};
use ast_inspector::lang::{detect_language, Lang};
use ast_inspector::registry::Registry;
use ast_inspector::render::{render_line, render_lines};
use ast_inspector::tree::{walk, WalkRecord};
use tree_sitter::Language;

fn python_language() -> Language {
    Language::from(tree_sitter_python::LANGUAGE)
}

fn python_grammar() -> LoadedLanguage {
    LoadedLanguage::from_parts("python", python_language(), None)
        .expect("python grammar should be ABI-compatible")
}

fn render(records: &[WalkRecord]) -> Vec<u8> {
    let mut out = Vec::new();
    for rec in records {
        let line = format!("{}{} [{}:{}]\n", "  ".repeat(rec.depth), rec.kind, rec.row, rec.col);
        out.extend_from_slice(line.as_bytes());
    }
    out
}

#[test]
fn test_language_bindings() {
    // Test that every bundled grammar yields a descriptor the runtime accepts.
    let languages = [
        ("python", Language::from(tree_sitter_python::LANGUAGE)),
        ("rust", Language::from(tree_sitter_rust::LANGUAGE)),
        ("typescript", Language::from(tree_sitter_typescript::LANGUAGE_TYPESCRIPT)),
        ("tsx", Language::from(tree_sitter_typescript::LANGUAGE_TSX)),
    ];

    for (name, lang) in &languages {
        assert!(validate_language(lang), "Failed to load {} parser", name);
    }
}

#[test]
fn from_parts_keeps_name_and_validates() {
    let g = python_grammar();
    assert_eq!(g.name, "python");
}

#[test]
fn detect_language_by_extension() {
    assert_eq!(detect_language("example.py"), Some(Lang::Python));
    assert_eq!(detect_language("example.rs"), Some(Lang::Rust));
    assert_eq!(detect_language("example.ts"), Some(Lang::TypeScript));
    assert_eq!(detect_language("example.tsx"), Some(Lang::Tsx));
    assert_eq!(detect_language("example.txt"), None);
    assert_eq!(detect_language("example"), None);
    assert_eq!(detect_language(""), None);
    assert_eq!(detect_language("ts"), None);
}

#[test]
fn lang_names() {
    assert_eq!(Lang::Python.name(), "python");
    assert_eq!(Lang::Rust.name(), "rust");
    assert_eq!(Lang::TypeScript.name(), "typescript");
    assert_eq!(Lang::Tsx.name(), "tsx");
}

#[test]
fn error_messages() {
    assert_eq!(Error::IoError.message(), "failed to read source file");
    assert_eq!(Error::UnsupportedExtension.message(), "unsupported file extension");
    assert_eq!(Error::ModuleNotFound.message(), "grammar module not found");
    assert_eq!(Error::SymbolMissing.message(), "grammar entry point missing");
    assert_eq!(Error::AbiMismatch.message(), "grammar ABI version mismatch");
    assert_eq!(Error::ParseFailure.message(), "parser returned no tree");
}

#[test]
fn parse_empty_source_root_has_no_children() {
    let g = python_grammar();
    let tree = parse(&g, "").expect("empty source still parses");
    assert_eq!(tree.root_child_count(), 0);
    let records = walk(&tree);
    assert_eq!(records.len(), 1);
    assert_eq!(records[0].depth, 0);
    assert_eq!(records[0].kind, "module");
}

#[test]
fn parse_unbalanced_source_marks_error_node() {
    let g = python_grammar();
    let tree = parse(&g, "x = (1, 2").expect("malformed source still parses");
    let records = walk(&tree);
    assert!(
        records.iter().any(|r| r.kind == "ERROR" || r.kind == "MISSING"),
        "expected an error-marked node in the walk"
    );
}

#[test]
fn traversal_order_is_stable() {
    let g = python_grammar();
    let tree = parse(&g, "a(b, c)").expect("call expression parses");
    let records = walk(&tree);
    // All of a, b and c sit on row 1; identify them by 1-based column.
    let pos_of = |col: u64| {
        records
            .iter()
            .position(|r| r.kind == "identifier" && r.row == 1 && r.col == col)
            .unwrap_or_else(|| panic!("identifier at column {} not visited", col))
    };
    let a = pos_of(1);
    let b = pos_of(3);
    let c = pos_of(6);
    assert!(a < b, "a must be visited before b");
    assert!(b < c, "b must be visited before c");
}

#[test]
fn parent_visited_before_children_at_greater_depth() {
    let g = python_grammar();
    let tree = parse(&g, "a(b, c)").expect("call expression parses");
    let records = walk(&tree);
    assert_eq!(records[0].kind, "module");
    assert_eq!(records[0].depth, 0);
    assert!(records.len() > 1);
    assert_eq!(records[1].depth, 1);
}

#[test]
fn walking_twice_is_byte_identical() {
    let g = python_grammar();
    let tree = parse(&g, "def f(x):\n    return x + 1\n").expect("source parses");
    let first = render(&walk(&tree));
    let second = render(&walk(&tree));
    assert!(!first.is_empty());
    assert_eq!(first, second);
    let lines_first = render_lines(&walk(&tree));
    let lines_second = render_lines(&walk(&tree));
    assert_eq!(lines_first, lines_second);
}

#[test]
fn rendered_lines_follow_the_output_format() {
    let g = python_grammar();
    let tree = parse(&g, "x = 1").expect("source parses");
    let records = walk(&tree);
    let lines = render_lines(&records);
    assert_eq!(lines.len(), records.len());
    for (rec, line) in records.iter().zip(&lines) {
        let expected = format!("{}{} [{}:{}]", "  ".repeat(rec.depth), rec.kind, rec.row, rec.col);
        assert_eq!(line, &expected);
    }
    assert_eq!(lines[0], "module [1:1]");
}

#[test]
fn rendered_positions_use_full_decimal_digits() {
    let g = python_grammar();
    let source = format!("{}x = 1", "\n".repeat(11));
    let tree = parse(&g, &source).expect("source parses");
    let records = walk(&tree);
    let on_row_12: Vec<&WalkRecord> = records.iter().filter(|r| r.row == 12).collect();
    assert!(!on_row_12.is_empty(), "the assignment sits on row 12");
    let line = render_line(on_row_12[0]);
    assert!(line.contains("[12:"), "multi-digit rows render in decimal: {line}");
}

#[test]
fn one_line_python_positions_on_row_one() {
    let g = python_grammar();
    let tree = parse(&g, "x = 1").expect("source parses");
    assert_eq!(tree.root_kind(), "module");
    let records = walk(&tree);
    assert!(records.len() >= 3, "expected a chain of nodes under the root");
    for rec in &records {
        assert_eq!(rec.row, 1, "every node of a one-line file starts on row 1");
    }
    let max_depth = records.iter().map(|r| r.depth).max().unwrap();
    assert!(max_depth >= 2);
}

#[test]
fn walk_emits_one_record_per_node() {
    let g = python_grammar();
    let tree = parse(&g, "def f(x):\n    return x + 1\n").expect("source parses");
    let records = walk(&tree);
    assert_eq!(records.len(), tree.node_count());
}

#[test]
fn registry_caches_a_single_load_per_language() {
    let mut registry = Registry::new();
    let mut loads = 0;

    for _ in 0..2 {
        if registry.lookup(Lang::Python).is_none() {
            loads += 1;
            registry.install(Lang::Python, python_grammar());
        }
        let cached = registry.lookup(Lang::Python).expect("grammar is cached");
        assert_eq!(cached.name, "python");
    }

    assert_eq!(loads, 1, "the loader must run at most once per language");
    assert_eq!(registry.len(), 1);
}

#[test]
fn registry_keeps_the_first_installed_grammar() {
    let mut registry = Registry::new();
    registry.install(Lang::Python, python_grammar());
    let other = LoadedLanguage::from_parts("python-second", python_language(), None)
        .expect("python grammar should be ABI-compatible");
    registry.install(Lang::Python, other);
    assert_eq!(registry.len(), 1);
    let cached = registry.lookup(Lang::Python).expect("grammar is cached");
    assert_eq!(cached.name, "python", "the first installed grammar must win");
}

#[test]
fn rust_source_parses_with_rust_grammar() {
    let g = LoadedLanguage::from_parts("rust", Language::from(tree_sitter_rust::LANGUAGE), None)
        .expect("rust grammar should be ABI-compatible");
    let tree = parse(&g, "fn main() {}").expect("source parses");
    assert_eq!(tree.root_kind(), "source_file");
    let records = walk(&tree);
    assert!(records.iter().any(|r| r.kind == "function_item"));
}
