use game_of_life_sim::dsl::rulesets::conways_game_of_life;
use game_of_life_sim::dsl::statements::void;
use game_of_life_sim::shaders::{AssetFile, ShaderError, ShaderImportProcessor, ShaderImports};

fn file(path: &str, contents: &str) -> AssetFile {
    AssetFile {
        path: path.to_string(),
        contents: contents.to_string(),
    }
}

#[test]
fn scan_collects_imports_in_first_seen_order() {
    let processor = ShaderImportProcessor::default();
    let imports = processor.get_imports_from_str("#import foo\nlet x = 1;\n#import bar\n");
    assert_eq!(imports.imports, vec!["foo".to_string(), "bar".to_string()]);
    assert!(imports.import_path.is_none());
}

#[test]
fn scan_keeps_duplicate_imports() {
    let processor = ShaderImportProcessor::default();
    let imports = processor.get_imports_from_str("#import a\n#import a\n");
    assert_eq!(imports.imports, vec!["a".to_string(), "a".to_string()]);
}

#[test]
fn scan_records_last_import_path_declaration() {
    let processor = ShaderImportProcessor::default();
    let imports =
        processor.get_imports_from_str("#define_import_path first\n#define_import_path second\n");
    assert!(imports.imports.is_empty());
    assert_eq!(imports.import_path, Some("second".to_string()));
}

#[test]
fn scan_tolerates_whitespace_around_directive() {
    let processor = ShaderImportProcessor::default();
    let imports = processor.get_imports_from_str("  #  import   foo bar \n");
    assert_eq!(imports.imports, vec!["foo bar ".to_string()]);
}

#[test]
fn scan_requires_whitespace_after_keyword() {
    let processor = ShaderImportProcessor::default();
    assert!(processor.get_imports_from_str("#importx foo\n").imports.is_empty());
    assert!(processor.get_imports_from_str("#import\n").imports.is_empty());
    assert!(processor.get_imports_from_str("#import \n").imports.is_empty());
}

#[test]
fn scan_captures_trailing_whitespace_run_greedily() {
    let processor = ShaderImportProcessor::default();
    let imports = processor.get_imports_from_str("#import  \n");
    assert_eq!(imports.imports, vec![" ".to_string()]);
}

#[test]
fn scan_strips_carriage_return_before_line_feed() {
    let processor = ShaderImportProcessor::default();
    let imports = processor.get_imports_from_str("#import foo\r\n#import bar\r\n");
    assert_eq!(imports.imports, vec!["foo".to_string(), "bar".to_string()]);
}

#[test]
fn scan_of_empty_text_finds_nothing() {
    let processor = ShaderImportProcessor::default();
    let imports = processor.get_imports_from_str("");
    assert!(imports.imports.is_empty());
    assert!(imports.import_path.is_none());
}

#[test]
fn scan_handles_final_line_without_line_feed() {
    let processor = ShaderImportProcessor::default();
    let imports = processor.get_imports_from_str("let x = 1;\n#import foo");
    assert_eq!(imports.imports, vec!["foo".to_string()]);
}

#[test]
fn scan_of_plain_shader_text_finds_nothing() {
    let processor = ShaderImportProcessor::default();
    let imports = processor.get_imports_from_str("fn update() {\n  // import nothing\n}\n");
    assert!(imports.imports.is_empty());
    assert!(imports.import_path.is_none());
}

#[test]
fn default_scan_result_is_empty() {
    let imports = ShaderImports::default();
    assert!(imports.imports.is_empty());
    assert!(imports.import_path.is_none());
}

#[test]
fn resolve_without_imports_returns_raw_text() {
    let processor = ShaderImportProcessor::default();
    let text = "fn main() {\n  return;\n}\n";
    let resolved = processor.resolve_imports(text, &vec![]).unwrap();
    assert_eq!(resolved, text);
}

#[test]
fn resolve_inlines_imported_contents() {
    let processor = ShaderImportProcessor::default();
    let files = vec![file("foo", "// helper code")];
    let resolved = processor
        .resolve_imports("#import foo\nfn main() {}\n", &files)
        .unwrap();
    assert_eq!(resolved, "// helper code\nfn main() {}\n");
}

#[test]
fn resolve_replaces_every_occurrence_of_a_directive() {
    let processor = ShaderImportProcessor::default();
    let files = vec![file("a", "Z")];
    let resolved = processor.resolve_imports("#import a\n#import a\n", &files).unwrap();
    assert_eq!(resolved, "Z\nZ\n");
}

#[test]
fn resolve_searches_under_declared_import_path() {
    let processor = ShaderImportProcessor::default();
    let files = vec![file("lib/foo", "X")];
    let resolved = processor
        .resolve_imports("#define_import_path lib\n#import foo\n", &files)
        .unwrap();
    assert_eq!(resolved, "#define_import_path lib\nX\n");
}

#[test]
fn resolve_fails_on_missing_import_target() {
    let processor = ShaderImportProcessor::default();
    let err = processor
        .resolve_imports("#import nope\nfn main() {}\n", &vec![])
        .unwrap_err();
    let ShaderError::MissingImport(target) = err;
    assert_eq!(target, "nope");
}

#[test]
fn resolve_reports_first_missing_import() {
    let processor = ShaderImportProcessor::default();
    let files = vec![file("present", "ok")];
    let err = processor
        .resolve_imports("#import present\n#import absent\n#import alsoabsent\n", &files)
        .unwrap_err();
    let ShaderError::MissingImport(target) = err;
    assert_eq!(target, "absent");
}

#[test]
fn missing_import_error_message_names_the_target() {
    let err = ShaderError::MissingImport("noise".to_string());
    assert_eq!(err.message(), "failed to read import file: noise");
}

#[test]
fn repeated_resolution_is_byte_identical() {
    let processor = ShaderImportProcessor::default();
    let files = vec![file("a", "alpha"), file("b", "beta")];
    let text = "#import a\nbody\n#import b\n";
    let first = processor.resolve_imports(text, &files).unwrap();
    let second = processor.resolve_imports(text, &files).unwrap();
    assert_eq!(first, second);
    let third = processor.resolve_imports(text, &files).unwrap();
    assert_eq!(first, third);
}

#[test]
fn rules_replace_every_placeholder_occurrence() {
    let processor = ShaderImportProcessor::default();
    let rule = void();
    let resolved = processor
        .resolve_with_rules("{PLACEHOLDER}\n{PLACEHOLDER}", &vec![], &rule)
        .unwrap();
    assert_eq!(resolved, "\n");
}

#[test]
fn rules_error_on_missing_import_before_substitution() {
    let processor = ShaderImportProcessor::default();
    let rule = conways_game_of_life();
    let err = processor
        .resolve_with_rules("#import gone\n{PLACEHOLDER}\n", &vec![], &rule)
        .unwrap_err();
    let ShaderError::MissingImport(target) = err;
    assert_eq!(target, "gone");
}

#[test]
fn conway_template_resolves_to_expected_shader() {
    let processor = ShaderImportProcessor::default();
    let template = "#import utils\nfn update() {\n  var result: u32 = 0u;\n  {PLACEHOLDER}\n}\n";
    let files = vec![file("utils", "// neighbor helpers")];
    let rule = conways_game_of_life();
    let resolved = processor.resolve_with_rules(template, &files, &rule).unwrap();

    assert!(!resolved.contains("{PLACEHOLDER}"));
    assert!(resolved.contains("// neighbor helpers"));

    let rule_text = "if (is_alive) { \
                     result = ((u32((num_neighbors) == (2u))) | (u32((num_neighbors) == (3u)))); \
                     } else { \
                     result = u32((num_neighbors) == (3u)); \
                     }";
    assert_eq!(resolved.matches(rule_text).count(), 1);

    let after_if = resolved.split("if (is_alive) { ").nth(1).unwrap();
    let mut halves = after_if.split(" } else { ");
    let true_branch = halves.next().unwrap();
    let false_branch = halves.next().unwrap().split(" }").next().unwrap();
    assert!(true_branch.contains("(2u)"));
    assert!(true_branch.contains("(3u)"));
    assert!(true_branch.contains(") | ("));
    assert!(!true_branch.contains("||"));
    assert!(false_branch.contains("(3u)"));
    assert!(!false_branch.contains("(2u)"));
}
