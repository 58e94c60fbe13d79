use agit::diff::parse;
use agit::fitness_analyzer::{CommitDecision, FitnessAnalyzer, FitnessReport};

#[test]
fn test_fitness_analyzer() {
    let analyzer = FitnessAnalyzer::new();

    let diff = r#"
MODIFIED: src/main.rs
+fn calculate_total(items: Vec<i32>) -> i32 {
+    items.iter().sum()
+}
+
+#[test]
+fn test_calculate_total() {
+    assert_eq!(calculate_total(vec![1, 2, 3]), 6);
+}
MODIFIED: src/lib.rs
+/// Calculate average of numbers
+fn calculate_average(items: Vec<i32>) -> f32 {
+    if items.is_empty() {
+        return 0.0;
+    }
+    items.iter().sum::<i32>() as f32 / items.len() as f32
+}
"#;

    let report = analyzer.calculate_fitness(diff);

    assert!(report.final_score > 600_000);
    assert!(report.component("tests").is_some());
    // Components are weighted: source files without test files score 0.6,
    // times the weight 0.15.
    assert_eq!(report.component("tests"), Some(90_000));
    assert_eq!(report.decision, CommitDecision::Commit);
}

#[test]
fn parse_groups_content_by_file() {
    let text = "junk\n+early\nMODIFIED: src/a.rs\n+one\n-two\n+++ header\n--- header\n other\nNEW: b.md extra\n+three\nDELETED: c\n";
    let changes = parse(text);
    assert_eq!(changes.len(), 3);
    assert_eq!(changes[0].path, "src/a.rs");
    assert_eq!(changes[0].added, vec!["one".to_string()]);
    assert_eq!(changes[0].removed, vec!["two".to_string()]);
    assert_eq!(changes[1].path, "b.md");
    assert_eq!(changes[1].added, vec!["three".to_string()]);
    assert_eq!(changes[2].path, "c");
    assert!(changes[2].added.is_empty());
}

#[test]
fn parse_handles_crlf_and_missing_paths() {
    let changes = parse("MODIFIED: x.rs\r\n+a\r\nMODIFIED:\n+b");
    assert_eq!(changes.len(), 1);
    assert_eq!(changes[0].path, "x.rs");
    assert_eq!(changes[0].added, vec!["a".to_string(), "b".to_string()]);
    let changes = parse("NEW: \n+z\n");
    assert_eq!(changes.len(), 1);
    assert_eq!(changes[0].path, "");
    assert!(parse("").is_empty());
    assert!(parse("+only\n-content\n").is_empty());
}

#[test]
fn empty_change_text_waits() {
    let report = FitnessAnalyzer::new().calculate_fitness("");
    assert_eq!(report.component("file_metrics"), Some(0));
    assert_eq!(report.component("coherence"), Some(0));
    assert_eq!(report.component("complexity"), Some(200_000));
    assert_eq!(report.component("risk"), Some(150_000));
    assert_eq!(report.final_score, 425_000);
    assert_eq!(report.decision, CommitDecision::Wait);
    assert_ne!(report.decision, CommitDecision::Commit);
}

#[test]
fn documented_single_file_commits() {
    let text = "MODIFIED: src/a.x\n+/// doc\n+fn foo(){}\n+#[test]\n+fn test_foo(){assert(true)}\n";
    let report = FitnessAnalyzer::new().calculate_fitness(text);
    assert!(report.final_score > 600_000);
    assert_eq!(report.final_score, 740_000);
    assert_eq!(report.decision, CommitDecision::Commit);
    assert_eq!(report.reasons, vec!["Good changes, ready to commit".to_string()]);
    assert_eq!(report.suggestions, vec!["Consider adding tests for these changes".to_string()]);
}

#[test]
fn component_values_are_exact() {
    let text = "MODIFIED: src/a.x\n+/// doc\n+fn foo(){}\n+#[test]\n+fn test_foo(){assert(true)}\n";
    let report = FitnessAnalyzer::new().calculate_fitness(text);
    assert_eq!(report.component("file_metrics"), Some(105_000));
    assert_eq!(report.component("complexity"), Some(200_000));
    assert_eq!(report.component("coherence"), Some(150_000));
    assert_eq!(report.component("tests"), Some(45_000));
    assert_eq!(report.component("risk"), Some(150_000));
    assert_eq!(report.component("documentation"), Some(90_000));
    assert_eq!(report.component("missing"), None);
}

#[test]
fn risky_scattered_change_waits() {
    let mut text = String::new();
    for i in 0..12 {
        text.push_str(&format!("MODIFIED: d{}/auth{}.toml\n", i, i));
        text.push_str("+password = x.unwrap() // TODO BREAKING\n");
        text.push_str("-a\n-b\n-c\n");
    }
    let report = FitnessAnalyzer::new().calculate_fitness(&text);
    assert_eq!(report.component("file_metrics"), Some(45_000));
    assert_eq!(report.component("risk"), Some(30_000));
    assert_eq!(report.final_score, 525_000);
    assert_eq!(report.decision, CommitDecision::Wait);
    assert_eq!(report.suggestions, vec!["Review risky changes carefully".to_string()]);
}

#[test]
fn line_marks_come_from_the_patterns() {
    let a = FitnessAnalyzer::new();
    let m = a.mark_line("this is BREAKING");
    assert!(m.breaking && !m.security && !m.todo && !m.function);
    let m = a.mark_line("let api_key = 1; // fixme");
    assert!(!m.breaking && m.security && m.todo && !m.function);
    let m = a.mark_line("def handler(x):");
    assert!(m.function);
    let m = a.mark_line("  fn indented()");
    assert!(!m.function);
}

#[test]
fn report_builders_record_values() {
    let mut r = FitnessReport::new();
    assert_eq!(r.final_score, 0);
    assert_eq!(r.decision, CommitDecision::Wait);
    r.add_component("a", 5);
    r.add_component("b", 7);
    r.add_component("a", 6);
    assert_eq!(r.components.len(), 2);
    assert_eq!(r.component("a"), Some(6));
    r.calculate_final_score();
    assert_eq!(r.final_score, 13);
    r.add_reason("why");
    r.add_suggestion("how");
    r.set_decision(CommitDecision::GhostSave);
    assert_eq!(r.reasons, vec!["why".to_string()]);
    assert_eq!(r.suggestions, vec!["how".to_string()]);
    assert_eq!(r.decision, CommitDecision::GhostSave);
    assert_eq!(r.component("b"), Some(7));
}

#[test]
fn tangled_change_scores_each_factor() {
    let text = "MODIFIED: a/t_test.rs\nMODIFIED: b/README.md\nMODIFIED: c/x.json\nMODIFIED: d/y.rs\n+fn alpha() {}\n+fn zeta() {}\n+if a && b || c? { while x { for y in z { match q {} } } }\n+if b {}\n+if c {}\n+if d {}\n";
    let report = FitnessAnalyzer::new().calculate_fitness(text);
    assert_eq!(report.component("complexity"), Some(120_000));
    assert_eq!(report.component("coherence"), Some(70_000));
    assert_eq!(report.component("tests"), Some(150_000));
    assert_eq!(report.component("documentation"), Some(100_000));
    assert_eq!(report.final_score, 740_000);
    assert_eq!(report.decision, CommitDecision::Commit);
}
