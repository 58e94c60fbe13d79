use agit::agent::{
    AgentAction, AgentCore, ThresholdAdvice, extract_semantic_tokens, generate_traditional_message, push_decimal,
};
use agit::fitness::{FitnessHistory, HistoricalCommit};
use agit::scl::{Language, SemanticToken};

fn make_core(threshold: u64, scl: bool) -> AgentCore {
    AgentCore::new(threshold, scl, Language::English, FitnessHistory::new())
}

#[test]
fn tokens_follow_the_words_of_the_change() {
    assert_eq!(
        extract_semantic_tokens("MODIFIED: src/auth.rs fix edge"),
        vec![SemanticToken::Fix, SemanticToken::Authentication, SemanticToken::EdgeCase]
    );
    assert_eq!(extract_semantic_tokens("NEW: docs/guide.md"), vec![SemanticToken::Add, SemanticToken::Documentation]);
    assert_eq!(extract_semantic_tokens("MODIFIED: x"), vec![SemanticToken::Update, SemanticToken::Feature]);
    assert_eq!(
        extract_semantic_tokens("refactor perf improve"),
        vec![SemanticToken::Refactor, SemanticToken::Performance, SemanticToken::Enhancement]
    );
}

#[test]
fn decimal_digits() {
    let mut s = String::from("n=");
    push_decimal(&mut s, 0);
    push_decimal(&mut s, 907);
    assert_eq!(s, "n=0907");
}

#[test]
fn traditional_messages() {
    assert_eq!(generate_traditional_message("MODIFIED: src/a.rs\n", "12:30"), "✨ feat: update src/a.rs [12:30]");
    assert_eq!(
        generate_traditional_message("MODIFIED: a_test.rs\nNEW: b.md\nDELETED: c\n", "01:02"),
        "🧪 test: update 3 files [01:02]"
    );
    assert_eq!(generate_traditional_message("NEW: b.md\nNEW: bugfix.rs\n", "x"), "📝 docs: update 2 files [x]");
    assert_eq!(generate_traditional_message("NEW: bugfix.rs\n", "x"), "🐛 fix: update bugfix.rs [x]");
    assert_eq!(generate_traditional_message("", "x"), "✨ feat: update 0 files [x]");
}

#[test]
fn blank_changes_wait() {
    let c = make_core(0, false);
    assert_eq!(c.decide_at("", "00:00"), AgentAction::Wait);
    assert_eq!(c.decide_at(" \n\t ", "00:00"), AgentAction::Wait);
}

#[test]
fn decisions_follow_the_fused_score() {
    let diff = "MODIFIED: src/main.rs\nMODIFIED: src/lib.rs";
    // fused score is about 0.683
    assert_eq!(
        make_core(600_000, false).decide_at(diff, "09:15"),
        AgentAction::Commit("✨ feat: update 2 files [09:15]".to_string())
    );
    assert_eq!(make_core(700_000, false).decide_at(diff, "09:15"), AgentAction::GhostCommit);
    assert!(matches!(make_core(600_000, false).decide(diff), AgentAction::Commit(_)));
}

#[test]
fn low_scores_split_only_when_large() {
    let small = "TODO";
    let mut c = make_core(900_000, false);
    // with the default weights the fused score never falls below 0.41
    assert_eq!(c.decide_at(small, "x"), AgentAction::GhostCommit);
    c.braider.update_weights(&[10_000_000, -3_000_000, -3_000_000]);
    assert_eq!(c.braider.weights(), vec![950_000, 21_428, 28_571]);
    assert_eq!(c.decide_at(small, "x"), AgentAction::Wait);
    let large = "TODO\n".repeat(1001);
    assert_eq!(c.decide_at(&large, "x"), AgentAction::Split);
}

#[test]
fn scl_messages_carry_code_and_rendering() {
    let c = make_core(0, true);
    let diff = "MODIFIED: src/auth.rs\n";
    let message = c.generate_scl_message(diff);
    let topology = c.calculate_fitness_topology(diff);
    assert_eq!(topology.kappa, 1);
    assert_eq!(topology.sigma, 2);
    assert!(message.starts_with("⠥⠏⠙.⠁⠥⠞⠓."));
    assert!(message.ends_with("\n\nSCL: update: authentication"));
    assert!(message.contains(topology.to_braille()));
}

#[test]
fn learning_records_the_commit() {
    let mut c = make_core(700_000, false);
    for i in 0..9 {
        assert!(!c.learn_from_commit("m", "MODIFIED: a\nMODIFIED: b", format!("t{}", i)));
    }
    assert!(c.learn_from_commit("last", "MODIFIED: a\nMODIFIED: b", "t9".to_string()));
    assert_eq!(c.history.commits.len(), 10);
    let last = &c.history.commits[9];
    assert_eq!(last.message, "last");
    assert_eq!(last.file_count, 2);
    assert_eq!(last.timestamp, "t9");
    assert!(last.fitness > 0 && last.fitness < 1_000_000);
}

#[test]
fn threshold_advice_tracks_the_mean() {
    let mut history = FitnessHistory::new();
    history.add_commit(HistoricalCommit { timestamp: String::new(), fitness: 900_000, file_count: 1, message: String::new() });
    let c = AgentCore::new(700_000, false, Language::English, history);
    assert_eq!(c.threshold_advice(), ThresholdAdvice::Raise(850_000));
    let c2 = AgentCore::new(950_000, false, Language::English, FitnessHistory::new());
    assert_eq!(c2.threshold_advice(), ThresholdAdvice::Lower(50_000));
    let c3 = AgentCore::new(50_000, false, Language::English, FitnessHistory::new());
    assert_eq!(c3.threshold_advice(), ThresholdAdvice::Keep);
}

#[test]
fn history_adjusts_the_agent_score() {
    let mut history = FitnessHistory::new();
    for i in 0..6 {
        history.add_commit(HistoricalCommit { timestamp: format!("{}", i), fitness: 0, file_count: 2, message: String::new() });
    }
    let c = AgentCore::new(700_000, false, Language::English, history);
    let diff = "MODIFIED: src/main.rs\nMODIFIED: src/lib.rs";
    let (raw, _, _) = c.braider.braid(diff);
    let (adjusted, _, _) = c.calculate_fitness(diff);
    assert_eq!(adjusted, raw as i128 + 50_000);
}

#[test]
fn bonus_counts_announced_files_not_lines() {
    let mut history = FitnessHistory::new();
    for i in 0..6 {
        history.add_commit(HistoricalCommit { timestamp: format!("{}", i), fitness: 0, file_count: 1, message: String::new() });
    }
    let c = AgentCore::new(700_000, false, Language::English, history);
    let diff = "MODIFIED: src/a.rs\n+let x = 1;\n";
    let (raw, reason, breakdown) = c.braider.braid(diff);
    let (adjusted, reason2, breakdown2) = c.calculate_fitness(diff);
    assert_eq!(adjusted, raw as i128 + 50_000);
    assert_eq!(reason, reason2);
    assert_eq!(breakdown, breakdown2);
}

#[test]
fn learning_stores_the_file_count() {
    let mut c = make_core(700_000, false);
    c.learn_from_commit("m", "MODIFIED: a.rs\n+x\n+y\nNEW: b.rs\n", "t".to_string());
    assert_eq!(c.history.commits[0].file_count, 2);
}
