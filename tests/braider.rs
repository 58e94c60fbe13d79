use agit::braider::{ExpertModel, LogicExpert, MetaBraider, SemanticExpert, SyntaxExpert};

#[test]
fn test_syntax_expert() {
    let expert = SyntaxExpert;
    let state = expert.forward("TODO: fix this");
    assert!(state < 0);

    let state = expert.forward("fn test_feature() { }");
    assert!(state > 0);
}

#[test]
fn test_logic_expert() {
    let expert = LogicExpert;
    let input = "MODIFIED: file1.rs\nMODIFIED: file2.rs\nMODIFIED: file3.rs";
    let state = expert.forward(input);
    assert!(state > 500_000);
}

#[test]
fn test_meta_braider() {
    let braider = MetaBraider::new();
    let diff = "MODIFIED: src/main.rs\nMODIFIED: src/lib.rs";
    let (fitness, _, _) = braider.braid(diff);
    assert!(fitness >= 0 && fitness <= 1_000_000);
}

#[test]
fn expert_opinions_are_exact() {
    assert_eq!(SyntaxExpert.opinion("TODO: fix this"), -1_000_000);
    assert_eq!(SyntaxExpert.opinion("fn test_feature() { }"), 1_000_000);
    assert_eq!(SyntaxExpert.opinion("a\nb\nc\nd\nHACK"), 200_000);
    assert_eq!(LogicExpert.opinion("MODIFIED: file1.rs\nMODIFIED: file2.rs\nMODIFIED: file3.rs"), 900_000);
    assert_eq!(LogicExpert.opinion(""), 400_000);
    assert_eq!(SemanticExpert.opinion("no paths here"), 0);
    assert_eq!(SemanticExpert.opinion("MODIFIED: src/main.rs\nMODIFIED: src/lib.rs"), 1_000_000);
    assert_eq!(SemanticExpert.opinion("MODIFIED: a/x.rs\nNEW: b/y.py\nDELETED: c/z.md\nMODIFIED: d/w.js\nMODIFIED: e/v.ts"), 200_000);
    assert_eq!(SemanticExpert.name(), "semantic");
}

#[test]
fn braid_stays_strictly_inside_the_unit_interval() {
    let b = MetaBraider::default();
    for text in ["", "x", "TODO TODO TODO", "MODIFIED: src/a.rs\n+fn a() {}", "\u{2800}\u{10ffff}"] {
        let (score, reason, breakdown) = b.braid(text);
        assert!(score > 0 && score < 1_000_000);
        assert!(!reason.is_empty());
        assert_eq!(breakdown.len(), 3);
        assert_eq!(breakdown[0].0, "syntax");
    }
}

#[test]
fn braid_score_for_known_text() {
    let b = MetaBraider::new();
    let (score, reason, breakdown) = b.braid("MODIFIED: src/main.rs\nMODIFIED: src/lib.rs");
    assert_eq!(breakdown[0].1, 800_000);
    assert_eq!(breakdown[1].1, 500_000);
    assert_eq!(breakdown[2].1, 1_000_000);
    // energy 0.769: logistic(0.769) is about 0.6833
    assert!(score > 683_000 && score < 684_000);
    assert_eq!(reason, "Good changes, but could be improved with tests or docs.");
}

#[test]
fn feedback_of_the_wrong_length_changes_nothing() {
    let mut b = MetaBraider::new();
    let before = b.weights();
    b.update_weights(&[100_000, 200_000]);
    assert_eq!(b.weights(), before);
    b.update_weights(&[]);
    assert_eq!(b.weights(), before);
    b.update_weights(&[1, 2, 3, 4]);
    assert_eq!(b.weights(), before);
}

#[test]
fn feedback_moves_and_renormalises_weights() {
    let mut b = MetaBraider::new();
    b.update_weights(&[1_000_000, 0, 0]);
    // 0.43, 0.33, 0.34 over a sum of 1.1
    assert_eq!(b.weights(), vec![390_909, 300_000, 309_090]);
    let mut c = MetaBraider::new();
    c.update_weights(&[-5_000_000, 0, 0]);
    // the first weight goes below zero and is kept so
    assert_eq!(c.weights(), vec![-340_000, 660_000, 680_000]);
    let mut d = MetaBraider::new();
    d.update_weights(&[-3_300_000, -3_300_000, -3_400_000]);
    assert_eq!(d.weights(), vec![330_000, 330_000, 340_000]);
}
