use agit::fitness::{CommitFitness, FitnessHistory, HistoricalCommit};

fn entry(i: usize, fitness: u64, file_count: usize) -> HistoricalCommit {
    HistoricalCommit {
        timestamp: format!("2025-12-02T21:00:{:02}", i % 60),
        fitness,
        file_count,
        message: format!("commit {}", i),
    }
}

#[test]
fn test_commit_fitness() {
    let mut fitness = CommitFitness::new(850_000);
    fitness.add_reason("Good file count".to_string());
    fitness.add_suggestion("Add tests".to_string());

    assert_eq!(fitness.score, 850_000);
    assert_eq!(fitness.reasons.len(), 1);
    assert_eq!(fitness.suggestions.len(), 1);
}

#[test]
fn test_should_commit() {
    let fitness = CommitFitness::new(750_000);
    assert!(fitness.should_commit(700_000));
    assert!(!fitness.should_commit(800_000));
}

#[test]
fn test_fitness_history() {
    let mut history = FitnessHistory::new();

    history.add_commit(HistoricalCommit {
        timestamp: "2025-12-02T21:00:00".to_string(),
        fitness: 800_000,
        file_count: 5,
        message: "test commit".to_string(),
    });

    assert_eq!(history.commits.len(), 1);
    assert_eq!(history.average_fitness(), 800_000);
    assert_eq!(history.average_file_count(), 5_000_000);
}

#[test]
fn history_keeps_the_latest_hundred() {
    let mut history = FitnessHistory::default();
    for i in 0..101 {
        history.add_commit(entry(i, 500_000, i));
    }
    assert_eq!(history.commits.len(), 100);
    assert!(!history.commits.iter().any(|c| c.message == "commit 0"));
    assert!(history.commits.iter().any(|c| c.message == "commit 100"));
    assert_eq!(history.commits[0].message, "commit 1");
}

#[test]
fn empty_history_averages_zero() {
    let history = FitnessHistory::new();
    assert_eq!(history.average_fitness(), 0);
    assert_eq!(history.average_file_count(), 0);
}

#[test]
fn averages_round_down() {
    let mut history = FitnessHistory::new();
    history.add_commit(entry(0, 1, 1));
    history.add_commit(entry(1, 2, 2));
    history.add_commit(entry(2, 2, 2));
    assert_eq!(history.average_fitness(), 1);
    assert_eq!(history.average_file_count(), 1_666_666);
}

#[test]
fn bonus_applies_after_five_entries() {
    let mut history = FitnessHistory::new();
    for i in 0..5 {
        history.add_commit(entry(i, 0, 4));
    }
    assert_eq!(history.adjusted_fitness(600_000, 4), 600_000);
    history.add_commit(entry(5, 0, 4));
    // same file count as the mean: the full bonus of 0.05
    assert_eq!(history.adjusted_fitness(600_000, 4), 650_000);
    // capped at one
    assert_eq!(history.adjusted_fitness(990_000, 4), 1_000_000);
    // twice the mean: no bonus
    assert_eq!(history.adjusted_fitness(600_000, 8), 600_000);
    // far from the mean: the bonus turns negative, with no lower cap
    assert_eq!(history.adjusted_fitness(10_000, 400), 10_000 - 4_900_000);
}

#[test]
fn fitness_builders_keep_other_fields() {
    let mut f = CommitFitness::new(1);
    f.set_breakdown(vec![("syntax".to_string(), 3)]);
    assert_eq!(f.breakdown.len(), 1);
    assert_eq!(f.confidence, 1_000_000);
    assert_eq!(f.score, 1);
}
