use agit::bifm::FitnessTopology;
use agit::scl::{BrailleToken, Language, LanguageRenderer, SCLCommit, SemanticToken};

#[test]
fn test_semantic_to_braille() {
    let token = SemanticToken::Fix;
    assert_eq!(token.to_braille().0, "⠋⠊⠭");
}

#[test]
fn test_braille_to_semantic() {
    let braille = BrailleToken("⠋⠊⠭".to_string());
    assert_eq!(SemanticToken::from_braille(&braille), Some(SemanticToken::Fix));
}

#[test]
fn scl_test_scl_commit() {
    let tokens = vec![SemanticToken::Fix, SemanticToken::Authentication, SemanticToken::EdgeCase];

    let commit = SCLCommit::new(tokens, "test@example.com".to_string());
    assert_eq!(commit.braille, "⠋⠊⠭.⠁⠥⠞⠓.⠑⠙⠛⠑");
}

#[test]
fn test_language_rendering() {
    let tokens = vec![SemanticToken::Fix, SemanticToken::Authentication, SemanticToken::EdgeCase];

    let commit = SCLCommit::new(tokens, "test@example.com".to_string());
    let renderer = LanguageRenderer::new();

    let english = renderer.render(&commit, Language::English);
    assert!(english.contains("fix"));
    assert!(english.contains("authentication"));

    let spanish = renderer.render(&commit, Language::Spanish);
    assert!(spanish.contains("corregir"));
    assert!(spanish.contains("autenticación"));
}

#[test]
fn tests_test_scl_commit() {
    let tokens = vec![SemanticToken::Fix, SemanticToken::Authentication];
    let commit = SCLCommit::new(tokens.clone(), "test-agent".to_string());

    assert!(!commit.braille.is_empty());
    assert_eq!(commit.author, "test-agent");
    assert!(!commit.timestamp.is_empty());

    let braille_str = "⠋⠊⠭.⠁⠥⠞⠓";
    let parsed = SCLCommit::from_braille(braille_str, "agent".to_string());
    assert!(parsed.is_some());
}

#[test]
fn test_semantic_token_conversion() {
    let token = SemanticToken::Fix;
    let braille = token.to_braille();
    assert_eq!(braille.0, "⠋⠊⠭");

    let parsed = SemanticToken::from_braille(&BrailleToken("⠋⠊⠭".to_string()));
    assert_eq!(parsed, Some(SemanticToken::Fix));
}

const ALL: [SemanticToken; 14] = [
    SemanticToken::Fix,
    SemanticToken::Add,
    SemanticToken::Remove,
    SemanticToken::Update,
    SemanticToken::Refactor,
    SemanticToken::Authentication,
    SemanticToken::Security,
    SemanticToken::Performance,
    SemanticToken::Testing,
    SemanticToken::Documentation,
    SemanticToken::EdgeCase,
    SemanticToken::Feature,
    SemanticToken::Bug,
    SemanticToken::Enhancement,
];

#[test]
fn every_token_survives_its_code() {
    for t in ALL {
        assert_eq!(SemanticToken::from_braille(&t.to_braille()), Some(t));
    }
    for (i, a) in ALL.iter().enumerate() {
        for b in ALL.iter().skip(i + 1) {
            assert_ne!(a.to_braille().0, b.to_braille().0);
        }
    }
}

#[test]
fn unknown_codes_are_not_tokens() {
    assert_eq!(SemanticToken::from_braille(&BrailleToken("⠋⠊".to_string())), None);
    assert_eq!(SemanticToken::from_braille(&BrailleToken(String::new())), None);
    assert_eq!(SemanticToken::from_braille(&BrailleToken("fix".to_string())), None);
}

#[test]
fn fix_authentication_decodes_in_order() {
    let commit = SCLCommit::new(vec![SemanticToken::Fix, SemanticToken::Authentication], "a".to_string());
    let parsed = SCLCommit::from_braille(&commit.braille, "b".to_string()).unwrap();
    assert_eq!(parsed.tokens, vec![SemanticToken::Fix, SemanticToken::Authentication]);
    assert_eq!(parsed.fitness, None);
    assert_eq!(parsed.braille, commit.braille);
    assert_eq!(parsed.author, "b");
}

#[test]
fn topology_symbol_travels_with_the_tokens() {
    let topo = FitnessTopology::new(2, 4, 1);
    let commit = SCLCommit::with_fitness(vec![SemanticToken::Add, SemanticToken::Feature], "a".to_string(), Some(topo));
    assert_eq!(commit.braille, format!("⠁⠙⠙.⠋⠑⠁⠞.{}", topo.to_braille()));
    let parsed = SCLCommit::from_braille(&commit.braille, "a".to_string()).unwrap();
    assert_eq!(parsed.tokens, vec![SemanticToken::Add, SemanticToken::Feature]);
    assert_eq!(parsed.fitness, Some(topo));
}

#[test]
fn decoding_needs_a_token() {
    assert!(SCLCommit::from_braille("", "a".to_string()).is_none());
    assert!(SCLCommit::from_braille("⣯", "a".to_string()).is_none());
    assert!(SCLCommit::from_braille("x.y.zz", "a".to_string()).is_none());
}

#[test]
fn malformed_topology_is_dropped() {
    let parsed = SCLCommit::from_braille("⠋⠊⠭.x", "a".to_string()).unwrap();
    assert_eq!(parsed.tokens, vec![SemanticToken::Fix]);
    assert_eq!(parsed.fitness, None);
    let parsed = SCLCommit::from_braille("⠋⠊⠭.junk.⠃⠥⠛", "a".to_string()).unwrap();
    assert_eq!(parsed.tokens, vec![SemanticToken::Fix, SemanticToken::Bug]);
}

#[test]
fn fixed_timestamp_is_kept() {
    let c = SCLCommit::with_fitness_at(vec![SemanticToken::Bug], "me".to_string(), None, "t0".to_string());
    assert_eq!(c.timestamp, "t0");
    assert_eq!(c.braille, "⠃⠥⠛");
    let d = SCLCommit::from_braille_at("⠃⠥⠛", "me".to_string(), "t1".to_string()).unwrap();
    assert_eq!(d.timestamp, "t1");
}

#[test]
fn rendering_composes_words() {
    let r = LanguageRenderer::new();
    let c = SCLCommit::new(vec![SemanticToken::Fix, SemanticToken::Authentication, SemanticToken::EdgeCase], "a".to_string());
    assert_eq!(r.render(&c, Language::English), "fix: authentication edge case");
    assert_eq!(r.render(&c, Language::Spanish), "corregir: autenticación caso límite");
    assert_eq!(r.render(&c, Language::Chinese), "修复: 身份验证 边缘情况");
    let one = SCLCommit::new(vec![SemanticToken::Bug], "a".to_string());
    assert_eq!(r.render(&one, Language::English), "bug");
    let none = SCLCommit::new(vec![], "a".to_string());
    assert_eq!(r.render(&none, Language::English), "");
}

#[test]
fn unconfigured_locales_use_symbolic_names() {
    let r = LanguageRenderer::default();
    let c = SCLCommit::new(vec![SemanticToken::Fix, SemanticToken::EdgeCase], "a".to_string());
    assert_eq!(r.render(&c, Language::Japanese), "Fix: EdgeCase");
    assert_eq!(r.render(&c, Language::German), "Fix: EdgeCase");
    assert_eq!(r.word(Language::English, "Unknown"), "Unknown");
    assert_eq!(r.word(Language::English, "Bug"), "bug");
}
