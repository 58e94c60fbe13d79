use agit::bifm::FitnessTopology;

#[test]
fn test_encode_decode() {
    let topo = FitnessTopology::new(7, 5, 3);
    let braille = topo.to_braille();
    assert_eq!(braille, '⣯');

    let decoded = FitnessTopology::from_braille(braille).unwrap();
    assert_eq!(decoded, topo);
}

#[test]
fn test_all_64_tokens() {
    for delta in 0..=3 {
        for kappa in 0..=7 {
            for sigma in 0..=7 {
                let topo = FitnessTopology::new(kappa, sigma, delta);
                let braille = topo.to_braille();
                let decoded = FitnessTopology::from_braille(braille).unwrap();

                assert_eq!(decoded.kappa, kappa);
                assert_eq!(decoded.sigma, sigma);
                assert_eq!(decoded.delta, delta);
            }
        }
    }
}

#[test]
fn test_interpretation() {
    let topo = FitnessTopology::new(7, 5, 3);
    let interp = topo.interpret();
    assert!(interp.contains("maximum deformation"));
    assert!(interp.contains("high volatility"));
    assert!(interp.contains("divergent"));
}

#[test]
fn test_bifm_creation() {
    let topology = FitnessTopology::new(5, 3, 1);
    assert_eq!(topology.kappa, 5);
    assert_eq!(topology.sigma, 3);
    assert_eq!(topology.delta, 1);

    let from_braille = FitnessTopology::from_braille('⣯');
    assert!(from_braille.is_some());

    assert!(topology.interpret().contains("positive"));
}

#[test]
fn test_fitness_topology_analysis() {
    let topology = FitnessTopology::from_analysis(5, 200, true, false, 850_000);

    assert!(topology.kappa > 0);
    assert!(topology.sigma >= 0);
    assert!(topology.interpret().contains("drift"));
}

#[test]
fn symbols_outside_the_window_decode_to_nothing() {
    assert_eq!(FitnessTopology::from_braille('a'), None);
    assert_eq!(FitnessTopology::from_braille('\u{27ff}'), None);
    assert_eq!(FitnessTopology::from_braille('\u{2900}'), None);
    assert!(FitnessTopology::from_braille('\u{2800}').is_some());
    assert!(FitnessTopology::from_braille('\u{28ff}').is_some());
}

#[test]
fn packing_puts_each_axis_in_its_bits() {
    assert_eq!(FitnessTopology::new(0, 0, 0).to_braille(), '\u{2800}');
    assert_eq!(FitnessTopology::new(1, 0, 0).to_braille(), '\u{2801}');
    assert_eq!(FitnessTopology::new(0, 1, 0).to_braille(), '\u{2808}');
    assert_eq!(FitnessTopology::new(0, 0, 1).to_braille(), '\u{2840}');
    assert_eq!(FitnessTopology::new(7, 7, 3).to_braille(), '\u{28ff}');
}

#[test]
fn interpretation_is_three_phrases() {
    assert_eq!(FitnessTopology::new(0, 0, 0).interpret(), "minimal deformation, rock solid, neutral/stable");
    assert_eq!(FitnessTopology::new(6, 2, 2).interpret(), "significant change, stable, negative drift");
    assert_eq!(FitnessTopology::new(3, 7, 1).interpret(), "moderate change, extremely volatile, positive drift");
}

#[test]
fn analysis_bands_each_axis() {
    let t = FitnessTopology::from_analysis(25, 600, false, true, 400_000);
    assert_eq!((t.kappa, t.sigma, t.delta), (7, 7, 3));
    let t = FitnessTopology::from_analysis(11, 0, true, false, 900_000);
    assert_eq!((t.kappa, t.sigma, t.delta), (6, 0, 0));
    let t = FitnessTopology::from_analysis(6, 0, false, false, 700_000);
    assert_eq!((t.kappa, t.sigma, t.delta), (4, 2, 1));
    let t = FitnessTopology::from_analysis(3, 501, true, true, 500_000);
    assert_eq!((t.kappa, t.sigma, t.delta), (2, 5, 2));
    let t = FitnessTopology::from_analysis(0, 0, true, false, 0);
    assert_eq!((t.kappa, t.sigma, t.delta), (1, 0, 3));
}
