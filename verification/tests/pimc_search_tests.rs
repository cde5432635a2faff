use skat_aug23::convert::{BitConverter, StringConverter};
use skat_aug23::defs::{Game, Player};
use skat_aug23::pimc_problem_builder::PimcProblemBuilder;
use skat_aug23::pimc_search::{
    card_scores, card_win_values, sort_by_sum, tally_cards, win_for, PimcSearch,
};

#[test]
fn test_uproblem_three_cards() {
    let uproblem = PimcProblemBuilder::new_farbspiel()
        .cards(Player::Declarer, "SA SK S9")
        .remaining_cards("ST SQ S8 C7 H7 D7")
        .threshold(21)
        .build();

    let estimator = PimcSearch::new(uproblem, 10, None);
    let (wins, samples) = estimator.estimate_win();
    assert_eq!(samples.len(), 10);
    let probability = wins as f32 / 10.0;
    println!("Probability of win: {}", probability);
}

#[test]
fn test_uproblem_three_cards_with_debug_info() {
    let uproblem = PimcProblemBuilder::new_farbspiel()
        .cards(Player::Declarer, "SA SK S9")
        .remaining_cards("ST SQ S8 C7 H7 D7")
        .threshold(21)
        .build();

    let estimator = PimcSearch::new(uproblem, 1000, None);
    let (wins, samples) = estimator.estimate_win();
    for (i, sample) in samples.iter().enumerate() {
        if let Some(o) = sample {
            println!("Game {}", i);
            println!("Declarer cards: {}", o.context.declarer_cards.__str());
            println!("Left cards    : {}", o.context.left_cards.__str());
            println!("Right cards   : {}", o.context.right_cards.__str());
            println!(
                "Best card: {} DeclWin: {} MyWin: {}",
                o.best_card.__str(),
                o.declarer_wins,
                o.my_win
            );
        }
    }
    println!("Probability of win: {}", wins as f32 / 1000.0);
}

#[test]
fn test_pimc_start_points() {
    let uproblem = PimcProblemBuilder::new_farbspiel()
        .cards(Player::Declarer, "CA")
        .remaining_cards("C7 C8")
        .threshold(61)
        .declarer_start_points(50)
        .build();

    let search = PimcSearch::new(uproblem, 20, None);
    let (wins, _) = search.estimate_win();
    let prob = wins as f32 / 20.0;
    println!("Prob with start_points=50: {}", prob);
    assert!(prob > 0.9, "Should win with start points");
}

#[test]
fn test_defender_perspective() {
    let uproblem = PimcProblemBuilder::new_grand()
        .my_player(Player::Left)
        .cards(Player::Left, "SA")
        .declarer_start_points(50)
        .threshold(61)
        .remaining_cards("S7 S8")
        .build();

    let search = PimcSearch::new(uproblem, 20, None);
    let (wins, _) = search.estimate_win();
    let prob = wins as f32 / 20.0;
    println!("Defender Win Prob (My Win): {}", prob);
    assert!(
        prob > 0.9,
        "Defender should have high win prob (Declarer leads to loss)"
    );
}

#[test]
fn pimc_search_new_keeps_its_arguments() {
    let uproblem = PimcProblemBuilder::new_farbspiel()
        .cards(Player::Declarer, "CA")
        .remaining_cards("C7 C8")
        .threshold(61)
        .build();
    let search = PimcSearch::new(uproblem, 7, Some("log.txt".to_string()));
    assert_eq!(search.sample_size, 7);
    assert_eq!(search.log_file, Some("log.txt".to_string()));
    assert!(!search.verbose_progress);
    assert!(search.uproblem.can_deal());
}

#[test]
fn card_probabilities_count_wins_per_card() {
    // The declarer takes the only trick, worth 11, in every sample.
    let uproblem = PimcProblemBuilder::new_farbspiel()
        .cards(Player::Declarer, "CA")
        .remaining_cards("C7 C8")
        .threshold(11)
        .build();
    let search = PimcSearch::new(uproblem, 12, None);
    let result = search.estimate_probability_of_all_cards();
    assert_eq!(result, vec![("CA".__bit(), 12)]);
}

#[test]
fn card_average_points_sum_scores() {
    let uproblem = PimcProblemBuilder::new_farbspiel()
        .cards(Player::Declarer, "CA")
        .remaining_cards("C7 C8")
        .threshold(61)
        .declarer_start_points(50)
        .build();
    let search = PimcSearch::new(uproblem, 5, None);
    let result = search.estimate_avg_points_of_all_cards();
    // The declarer takes the trick worth 11 in every sample; the values count the points of
    // the play.
    assert_eq!(result, vec![("CA".__bit(), 5 * 11, 5)]);
}

#[test]
fn tally_reads_each_sample_as_a_map() {
    let samples = vec![vec![(4u32, 1u8), (8, 0), (4, 0)], vec![(8, 1)], vec![(16, 1), (4, 1)]];
    let lines = tally_cards(&samples, true);
    assert_eq!(lines, vec![(4, 1, 2), (8, 1, 2), (16, 1, 1)]);
    let all = tally_cards(&samples, false);
    assert_eq!(all, vec![(4, 2, 3), (8, 1, 2), (16, 1, 1)]);
}

#[test]
fn sort_by_sum_is_stable_and_descending() {
    let lines = vec![(1u32, 3u64, 1u32), (2, 5, 1), (3, 3, 1), (4, 9, 2)];
    assert_eq!(sort_by_sum(&lines), vec![(4, 9, 2), (2, 5, 1), (1, 3, 1), (3, 3, 1)]);
}

#[test]
fn win_values_and_scores_for_each_perspective() {
    let results = vec![(1u32, 0u32, 70u8), (2, 0, 40), (4, 0, 0)];
    assert_eq!(
        card_win_values(&results, 61, Game::Suit, Player::Declarer),
        vec![(1, 1), (2, 0), (4, 0)]
    );
    assert_eq!(
        card_win_values(&results, 61, Game::Suit, Player::Left),
        vec![(1, 0), (2, 1), (4, 1)]
    );
    assert_eq!(
        card_win_values(&results, 1, Game::Null, Player::Declarer),
        vec![(1, 0), (2, 0), (4, 1)]
    );
    assert_eq!(
        card_scores(&results, Game::Suit, Player::Right),
        vec![(1, 50), (2, 80), (4, 120)]
    );
    assert_eq!(
        card_scores(&results, Game::Null, Player::Declarer),
        vec![(1, 0), (2, 0), (4, 120)]
    );
    assert!(win_for(false, Player::Left));
    assert!(!win_for(false, Player::Declarer));
}
