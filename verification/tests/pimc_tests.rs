use skat_aug23::consts::{
    DIAMONDS, HEARTS, JACKS, NULL_CLUBS, NULL_DIAMONDS, NULL_HEARTS, NULL_SPADES, SPADES,
    TRUMP_SUIT,
};
use skat_aug23::convert::{BitConverter, StringConverter};
use skat_aug23::defs::{Game, Player};
use skat_aug23::facts::Facts;
use skat_aug23::pimc_problem::PimcProblem;
use skat_aug23::pimc_problem_builder::PimcProblemBuilder;

#[test]
fn test_problem_generation() {
    let uproblem = PimcProblem {
        game_type: Game::Suit,
        all_cards: "CA CT SA ST HA HT DA DT D9".__bit(),
        my_cards: "CA CT SA".__bit(),
        next_card: 0u32,
        previous_card: 0u32,
        my_player: Player::Declarer,
        threshold: 1,
        facts_previous_player: Facts::one_fact(true, false, false, false, false),
        facts_next_player: Facts::zero_fact(),
        declarer_start_points: 0,
        skat_cards: None,
    };
    let problem = uproblem.generate_concrete_problem();
    println!("Declarer cards: {}", problem.declarer_cards().__str());
    println!("Left cards    : {}", problem.left_cards().__str());
    println!("Right cards   : {}", problem.right_cards().__str());
}

#[test]
fn test_inter_trick_problem_generation() {
    let uproblem = PimcProblem {
        game_type: Game::Suit,
        all_cards: "CA CT SA ST HA HT DA DT D9".__bit(),
        my_cards: "CA CT SA".__bit(),
        my_player: Player::Declarer,
        threshold: 1,
        previous_card: "ST".__bit(),
        next_card: 0u32,
        facts_previous_player: Facts::zero_fact(),
        facts_next_player: Facts::zero_fact(),
        declarer_start_points: 0,
        skat_cards: None,
    };
    let problem = uproblem.generate_concrete_problem();
    println!("Declarer cards: {}", problem.declarer_cards().__str());
    println!("Left cards    : {}", problem.left_cards().__str());
    println!("Right cards   : {}", problem.right_cards().__str());
}

#[test]
fn test_farbe_no_trump_fact() {
    let uproblem = PimcProblem {
        game_type: Game::Suit,
        all_cards: "SA ST CA CT HA HT".__bit(),
        my_cards: "SA ST".__bit(),
        my_player: Player::Declarer,
        threshold: 1,
        next_card: 0u32,
        previous_card: 0u32,
        facts_previous_player: Facts::zero_fact(),
        facts_next_player: Facts::one_fact(true, false, false, false, false),
        declarer_start_points: 0,
        skat_cards: None,
    };
    for _ in 0..20 {
        let problem = uproblem.generate_concrete_problem();
        let left_cards = problem.left_cards();
        assert_eq!(
            left_cards & TRUMP_SUIT,
            0,
            "Left player has trump cards despite No Trump fact! Cards: {}",
            left_cards.__str()
        );
        assert_eq!(
            left_cards & (SPADES | DIAMONDS | HEARTS),
            left_cards,
            "Left should only have Non-Trump suits."
        );
    }
}

#[test]
fn test_farbe_no_clubs_fact() {
    let uproblem = PimcProblem {
        game_type: Game::Suit,
        all_cards: "HA HT CA CT SA ST".__bit(),
        my_cards: "HA HT".__bit(),
        my_player: Player::Declarer,
        threshold: 1,
        next_card: 0u32,
        previous_card: 0u32,
        facts_previous_player: Facts::zero_fact(),
        facts_next_player: Facts::one_fact(false, true, false, false, false),
        declarer_start_points: 0,
        skat_cards: None,
    };
    for _ in 0..20 {
        let problem = uproblem.generate_concrete_problem();
        let left_cards = problem.left_cards();
        assert_eq!(left_cards & TRUMP_SUIT, 0, "Left player has Trump cards despite No Clubs fact!");
    }
}

#[test]
fn test_farbe_no_spades_fact() {
    let uproblem = PimcProblem {
        game_type: Game::Suit,
        all_cards: "CA CT SA ST SJ HA".__bit(),
        my_cards: "CA CT".__bit(),
        my_player: Player::Declarer,
        threshold: 1,
        next_card: 0u32,
        previous_card: 0u32,
        facts_previous_player: Facts::zero_fact(),
        facts_next_player: Facts::one_fact(false, false, true, false, false),
        declarer_start_points: 0,
        skat_cards: None,
    };
    for _ in 0..20 {
        let problem = uproblem.generate_concrete_problem();
        let left_cards = problem.left_cards();
        assert_eq!(
            left_cards & SPADES,
            0,
            "Left player has Spades suit cards despite No Spades fact!"
        );
        let sj_bit = "SJ".__bit();
        assert!(
            left_cards & sj_bit != 0,
            "Left player should be allowed to have SJ despite No Spades fact."
        );
    }
}

#[test]
fn test_grand_no_trump_fact() {
    let uproblem = PimcProblem {
        game_type: Game::Grand,
        all_cards: "CA CT CJ SJ SA ST".__bit(),
        my_cards: "CA CT".__bit(),
        my_player: Player::Declarer,
        threshold: 1,
        next_card: 0u32,
        previous_card: 0u32,
        facts_previous_player: Facts::zero_fact(),
        facts_next_player: Facts::one_fact(true, false, false, false, false),
        declarer_start_points: 0,
        skat_cards: None,
    };
    for _ in 0..20 {
        let problem = uproblem.generate_concrete_problem();
        let left_cards = problem.left_cards();
        assert_eq!(left_cards & JACKS, 0, "Left player has Jacks despite No Trump fact in Grand!");
    }
}

#[test]
fn test_null_no_clubs_fact() {
    let uproblem = PimcProblem {
        game_type: Game::Null,
        all_cards: "HA HT CA CJ SA ST".__bit(),
        my_cards: "HA HT".__bit(),
        my_player: Player::Declarer,
        threshold: 1,
        next_card: 0u32,
        previous_card: 0u32,
        facts_previous_player: Facts::zero_fact(),
        facts_next_player: Facts::one_fact(false, true, false, false, false),
        declarer_start_points: 0,
        skat_cards: None,
    };
    for _ in 0..20 {
        let problem = uproblem.generate_concrete_problem();
        let left_cards = problem.left_cards();
        assert_eq!(
            left_cards & NULL_CLUBS,
            0,
            "Left player has Clubs (or CJ) despite No Clubs fact in Null game! Cards: {}",
            left_cards.__str()
        );
    }
}

#[test]
fn test_null_no_spades_fact() {
    let uproblem = PimcProblem {
        game_type: Game::Null,
        all_cards: "HA HT SA SJ DA DT".__bit(),
        my_cards: "HA HT".__bit(),
        my_player: Player::Declarer,
        threshold: 1,
        next_card: 0u32,
        previous_card: 0u32,
        facts_previous_player: Facts::zero_fact(),
        facts_next_player: Facts::one_fact(false, false, true, false, false),
        declarer_start_points: 0,
        skat_cards: None,
    };
    for _ in 0..20 {
        let problem = uproblem.generate_concrete_problem();
        let left_cards = problem.left_cards();
        assert_eq!(
            left_cards & NULL_SPADES,
            0,
            "Left player has Spades (or SJ) despite No Spades fact in Null game! Cards: {}",
            left_cards.__str()
        );
    }
}

#[test]
fn test_null_no_hearts_fact() {
    let uproblem = PimcProblem {
        game_type: Game::Null,
        all_cards: "CA CT HA HJ DA DT".__bit(),
        my_cards: "CA CT".__bit(),
        my_player: Player::Declarer,
        threshold: 1,
        next_card: 0u32,
        previous_card: 0u32,
        facts_previous_player: Facts::zero_fact(),
        facts_next_player: Facts::one_fact(false, false, false, true, false),
        declarer_start_points: 0,
        skat_cards: None,
    };
    for _ in 0..20 {
        let problem = uproblem.generate_concrete_problem();
        let left_cards = problem.left_cards();
        assert_eq!(
            left_cards & NULL_HEARTS,
            0,
            "Left player has Hearts (or HJ) despite No Hearts fact in Null game! Cards: {}",
            left_cards.__str()
        );
    }
}

#[test]
fn test_null_no_diamonds_fact() {
    let uproblem = PimcProblem {
        game_type: Game::Null,
        all_cards: "CA CT DA DJ SA ST".__bit(),
        my_cards: "CA CT".__bit(),
        my_player: Player::Declarer,
        threshold: 1,
        next_card: 0u32,
        previous_card: 0u32,
        facts_previous_player: Facts::zero_fact(),
        facts_next_player: Facts::one_fact(false, false, false, false, true),
        declarer_start_points: 0,
        skat_cards: None,
    };
    for _ in 0..20 {
        let problem = uproblem.generate_concrete_problem();
        let left_cards = problem.left_cards();
        assert_eq!(
            left_cards & NULL_DIAMONDS,
            0,
            "Left player has Diamonds (or DJ) despite No Diamonds fact in Null game! Cards: {}",
            left_cards.__str()
        );
    }
}

#[test]
fn test_skat_asymmetry() {
    let builder = PimcProblemBuilder::new(Game::Suit)
        .cards(Player::Declarer, "CA CK")
        .remaining_cards("SA SK DA DK")
        .skat_cards("HA HK")
        .threshold(1)
        .trick_previous_player(0, 0)
        .trick_next_player(0);

    let problem_declarer = builder.build();

    for _ in 0..20 {
        let concrete = problem_declarer.generate_concrete_problem();
        let left_cards = concrete.left_cards();
        let right_cards = concrete.right_cards();
        let skat_mask = "HA HK".__bit();
        assert_eq!(
            left_cards & skat_mask,
            0,
            "Left got Skat card!. Left: {}, Skat: HA HK",
            left_cards.__str()
        );
        assert_eq!(
            right_cards & skat_mask,
            0,
            "Right got Skat card!. Right: {}, Skat: HA HK",
            right_cards.__str()
        );
    }

    let mut problem_left = problem_declarer.clone();
    problem_left.set_my_player(Player::Left);

    let mut skat_distributed_to_others = false;
    let skat_mask = "HA HK".__bit();
    for _ in 0..50 {
        let concrete = problem_left.generate_concrete_problem();
        let declarer = concrete.declarer_cards();
        let right = concrete.right_cards();
        if (declarer & skat_mask) != 0 || (right & skat_mask) != 0 {
            skat_distributed_to_others = true;
            break;
        }
    }
    assert!(
        skat_distributed_to_others,
        "Skat cards should be distributable to others when viewing as Opponent"
    );
}
