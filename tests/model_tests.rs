use bigram::alphabet::{char_to_index, int_to_char};
use bigram::corpus::{build_model, in_alphabet, ModelError};
use bigram::counts::count_bigrams;
use bigram::model::{create_bigram_matrix, BigramModel, Ratio, Smoothing};
use bigram::normalize::clean_name;
use bigram::sample::{generate, name_from_draws, GenerateError};
use bigram::score::likelihood_of_word;

fn corpus(names: &[&str]) -> Vec<String> {
    names.iter().map(|s| s.to_string()).collect()
}

fn emma_model(smoothing: Smoothing) -> BigramModel {
    build_model(&corpus(&["emma"]), smoothing).unwrap()
}

fn idx(c: char) -> usize {
    char_to_index(c).unwrap()
}

#[test]
fn clean_name_strips_and_lowercases() {
    assert_eq!(clean_name("Ab3c!"), ".abc.");
    assert_eq!(clean_name("ABC"), ".abc.");
    assert_eq!(clean_name("a1"), ".a.");
    assert_eq!(clean_name("  Emma\r"), ".emma.");
}

#[test]
fn clean_name_of_empty_content_is_two_boundaries() {
    assert_eq!(clean_name(""), "..");
    assert_eq!(clean_name("123 !?"), "..");
    assert_eq!(clean_name(" 42-!\t"), "..");
}

#[test]
fn clean_name_is_delimited_and_in_alphabet() {
    for raw in ["Ab3c!", "", "Mary-Jane", "O'Neil 2", "zz"] {
        let s = clean_name(raw);
        assert!(s.starts_with('.'));
        assert!(s.ends_with('.'));
        assert!(s.len() >= 2);
        assert!(in_alphabet(&s));
    }
}

#[test]
fn alphabet_mapping_round_trips() {
    assert_eq!(int_to_char(0), '.');
    assert_eq!(int_to_char(1), 'a');
    assert_eq!(int_to_char(26), 'z');
    for i in 0..27 {
        assert_eq!(char_to_index(int_to_char(i)), Some(i));
    }
    assert_eq!(char_to_index('A'), None);
    assert_eq!(char_to_index('{'), None);
    assert_eq!(char_to_index('`'), None);
}

#[test]
fn in_alphabet_rejects_other_characters() {
    assert!(in_alphabet(".emma."));
    assert!(!in_alphabet(".Emma."));
    assert!(!in_alphabet(".jos\u{e9}."));
}

#[test]
fn count_bigrams_counts_every_pair() {
    let c = count_bigrams(&corpus(&[".emma.", ".."]));
    assert_eq!(c.get(0, idx('e')), 1);
    assert_eq!(c.get(idx('e'), idx('m')), 1);
    assert_eq!(c.get(idx('m'), idx('m')), 1);
    assert_eq!(c.get(idx('m'), idx('a')), 1);
    assert_eq!(c.get(idx('a'), 0), 1);
    assert_eq!(c.get(0, 0), 1);
    assert_eq!(c.get(idx('z'), idx('z')), 0);
    assert_eq!(c.row_total(idx('m')), 2);
    assert_eq!(c.row_total(0), 2);
}

#[test]
fn boundary_self_pair_is_never_counted() {
    let m = create_bigram_matrix(&corpus(&["..", ".emma.", ".."]), Smoothing::whole(1));
    assert_eq!(m.weight_of(0, 0), 0);
    assert_eq!(m.probability(0, 0), Ratio { num: 0, den: 27 });
    assert_eq!(m.counts.get(0, 0), 0);
    assert_eq!(m.mass_of(0), 27);
}

#[test]
fn rows_sum_to_their_mass() {
    for s in [Smoothing::whole(1), Smoothing::whole(0), Smoothing::ratio(1, 10).unwrap()] {
        let m = build_model(&corpus(&["emma", "olivia", "ava", ""]), s).unwrap();
        for i in 0..27 {
            let row = m.row_weights(i);
            let total: u128 = row.iter().sum();
            assert_eq!(total, m.mass_of(i));
        }
        assert_eq!(m.weight_of(0, 0), 0);
    }
}

#[test]
fn emma_scenario_is_exact() {
    let m = emma_model(Smoothing::whole(1));
    assert_eq!(clean_name("emma"), ".emma.");
    assert_eq!(m.probability(0, idx('e')), Ratio { num: 2, den: 27 });
    assert_eq!(m.probability(0, idx('a')), Ratio { num: 1, den: 27 });
    assert_eq!(m.probability(0, 0), Ratio { num: 0, den: 27 });
    let f = likelihood_of_word(".emma.", &m);
    assert_eq!(
        f,
        vec![
            Ratio { num: 2, den: 27 },
            Ratio { num: 2, den: 28 },
            Ratio { num: 2, den: 29 },
            Ratio { num: 2, den: 29 },
            Ratio { num: 2, den: 28 },
        ]
    );
    let num: u128 = f.iter().map(|r| r.num).product();
    let den: u128 = f.iter().map(|r| r.den).product();
    assert_eq!((num, den), (32, 27 * 28 * 29 * 29 * 28));
}

#[test]
fn score_is_deterministic() {
    let m = emma_model(Smoothing::whole(1));
    assert_eq!(likelihood_of_word(".emma.", &m), likelihood_of_word(".emma.", &m));
    assert_eq!(likelihood_of_word(".zed.", &m), likelihood_of_word(".zed.", &m));
}

#[test]
fn degenerate_words_score() {
    let m = emma_model(Smoothing::whole(1));
    assert_eq!(likelihood_of_word("..", &m), vec![Ratio { num: 0, den: 27 }]);
    assert_eq!(likelihood_of_word(".", &m), vec![]);
    assert_eq!(likelihood_of_word("", &m), vec![]);
}

#[test]
fn fractional_smoothing_is_exact() {
    let m = emma_model(Smoothing::ratio(1, 2).unwrap());
    // weight n + c * d with n = 1, d = 2; row 0 mass 26 * 1 + 1 * 2
    assert_eq!(m.probability(0, idx('e')), Ratio { num: 3, den: 28 });
    assert_eq!(m.probability(idx('m'), idx('m')), Ratio { num: 3, den: 27 + 4 });
}

#[test]
fn more_smoothing_moves_mass_to_unseen_pairs() {
    let lo = emma_model(Smoothing::whole(1));
    let hi = emma_model(Smoothing::whole(2));
    let unseen = (idx('e'), idx('z'));
    let seen = (0, idx('e'));
    let (a, b) = (lo.probability(unseen.0, unseen.1), hi.probability(unseen.0, unseen.1));
    assert_eq!(a, Ratio { num: 1, den: 28 });
    assert_eq!(b, Ratio { num: 2, den: 55 });
    assert!(a.num * b.den < b.num * a.den);
    let (a, b) = (lo.probability(seen.0, seen.1), hi.probability(seen.0, seen.1));
    assert_eq!(a, Ratio { num: 2, den: 27 });
    assert_eq!(b, Ratio { num: 3, den: 53 });
    assert!(a.num * b.den > b.num * a.den);
}

#[test]
fn zero_smoothing_leaves_unseen_rows_empty() {
    let m = emma_model(Smoothing::whole(0));
    assert_eq!(m.mass_of(idx('z')), 0);
    assert_eq!(m.probability(idx('m'), idx('m')), Ratio { num: 1, den: 2 });
    assert_eq!(m.probability(0, idx('e')), Ratio { num: 1, den: 1 });
}

#[test]
fn smoothing_needs_a_denominator() {
    assert_eq!(Smoothing::ratio(1, 0), None);
    assert_eq!(Smoothing::ratio(3, 4), Some(Smoothing { numerator: 3, denominator: 4 }));
    assert_eq!(Smoothing::whole(5), Smoothing { numerator: 5, denominator: 1 });
}

#[test]
fn build_model_rejects_letters_outside_the_alphabet() {
    let r = build_model(&corpus(&["emma", "Jos\u{e9}"]), Smoothing::whole(1));
    assert_eq!(r.err(), Some(ModelError::UnsupportedLetter));
}

#[test]
fn build_model_cleans_raw_names() {
    let m = build_model(&corpus(&["Emma!", "", "4"]), Smoothing::whole(1)).unwrap();
    assert_eq!(m.counts.get(0, idx('e')), 1);
    assert_eq!(m.counts.get(0, 0), 0);
    assert_eq!(m.probability(0, idx('e')), Ratio { num: 2, den: 27 });
}

#[test]
fn generated_names_are_well_formed() {
    let m = build_model(&corpus(&["emma", "olivia", "ava", "isabella"]), Smoothing::whole(1))
        .unwrap();
    for _ in 0..50 {
        let s = generate(&m, 2000).unwrap();
        let chars: Vec<char> = s.chars().collect();
        assert!(chars.len() >= 3);
        assert_eq!(chars[0], '.');
        assert_eq!(chars[chars.len() - 1], '.');
        assert!(chars[1..chars.len() - 1].iter().all(|c| c.is_ascii_lowercase()));
        assert!(!s.contains(".."));
        let f = likelihood_of_word(&s, &m);
        assert!(f.iter().all(|r| r.num > 0));
        let draws: Vec<usize> = chars[1..].iter().map(|c| idx(*c)).collect();
        assert_eq!(name_from_draws(&m, &draws), Ok(s.clone()));
    }
}

#[test]
fn generate_respects_the_length_limit() {
    let m = emma_model(Smoothing::whole(1));
    assert_eq!(generate(&m, 2), Err(GenerateError::TooLong));
    assert_eq!(generate(&m, 0), Err(GenerateError::TooLong));
    assert_eq!(generate(&m, 1), Err(GenerateError::TooLong));
}

#[test]
fn generate_reports_an_empty_row() {
    // with no smoothing and no corpus, the boundary row has no weight
    let m = build_model(&corpus(&[]), Smoothing::whole(0)).unwrap();
    assert_eq!(generate(&m, 10), Err(GenerateError::InvalidDistribution));
    assert_eq!(generate(&m, 2), Err(GenerateError::InvalidDistribution));
    assert_eq!(generate(&m, 1), Err(GenerateError::TooLong));
}

#[test]
fn draws_replay_a_name() {
    let m = emma_model(Smoothing::whole(1));
    let draws = vec![idx('e'), idx('m'), idx('m'), idx('a'), 0];
    assert_eq!(name_from_draws(&m, &draws), Ok(".emma.".to_string()));
    assert_eq!(name_from_draws(&m, &vec![idx('z'), 0, idx('q')]), Ok(".z.".to_string()));
}

#[test]
fn draws_that_cannot_happen_are_refused() {
    let m = emma_model(Smoothing::whole(1));
    assert_eq!(name_from_draws(&m, &vec![0]), Err(GenerateError::InvalidDistribution));
    assert_eq!(name_from_draws(&m, &vec![27]), Err(GenerateError::InvalidDistribution));
    let bare = emma_model(Smoothing::whole(0));
    assert_eq!(name_from_draws(&bare, &vec![idx('a'), 0]), Err(GenerateError::InvalidDistribution));
    assert_eq!(
        name_from_draws(&bare, &vec![idx('e'), idx('m'), idx('a'), 0]),
        Ok(".ema.".to_string())
    );
}

#[test]
fn draws_that_run_out_are_too_long() {
    let m = emma_model(Smoothing::whole(1));
    assert_eq!(name_from_draws(&m, &vec![]), Err(GenerateError::TooLong));
    assert_eq!(name_from_draws(&m, &vec![idx('e'), idx('m')]), Err(GenerateError::TooLong));
}
