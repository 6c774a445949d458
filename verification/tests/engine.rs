//! Seeds, level costs and the record structure of quote files.

use kontract::market_data::{quote_fields, split_on};
use kontract::mlmc::{level_cost, level_costs, level_seed, main_run_seed, MAIN_RUN_SEED_OFFSET};
use kontract::simulator::{dupire_grid_check, mix, radical_digits, SPLITMIX_GAMMA};
use kontract::KontractError;

#[test]
fn level_costs_follow_the_fine_plus_coarse_count() {
    assert_eq!(level_cost(0), 1);
    assert_eq!(level_cost(1), 3);
    assert_eq!(level_cost(2), 6);
    assert_eq!(level_cost(5), 48);
    assert_eq!(level_cost(10), 1536);
    assert_eq!(level_costs(3, 0), vec![1, 3, 6, 12]);
    assert_eq!(level_costs(2, 4), vec![4, 12, 24]);
}

#[test]
fn mix_scrambles_the_index() {
    assert_eq!(mix(42, 0), 42);
    assert_eq!(mix(0, 1), SPLITMIX_GAMMA);
    assert_eq!(mix(7, 3), 7 ^ 3u64.wrapping_mul(SPLITMIX_GAMMA));
    assert_eq!(mix(mix(123, 9), 9), 123);
    assert_eq!(level_seed(5, 2), mix(5, 2));
}

#[test]
fn main_run_seed_differs_from_pilot() {
    assert_eq!(main_run_seed(0), MAIN_RUN_SEED_OFFSET);
    assert_ne!(main_run_seed(42), 42);
    assert_eq!(main_run_seed(main_run_seed(42)), 42);
}

fn text(v: &Vec<Vec<Vec<u8>>>) -> Vec<Vec<String>> {
    v.iter()
        .map(|r| r.iter().map(|f| String::from_utf8(f.clone()).unwrap()).collect())
        .collect()
}

#[test]
fn split_behaves_like_str_split() {
    for s in ["", "a", "a,b", ",", "a,,b,", "é,ü"] {
        let got: Vec<String> = split_on(s.as_bytes(), b',')
            .into_iter()
            .map(|f| String::from_utf8(f).unwrap())
            .collect();
        let want: Vec<String> = s.split(',').map(|x| x.to_string()).collect();
        assert_eq!(got, want);
    }
}

#[test]
fn csv_records_skip_header_and_short_lines() {
    let csv = "strike,maturity,mid\n100,1.0,10.5\n\n  \n110,0.5\n120 , 2.0, 3.0, 2.9, 3.1\r\n";
    let rows = text(&quote_fields(csv.as_bytes()));
    assert_eq!(
        rows,
        vec![
            vec!["100".to_string(), "1.0".to_string(), "10.5".to_string()],
            vec![
                "120 ".to_string(),
                " 2.0".to_string(),
                " 3.0".to_string(),
                " 2.9".to_string(),
                " 3.1\r".to_string()
            ],
        ]
    );
    assert!(quote_fields(b"").is_empty());
    assert!(quote_fields(b"a,b,c").is_empty());
}

#[test]
fn radical_digits_expand_in_the_base() {
    assert_eq!(radical_digits(0, 2), Vec::<u32>::new());
    assert_eq!(radical_digits(6, 2), vec![0, 1, 1]);
    assert_eq!(radical_digits(10, 3), vec![1, 0, 1]);
    assert_eq!(radical_digits(7, 10), vec![7]);
    assert_eq!(radical_digits(u32::MAX, 2).len(), 32);
    let ds = radical_digits(123_456, 7);
    let value = ds.iter().rev().fold(0u64, |acc, d| acc * 7 + *d as u64);
    assert_eq!(value, 123_456);
    assert!(ds.iter().all(|d| *d < 7));
    assert_ne!(*ds.last().unwrap(), 0);
}

#[test]
fn dupire_grid_needs_three_strikes_two_maturities_and_every_price() {
    assert!(dupire_grid_check(3, 2, 6).is_ok());
    assert!(dupire_grid_check(5, 4, 20).is_ok());
    for (k, t, n) in [(2, 2, 4), (3, 1, 3), (3, 2, 5), (3, 2, 7), (usize::MAX, 2, 0)] {
        assert!(matches!(dupire_grid_check(k, t, n), Err(KontractError::MalformedContract(_))));
    }
}
