use std::collections::VecDeque;
use syskit::farm::{
    factor_agent, factor_number, format_factors, get_factor_number, get_input_numbers, is_prime,
};

#[test]
fn is_prime_knows_the_small_numbers() {
    assert!(!is_prime(0));
    assert!(!is_prime(1));
    assert!(is_prime(2));
    assert!(is_prime(3));
    assert!(is_prime(5));
    assert!(is_prime(7));
    assert!(is_prime(11));
    assert!(is_prime(13));
    assert!(!is_prime(16));
    assert!(!is_prime(18));
    assert!(!is_prime(21));
    assert!(!is_prime(100));
}

#[test]
fn is_prime_stops_short_of_the_square_root() {
    // The test tries divisors below the whole part of the square root only,
    // so a number whose smallest divisor is that whole part passes.
    assert!(is_prime(4));
    assert!(is_prime(6));
    assert!(is_prime(8));
    assert!(is_prime(9));
    assert!(is_prime(15));
    assert!(is_prime(25));
    assert!(is_prime(35));
    assert!(is_prime(49));
    assert!(!is_prime(27));
    assert!(!is_prime(50));
}

#[test]
fn is_prime_on_large_numbers() {
    assert!(is_prime(4294967291));
    assert!(!is_prime(4294967295));
    assert!(!is_prime(4294967294));
    assert!(is_prime(2147483647));
    assert!(is_prime(65521 * 65521));
    assert!(is_prime(65519 * 65521));
    assert!(!is_prime(65537 * 65521));
    assert!(!is_prime(3 * 65521));
}

#[test]
fn is_prime_agrees_with_trial_division_below_the_root() {
    for n in 0u32..3000 {
        let root = (n as f64).sqrt().floor() as u32;
        let expected = n > 1 && (2..root).all(|d| n % d != 0);
        assert_eq!(is_prime(n), expected, "{}", n);
    }
}

#[test]
fn factor_number_of_one_and_of_numbers_that_pass_the_test() {
    assert_eq!(factor_number(1), vec![1]);
    assert_eq!(factor_number(2), vec![2]);
    assert_eq!(factor_number(13), vec![13]);
    assert_eq!(factor_number(4), vec![4]);
    assert_eq!(factor_number(9), vec![9]);
    assert_eq!(factor_number(35), vec![35]);
}

#[test]
fn factor_number_lists_prime_factors_in_order() {
    assert_eq!(factor_number(0), Vec::<u32>::new());
    assert_eq!(factor_number(12), vec![2, 2, 3]);
    assert_eq!(factor_number(16), vec![2, 2, 2, 2]);
    assert_eq!(factor_number(18), vec![2, 3, 3]);
    assert_eq!(factor_number(100), vec![2, 2, 5, 5]);
    assert_eq!(factor_number(2310), vec![2, 3, 5, 7, 11]);
    assert_eq!(factor_number(1001), vec![7, 11, 13]);
    assert_eq!(factor_number(65536), vec![2; 16]);
    assert_eq!(factor_number(999983 * 2), vec![2, 999983]);
}

#[test]
fn factors_multiply_back_to_the_number() {
    for n in 1u32..2000 {
        let factors = factor_number(n);
        assert_eq!(factors.iter().map(|f| *f as u64).product::<u64>(), n as u64);
        assert!(factors.windows(2).all(|w| w[0] <= w[1]));
    }
}

#[test]
fn get_factor_number_takes_from_the_front() {
    let mut queue: VecDeque<u32> = VecDeque::new();
    assert_eq!(get_factor_number(&mut queue), None);
    queue.push_back(12);
    queue.push_back(7);
    assert_eq!(get_factor_number(&mut queue), Some(12));
    assert_eq!(queue.len(), 1);
    assert_eq!(get_factor_number(&mut queue), Some(7));
    assert_eq!(get_factor_number(&mut queue), None);
    assert_eq!(get_factor_number(&mut queue), None);
}

#[test]
fn factor_agent_works_the_queue_off() {
    let mut queue: VecDeque<u32> = VecDeque::from(vec![12, 7, 1, 0, 30]);
    assert_eq!(
        factor_agent(&mut queue),
        vec![vec![2, 2, 3], vec![7], vec![1], vec![], vec![2, 3, 5]]
    );
    assert!(queue.is_empty());
    assert_eq!(factor_agent(&mut queue), Vec::<Vec<u32>>::new());
}

#[test]
fn get_input_numbers_reads_every_argument() {
    let args: Vec<String> = vec!["12".to_string(), "+7".to_string(), "4294967295".to_string()];
    assert_eq!(get_input_numbers(&args), Ok(VecDeque::from(vec![12, 7, 4294967295])));
    assert_eq!(get_input_numbers(&vec![]), Ok(VecDeque::new()));
}

#[test]
fn get_input_numbers_names_the_first_bad_argument() {
    let bad = |items: &[&str]| {
        let args: Vec<String> = items.iter().map(|s| s.to_string()).collect();
        get_input_numbers(&args)
    };
    assert_eq!(bad(&["12", "x", "y"]), Err(1));
    assert_eq!(bad(&["-1"]), Err(0));
    assert_eq!(bad(&["1", "2", "4294967296"]), Err(2));
    assert_eq!(bad(&["1", "", "3"]), Err(1));
    assert_eq!(bad(&["1", " 2"]), Err(1));
    assert_eq!(bad(&["3.5"]), Err(0));
}

#[test]
fn format_factors_writes_a_product() {
    assert_eq!(format_factors(&vec![]), "");
    assert_eq!(format_factors(&vec![7]), "7");
    assert_eq!(format_factors(&vec![2, 2, 3]), "2 * 2 * 3");
    assert_eq!(format_factors(&factor_number(2310)), "2 * 3 * 5 * 7 * 11");
    assert_eq!(format_factors(&vec![0, 4294967295]), "0 * 4294967295");
}
