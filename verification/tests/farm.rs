use deet::farm::{factor_line, factor_number, get_input_numbers, get_number, is_prime};
use std::collections::VecDeque;

#[test]
fn is_prime_refuses_zero_and_one() {
    assert!(!is_prime(0));
    assert!(!is_prime(1));
}

#[test]
fn is_prime_accepts_primes() {
    for prime in [2u32, 3, 5, 7, 11, 13, 97, 7919, 65537, 4294967291] {
        assert!(is_prime(prime), "{prime}");
    }
}

#[test]
fn is_prime_divides_only_below_the_integer_square_root() {
    // The square root itself is not tried, so squares of primes and products
    // of neighbouring primes pass.
    for passes in [4u32, 6, 8, 9, 15, 25, 35, 49] {
        assert!(is_prime(passes), "{passes}");
    }
    for fails in [10u32, 12, 16, 18, 27, 100, 1000, 65536, 4294967295] {
        assert!(!is_prime(fails), "{fails}");
    }
}

#[test]
fn is_prime_agrees_with_trial_division_below_the_square_root() {
    for num in 0u32..2000 {
        let root = (num as f64).sqrt().floor() as u32;
        let expected = num > 1 && (2..root).all(|factor| num % factor != 0);
        assert_eq!(is_prime(num), expected, "{num}");
    }
}

#[test]
fn factor_number_splits_into_ascending_primes() {
    assert_eq!(factor_number(12), vec![2, 2, 3]);
    assert_eq!(factor_number(10), vec![2, 5]);
    assert_eq!(factor_number(16), vec![2, 2, 2, 2]);
    assert_eq!(factor_number(1000), vec![2, 2, 2, 5, 5, 5]);
    assert_eq!(factor_number(2 * 3 * 5 * 7 * 11), vec![2, 3, 5, 7, 11]);
    assert_eq!(factor_number(65536), vec![2; 16]);
}

#[test]
fn factor_number_leaves_alone_what_passes_the_quick_test() {
    assert_eq!(factor_number(1), vec![1]);
    assert_eq!(factor_number(2), vec![2]);
    assert_eq!(factor_number(97), vec![97]);
    assert_eq!(factor_number(4), vec![4]);
    assert_eq!(factor_number(9), vec![9]);
    assert_eq!(factor_number(35), vec![35]);
}

#[test]
fn factor_number_of_zero_is_empty() {
    assert_eq!(factor_number(0), Vec::<u32>::new());
}

#[test]
fn factors_multiply_back_to_the_number() {
    for num in 1u32..3000 {
        let factors = factor_number(num);
        assert_eq!(factors.iter().map(|f| *f as u64).product::<u64>(), num as u64, "{num}");
        assert!(factors.windows(2).all(|w| w[0] <= w[1]), "{num}");
    }
}

#[test]
fn factor_line_joins_the_factors() {
    assert_eq!(factor_line(12, &vec![2, 2, 3]), "12 = 2 * 2 * 3");
    assert_eq!(factor_line(7, &vec![7]), "7 = 7");
    assert_eq!(factor_line(0, &vec![]), "0 = ");
    assert_eq!(factor_line(1000, &factor_number(1000)), "1000 = 2 * 2 * 2 * 5 * 5 * 5");
}

#[test]
fn get_input_numbers_reads_every_argument() {
    let args: Vec<String> = ["12", "+7", "0", "4294967295"].iter().map(|s| s.to_string()).collect();
    assert_eq!(get_input_numbers(&args), Ok(VecDeque::from(vec![12, 7, 0, 4294967295])));
    assert_eq!(get_input_numbers(&vec![]), Ok(VecDeque::new()));
}

#[test]
fn get_input_numbers_refuses_the_first_bad_argument() {
    let args: Vec<String> = ["12", "x1", "y2"].iter().map(|s| s.to_string()).collect();
    assert_eq!(get_input_numbers(&args), Err("x1 is not a valid number".to_string()));
    let args: Vec<String> = ["4294967296"].iter().map(|s| s.to_string()).collect();
    assert_eq!(get_input_numbers(&args), Err("4294967296 is not a valid number".to_string()));
    let args: Vec<String> = ["-3"].iter().map(|s| s.to_string()).collect();
    assert_eq!(get_input_numbers(&args), Err("-3 is not a valid number".to_string()));
    let args: Vec<String> = ["".to_string()].to_vec();
    assert_eq!(get_input_numbers(&args), Err(" is not a valid number".to_string()));
}

#[test]
fn get_number_takes_from_the_front() {
    let mut queue = VecDeque::from(vec![3u32, 1, 2]);
    assert_eq!(get_number(&mut queue), Some(3));
    assert_eq!(get_number(&mut queue), Some(1));
    assert_eq!(queue, VecDeque::from(vec![2]));
    assert_eq!(get_number(&mut queue), Some(2));
    assert_eq!(get_number(&mut queue), None);
    assert_eq!(get_number(&mut queue), None);
    assert!(queue.is_empty());
}
