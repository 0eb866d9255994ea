use genet::csv::lines;
use genet::csv::parse_line;
use genet::csv::parse_number;
use genet::csv::split_at;
use genet::csv::write_number;
use genet::linalg::NumberVector;
use genet::scenario::do_totals_fit;
use genet::scenario::sum;
use genet::scenario::GenerateError;
use genet::scenario::Scenario;
use genet::scenario::ScenarioError;
use genet::scenario::StrategyLoadError;
use std::io::BufRead;

const TEXT: &[u8] = b"5,7,2\n2,1,10\n3,1,20\n4,1,30\n5,1,40\n1,1,5\n";

fn malformed(error: StrategyLoadError) -> ScenarioError {
    ScenarioError::Malformed(error)
}

#[test]
fn load_reads_the_header_and_the_objects() {
    let scenario = Scenario::load(TEXT).unwrap();
    assert_eq!(scenario.number_of_objects, 5);
    assert_eq!(scenario.max_weight, 7);
    assert_eq!(scenario.max_size, 2);
    assert_eq!(scenario.weights.to_vec(), vec![2, 3, 4, 5, 1]);
    assert_eq!(scenario.sizes.to_vec(), vec![1, 1, 1, 1, 1]);
    assert_eq!(scenario.costs.to_vec(), vec![10, 20, 30, 40, 5]);
    assert!(scenario.is_consistent());
    assert!(scenario.is_bounded());
}

#[test]
fn load_reads_a_last_line_without_newline_and_lines_with_carriage_returns() {
    let scenario = Scenario::load(b"2,1,1\r\n2,3,4\r\n+5,6,-7").unwrap();
    assert_eq!(scenario.number_of_objects, 2);
    assert_eq!(scenario.weights.to_vec(), vec![2, 5]);
    assert_eq!(scenario.sizes.to_vec(), vec![3, 6]);
    assert_eq!(scenario.costs.to_vec(), vec![4, -7]);
}

#[test]
fn load_refuses_a_scenario_that_its_budget_of_weight_nearly_holds() {
    // All objects weigh 15, which twice the budget of 8 reaches.
    assert_eq!(
        Scenario::load(b"5,8,3\n2,1,10\n3,1,20\n4,1,30\n5,1,40\n1,1,5\n").unwrap_err(),
        malformed(StrategyLoadError::TotalWeightToSmall { minimal: 16, total_weight: 15 })
    );
}

#[test]
fn load_refuses_an_empty_text() {
    assert_eq!(Scenario::load(b"").unwrap_err(), malformed(StrategyLoadError::NoHeader));
}

#[test]
fn load_refuses_an_empty_line() {
    assert_eq!(Scenario::load(b"\n").unwrap_err(), ScenarioError::InvalidNumber { line: 0 });
    assert_eq!(
        Scenario::load(b"1,1,1\n5,5,5\n\n").unwrap_err(),
        ScenarioError::InvalidNumber { line: 2 }
    );
}

#[test]
fn load_refuses_what_is_no_number() {
    assert_eq!(Scenario::load(b"5,x,3\n").unwrap_err(), ScenarioError::InvalidNumber { line: 0 });
    assert_eq!(
        Scenario::load(b"1,1,1\n5, 5,5\n").unwrap_err(),
        ScenarioError::InvalidNumber { line: 1 }
    );
    assert_eq!(
        Scenario::load(b"1,1,1\n5,5,5,\n").unwrap_err(),
        ScenarioError::InvalidNumber { line: 1 }
    );
    assert_eq!(
        Scenario::load(b"1,1,1\n5,5,2147483648\n").unwrap_err(),
        ScenarioError::InvalidNumber { line: 1 }
    );
    assert_eq!(
        Scenario::load(b"1,1,1\n5,5,5\r").unwrap_err(),
        ScenarioError::InvalidNumber { line: 1 }
    );
}

#[test]
fn load_refuses_a_header_of_another_length() {
    assert_eq!(
        Scenario::load(b"5,8\n2,1,10\n").unwrap_err(),
        malformed(StrategyLoadError::HeaderLengthOtherThen3)
    );
    assert_eq!(
        Scenario::load(b"5,8,3,1\n").unwrap_err(),
        malformed(StrategyLoadError::HeaderLengthOtherThen3)
    );
}

#[test]
fn load_refuses_a_line_of_another_length() {
    assert_eq!(
        Scenario::load(b"2,8,3\n2,1,10\n3,1\n").unwrap_err(),
        malformed(StrategyLoadError::LineLengthOtherThen3)
    );
    assert_eq!(
        Scenario::load(b"2,8,3\n2,1,10,4\n3,1,1\n").unwrap_err(),
        malformed(StrategyLoadError::LineLengthOtherThen3)
    );
}

#[test]
fn load_reports_the_first_line_at_fault() {
    assert_eq!(
        Scenario::load(b"2,8,3\n2,1\n3,x,1\n").unwrap_err(),
        malformed(StrategyLoadError::LineLengthOtherThen3)
    );
    assert_eq!(
        Scenario::load(b"2,8,3\n3,x,1\n2,1\n").unwrap_err(),
        ScenarioError::InvalidNumber { line: 1 }
    );
    assert_eq!(
        Scenario::load(b"2,8\n3,x,1\n").unwrap_err(),
        malformed(StrategyLoadError::HeaderLengthOtherThen3)
    );
}

#[test]
fn load_refuses_another_number_of_objects_than_declared() {
    assert_eq!(
        Scenario::load(b"3,8,3\n20,10,10\n30,10,20\n").unwrap_err(),
        malformed(StrategyLoadError::IncorrectNumberOfObjects { declared: 3, actual: 2 })
    );
    assert_eq!(
        Scenario::load(b"-1,8,3\n").unwrap_err(),
        malformed(StrategyLoadError::IncorrectNumberOfObjects { declared: -1, actual: 0 })
    );
}

#[test]
fn load_refuses_a_total_weight_that_twice_the_budget_reaches() {
    assert_eq!(
        Scenario::load(b"2,8,3\n10,10,10\n6,10,20\n").unwrap_err(),
        malformed(StrategyLoadError::TotalWeightToSmall { minimal: 16, total_weight: 16 })
    );
    assert_eq!(
        Scenario::load(b"2,8,30\n10,10,10\n5,10,20\n").unwrap_err(),
        malformed(StrategyLoadError::TotalWeightToSmall { minimal: 16, total_weight: 15 })
    );
}

#[test]
fn load_refuses_a_total_size_that_twice_the_budget_reaches() {
    assert_eq!(
        Scenario::load(b"2,8,3\n10,3,10\n7,3,20\n").unwrap_err(),
        malformed(StrategyLoadError::TotalSizeToSmall { minimal: 6, total_size: 6 })
    );
}

#[test]
fn load_accepts_totals_just_over_twice_the_budgets() {
    let scenario = Scenario::load(b"2,8,3\n10,3,10\n7,4,20\n").unwrap();
    assert_eq!(scenario.weights.to_vec(), vec![10, 7]);
    assert_eq!(scenario.sizes.to_vec(), vec![3, 4]);
}

#[test]
fn load_refuses_numbers_too_large() {
    assert_eq!(
        Scenario::load(b"2,8,3\n2147483647,3,10\n1,4,20\n").unwrap_err(),
        ScenarioError::TooLarge
    );
    assert_eq!(
        Scenario::load(b"2,1073741824,3\n10,3,10\n7,4,20\n").unwrap_err(),
        ScenarioError::TooLarge
    );
    assert_eq!(
        Scenario::load(b"2,8,3\n10,3,2147483647\n7,4,2147483647\n").unwrap_err(),
        ScenarioError::TooLarge
    );
}

#[test]
fn assemble_checks_the_number_of_objects_first() {
    let made = Scenario::assemble(3, i32::MAX, 3, vec![i32::MAX, 1], vec![1, 1], vec![1, 1]);
    assert_eq!(
        made.unwrap_err(),
        malformed(StrategyLoadError::IncorrectNumberOfObjects { declared: 3, actual: 2 })
    );
}

#[test]
fn assemble_makes_the_scenario_of_its_arguments() {
    let scenario =
        Scenario::assemble(2, -1, -2, vec![4, -3], vec![0, -1], vec![i32::MAX, i32::MIN]).unwrap();
    assert_eq!(scenario.number_of_objects, 2);
    assert_eq!(scenario.max_weight, -1);
    assert_eq!(scenario.max_size, -2);
    assert_eq!(scenario.weights.to_vec(), vec![4, -3]);
    assert_eq!(scenario.sizes.to_vec(), vec![0, -1]);
    assert_eq!(scenario.costs.to_vec(), vec![i32::MAX, i32::MIN]);
}

#[test]
fn to_csv_writes_the_header_and_a_line_for_each_object() {
    let scenario = Scenario {
        weights: NumberVector::from_vec(vec![2, 3, 4, 5, 1]),
        sizes: NumberVector::from_vec(vec![1, 1, 1, 1, 1]),
        costs: NumberVector::from_vec(vec![10, 20, 30, 40, 5]),
        number_of_objects: 5,
        max_weight: 7,
        max_size: 2,
    };
    assert_eq!(scenario.to_csv(), TEXT.to_vec());
}

#[test]
fn to_csv_writes_negative_numbers_and_the_extremes() {
    let scenario = Scenario {
        weights: NumberVector::from_vec(vec![-2]),
        sizes: NumberVector::from_vec(vec![0]),
        costs: NumberVector::from_vec(vec![i32::MIN]),
        number_of_objects: 1,
        max_weight: i32::MAX,
        max_size: -10,
    };
    assert_eq!(scenario.to_csv(), b"1,2147483647,-10\n-2,0,-2147483648\n".to_vec());
}

#[test]
fn what_is_written_of_a_scenario_loads_as_that_scenario() {
    let scenario = Scenario::load(TEXT).unwrap();
    let again = Scenario::load(&scenario.to_csv()).unwrap();
    assert_eq!(again.number_of_objects, 5);
    assert_eq!(again.max_weight, 7);
    assert_eq!(again.max_size, 2);
    assert_eq!(again.weights.to_vec(), scenario.weights.to_vec());
    assert_eq!(again.sizes.to_vec(), scenario.sizes.to_vec());
    assert_eq!(again.costs.to_vec(), scenario.costs.to_vec());
}

#[test]
fn numbers_are_written_in_decimal_notation() {
    for (number, text) in [
        (0, "0"),
        (7, "7"),
        (10, "10"),
        (-1, "-1"),
        (1234567890, "1234567890"),
        (i32::MAX, "2147483647"),
        (i32::MIN, "-2147483648"),
    ] {
        let mut out = b"x".to_vec();
        write_number(number, &mut out);
        assert_eq!(out, format!("x{}", text).into_bytes());
    }
}

#[test]
fn numbers_are_read_in_decimal_notation() {
    assert_eq!(parse_number(&b"0".to_vec()), Some(0));
    assert_eq!(parse_number(&b"007".to_vec()), Some(7));
    assert_eq!(parse_number(&b"+12".to_vec()), Some(12));
    assert_eq!(parse_number(&b"-12".to_vec()), Some(-12));
    assert_eq!(parse_number(&b"-0".to_vec()), Some(0));
    assert_eq!(parse_number(&b"2147483647".to_vec()), Some(i32::MAX));
    assert_eq!(parse_number(&b"-2147483648".to_vec()), Some(i32::MIN));
    assert_eq!(parse_number(&b"00000000002147483647".to_vec()), Some(i32::MAX));
}

#[test]
fn what_is_no_number_is_not_read() {
    for text in [
        "", "+", "-", " 1", "1 ", "1.0", "--1", "+-1", "1-", "a", "0x10", "2147483648",
        "-2147483649", "99999999999999999999999", "1\r",
    ] {
        assert_eq!(parse_number(&text.as_bytes().to_vec()), None, "{:?}", text);
    }
}

#[test]
fn numbers_agree_with_the_standard_parser() {
    for text in ["0", "-0", "+0", "42", "-42", "+42", "2147483647", "2147483648", "", "+", "4 2"] {
        assert_eq!(parse_number(&text.as_bytes().to_vec()), text.parse::<i32>().ok());
    }
}

#[test]
fn a_line_is_read_field_by_field() {
    assert_eq!(parse_line(&b"1,2,3".to_vec()), Some(vec![1, 2, 3]));
    assert_eq!(parse_line(&b"-1".to_vec()), Some(vec![-1]));
    assert_eq!(parse_line(&b"1,2,3,4".to_vec()), Some(vec![1, 2, 3, 4]));
    assert_eq!(parse_line(&b"".to_vec()), None);
    assert_eq!(parse_line(&b"1,,3".to_vec()), None);
    assert_eq!(parse_line(&b"1,2,".to_vec()), None);
}

#[test]
fn a_text_splits_at_each_separator() {
    assert_eq!(split_at(b"", b','), vec![b"".to_vec()]);
    assert_eq!(split_at(b"a", b','), vec![b"a".to_vec()]);
    assert_eq!(split_at(b"a,b", b','), vec![b"a".to_vec(), b"b".to_vec()]);
    assert_eq!(split_at(b",a,,", b','), vec![b"".to_vec(), b"a".to_vec(), b"".to_vec(), b"".to_vec()]);
}

#[test]
fn a_text_splits_into_lines() {
    assert_eq!(lines(b""), Vec::<Vec<u8>>::new());
    assert_eq!(lines(b"a"), vec![b"a".to_vec()]);
    assert_eq!(lines(b"a\n"), vec![b"a".to_vec()]);
    assert_eq!(lines(b"a\nb"), vec![b"a".to_vec(), b"b".to_vec()]);
    assert_eq!(lines(b"a\r\nb\r\n"), vec![b"a".to_vec(), b"b".to_vec()]);
    assert_eq!(lines(b"\n\n"), vec![b"".to_vec(), b"".to_vec()]);
    assert_eq!(lines(b"a\r"), vec![b"a\r".to_vec()]);
    assert_eq!(lines(b"a\r\r\n"), vec![b"a\r".to_vec()]);
    assert_eq!(lines(b"\r\n"), vec![b"".to_vec()]);
}

#[test]
fn lines_agree_with_the_standard_reader() {
    for text in ["", "a", "a\n", "a\nb", "a\r\nb\r\n", "\n\n", "a\r", "a\r\r\n", "\r\n", "\n\ra"] {
        let expected: Vec<Vec<u8>> =
            text.as_bytes().lines().map(|line| line.unwrap().into_bytes()).collect();
        assert_eq!(lines(text.as_bytes()), expected, "{:?}", text);
    }
}

#[test]
fn totals_fit_where_every_choice_sums_to_a_number() {
    assert!(do_totals_fit(&vec![]));
    assert!(do_totals_fit(&vec![1, 2, 3]));
    assert!(do_totals_fit(&vec![i32::MAX]));
    assert!(do_totals_fit(&vec![i32::MAX, i32::MIN]));
    assert!(do_totals_fit(&vec![i32::MAX - 1, 1, -5, i32::MIN + 5]));
    assert!(!do_totals_fit(&vec![i32::MAX, 1]));
    assert!(!do_totals_fit(&vec![i32::MAX, -7, 1]));
    assert!(!do_totals_fit(&vec![i32::MIN, 7, -1]));
}

#[test]
fn sum_adds_the_numbers() {
    assert_eq!(sum(&vec![]), 0);
    assert_eq!(sum(&vec![2, 3, 4, 5, 1]), 15);
    assert_eq!(sum(&vec![i32::MAX, i32::MIN, 1]), 0);
}

#[test]
fn generate_refuses_parameters_without_a_range_to_draw_from() {
    assert_eq!(Scenario::generate(1, 100, 100).unwrap_err(), GenerateError::EmptyRange);
    assert_eq!(Scenario::generate(0, 100, 100).unwrap_err(), GenerateError::EmptyRange);
    assert_eq!(Scenario::generate(-5, 100, 100).unwrap_err(), GenerateError::EmptyRange);
    assert_eq!(Scenario::generate(10, 1, 100).unwrap_err(), GenerateError::EmptyRange);
    assert_eq!(Scenario::generate(10, 100, 1).unwrap_err(), GenerateError::EmptyRange);
    assert_eq!(Scenario::generate(10, -100, 100).unwrap_err(), GenerateError::EmptyRange);
    assert_eq!(Scenario::generate(10, 214748365, 100).unwrap_err(), GenerateError::EmptyRange);
}

#[test]
fn generate_draws_objects_within_their_ranges() {
    let mut made = 0;
    for _ in 0..200 {
        match Scenario::generate(20, 40, 30) {
            Ok(scenario) => {
                made += 1;
                assert_eq!(scenario.number_of_objects, 20);
                assert_eq!(scenario.max_weight, 40);
                assert_eq!(scenario.max_size, 30);
                let weights = scenario.weights.to_vec();
                let sizes = scenario.sizes.to_vec();
                let costs = scenario.costs.to_vec();
                assert_eq!(weights.len(), 20);
                assert_eq!(sizes.len(), 20);
                assert_eq!(costs.len(), 20);
                // 10 * 40 / 20 = 20 and 10 * 30 / 20 = 15
                assert!(weights.iter().all(|weight| 1 <= *weight && *weight < 20));
                assert!(sizes.iter().all(|size| 1 <= *size && *size < 15));
                assert!(costs.iter().all(|cost| 1 <= *cost && *cost < 20));
                assert!(weights.iter().sum::<i32>() > 80);
                assert!(sizes.iter().sum::<i32>() > 60);
                assert!(Scenario::load(&scenario.to_csv()).is_ok());
            }
            Err(GenerateError::Unfit(ScenarioError::Malformed(
                StrategyLoadError::TotalWeightToSmall { minimal, total_weight },
            ))) => {
                assert_eq!(minimal, 80);
                assert!(total_weight <= 80);
            }
            Err(GenerateError::Unfit(ScenarioError::Malformed(
                StrategyLoadError::TotalSizeToSmall { minimal, total_size },
            ))) => {
                assert_eq!(minimal, 60);
                assert!(total_size <= 60);
            }
            Err(other) => panic!("{:?}", other),
        }
    }
    assert!(made > 0);
}

#[test]
fn generate_reports_objects_that_twice_a_budget_reaches() {
    // Two objects of weight and size 1 to 4: one time in sixteen their
    // weights sum to 2, which twice the budget of 1 reaches.
    let mut refused = 0;
    for _ in 0..2000 {
        match Scenario::generate(2, 1, 1) {
            Ok(scenario) => {
                assert!(scenario.weights.to_vec().iter().sum::<i32>() > 2);
                assert!(scenario.sizes.to_vec().iter().sum::<i32>() > 2);
            }
            Err(GenerateError::Unfit(ScenarioError::Malformed(
                StrategyLoadError::TotalWeightToSmall { minimal, total_weight },
            ))) => {
                refused += 1;
                assert_eq!((minimal, total_weight), (2, 2));
            }
            Err(GenerateError::Unfit(ScenarioError::Malformed(
                StrategyLoadError::TotalSizeToSmall { minimal, total_size },
            ))) => {
                refused += 1;
                assert_eq!((minimal, total_size), (2, 2));
            }
            Err(other) => panic!("{:?}", other),
        }
    }
    assert!(refused > 0);
}

#[test]
fn only_objects_too_light_or_too_small_are_drawn_again() {
    let light = StrategyLoadError::TotalWeightToSmall { minimal: 16, total_weight: 15 };
    let small = StrategyLoadError::TotalSizeToSmall { minimal: 6, total_size: 6 };
    let count = StrategyLoadError::IncorrectNumberOfObjects { declared: 3, actual: 2 };
    assert!(GenerateError::Unfit(malformed(light)).should_retry());
    assert!(GenerateError::Unfit(malformed(small)).should_retry());
    assert!(!GenerateError::Unfit(malformed(count)).should_retry());
    assert!(!GenerateError::Unfit(malformed(StrategyLoadError::NoHeader)).should_retry());
    assert!(!GenerateError::Unfit(ScenarioError::TooLarge).should_retry());
    assert!(!GenerateError::Unfit(ScenarioError::InvalidNumber { line: 1 }).should_retry());
    assert!(!GenerateError::EmptyRange.should_retry());
}
