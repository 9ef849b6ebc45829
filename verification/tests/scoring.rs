//! Scoring arithmetic, answer normalization, the variant generator, and
//! the report rendering.

use learned_cat::{
    check_answer, decimal_string, export_results, generate, score_string, total_score, Answer,
    MarkRecord, ModelError, Score, Statistic, VariantRecord,
};

fn value(s: Score) -> f64 {
    s.num as f64 / s.den as f64
}

#[test]
fn test_check_answer() {
    assert_eq!(value(check_answer(&Answer::new(vec![0]), &Answer::new(vec![0]))), 1.0);
    assert_eq!(value(check_answer(&Answer::new(vec![1]), &Answer::new(vec![0]))), 0.0);
    assert_eq!(value(check_answer(&Answer::new(vec![0, 1]), &Answer::new(vec![1]))), 0.0);
    assert_eq!(value(check_answer(&Answer::new(vec![0]), &Answer::new(vec![0, 1]))), 0.5);
    assert_eq!(value(check_answer(&Answer::new(vec![0, 1]), &Answer::new(vec![0, 1]))), 1.0);
    assert_eq!(value(check_answer(&Answer::new(vec![0, 1, 2]), &Answer::new(vec![0, 1]))), 0.5);
    assert_eq!(
        value(check_answer(&Answer::new(vec![0, 1, 2, 3]), &Answer::new(vec![0, 1]))),
        0.0
    );
    assert_eq!(
        value(check_answer(&Answer::new(vec![0, 1, 2, 3, 4]), &Answer::new(vec![0, 1]))),
        0.0
    );
}

#[test]
fn check_answer_exact_fractions() {
    // Two of three correct options selected, nothing wrong: exactly 2/3.
    let r = check_answer(&Answer::new(vec![0, 2]), &Answer::new(vec![0, 1, 2]));
    assert_eq!(r.num, 2);
    assert_eq!(r.den, 3);
    // An empty submission scores zero, not negative.
    let r = check_answer(&Answer::new(vec![]), &Answer::new(vec![0]));
    assert_eq!(r.num, 0);
    assert_eq!(r.den, 1);
}

#[test]
fn score_addition_is_exact() {
    let half = Score::new(1, 2);
    let third = Score::new(1, 3);
    let sum = half.add(third).unwrap();
    assert_eq!(value(sum), 5.0 / 6.0);

    // Halves collapse to a whole.
    let one = half.add(half).unwrap();
    assert_eq!(one.num, 1);
    assert_eq!(one.den, 1);

    // A sum that cannot be represented in 64 bits is refused, not mangled.
    let huge = Score::new(u64::MAX, 1);
    assert_eq!(huge.add(huge), None);
}

#[test]
fn total_score_sums_fractions() {
    let scores = vec![Score::new(1, 2), Score::new(1, 2), Score::new(2, 3)];
    let total = total_score(&scores).unwrap();
    assert_eq!(total.num, 5);
    assert_eq!(total.den, 3);
    assert_eq!(total_score(&vec![]), Some(Score::new(0, 1)));
}

#[test]
fn answer_is_normalized() {
    let a = Answer::new(vec![3, 1, 3, 2, 1]);
    assert_eq!(a.as_array(), vec![1, 2, 3]);
    let mut b = Answer::new(vec![5]);
    b.push(2);
    b.push(5);
    assert_eq!(b.as_array(), vec![2, 5]);
    assert!(b.contains(2));
    assert!(!b.contains(3));
    // Normalization is canonical: any ordering or duplication of the same
    // selection gives the same answer.
    assert_eq!(Answer::new(vec![2, 1]), Answer::new(vec![1, 2, 2, 1]));
}

#[test]
fn generator_draws_distinct_in_range() {
    let mut counts = [0usize; 6];
    for _ in 0..400 {
        let drawn = generate(6, 2);
        assert_eq!(drawn.len(), 2);
        assert_ne!(drawn[0], drawn[1]);
        for &idx in &drawn {
            assert!(idx < 6);
            counts[idx] += 1;
        }
    }
    // Over many trials every index comes up with roughly equal frequency;
    // a generator that never shuffled would leave most counters at zero.
    for &c in &counts {
        assert!(c >= 50, "index drawn only {c} times out of 800");
    }
}

#[test]
fn generator_caps_at_pool_size() {
    let drawn = generate(3, 10);
    assert_eq!(drawn.len(), 3);
    let mut sorted = drawn.clone();
    sorted.sort();
    assert_eq!(sorted, vec![0, 1, 2]);
}

#[test]
fn decimal_rendering() {
    assert_eq!(decimal_string(0), "0");
    assert_eq!(decimal_string(7), "7");
    assert_eq!(decimal_string(1234567890), "1234567890");
    assert_eq!(decimal_string(u64::MAX), "18446744073709551615");
    assert_eq!(score_string(&Score::new(5, 2)), "5/2");
}

struct TStatistic {}

impl Statistic for TStatistic {
    fn users(&mut self) -> Vec<String> {
        vec!["alice".to_string(), "bob".to_string()]
    }

    fn results(&mut self, username: &String) -> Vec<MarkRecord> {
        if username == "alice" {
            vec![
                MarkRecord {
                    username: "alice".to_string(),
                    testname: "linux".to_string(),
                    mark: Score::new(5, 2),
                    start_datetime: "10".to_string(),
                    end_datetime: "20".to_string(),
                },
                MarkRecord {
                    username: "alice".to_string(),
                    testname: "python".to_string(),
                    mark: Score::new(1, 1),
                    start_datetime: "30".to_string(),
                    end_datetime: "40".to_string(),
                },
            ]
        } else {
            vec![MarkRecord {
                username: "bob".to_string(),
                testname: "linux".to_string(),
                mark: Score::new(0, 1),
                start_datetime: "50".to_string(),
                end_datetime: "60".to_string(),
            }]
        }
    }

    fn variants(&mut self, _username: &String, _testname: &String) -> Vec<VariantRecord> {
        vec![]
    }
}

#[test]
fn export_results_renders_csv() {
    let mut statistic = TStatistic {};
    let csv = export_results(&mut statistic);
    assert_eq!(
        csv,
        "linux,alice,10,20,5/2\npython,alice,30,40,1/1\nlinux,bob,50,60,0/1\n"
    );
}

#[test]
fn error_messages_exist() {
    let errors = vec![
        ModelError::TestNotExist("x".to_string()),
        ModelError::TestIsDone,
        ModelError::ResultNotExist("x".to_string()),
        ModelError::UserNotAllowed,
        ModelError::VariantNotExist("x".to_string()),
        ModelError::TestIsOpened("u".to_string(), "t".to_string()),
    ];
    for e in errors {
        assert!(!e.message().is_empty());
    }
}
