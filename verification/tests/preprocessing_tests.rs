use mckp_ga::preprocessing::ProblemPreprocessor;
use mckp_ga::structure::problem::Problem;
use mckp_ga::structure::make_item;

fn make_problem() -> Problem {
    let capacity = 50;
    let data = vec![
        vec![make_item(10, 5), make_item(20, 10), make_item(30, 14)],
        vec![make_item(15, 7), make_item(25, 12), make_item(40, 15)],
    ];
    let size = data.len() as i32;

    Problem { capacity, data, size }
}

fn make_problem_low_capacity() -> Problem {
    let capacity = 20;
    let data = vec![
        vec![make_item(10, 5), make_item(20, 10), make_item(30, 14)],
        vec![make_item(15, 7), make_item(25, 12), make_item(45, 15)],
        vec![make_item(20, 1), make_item(35, 35), make_item(55, 35)],
        vec![make_item(11, 3), make_item(22, 15), make_item(33, 16)],
    ];
    let size = data.len() as i32;

    Problem { capacity, data, size }
}

#[test]
fn test_lp_relaxation() {
    let problem = make_problem();

    let generator = ProblemPreprocessor::new(&problem);
    let result = generator.lp_relaxation();
    assert!(result.v_low <= result.v_up);
}

#[test]
fn test_lp_relaxation_low_capacity() {
    let problem = make_problem_low_capacity();

    let generator = ProblemPreprocessor::new(&problem);
    let result = generator.lp_relaxation();
    assert!(result.v_low <= result.v_up);
}

#[test]
fn test_process_problem_low_capacity() {
    let problem = make_problem_low_capacity();

    let generator = ProblemPreprocessor::new(&problem);
    let result = generator.process_problem();
    assert!(result.ub_fix_result.v_best >= result.relaxation_result.v_low);
}

// The two-group example with ample capacity: both groups reduce to their top
// tier, the greedy fill commits both whole, and the bounds coincide.
#[test]
fn test_filler_exact_bounds_ample_capacity() {
    let problem = make_problem();
    let preprocessor = ProblemPreprocessor::new(&problem);
    let result = preprocessor.lp_relaxation();

    assert_eq!(result.v_low, 70);
    assert_eq!(result.v_up, 70);
    assert_eq!(result.v_up_num, 0);
    assert_eq!(result.x, vec![3, 3]);
    assert_eq!(result.x_up, vec![3, 3]);
    assert!(result.critical.is_none());

    // Each group's lower tiers fall strictly under the hull.
    let mut f_0 = result.f_0.clone();
    f_0.sort();
    assert_eq!(f_0, vec![(0, 0), (0, 1), (1, 0), (1, 1)]);
    assert_eq!(result.relaxed.len(), 2);
    assert_eq!(result.relaxed[0].edges.len(), 1);
    assert_eq!(result.relaxed[0].edges[0].delta_gain, 30);
    assert_eq!(result.relaxed[0].edges[0].delta_cost, 14);
}

// The same groups under a tight budget: the second group's top tier commits
// whole, the first group's top tier becomes the critical fraction 5/14, and
// the exact bounds are 40 <= optimum <= 50 + 10/14.
#[test]
fn test_filler_critical_fraction_low_capacity() {
    let problem = Problem {
        capacity: 20,
        data: vec![
            vec![make_item(10, 5), make_item(20, 10), make_item(30, 14)],
            vec![make_item(15, 7), make_item(25, 12), make_item(40, 15)],
        ],
        size: 2,
    };
    let preprocessor = ProblemPreprocessor::new(&problem);
    let result = preprocessor.lp_relaxation();

    assert_eq!(result.v_low, 40);
    assert_eq!(result.v_up, 50);
    assert_eq!(result.v_up_num, 10);
    assert_eq!(result.v_up_den, 14);
    assert_eq!(result.x, vec![0, 3]);
    let critical = result.critical.expect("a critical pick");
    assert_eq!(critical.group, 0);
    assert_eq!(critical.tier, 2);
    assert_eq!(critical.num, 5);
    assert_eq!(critical.den, 14);
}

// Reduced-cost fixing on the tight example: removing the critical group's
// third tier lets the modified fill reach 50 integrally, which both improves
// the retained assignment and certifies tier 2 of group 0 as unreachable.
#[test]
fn test_ub_fix_fixes_critical_third_tier() {
    let problem = Problem {
        capacity: 20,
        data: vec![
            vec![make_item(10, 5), make_item(20, 10), make_item(30, 14)],
            vec![make_item(15, 7), make_item(25, 12), make_item(40, 15)],
        ],
        size: 2,
    };
    let preprocessor = ProblemPreprocessor::new(&problem);
    let result = preprocessor.process_problem();

    assert_eq!(result.ub_fix_result.f_1, vec![(0, 2)]);
    assert_eq!(result.ub_fix_result.v_best, 50);
    assert_eq!(result.ub_fix_result.x_best, vec![0, 3]);
}

// A zero-cost, positive-gain tier yields the sentinel infinitely efficient
// edge: it is committed before anything else and never divided.
#[test]
fn test_free_tier_is_committed_first() {
    let problem = Problem {
        capacity: 0,
        data: vec![vec![make_item(5, 0), make_item(6, 8), make_item(7, 9)]],
        size: 1,
    };
    let preprocessor = ProblemPreprocessor::new(&problem);
    let result = preprocessor.lp_relaxation();

    // The free tier fits even a zero budget; the fill stays integral there.
    assert!(result.v_up >= 5);
    assert!(result.v_low >= 5);
    assert!(result.v_low <= result.v_up);
}
