use mckp_ga::report::{to_decimal_string, Exporter, Metric, Report, CSV};
use mckp_ga::structure::solution::Solution;
use std::cell::RefCell;

#[test]
fn test_decimal_rendering() {
    assert_eq!(to_decimal_string(0), "0");
    assert_eq!(to_decimal_string(7), "7");
    assert_eq!(to_decimal_string(10), "10");
    assert_eq!(to_decimal_string(90210), "90210");
    assert_eq!(to_decimal_string(1_000_000_007), "1000000007");
}

#[test]
fn test_row_to_record_exact_cells() {
    let csv = CSV { path: "metrics.csv".to_string() };
    let row = Metric {
        architecture: "x86_64".to_string(),
        best_fitness: 70,
        elapsed_nanos: 123456789,
        file_name: "instance.txt".to_string(),
        generation: 12,
        instance: "run-1".to_string(),
        no_upgrade_limit: 5,
        os_description: "linux".to_string(),
        population_size: 10,
        seed: 99,
        starting_time_secs: 1700000000,
    };
    let record = csv.row_to_record(&row);
    assert_eq!(record.len(), 11);
    assert_eq!(record[0], "run-1");
    assert_eq!(record[1], "1700000000");
    assert_eq!(record[2], "instance.txt");
    assert_eq!(record[3], "99");
    assert_eq!(record[4], "5");
    assert_eq!(record[5], "10");
    assert_eq!(record[6], "123456789");
    assert_eq!(record[7], "12");
    assert_eq!(record[8], "70");
    assert_eq!(record[9], "linux");
    assert_eq!(record[10], "x86_64");
}

struct Capture {
    rows: RefCell<Vec<Metric>>,
}

impl Exporter for &Capture {
    fn export(&self, row: Metric) {
        self.rows.borrow_mut().push(row);
    }
}

#[test]
fn test_generate_hands_metric_to_exporter() {
    let sink = Capture { rows: RefCell::new(Vec::new()) };
    let solution = Solution::make_solution(vec![], 42, 17, 3);
    Report::generate(
        &sink,
        "run-2".to_string(),
        1234,
        "data.txt".to_string(),
        7,
        5,
        20,
        &solution,
        999,
        "arch".to_string(),
        "os".to_string(),
    );
    let rows = sink.rows.borrow();
    assert_eq!(rows.len(), 1);
    assert_eq!(rows[0].best_fitness, 42);
    assert_eq!(rows[0].generation, 3);
    assert_eq!(rows[0].seed, 7);
    assert_eq!(rows[0].starting_time_secs, 1234);
    assert_eq!(rows[0].elapsed_nanos, 999);
}
