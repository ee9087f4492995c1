//! Run metrics: the record written after a run and its exact text form.
//! Writing the record anywhere is the caller's business, reached through the
//! `Exporter` capability.

use vstd::prelude::*;

verus! {

use crate::structure::solution::Solution;

/// The decimal digit `d`.
pub open spec fn digit_char(d: int) -> char {
    if d == 0 {
        '0'
    } else if d == 1 {
        '1'
    } else if d == 2 {
        '2'
    } else if d == 3 {
        '3'
    } else if d == 4 {
        '4'
    } else if d == 5 {
        '5'
    } else if d == 6 {
        '6'
    } else if d == 7 {
        '7'
    } else if d == 8 {
        '8'
    } else {
        '9'
    }
}

/// The decimal rendering of a non-negative number, most significant digit
/// first.
pub open spec fn dec_str(n: int) -> Seq<char>
    decreases n when n >= 0
{
    if n < 10 {
        seq![digit_char(n)]
    } else {
        dec_str(n / 10).push(digit_char(n % 10))
    }
}

/// The one-character text of a single digit.
fn digit_str(d: u128) -> (r: &'static str)
    requires
        d < 10,
    ensures
        r@ =~= seq![digit_char(d as int)],
{
    proof {
        reveal_strlit("0");
        reveal_strlit("1");
        reveal_strlit("2");
        reveal_strlit("3");
        reveal_strlit("4");
        reveal_strlit("5");
        reveal_strlit("6");
        reveal_strlit("7");
        reveal_strlit("8");
        reveal_strlit("9");
    }
    if d == 0 {
        "0"
    } else if d == 1 {
        "1"
    } else if d == 2 {
        "2"
    } else if d == 3 {
        "3"
    } else if d == 4 {
        "4"
    } else if d == 5 {
        "5"
    } else if d == 6 {
        "6"
    } else if d == 7 {
        "7"
    } else if d == 8 {
        "8"
    } else {
        "9"
    }
}

/// Renders a number in decimal.
pub fn to_decimal_string(n: u128) -> (s: String)
    ensures
        s@ == dec_str(n as int),
    decreases n,
{
    if n < 10 {
        String::from_str(digit_str(n))
    } else {
        let mut s = to_decimal_string(n / 10);
        s.append(digit_str(n % 10));
        proof {
            assert(s@ =~= dec_str((n / 10) as int).push(digit_char((n % 10) as int)));
        }
        s
    }
}

/// One run's metrics, as plain values. The capture of wall-clock values
/// (start instant, elapsed time) and host names is the caller's business.
pub struct Metric {
    pub architecture: String,
    pub best_fitness: i64,
    pub elapsed_nanos: u128,
    pub file_name: String,
    pub generation: u32,
    pub instance: String,
    pub no_upgrade_limit: u8,
    pub os_description: String,
    pub population_size: u32,
    pub seed: u64,
    pub starting_time_secs: u64,
}

/// A sink that persists one metric row. The library never performs the
/// write; implementors do.
pub trait Exporter {
    fn export(&self, row: Metric);
}

/// The comma-separated-values exporter's configuration: where rows go.
#[derive(Debug, Clone)]
pub struct CSV {
    pub path: String,
}

impl CSV {
    /// The exact text cells of one metric row, in column order.
    pub fn row_to_record(&self, row: &Metric) -> (r: Vec<String>)
        requires
            row.best_fitness >= 0,
        ensures
            r@.len() == 11,
            r@[0]@ == row.instance@,
            r@[1]@ == dec_str(row.starting_time_secs as int),
            r@[2]@ == row.file_name@,
            r@[3]@ == dec_str(row.seed as int),
            r@[4]@ == dec_str(row.no_upgrade_limit as int),
            r@[5]@ == dec_str(row.population_size as int),
            r@[6]@ == dec_str(row.elapsed_nanos as int),
            r@[7]@ == dec_str(row.generation as int),
            r@[8]@ == dec_str(row.best_fitness as int),
            r@[9]@ == row.os_description@,
            r@[10]@ == row.architecture@,
    {
        let mut r: Vec<String> = Vec::new();
        r.push(String::from_str(row.instance.as_str()));
        r.push(to_decimal_string(row.starting_time_secs as u128));
        r.push(String::from_str(row.file_name.as_str()));
        r.push(to_decimal_string(row.seed as u128));
        r.push(to_decimal_string(row.no_upgrade_limit as u128));
        r.push(to_decimal_string(row.population_size as u128));
        r.push(to_decimal_string(row.elapsed_nanos));
        r.push(to_decimal_string(row.generation as u128));
        r.push(to_decimal_string(row.best_fitness as u128));
        r.push(String::from_str(row.os_description.as_str()));
        r.push(String::from_str(row.architecture.as_str()));
        r
    }
}

/// Assembles one metric row from a finished run and hands it to the sink.
pub struct Report;

impl Report {
    /// Builds the metric record and exports it through `g`.
    #[allow(clippy::too_many_arguments)]
    pub fn generate<T: Exporter>(
        g: T,
        instance: String,
        starting_time_secs: u64,
        file_name: String,
        seed: u64,
        no_upgrade_limit: u8,
        population_size: u32,
        solution: &Solution,
        elapsed_nanos: u128,
        architecture: String,
        os_description: String,
    ) {
        let metric = Metric {
            architecture,
            best_fitness: solution.fitness,
            elapsed_nanos,
            file_name,
            generation: solution.generations,
            instance,
            no_upgrade_limit,
            os_description,
            population_size,
            seed,
            starting_time_secs,
        };
        g.export(metric);
    }
}

} // verus!
