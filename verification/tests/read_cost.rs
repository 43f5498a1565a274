use std::collections::{BTreeMap, BTreeSet};

use hammerfest_autosplitter::scan::{Scan, SearchLog};

/// What one search costs: the reads, the bytes they asked for, and the pauses.
#[derive(Clone, Copy, Debug, Default, PartialEq, Eq)]
struct Cost {
    reads: u64,
    bytes: u64,
    yields: u64,
}

impl Cost {
    /// The cost as one line of a baseline writes it.
    fn text(&self) -> String {
        format!(
            "{} reads {} bytes {} yields",
            self.reads, self.bytes, self.yields
        )
    }
}

/// The cost of each situation, by name.
#[derive(Default)]
struct Costs(BTreeMap<String, Cost>);

impl Costs {
    fn record(&mut self, situation: &str, cost: Cost) {
        self.0.insert(situation.to_string(), cost);
    }

    /// One line per situation, as `render` writes it. A line that does not
    /// parse is left out, and then fails as a situation with no baseline.
    fn parse(text: &str) -> Self {
        let mut costs = Self::default();
        for line in text.lines().filter(|line| !line.starts_with('#')) {
            let words: Vec<&str> = line.split_whitespace().collect();
            if let [situation, reads, "reads", bytes, "bytes", yields, "yields"] = words[..] {
                if let (Ok(reads), Ok(bytes), Ok(yields)) =
                    (reads.parse(), bytes.parse(), yields.parse())
                {
                    costs.record(
                        situation,
                        Cost {
                            reads,
                            bytes,
                            yields,
                        },
                    );
                }
            }
        }
        costs
    }

    fn render(&self) -> String {
        self.0
            .iter()
            .map(|(situation, cost)| format!("{situation} {}\n", cost.text()))
            .collect()
    }

    /// Every way these costs and the baseline disagree, one line each.
    fn differences_from(&self, baseline: &Self) -> Vec<String> {
        let situations: BTreeSet<&String> = self.0.keys().chain(baseline.0.keys()).collect();
        situations
            .into_iter()
            .filter_map(
                |situation| match (baseline.0.get(situation), self.0.get(situation)) {
                    (Some(expected), Some(measured)) if expected == measured => None,
                    (Some(expected), Some(measured)) => Some(format!(
                        "{situation}: expected {}, measured {}",
                        expected.text(),
                        measured.text()
                    )),
                    (None, Some(measured)) => Some(format!(
                        "{situation}: no baseline, measured {}",
                        measured.text()
                    )),
                    (Some(expected), None) => Some(format!(
                        "{situation}: expected {}, no situation measures it",
                        expected.text()
                    )),
                    (None, None) => None,
                },
            )
            .collect()
    }
}

fn a_cost(reads: u64, bytes: u64, yields: u64) -> Cost {
    Cost {
        reads,
        bytes,
        yields,
    }
}

fn a_baseline(lines: &[(&str, Cost)]) -> Costs {
    let mut costs = Costs::default();
    for (situation, cost) in lines {
        costs.record(situation, *cost);
    }
    costs
}

#[test]
fn the_same_cost_fails_nothing() {
    let baseline = a_baseline(&[("real-game/read", a_cost(12, 96, 0))]);
    let measured = a_baseline(&[("real-game/read", a_cost(12, 96, 0))]);

    assert_eq!(measured.differences_from(&baseline), Vec::<String>::new());
}

#[test]
fn a_higher_cost_names_the_situation_and_both_costs() {
    let baseline = a_baseline(&[("real-game/read", a_cost(12, 96, 0))]);
    let measured = a_baseline(&[("real-game/read", a_cost(13, 96, 0))]);

    let differences = measured.differences_from(&baseline);

    assert_eq!(
        differences,
        ["real-game/read: expected 12 reads 96 bytes 0 yields, measured 13 reads 96 bytes 0 yields"]
    );
}

#[test]
fn a_lower_cost_fails_too() {
    let baseline = a_baseline(&[("real-game/read", a_cost(12, 96, 0))]);
    let measured = a_baseline(&[("real-game/read", a_cost(12, 95, 0))]);

    assert_eq!(measured.differences_from(&baseline).len(), 1);
}

#[test]
fn a_situation_with_no_baseline_fails() {
    let baseline = Costs::default();
    let measured = a_baseline(&[("real-game/read", a_cost(12, 96, 0))]);

    assert_eq!(
        measured.differences_from(&baseline),
        ["real-game/read: no baseline, measured 12 reads 96 bytes 0 yields"]
    );
}

#[test]
fn a_baseline_with_no_situation_fails() {
    let baseline = a_baseline(&[("real-game/read", a_cost(12, 96, 0))]);
    let measured = Costs::default();

    assert_eq!(
        measured.differences_from(&baseline),
        ["real-game/read: expected 12 reads 96 bytes 0 yields, no situation measures it"]
    );
}

#[test]
fn a_baseline_reads_back_what_it_wrote() {
    let written = a_baseline(&[
        ("real-game/read", a_cost(12, 96, 0)),
        ("game-over/first-search", a_cost(300, 1 << 20, 4)),
    ]);

    let read = Costs::parse(&written.render());

    assert_eq!(read.differences_from(&written), Vec::<String>::new());
}

/// A listener that counts what a search tells it.
#[derive(Default)]
struct Counting {
    reads: u64,
    bytes: u64,
    yields: u64,
}

impl SearchLog for Counting {
    fn block_read(&mut self, bytes: u64, _succeeded: bool) {
        self.reads += 1;
        self.bytes += bytes;
    }

    fn tick_given_back(&mut self) {
        self.yields += 1;
    }
}

#[test]
fn counts_every_read_and_its_bytes_whether_it_succeeds_or_not() {
    let heap = hammerfest_autosplitter::memory::Heap::default().with_range(0x1000, vec![0; 8]);
    let mut log = Counting::default();
    let mut scan = Scan::new(&mut log);

    assert!(scan.read_block(&heap, 0x1000, &mut [0; 8], &mut log));
    assert!(!scan.read_block(&heap, 0x9000, &mut [0; 16], &mut log));

    assert_eq!(
        a_cost(log.reads, log.bytes, log.yields),
        a_cost(2, 24, 0)
    );
}

#[test]
fn counts_every_tick_given_back() {
    let mut log = Counting::default();
    let mut scan = Scan::new(&mut log);

    for _ in 0..3 {
        scan.paused(&mut log);
    }

    assert_eq!(
        a_cost(log.reads, log.bytes, log.yields),
        a_cost(0, 0, 3)
    );
}
