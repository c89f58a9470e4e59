use app_lev_orc::workload::Workload;

struct Counter {
    runs: u32,
}

impl Workload for Counter {
    fn exec_workload(&mut self) {
        self.runs += 1;
    }
}

#[test]
fn a_workload_runs_when_asked() {
    let mut work = Counter { runs: 0 };
    work.exec_workload();
    work.exec_workload();
    assert_eq!(work.runs, 2);
}
