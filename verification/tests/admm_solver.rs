use app_lev_orc::admm_solver::GlobalSolver;
use app_lev_orc::scalar::Scalar;

fn scalar(text: &str) -> Scalar {
    Scalar::parse(text.as_bytes()).unwrap()
}

fn texts(sums: &[Scalar]) -> Vec<String> {
    sums.iter().map(|s| String::from_utf8(s.as_bytes().to_vec()).unwrap()).collect()
}

#[test]
fn fresh_solver_has_heard_nobody() {
    let solver = GlobalSolver::new(4, 20);
    assert_eq!(solver.locals_len(), 0);
    assert_eq!(solver.get_iterations(), 0);
    assert_eq!(solver.get_number_of_nodes(), 4);
    assert!(!solver.terminated(false));
    assert!(solver.terminated(true));
}

#[test]
fn reports_are_counted_by_sender() {
    let mut solver = GlobalSolver::new(3, 20);
    solver.add_local_sum(scalar("1"), 2);
    assert_eq!(solver.locals_len(), 1);
    solver.add_local_sum(scalar("1"), 2);
    assert_eq!(solver.locals_len(), 1);
    solver.add_local_sum(scalar("0.5"), 0);
    assert_eq!(solver.locals_len(), 2);
}

#[test]
fn update_hands_out_the_sums_and_counts_the_iteration() {
    let mut solver = GlobalSolver::new(3, 20);
    solver.add_local_sum(scalar("1"), 2);
    solver.add_local_sum(scalar("0.5"), 0);
    let sums = solver.global_z_updater();
    // Node 1 has not reported: its sum is 0.
    assert_eq!(texts(&sums), vec!["0.5", "0", "1"]);
    assert_eq!(solver.get_iterations(), 1);
    assert_eq!(solver.locals_len(), 0);
    assert_eq!(texts(&solver.global_z_updater()), vec!["0", "0", "0"]);
    assert_eq!(solver.get_iterations(), 2);
}

#[test]
fn clearing_keeps_the_record_of_senders() {
    let mut solver = GlobalSolver::new(2, 20);
    solver.add_local_sum(scalar("1"), 1);
    solver.global_z_updater();
    solver.add_local_sum(scalar("1"), 0);
    solver.clear();
    assert_eq!(solver.get_iterations(), 0);
    assert_eq!(solver.locals_len(), 1);
    assert_eq!(texts(&solver.global_z_updater()), vec!["0", "0"]);
}

#[test]
fn clearing_the_sums_keeps_the_count() {
    let mut solver = GlobalSolver::new(2, 20);
    solver.global_z_updater();
    solver.add_local_sum(scalar("1"), 1);
    solver.clear_locals();
    assert_eq!(solver.get_iterations(), 1);
    assert_eq!(solver.locals_len(), 1);
    assert_eq!(texts(&solver.global_z_updater()), vec!["0", "0"]);
}

#[test]
fn termination_after_the_limit() {
    let mut solver = GlobalSolver::new(1, 20);
    for _ in 0..20 {
        solver.global_z_updater();
        assert!(!solver.terminated(false));
    }
    assert_eq!(solver.get_iterations(), 20);
    solver.global_z_updater();
    assert!(solver.terminated(false));
    assert!(solver.terminated(true));
}

#[test]
fn a_limit_of_zero_ends_the_round_after_one_iteration() {
    let mut solver = GlobalSolver::new(1, 0);
    assert!(!solver.terminated(false));
    solver.global_z_updater();
    assert!(solver.terminated(false));
}

#[test]
fn a_solver_for_no_node_has_no_sum() {
    let mut solver = GlobalSolver::new(0, 20);
    assert_eq!(solver.locals_len(), 0);
    assert!(solver.global_z_updater().is_empty());
}
