use mirror_pool::eval::{Attributor, EarliestExecutor, Execution, Round};

fn round(initiator: usize, times: &[u64]) -> Round {
    Round {
        initiator,
        executions: times
            .iter()
            .enumerate()
            .map(|(participant, &time)| Execution { participant, time })
            .collect(),
    }
}

#[test]
fn earliest_executor_names_a_strictly_first_initiator() {
    let r = round(3, &[50, 40, 90, 10, 70]);
    assert_eq!(EarliestExecutor.guess_initiator(&r), 3);
    assert_eq!(EarliestExecutor.name(), "earliest-executor");
}

#[test]
fn earliest_executor_takes_the_first_of_tied_executions() {
    let r = round(2, &[30, 10, 10, 20]);
    assert_eq!(EarliestExecutor.guess_initiator(&r), 1);
}

#[test]
fn earliest_index_of_a_single_execution() {
    let r = round(0, &[5]);
    assert_eq!(EarliestExecutor::earliest_index(&r.executions), 0);
}
