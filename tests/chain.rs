use highnoon::{Cursor, Step};

fn order_of_filters(len: usize) -> Vec<usize> {
    let mut order = Vec::new();
    let mut cursor = Cursor::start(len);
    loop {
        match cursor.step() {
            Step::Filter(i, rest) => {
                order.push(i);
                cursor = rest;
            }
            Step::Endpoint => break,
        }
    }
    order
}

#[test]
fn filters_run_in_registration_order() {
    assert_eq!(order_of_filters(2), vec![0, 1]);
    assert_eq!(order_of_filters(3), vec![0, 1, 2]);
}

#[test]
fn empty_chain_goes_to_endpoint() {
    assert!(matches!(Cursor::start(0).step(), Step::Endpoint));
}

// Runs a chain where filter `i` hands the request on when `passes[i]`,
// recording what is observed, the way a dispatcher drives the cursor.
fn run_chain(cursor: Cursor, passes: &[bool], log: &mut Vec<String>) {
    match cursor.step() {
        Step::Filter(i, rest) => {
            log.push(format!("pre{}", i));
            if passes[i] {
                run_chain(rest, passes, log);
            }
            log.push(format!("post{}", i));
        }
        Step::Endpoint => log.push("endpoint".to_string()),
    }
}

#[test]
fn nested_pre_and_post_order() {
    let mut log = Vec::new();
    run_chain(Cursor::start(2), &[true, true], &mut log);
    assert_eq!(log, vec!["pre0", "pre1", "endpoint", "post1", "post0"]);
}

#[test]
fn short_circuit_skips_the_rest() {
    let mut log = Vec::new();
    run_chain(Cursor::start(2), &[false, true], &mut log);
    assert_eq!(log, vec!["pre0", "post0"]);
}
