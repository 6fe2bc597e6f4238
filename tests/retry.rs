use retry_race::retry::{RetryStep, Retryer};

/// Runs `f` under `retryer` the way a driver does: one call per attempt until the
/// policy says the run is over.
fn run<T, E>(retryer: &Retryer, mut f: impl FnMut() -> Result<T, E>) -> Result<T, E> {
    let mut attempt: usize = 1;
    loop {
        match retryer.settle(attempt, f()) {
            RetryStep::Again => attempt += 1,
            RetryStep::Finish(r) => return r,
        }
    }
}

#[test]
fn should_call_function_at_least_once_ok() {
    let retryer = Retryer(0);
    let mut counter = 0;
    let res = run(&retryer, || {
        counter += 1;
        Result::<&str, &str>::Ok("test")
    });
    assert_eq!(res, Ok("test"));
    assert_eq!(counter, 1);
}

#[test]
fn should_call_function_at_least_once_err() {
    let retryer = Retryer(0);
    let mut counter = 0;
    let res = run(&retryer, || {
        counter += 1;
        Result::<&str, &str>::Err("test")
    });
    assert_eq!(res, Err("test"));
    assert_eq!(counter, 1);
}

#[test]
fn should_retry_function_until_ok() {
    let retryer = Retryer(3);
    let mut counter = 0;
    let res = run(&retryer, || {
        counter += 1;
        if counter == 2 {
            Ok("test")
        } else {
            Err("test")
        }
    });
    assert_eq!(res, Ok("test"));
    assert_eq!(counter, 2);
}

#[test]
fn should_retry_function_specified_number_of_times() {
    let retryer = Retryer(3);
    let mut counter = 0;
    let res = run(&retryer, || {
        counter += 1;
        Result::<&str, &str>::Err("test")
    });
    assert_eq!(res, Err("test"));
    assert_eq!(counter, 4);
}

#[test]
fn new_keeps_retry_count() {
    assert_eq!(Retryer::new(5).0, 5);
}

#[test]
fn always_failing_factory_called_extra_plus_one_times() {
    for extra in 0..6usize {
        let retryer = Retryer::new(extra);
        let mut counter = 0;
        let res = run(&retryer, || {
            counter += 1;
            Result::<u32, u32>::Err(counter)
        });
        assert_eq!(counter as usize, extra + 1);
        assert_eq!(res, Err((extra + 1) as u32));
    }
}

#[test]
fn success_on_kth_call_stops_there() {
    let retryer = Retryer::new(4);
    for k in 1..=5u32 {
        let mut counter = 0;
        let res = run(&retryer, || {
            counter += 1;
            if counter == k {
                Ok(counter * 10)
            } else {
                Err(counter)
            }
        });
        assert_eq!(counter, k);
        assert_eq!(res, Ok(k * 10));
    }
}

#[test]
fn settle_finishes_on_success_before_limit() {
    let retryer = Retryer::new(2);
    assert!(matches!(retryer.settle::<u8, u8>(1, Ok(7)), RetryStep::Finish(Ok(7))));
    assert!(matches!(retryer.settle::<u8, u8>(1, Err(1)), RetryStep::Again));
    assert!(matches!(retryer.settle::<u8, u8>(2, Err(2)), RetryStep::Again));
    assert!(matches!(retryer.settle::<u8, u8>(3, Err(3)), RetryStep::Finish(Err(3))));
}

#[test]
fn settle_with_largest_retry_count() {
    let retryer = Retryer::new(usize::MAX);
    assert!(matches!(retryer.settle::<u8, u8>(usize::MAX, Err(1)), RetryStep::Again));
}
