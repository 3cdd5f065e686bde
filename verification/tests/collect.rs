use async_std::collect::{collect_options, collect_results, sum_results, Collector};

#[test]
fn sum_of_ok_values() {
    let v: Vec<Result<i64, &str>> = vec![1, 2]
        .into_iter()
        .map(|x| if x < 0 { Err("Negative element found") } else { Ok(x) })
        .collect();
    assert_eq!(sum_results(v), Ok(3));
}

#[test]
fn sum_stops_at_first_error() {
    let v: Vec<Result<i64, &str>> = vec![Ok(1), Err("first"), Ok(5), Err("second")];
    assert_eq!(sum_results(v), Err("first"));
    let empty: Vec<Result<i64, &str>> = vec![];
    assert_eq!(sum_results(empty), Ok(0));
}

#[test]
fn results_collect_in_order() {
    let v: Vec<Result<u8, String>> = vec![Ok(3), Ok(1), Ok(2)];
    assert_eq!(collect_results(v), Ok(vec![3, 1, 2]));
    let v: Vec<Result<u8, String>> = vec![Ok(3), Err("x".to_string()), Err("y".to_string())];
    assert_eq!(collect_results(v), Err("x".to_string()));
}

#[test]
fn options_collect_or_none() {
    assert_eq!(collect_options(vec![Some(1), Some(2)]), Some(vec![1, 2]));
    assert_eq!(collect_options(vec![Some(1), None, Some(2)]), None);
    assert_eq!(collect_options::<u8>(vec![]), Some(vec![]));
}

#[test]
fn collector_stops_pulling_at_the_first_error() {
    let items: Vec<Result<i32, &str>> = vec![Ok(1), Err("e1"), Ok(2), Err("e2")];
    let mut source = items.into_iter();
    let mut pulled = 0;
    let mut c = Collector::new();
    while c.wants_more() {
        match source.next() {
            Some(item) => {
                pulled += 1;
                c = c.push(item);
            }
            None => break,
        }
    }
    assert_eq!(c.finish(), Err("e1"));
    assert_eq!(pulled, 2);

    let mut c: Collector<i32, &str> = Collector::new();
    for item in [Ok(4), Ok(5)] {
        assert!(c.wants_more());
        c = c.push(item);
    }
    assert_eq!(c.finish(), Ok(vec![4, 5]));
}
