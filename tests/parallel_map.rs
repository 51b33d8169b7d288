use parallel_map::parallel_map::{collect_results, process_item, tag_inputs};

fn square(x: u64) -> u64 {
    x * x
}

fn run_in_order(inputs: Vec<u64>, order: &[usize]) -> Option<Vec<u64>> {
    let n = inputs.len();
    let items = tag_inputs(inputs);
    let mut done: Vec<Option<(usize, u64)>> = items
        .into_iter()
        .map(|item| Some(process_item(&square, item)))
        .collect();
    let mut results = Vec::new();
    for &k in order {
        results.push(done[k].take().unwrap());
    }
    collect_results(n, results)
}

#[test]
fn squares_scenario_with_scrambled_delivery() {
    let inputs = vec![6, 7, 8, 9, 10, 1, 2, 3, 4, 5, 12, 18, 11, 5, 20];
    let order = [14, 3, 0, 7, 12, 1, 9, 5, 13, 2, 11, 6, 10, 4, 8];
    let out = run_in_order(inputs, &order).unwrap();
    assert_eq!(
        out,
        vec![36, 49, 64, 81, 100, 1, 4, 9, 16, 25, 144, 324, 121, 25, 400]
    );
}

#[test]
fn tags_follow_original_positions() {
    let items = tag_inputs(vec!["a", "b", "c"]);
    assert_eq!(items, vec![(0, "a"), (1, "b"), (2, "c")]);
}

#[test]
fn empty_input_gives_empty_output() {
    assert_eq!(tag_inputs(Vec::<u64>::new()), vec![]);
    assert_eq!(collect_results::<u64>(0, vec![]), Some(vec![]));
    assert_eq!(run_in_order(vec![], &[]), Some(vec![]));
}

#[test]
fn output_length_equals_input_length() {
    let out = run_in_order(vec![3, 1, 2, 9], &[2, 0, 3, 1]).unwrap();
    assert_eq!(out.len(), 4);
}

#[test]
fn delivery_order_does_not_change_output() {
    let inputs = vec![4, 0, 7, 7, 2, 13];
    let in_order = run_in_order(inputs.clone(), &[0, 1, 2, 3, 4, 5]).unwrap();
    let reversed = run_in_order(inputs.clone(), &[5, 4, 3, 2, 1, 0]).unwrap();
    let mixed = run_in_order(inputs, &[3, 5, 1, 0, 4, 2]).unwrap();
    assert_eq!(in_order, vec![16, 0, 49, 49, 4, 169]);
    assert_eq!(in_order, reversed);
    assert_eq!(in_order, mixed);
}

#[test]
fn sequential_delivery_matches_plain_map() {
    let inputs: Vec<u64> = vec![5, 1, 8, 3, 3, 0, 11];
    let expected: Vec<u64> = inputs.iter().map(|&x| square(x)).collect();
    let order: Vec<usize> = (0..inputs.len()).collect();
    assert_eq!(run_in_order(inputs, &order).unwrap(), expected);
}

#[test]
fn every_index_is_processed_once() {
    let inputs: Vec<u64> = (0..20).collect();
    let items = tag_inputs(inputs);
    let mut counts = vec![0u32; 20];
    let mut results = Vec::new();
    for item in items.into_iter().rev() {
        let r = process_item(&|x: u64| x + 100, item);
        counts[r.0] += 1;
        results.push(r);
    }
    assert!(counts.iter().all(|&c| c == 1));
    let out = collect_results(20, results).unwrap();
    assert_eq!(out, (100..120).collect::<Vec<u64>>());
}

#[test]
fn repeated_index_is_refused() {
    assert_eq!(collect_results(3, vec![(0, 1u64), (1, 2), (1, 2)]), None);
}

#[test]
fn lost_index_is_refused() {
    assert_eq!(collect_results(3, vec![(0, 1u64), (2, 3)]), None);
}

#[test]
fn out_of_range_index_is_refused() {
    assert_eq!(collect_results(2, vec![(0, 1u64), (2, 3)]), None);
}

#[test]
fn extra_result_is_refused() {
    assert_eq!(collect_results(1, vec![(0, 1u64), (0, 1)]), None);
}

#[test]
fn no_placeholder_left_in_output() {
    let results: Vec<(usize, Option<u32>)> = vec![(2, Some(0)), (0, Some(7)), (1, Some(3))];
    let out = collect_results(3, results).unwrap();
    assert_eq!(out, vec![Some(7), Some(3), Some(0)]);
    assert!(out.iter().all(|slot| slot.is_some()));
}

#[test]
fn process_item_keeps_tag_and_applies_mapping() {
    assert_eq!(process_item(&square, (9, 12)), (9, 144));
    assert_eq!(process_item(&|s: &str| s.len(), (3, "four")), (3, 4));
}
