use sortviz::bubble::{bubble_sort, BubbleSort};
use sortviz::selection::{selection_sort, SelectionSort};

fn is_strictly_ascending(v: &[usize]) -> bool {
    v.windows(2).all(|w| w[0] < w[1])
}

#[test]
fn bubble_scenario_mixed_input() {
    let mut v: Vec<usize> = vec![3, 1, 4, 5, 2];
    let stats = bubble_sort(&mut v);
    assert_eq!(v, vec![1, 2, 3, 4, 5]);
    assert_eq!(stats.swaps, 4);
    assert_eq!(stats.comparisons, 10);
}

#[test]
fn bubble_scenario_sorted_input_exits_early() {
    let mut v: Vec<usize> = vec![1, 2, 3, 4, 5];
    let stats = bubble_sort(&mut v);
    assert_eq!(v, vec![1, 2, 3, 4, 5]);
    assert_eq!(stats.comparisons, 4);
    assert_eq!(stats.swaps, 0);
    assert!(stats.early_exit);
}

#[test]
fn selection_scenario_reversed_input() {
    let mut v: Vec<usize> = vec![4, 3, 2, 1];
    let stats = selection_sort(&mut v);
    assert_eq!(v, vec![1, 2, 3, 4]);
    assert_eq!(stats.comparisons, 6);
    assert_eq!(stats.swaps, 2);
    assert!(!stats.early_exit);
}

#[test]
fn both_algorithms_sort_permutations_ascending() {
    let inputs: Vec<Vec<usize>> = vec![
        vec![2, 1],
        vec![3, 1, 2],
        vec![5, 4, 3, 2, 1],
        vec![1, 3, 5, 2, 4, 7, 6],
        vec![8, 1, 6, 3, 7, 2, 5, 4],
    ];
    for input in inputs {
        let mut b = input.clone();
        bubble_sort(&mut b);
        assert!(is_strictly_ascending(&b), "bubble failed on {:?}", input);
        assert_eq!(*b.last().unwrap(), input.len());

        let mut s = input.clone();
        selection_sort(&mut s);
        assert!(is_strictly_ascending(&s), "selection failed on {:?}", input);
        assert_eq!(*s.last().unwrap(), input.len());
    }
}

#[test]
fn bubble_sorted_inputs_use_one_pass() {
    for n in 2..20usize {
        let mut v: Vec<usize> = (1..=n).collect();
        let stats = bubble_sort(&mut v);
        assert_eq!(stats.comparisons as usize, n - 1);
        assert_eq!(stats.swaps, 0);
        assert!(stats.early_exit);
    }
}

#[test]
fn selection_comparison_count_ignores_input_order() {
    let orders: Vec<Vec<usize>> = vec![
        vec![1, 2, 3, 4, 5, 6],
        vec![6, 5, 4, 3, 2, 1],
        vec![2, 4, 6, 1, 3, 5],
        vec![1, 6, 2, 5, 3, 4],
    ];
    for input in orders {
        let n = input.len();
        let mut v = input.clone();
        let stats = selection_sort(&mut v);
        assert_eq!(stats.comparisons as usize, n * (n - 1) / 2, "on {:?}", input);
        assert!(!stats.early_exit);
    }
}

#[test]
fn sorted_mask_grows_monotonically() {
    let input: Vec<usize> = vec![5, 2, 7, 1, 6, 3, 4];
    let mut machine = BubbleSort::new(input.clone());
    let mut prev = machine.current_mask().clone();
    while !machine.is_done() {
        machine.step();
        let cur = machine.current_mask().clone();
        for k in 0..prev.len() {
            assert!(!prev[k] || cur[k], "bubble mask flag {} was cleared", k);
        }
        prev = cur;
    }
    assert!(prev.iter().all(|&f| f));

    let mut machine = SelectionSort::new(input);
    let mut prev = machine.current_mask().clone();
    while !machine.is_done() {
        machine.step();
        let cur = machine.current_mask().clone();
        for k in 0..prev.len() {
            assert!(!prev[k] || cur[k], "selection mask flag {} was cleared", k);
        }
        prev = cur;
    }
    assert!(prev.iter().all(|&f| f));
}

#[test]
fn compare_events_stay_in_bounds() {
    let input: Vec<usize> = vec![4, 1, 3, 5, 2, 6, 8, 7];
    let n = input.len();

    let mut machine = BubbleSort::new(input.clone());
    while !machine.is_done() {
        let peek = machine.peek_compare();
        let ev = machine.step();
        assert_eq!((ev.lo, ev.hi), peek);
        assert!(ev.lo < ev.hi);
        assert!(ev.hi < n);
    }

    let mut machine = SelectionSort::new(input);
    let mut settled = 0;
    while !machine.is_done() {
        let peek = machine.peek_compare();
        let ev = machine.step();
        assert_eq!((ev.lo, ev.hi), peek);
        assert!(ev.lo < ev.hi);
        assert!(ev.hi < n);
        // The tracked minimum never references a position before the pass
        // index, which every earlier pass has already settled.
        assert!(ev.lo >= settled);
        settled = machine.current_mask().iter().filter(|&&f| f).count();
    }
}

#[test]
fn step_events_report_swaps() {
    let mut machine = BubbleSort::new(vec![2, 1]);
    let ev = machine.step();
    assert_eq!((ev.lo, ev.hi), (0, 1));
    assert!(ev.swapped);
    assert!(machine.is_done());
    let stats = machine.statistics();
    assert_eq!(stats.comparisons, 1);
    assert_eq!(stats.swaps, 1);
    assert!(!stats.early_exit);
    assert_eq!(machine.into_heights(), vec![1, 2]);
}

#[test]
fn short_arrays_complete_at_once() {
    let mut machine = BubbleSort::new(vec![7]);
    assert!(machine.is_done());
    assert_eq!(machine.current_mask().clone(), vec![true]);
    assert_eq!(machine.statistics().comparisons, 0);

    let machine = SelectionSort::new(Vec::new());
    assert!(machine.is_done());

    let mut v: Vec<usize> = vec![9];
    let stats = bubble_sort(&mut v);
    assert_eq!(v, vec![9]);
    assert_eq!(stats.comparisons, 0);

    let mut v: Vec<usize> = Vec::new();
    let stats = selection_sort(&mut v);
    assert!(v.is_empty());
    assert_eq!(stats.comparisons, 0);
}

#[test]
fn sorting_preserves_values() {
    let input: Vec<usize> = vec![3, 3, 1, 2, 2];
    let mut b = input.clone();
    bubble_sort(&mut b);
    assert_eq!(b, vec![1, 2, 2, 3, 3]);
    let mut s = input;
    selection_sort(&mut s);
    assert_eq!(s, vec![1, 2, 2, 3, 3]);
}
