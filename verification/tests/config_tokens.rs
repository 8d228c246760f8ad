use sortviz::algorithms::{
    algorithm_to_string, get_space_complexity, get_time_complexity, string_to_algorithm,
    SortAlgorithm,
};
use sortviz::config::{clamp_array_size, clamp_delay_ms, parse_usize, window_dimensions,
    ARRAY_SIZE, DELAY_MS};

#[test]
fn algorithm_names() {
    assert_eq!(algorithm_to_string(SortAlgorithm::Bubble), "Bubble Sort");
    assert_eq!(algorithm_to_string(SortAlgorithm::Selection), "Selection Sort");
}

#[test]
fn algorithm_tokens_ignore_case_and_default_to_bubble() {
    assert_eq!(string_to_algorithm("selection"), SortAlgorithm::Selection);
    assert_eq!(string_to_algorithm("Selection"), SortAlgorithm::Selection);
    assert_eq!(string_to_algorithm("SELECTION"), SortAlgorithm::Selection);
    assert_eq!(string_to_algorithm("bubble"), SortAlgorithm::Bubble);
    assert_eq!(string_to_algorithm("quick"), SortAlgorithm::Bubble);
    assert_eq!(string_to_algorithm(""), SortAlgorithm::Bubble);
    assert_eq!(string_to_algorithm("selectionn"), SortAlgorithm::Bubble);
    assert_eq!(string_to_algorithm("selectio"), SortAlgorithm::Bubble);
}

#[test]
fn complexity_labels() {
    assert_eq!(get_time_complexity(SortAlgorithm::Bubble), "O(n^2)");
    assert_eq!(get_time_complexity(SortAlgorithm::Selection), "O(n^2)");
    assert_eq!(get_space_complexity(SortAlgorithm::Bubble), "O(1)");
    assert_eq!(get_space_complexity(SortAlgorithm::Selection), "O(1)");
}

#[test]
fn numeric_tokens_parse_like_the_standard_library() {
    let cases = ["0", "42", "+42", "100", "", "abc", "12a", "-3", " 7", "7 ", "+",
        "18446744073709551615", "18446744073709551616", "99999999999999999999999999"];
    for s in cases {
        assert_eq!(parse_usize(s), s.parse::<usize>().ok(), "token {:?}", s);
    }
}

#[test]
fn out_of_range_sizes_are_clamped() {
    assert_eq!(clamp_array_size(0), 1);
    assert_eq!(clamp_array_size(1), 1);
    assert_eq!(clamp_array_size(100), 100);
    assert_eq!(clamp_array_size(10000), 10000);
    assert_eq!(clamp_array_size(10001), 10000);
    assert_eq!(clamp_array_size(usize::MAX), 10000);
}

#[test]
fn out_of_range_delays_are_clamped() {
    assert_eq!(clamp_delay_ms(0), 0);
    assert_eq!(clamp_delay_ms(10), 10);
    assert_eq!(clamp_delay_ms(1000), 1000);
    assert_eq!(clamp_delay_ms(1001), 1000);
    assert_eq!(clamp_delay_ms(u64::MAX), 1000);
}

#[test]
fn defaults_are_in_range() {
    assert_eq!(clamp_array_size(ARRAY_SIZE), ARRAY_SIZE);
    assert_eq!(clamp_delay_ms(DELAY_MS), DELAY_MS);
}

#[test]
fn window_takes_the_right_half() {
    assert_eq!(window_dimensions(1920, 1080), (960, 1080));
    assert_eq!(window_dimensions(2561, 1440), (1280, 1440));
    assert_eq!(window_dimensions(0, 600), (0, 600));
}
