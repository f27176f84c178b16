use ferrum::text::{format_grid, format_row, join_texts, str_eq, visible_indices};

fn texts(v: &[&str]) -> Vec<String> {
    v.iter().map(|s| s.to_string()).collect()
}

#[test]
fn visible_indices_short_and_long() {
    assert_eq!(visible_indices(0), (vec![], false));
    assert_eq!(visible_indices(4), (vec![0, 1, 2, 3], false));
    assert_eq!(visible_indices(5), (vec![0, 1, 3, 4], true));
    assert_eq!(visible_indices(100), (vec![0, 1, 98, 99], true));
}

#[test]
fn rows_are_joined_with_commas() {
    assert_eq!(format_row(&texts(&["1", "2", "3"]), false), "[1, 2, 3]");
    assert_eq!(format_row(&texts(&[]), false), "[]");
    assert_eq!(format_row(&texts(&["1", "2", "9", "10"]), true), "[1, 2, ..., 9, 10]");
    assert_eq!(join_texts(&texts(&["a", "b"]), "--"), "a--b");
}

#[test]
fn grids_list_one_row_per_line() {
    let rows = vec![texts(&["1", "2"]), texts(&["3", "4"])];
    assert_eq!(format_grid(&rows, false, false), "[[1, 2]\n [3, 4]]");
    let rows = vec![
        texts(&["1", "2", "4", "5"]),
        texts(&["6", "7", "9", "10"]),
        texts(&["16", "17", "19", "20"]),
        texts(&["21", "22", "24", "25"]),
    ];
    assert_eq!(
        format_grid(&rows, true, true),
        "[[1, 2, ..., 4, 5]\n [6, 7, ..., 9, 10]\n ...\n [16, 17, ..., 19, 20]\n [21, 22, ..., 24, 25]]"
    );
    assert_eq!(format_grid(&vec![], false, false), "[]");
}

#[test]
fn text_equality() {
    assert!(str_eq("avx2-8x4", "avx2-8x4"));
    assert!(!str_eq("avx2-8x4", "avx2-4x4"));
    assert!(!str_eq("a", "ab"));
}
