use tabled::{
    build_link_prefix_suffix, decrease_widths, get_decrease_cell_list, Peaker, PriorityMax,
    PriorityMin, PriorityNone, Wrap,
};

#[test]
fn max_policy_shrinks_the_widest_first() {
    let mut widths = vec![10, 10, 10];
    decrease_widths(&mut widths, &vec![2, 2, 2], 30, 15, PriorityMax::create());
    assert_eq!(widths, [5, 5, 5]);

    let mut widths = vec![10, 4, 6];
    decrease_widths(&mut widths, &vec![2, 2, 2], 20, 15, PriorityMax::create());
    assert_eq!(widths, [5, 4, 6]);
}

#[test]
fn max_policy_breaks_ties_by_lowest_index() {
    let mut p = PriorityMax::create();
    assert_eq!(p.peak(&[0, 0, 0], &[5, 7, 7]), Some(1));
    assert_eq!(p.peak(&[0, 7, 7], &[5, 7, 7]), Some(0));
    assert_eq!(p.peak(&[5, 7, 7], &[5, 7, 7]), None);
}

#[test]
fn min_policy_shrinks_the_narrowest_first() {
    let mut widths = vec![10, 4, 6];
    decrease_widths(&mut widths, &vec![2, 2, 2], 20, 15, PriorityMin::create());
    assert_eq!(widths, [10, 2, 3]);
}

#[test]
fn none_policy_goes_round_the_columns() {
    let mut widths = vec![3, 3, 3];
    decrease_widths(&mut widths, &vec![0, 3, 0], 9, 7, PriorityNone::create());
    assert_eq!(widths, [2, 3, 2]);

    let mut p = PriorityNone::create();
    assert_eq!(p.peak(&[0, 0, 0], &[1, 1, 1]), Some(0));
    assert_eq!(p.peak(&[0, 0, 0], &[1, 1, 1]), Some(1));
    assert_eq!(p.peak(&[0, 0, 0], &[1, 1, 1]), Some(2));
    assert_eq!(p.peak(&[0, 0, 0], &[1, 1, 1]), Some(0));
}

#[test]
fn allocation_stops_at_the_minimums() {
    let mut widths = vec![5, 5];
    decrease_widths(&mut widths, &vec![4, 4], 10, 2, PriorityMax::create());
    assert_eq!(widths, [4, 4]);
    let mut widths = vec![5, 5];
    decrease_widths(&mut widths, &vec![4, 4], 10, 2, PriorityNone::create());
    assert_eq!(widths, [4, 4]);
}

#[test]
fn allocation_conserves_the_total() {
    for target in 0..30usize {
        let mut widths = vec![10, 7, 3, 9];
        let mins = vec![2, 2, 0, 4];
        decrease_widths(&mut widths, &mins, 29, target, PriorityMin::create());
        let total: usize = widths.iter().sum();
        assert_eq!(total, target.max(8));
        for i in 0..4 {
            assert!(widths[i] >= mins[i]);
        }
    }
}

#[test]
fn allocation_to_a_larger_total_changes_nothing() {
    let mut widths = vec![3, 4];
    decrease_widths(&mut widths, &vec![0, 0], 7, 9, PriorityMax::create());
    assert_eq!(widths, [3, 4]);
}

#[test]
fn selector_lists_cells_that_no_longer_fit() {
    let widths = vec![4, 6];
    let mins = vec![2, 2];
    let paddings = vec![2, 2];
    let cells = vec![vec![2, 5], vec![3, 4]];
    assert_eq!(
        get_decrease_cell_list(&widths, &mins, &paddings, &cells),
        [((1, 0), 2), ((0, 1), 4)]
    );
}

#[test]
fn change_cell_leaves_fitting_content() {
    let wrap = Wrap::new(3);
    assert_eq!(wrap.change_cell("abc", 3, 4), None);
    assert_eq!(wrap.change_cell("abcdef", 6, 4), Some("abc\ndef".to_string()));
}

#[test]
fn change_cell_expands_tabs_first() {
    let wrap = Wrap::new(2).keep_words();
    assert_eq!(wrap.change_cell("a\tb", 3, 1), Some("a \nb ".to_string()));
}

#[test]
fn change_plans_a_whole_table() {
    let wrap = Wrap::new(10).priority::<PriorityMax>();
    let widths = vec![8, 4];
    let plan = wrap.change(&widths, 12, &vec![2, 2], &vec![2, 2], &vec![vec![6, 2], vec![3, 1]]);
    assert_eq!(plan, Some((vec![6, 4], vec![((0, 0), 4)])));
    assert_eq!(wrap.change(&widths, 12, &vec![2, 2], &vec![0, 0], &vec![]).is_some(), true);
    let wide = Wrap::new(12);
    assert_eq!(wide.change(&widths, 12, &vec![2, 2], &vec![0, 0], &vec![]), None);
}

#[test]
fn link_affixes_wrap_a_target() {
    assert_eq!(
        build_link_prefix_suffix(Some("https://example.org".to_string())),
        (
            "\u{1b}]8;;https://example.org\u{1b}\\".to_string(),
            "\u{1b}]8;;\u{1b}\\".to_string()
        )
    );
    assert_eq!(build_link_prefix_suffix(None), (String::new(), String::new()));
}
