use tiktoken_interop::padding::{
    append_padded, pad_and_flatten, row_of, strip_padding, stripped_length, PAD,
};
use tiktoken_interop::Rank;

fn stripped(row: &[Rank]) -> Vec<Rank> {
    let mut tokens = row.to_vec();
    strip_padding(&mut tokens);
    tokens
}

#[test]
fn pad_is_zero() {
    assert_eq!(PAD, 0);
}

#[test]
fn strip_removes_trailing_padding_only() {
    assert_eq!(stripped(&[1, 2, 0, 0]), vec![1, 2]);
    assert_eq!(stripped(&[3, 0, 0]), vec![3]);
}

#[test]
fn strip_keeps_a_zero_in_front_of_the_last_token() {
    assert_eq!(stripped(&[1, 0, 2, 0, 0]), vec![1, 0, 2]);
    assert_eq!(stripped(&[0, 0, 7]), vec![0, 0, 7]);
}

#[test]
fn strip_of_a_row_of_padding_is_empty() {
    assert_eq!(stripped(&[0, 0, 0]), Vec::<Rank>::new());
    assert_eq!(stripped(&[0]), Vec::<Rank>::new());
}

#[test]
fn strip_of_an_empty_row_is_empty() {
    assert_eq!(stripped(&[]), Vec::<Rank>::new());
}

#[test]
fn strip_leaves_an_unpadded_row() {
    assert_eq!(stripped(&[5, 6, 7]), vec![5, 6, 7]);
}

#[test]
fn strip_twice_is_strip_once() {
    let once = stripped(&[4, 0, 9, 0]);
    assert_eq!(stripped(&once), once);
}

#[test]
fn stripped_length_is_the_last_token_plus_one() {
    assert_eq!(stripped_length(&[]), 0);
    assert_eq!(stripped_length(&[0, 0]), 0);
    assert_eq!(stripped_length(&[1, 0, 2, 0, 0]), 3);
    assert_eq!(stripped_length(&[1, 2, 3]), 3);
}

#[test]
fn append_padded_fills_the_row() {
    let mut buffer = vec![9];
    append_padded(&mut buffer, &[1, 2], 4);
    assert_eq!(buffer, vec![9, 1, 2, 0, 0]);
}

#[test]
fn append_padded_cuts_a_long_item_off() {
    let mut buffer = Vec::new();
    append_padded(&mut buffer, &[1, 2, 3, 4, 5], 3);
    assert_eq!(buffer, vec![1, 2, 3]);
}

#[test]
fn append_padded_with_exact_width() {
    let mut buffer = vec![7, 7];
    append_padded(&mut buffer, &[1, 2, 3], 3);
    assert_eq!(buffer, vec![7, 7, 1, 2, 3]);
}

#[test]
fn append_padded_with_width_zero_adds_nothing() {
    let mut buffer = vec![7];
    append_padded(&mut buffer, &[1, 2], 0);
    assert_eq!(buffer, vec![7]);
}

#[test]
fn flatten_two_items() {
    let buffer = pad_and_flatten(&vec![vec![1], vec![3]], 3);
    assert_eq!(buffer, vec![1, 0, 0, 3, 0, 0]);
}

#[test]
fn flatten_has_one_row_per_item() {
    let items = vec![vec![1, 2], vec![], vec![3, 4, 5, 6], vec![7]];
    for max_len in 0..6 {
        assert_eq!(pad_and_flatten(&items, max_len).len(), items.len() * max_len);
    }
}

#[test]
fn flatten_truncates_without_error() {
    let buffer = pad_and_flatten(&vec![vec![1, 2, 3, 4], vec![5]], 2);
    assert_eq!(buffer, vec![1, 2, 5, 0]);
}

#[test]
fn flatten_of_no_items_is_empty() {
    assert_eq!(pad_and_flatten(&Vec::new(), 5), Vec::<Rank>::new());
}

#[test]
fn rows_come_back_stripped() {
    let items = vec![vec![1, 2], vec![], vec![3, 0, 4, 5, 6], vec![7]];
    let max_len = 4;
    let buffer = pad_and_flatten(&items, max_len);
    for (i, item) in items.iter().enumerate() {
        let row = row_of(&buffer, items.len(), max_len, i);
        let expected: Vec<Rank> = item.iter().copied().take(max_len).collect();
        assert_eq!(stripped(row), expected);
    }
}

#[test]
fn a_row_is_the_item_then_zeros() {
    let buffer = pad_and_flatten(&vec![vec![8, 9], vec![1]], 3);
    assert_eq!(row_of(&buffer, 2, 3, 0), &[8, 9, 0]);
    assert_eq!(row_of(&buffer, 2, 3, 1), &[1, 0, 0]);
}

#[test]
fn an_item_that_ends_in_zero_loses_it() {
    let buffer = pad_and_flatten(&vec![vec![5, 0]], 3);
    assert_eq!(stripped(row_of(&buffer, 1, 3, 0)), vec![5]);
}
