use goes_abi::satellite::netcdf::{
    attr_string, check_window, extract_window, shape_dims, AttrText, WindowError,
};

#[test]
fn shape_dims_convert_each_dimension() {
    assert_eq!(shape_dims(&vec![3, 4]), Some(vec![3usize, 4]));
    assert_eq!(shape_dims(&vec![]), Some(vec![]));
}

#[test]
fn window_checks_shape_and_bounds() {
    assert_eq!(check_window(&vec![3, 4], 1, 2, 1, 3), Ok((3, 4)));
    assert_eq!(check_window(&vec![3, 4], 2, 2, 0, 1), Err(WindowError::OutOfBounds));
    assert_eq!(check_window(&vec![3, 4], 0, 1, 2, 3), Err(WindowError::OutOfBounds));
    assert_eq!(check_window(&vec![12], 0, 1, 0, 1), Err(WindowError::NotTwoDimensional));
    assert_eq!(check_window(&vec![2, 2, 2], 0, 1, 0, 1), Err(WindowError::NotTwoDimensional));
    assert_eq!(check_window(&vec![3, 4], usize::MAX, 2, 0, 1), Err(WindowError::OutOfBounds));
}

#[test]
fn window_takes_rows_in_order() {
    let full: Vec<u32> = (0..12).collect();
    assert_eq!(extract_window(&full, 4, 1, 2, 1, 3), vec![5, 6, 7, 9, 10, 11]);
    assert_eq!(extract_window(&full, 4, 0, 3, 0, 1), vec![0, 4, 8]);
    assert_eq!(extract_window(&full, 4, 2, 0, 0, 4), Vec::<u32>::new());
}

#[test]
fn text_attributes() {
    assert_eq!(attr_string(Some(&AttrText::Text("K".to_string()))), Some("K".to_string()));
    assert_eq!(
        attr_string(Some(&AttrText::TextList(vec!["a".to_string(), "b".to_string()]))),
        Some("a".to_string())
    );
    assert_eq!(attr_string(Some(&AttrText::TextList(vec![]))), None);
    assert_eq!(attr_string(Some(&AttrText::Other)), None);
    assert_eq!(attr_string(None), None);
}
