use planet::render::slicing::Slicing;

#[test]
fn test_slicing() {
    let slicing = Slicing::new(101, 5, 5);
    assert_eq!(slicing.width, 5);
    assert_eq!(slicing.slice_count, 5);
    assert_eq!(slicing.get_slice_height(0), 21);
    assert_eq!(slicing.get_slice_height(4), 17);
}

#[test]
fn slice_heights_partition_the_image() {
    let slicing = Slicing::new(101, 5, 5);
    let mut total = 0;
    for id in 0..5u8 {
        total += slicing.get_slice_height(id);
    }
    assert_eq!(total, 101);
}

#[test]
fn absolute_rows_from_slices() {
    let slicing = Slicing::new(101, 5, 5);
    assert_eq!(slicing.get_absolute_height(0, 0), 0);
    assert_eq!(slicing.get_absolute_height(2, 3), 2 * 21 + 3);
    assert_eq!(slicing.get_absolute_height(4, 16), 100);
}

#[test]
fn translate_inverts_absolute() {
    let slicing = Slicing::new(101, 5, 5);
    for row in 0..101usize {
        let (slice, local) = slicing.translate_index(row);
        assert!(slice < 5);
        assert!(local < slicing.get_slice_height(slice as u8));
        assert_eq!(slicing.get_absolute_height(slice as u8, local), row);
    }
}

#[test]
fn single_slice_holds_everything() {
    let slicing = Slicing::new(7, 3, 1);
    assert_eq!(slicing.get_slice_height(0), 7);
    assert_eq!(slicing.translate_index(5), (0, 5));
}
