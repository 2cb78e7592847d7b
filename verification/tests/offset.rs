use mca::header_offset;

#[test]
fn offset() {
    // (x, z, index)
    let coords = vec![
        (0, 0, 0),
        (1, 4, 516),
        (5, 1, 148),
        (13, 21, 2740),
        (31, 8, 1148),
        (31, 31, 4092),
    ];

    for (x, z, should_be) in coords {
        let idx = header_offset(x, z);
        assert_eq!(idx, should_be, "({x}, {z})");
    }
}

#[test]
fn offset_wraps_coordinates() {
    assert_eq!(header_offset(32, 0), 0);
    assert_eq!(header_offset(33, 32), 4);
    assert_eq!(header_offset(255, 255), 4092);
}
