use lights::byte_copy::{sized_predicate, ByteCopy, ByteCopySized};

#[test]
fn u8_reads_one_byte() {
    assert_eq!(<u8 as ByteCopy>::extract(&[7, 8]), Some((7, 1)));
    assert_eq!(<u8 as ByteCopy>::extract(&[]), None);
    assert_eq!(u8::min_length(), 1);
    assert_eq!(u8::max_length(), Some(1));
}

#[test]
fn tuples_read_their_parts_in_turn() {
    assert_eq!(<(u8, u8) as ByteCopy>::extract(&[1, 2, 3]), Some(((1, 2), 2)));
    assert_eq!(<(u8, u8) as ByteCopy>::extract(&[1]), None);
    assert_eq!(<(u8,) as ByteCopy>::extract(&[9]), Some(((9,), 1)));
    assert_eq!(<(u8, u8, u8) as ByteCopy>::extract(&[4, 5, 6]), Some(((4, 5, 6), 3)));
    assert_eq!(<(u8, u8, u8)>::min_length(), 3);
    assert_eq!(<(u8, u8, u8)>::max_length(), Some(3));
    let ten = <(u8, u8, u8, u8, u8, u8, u8, u8, u8, u8) as ByteCopy>::extract(&[0, 1, 2, 3, 4, 5, 6, 7, 8, 9]);
    assert_eq!(ten, Some(((0, 1, 2, 3, 4, 5, 6, 7, 8, 9), 10)));
    assert_eq!(<(u8, u8, u8, u8, u8, u8, u8, u8, u8, u8) as ByteCopy>::extract(&[0; 9]), None);
}

#[test]
fn arrays_read_each_item() {
    assert_eq!(<[u8; 3] as ByteCopy>::extract(&[1, 2, 3, 4]), Some(([1, 2, 3], 3)));
    assert_eq!(<[u8; 3] as ByteCopy>::extract(&[1, 2]), None);
    assert_eq!(<[u8; 0] as ByteCopy>::extract(&[]), Some(([], 0)));
    assert_eq!(<[u8; 3]>::min_length(), 3);
    assert_eq!(<[u8; 3]>::max_length(), Some(3));
    assert_eq!(<[[u8; 2]; 2] as ByteCopy>::extract(&[1, 2, 3, 4]), Some(([[1, 2], [3, 4]], 4)));
}

#[test]
fn colour_and_index_message() {
    let read = <([u8; 3], u8) as ByteCopy>::extract(&[10, 20, 30, 5]);
    assert_eq!(read, Some((([10, 20, 30], 5), 4)));
    assert_eq!(<([u8; 3], u8) as ByteCopy>::extract(&[10, 20, 30]), None);
    assert_eq!(<([u8; 3], u8)>::min_length(), 4);
}

#[test]
fn empty_parts_read_from_no_bytes() {
    assert_eq!(<(u8, [u8; 0]) as ByteCopy>::extract(&[1]), Some(((1, []), 1)));
    assert_eq!(<(u8, [u8; 0]) as ByteCopy>::extract(&[1, 2]), Some(((1, []), 1)));
    assert_eq!(<([u8; 0], u8) as ByteCopy>::extract(&[7]), Some((([], 7), 1)));
    assert_eq!(<[[u8; 0]; 2] as ByteCopy>::extract(&[]), Some(([[], []], 0)));
    assert_eq!(<([u8; 0], [u8; 0]) as ByteCopy>::extract(&[]), Some((([], []), 0)));
    assert_eq!(<(u8, [u8; 0]) as ByteCopy>::extract(&[]), None);
}

#[test]
fn sized_types_are_recognised() {
    assert!(sized_predicate::<u8>());
    assert!(sized_predicate::<([u8; 3], u8)>());
}

#[test]
fn sized_extract_reads_a_whole_array() {
    let v: (u8, u8) = <(u8, u8) as ByteCopySized<2>>::extract([3, 4]);
    assert_eq!(v, (3, 4));
    let c: [u8; 3] = <[u8; 3] as ByteCopySized<3>>::extract([7, 8, 9]);
    assert_eq!(c, [7, 8, 9]);
}

#[test]
fn fixed_length_types_read_from_their_length() {
    assert_eq!(<([u8; 3], u8) as ByteCopy>::extract(&[1, 2, 3, 4]), Some((([1, 2, 3], 4), 4)));
    assert_eq!(
        <[[u8; 2]; 3] as ByteCopy>::extract(&[1, 2, 3, 4, 5, 6, 7]),
        Some(([[1, 2], [3, 4], [5, 6]], 6))
    );
    assert_eq!(<[[u8; 2]; 3] as ByteCopy>::extract(&[1, 2, 3, 4, 5]), None);
}
