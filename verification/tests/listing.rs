use voropp::listing::{faces_from_listing, listing_is_readable};

#[test]
fn listing_of_two_faces_is_split_at_the_counts() {
    let flat: Vec<i32> = vec![3, 0, 1, 2, 4, 5, 6, 7, 8];
    assert!(listing_is_readable(&flat));
    let faces = faces_from_listing(&flat);
    assert_eq!(faces, vec![vec![0usize, 1, 2], vec![5, 6, 7, 8]]);
}

#[test]
fn listing_with_zero_count_gives_an_empty_face() {
    let flat: Vec<i32> = vec![0, 2, 9, 8];
    let faces = faces_from_listing(&flat);
    assert_eq!(faces, vec![vec![], vec![9usize, 8]]);
}

#[test]
fn listing_cut_short_keeps_what_is_there() {
    let flat: Vec<i32> = vec![4, 1, 2];
    let faces = faces_from_listing(&flat);
    assert_eq!(faces, vec![vec![1usize, 2]]);
}

#[test]
fn listing_with_negative_count_takes_the_rest() {
    let flat: Vec<i32> = vec![2, 1, 2, -1, 3, 4, 5];
    assert!(listing_is_readable(&flat));
    let faces = faces_from_listing(&flat);
    assert_eq!(faces, vec![vec![1usize, 2], vec![3, 4, 5]]);
}

#[test]
fn listing_with_negative_index_is_not_readable() {
    let flat: Vec<i32> = vec![2, 1, -2];
    assert!(!listing_is_readable(&flat));
    let empty: Vec<i32> = Vec::new();
    assert!(listing_is_readable(&empty));
    assert_eq!(faces_from_listing(&empty), Vec::<Vec<usize>>::new());
}
