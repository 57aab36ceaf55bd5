use metatorio::version::version_string_to_triplet;

#[test]
fn it_works() {
    assert_eq!(2 + 2, 4);
}

#[test]
fn test_func() {
    let vec = [1, 2, 3, 4, 5, 6, 7, 8, 9];
    let ignore_4 = vec.into_iter().rev().skip(4).rev().collect::<Vec<_>>();
    println!("{:?}", ignore_4);
    assert_eq!(ignore_4, vec![1, 2, 3, 4, 5]);
}

#[test]
fn version_triplet_of_plain_version() {
    assert_eq!(version_string_to_triplet("1.2.3"), (1, 2, 3));
}
