use raytracer::group::{partition, split_children, Placement};

#[test]
fn partition_sorts_children_by_placement_in_order() {
    let objects = vec!["s1", "s2", "s3", "s4", "s5"];
    let places = vec![
        Placement::Left,
        Placement::Right,
        Placement::Neither,
        Placement::Left,
        Placement::Neither,
    ];

    let (neither, left, right) = partition(objects, &places);

    assert_eq!(neither, vec!["s3", "s5"]);
    assert_eq!(left, vec!["s1", "s4"]);
    assert_eq!(right, vec!["s2"]);
}

#[test]
fn partition_keeps_every_child_once() {
    let objects: Vec<u32> = (0..10).collect();
    let places: Vec<Placement> = (0..10)
        .map(|i| match i % 3 {
            0 => Placement::Left,
            1 => Placement::Right,
            _ => Placement::Neither,
        })
        .collect();

    let (neither, left, right) = partition(objects, &places);

    let mut all: Vec<u32> = neither.iter().chain(left.iter()).chain(right.iter()).copied().collect();
    all.sort();
    assert_eq!(all, (0..10).collect::<Vec<u32>>());
}

#[test]
fn partition_of_no_children_is_empty() {
    let (neither, left, right) = partition(Vec::<u8>::new(), &Vec::new());

    assert!(neither.is_empty());
    assert!(left.is_empty());
    assert!(right.is_empty());
}

#[test]
fn a_small_group_is_not_split() {
    let objects = vec![1, 2, 3];
    let places = vec![Placement::Left, Placement::Right, Placement::Neither];

    let (stay, left, right) = split_children(objects, &places, 4);

    assert_eq!(stay, vec![1, 2, 3]);
    assert_eq!(left, None);
    assert_eq!(right, None);
}

#[test]
fn a_group_at_the_threshold_is_split() {
    let objects = vec![1, 2, 3];
    let places = vec![Placement::Left, Placement::Right, Placement::Neither];

    let (stay, left, right) = split_children(objects, &places, 3);

    assert_eq!(stay, vec![3]);
    assert_eq!(left, Some(vec![1]));
    assert_eq!(right, Some(vec![2]));
}

#[test]
fn an_empty_half_gives_no_subgroup() {
    let objects = vec![1, 2, 3, 4];
    let places = vec![
        Placement::Left,
        Placement::Left,
        Placement::Neither,
        Placement::Left,
    ];

    let (stay, left, right) = split_children(objects, &places, 1);

    assert_eq!(stay, vec![3]);
    assert_eq!(left, Some(vec![1, 2, 4]));
    assert_eq!(right, None);
}
