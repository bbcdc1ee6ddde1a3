use raytracer::list_builder::ListBuilder;

#[test]
fn intersection_creating_an_intersection_list_with_builder() {
    let o = "test object";

    let b = ListBuilder::new().object(o).add_t(1.0);

    let l = b.build();

    assert_eq!(l.len(), 1);
    assert_eq!(l[0].0, o);
    assert_eq!(l[0].1, 1.0);

    let l = ListBuilder::default().object(o).add_t(1.0).add_t(2.0).add_t(-2.0).build();

    assert_eq!(l.len(), 3);

    assert_eq!(l[0], (o, 1.0));
    assert_eq!(l[1], (o, 2.0));
    assert_eq!(l[2], (o, -2.0));
}

#[test]
fn the_object_can_be_set_last() {
    let l = ListBuilder::new().add_t(4u32).add_t(5).object('x').build();
    assert_eq!(l, vec![('x', 4), ('x', 5)]);
}
