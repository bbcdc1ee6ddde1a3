use raytracer::transformation::{transformation_op, TransformationError, TransformationOp};

#[test]
fn known_operations_and_their_arguments() {
    assert_eq!(transformation_op("rotate-x", 1).unwrap(), TransformationOp::RotateX);
    assert_eq!(transformation_op("rotate-y", 1).unwrap(), TransformationOp::RotateY);
    assert_eq!(transformation_op("rotate-z", 1).unwrap(), TransformationOp::RotateZ);
    assert_eq!(transformation_op("scale", 3).unwrap(), TransformationOp::Scale);
    assert_eq!(transformation_op("shear", 6).unwrap(), TransformationOp::Shear);
    assert_eq!(transformation_op("translate", 3).unwrap(), TransformationOp::Translate);
}

#[test]
fn checking_an_invalid_transformation_entry() {
    match transformation_op("scale", 2) {
        Err(TransformationError::ArgumentCount { operator, expected, found }) => {
            assert_eq!(operator.iter().collect::<String>(), "scale");
            assert_eq!(expected, 3);
            assert_eq!(found, 2);
        }
        other => panic!("unexpected {other:?}"),
    }

    match transformation_op("rotate", 1) {
        Err(TransformationError::UnknownOperator(operator)) => {
            assert_eq!(operator.iter().collect::<String>(), "rotate");
        }
        other => panic!("unexpected {other:?}"),
    }
}
