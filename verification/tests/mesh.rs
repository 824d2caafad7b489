use raytracer::mesh::{transform_plan, Transform};

#[test]
fn plan_with_every_transform() {
    assert_eq!(
        transform_plan(true, true, true, true, true),
        vec![
            Transform::RotateX,
            Transform::RotateY,
            Transform::RotateZ,
            Transform::Translate,
            Transform::Scale,
        ]
    );
}

#[test]
fn plan_with_no_transform() {
    assert_eq!(transform_plan(false, false, false, false, false), vec![]);
}

#[test]
fn plan_leaves_out_what_is_not_wanted() {
    assert_eq!(
        transform_plan(true, false, true, false, true),
        vec![Transform::RotateX, Transform::RotateZ, Transform::Scale]
    );
    assert_eq!(transform_plan(false, true, false, true, false), vec![
        Transform::RotateY,
        Transform::Translate
    ]);
}

#[test]
fn only_turns_apply_to_normals() {
    assert!(Transform::RotateX.applies_to_normals());
    assert!(Transform::RotateY.applies_to_normals());
    assert!(Transform::RotateZ.applies_to_normals());
    assert!(!Transform::Translate.applies_to_normals());
    assert!(!Transform::Scale.applies_to_normals());
}
