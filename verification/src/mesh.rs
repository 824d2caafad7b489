//! The order in which the transforms of a mesh are applied when the mesh is
//! made ready for rendering.

use vstd::prelude::*;

verus! {

/// One transform of a mesh.
#[derive(Debug, Clone, Copy, PartialEq, Eq)]
pub enum Transform {
    /// A turn about the x axis.
    RotateX,
    /// A turn about the y axis.
    RotateY,
    /// A turn about the z axis.
    RotateZ,
    /// A move to the position of the mesh.
    Translate,
    /// A change of size.
    Scale,
}

impl Transform {
    /// Whether the transform is applied to the vertex normals as well as to
    /// the positions: a turn is, a move and a change of size are not.
    pub open spec fn turns_normals(self) -> bool {
        self is RotateX || self is RotateY || self is RotateZ
    }

    /// Whether the transform is applied to the vertex normals as well as to
    /// the positions.
    pub fn applies_to_normals(&self) -> (applies: bool)
        ensures
            applies == self.turns_normals(),
    {
        match self {
            Transform::RotateX | Transform::RotateY | Transform::RotateZ => true,
            Transform::Translate | Transform::Scale => false,
        }
    }
}

/// `transform` where it is `wanted`, and nothing where it is not.
pub open spec fn step(wanted: bool, transform: Transform) -> Seq<Transform> {
    if wanted {
        seq![transform]
    } else {
        Seq::empty()
    }
}

/// The transforms of a mesh in the order in which they are applied: the
/// turns about x, y and z, then the move, then the change of size, each only
/// where it is wanted.
pub open spec fn plan(
    rotate_x: bool,
    rotate_y: bool,
    rotate_z: bool,
    translate: bool,
    scale: bool,
) -> Seq<Transform> {
    step(rotate_x, Transform::RotateX) + step(rotate_y, Transform::RotateY) + step(
        rotate_z,
        Transform::RotateZ,
    ) + step(translate, Transform::Translate) + step(scale, Transform::Scale)
}

/// The transforms to apply to a mesh, in order. A turn is wanted where its
/// angle is not zero, the move where some coordinate of the position is not
/// zero, and the change of size where some factor is not zero.
pub fn transform_plan(
    rotate_x: bool,
    rotate_y: bool,
    rotate_z: bool,
    translate: bool,
    scale: bool,
) -> (transforms: Vec<Transform>)
    ensures
        transforms@ == plan(rotate_x, rotate_y, rotate_z, translate, scale),
{
    let mut transforms: Vec<Transform> = Vec::new();
    if rotate_x {
        transforms.push(Transform::RotateX);
    }
    if rotate_y {
        transforms.push(Transform::RotateY);
    }
    if rotate_z {
        transforms.push(Transform::RotateZ);
    }
    if translate {
        transforms.push(Transform::Translate);
    }
    if scale {
        transforms.push(Transform::Scale);
    }
    assert(transforms@ =~= plan(rotate_x, rotate_y, rotate_z, translate, scale));
    transforms
}

} // verus!
