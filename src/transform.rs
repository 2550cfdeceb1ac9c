use vstd::prelude::*;

use crate::animation::Sampled;
use crate::matrix::{
    identity, mat_mul, quat_in_unit_range, rotation_matrix, scaling_matrix, translation_matrix,
    Mat4, Quat, Vec3,
};

verus! {

/// An animation override of a node's transform; a missing part leaves the static value alone.
#[derive(Clone, Copy, Debug, PartialEq, Eq)]
pub struct Transform {
    pub translation: Option<Vec3>,
    pub rotation: Option<Quat>,
    pub scale: Option<Vec3>,
}

/// The matrix `T * R * S` of the parts present, the identity standing for each missing part.
pub open spec fn transform_matrix(t: Transform) -> Seq<i64> {
    let m1 = match t.translation {
        Some(v) => mat_mul(identity(), translation_matrix(v)),
        None => identity(),
    };
    let m2 = match t.rotation {
        Some(q) => mat_mul(m1, rotation_matrix(q)),
        None => m1,
    };
    match t.scale {
        Some(s) => mat_mul(m2, scaling_matrix(s)),
        None => m2,
    }
}

/// `t` with the part that `s` drives replaced by `s`.
pub open spec fn apply_sampled(t: Transform, s: Sampled) -> Transform {
    match s {
        Sampled::Translation(v) => Transform { translation: Some(v), ..t },
        Sampled::Rotation(q) => Transform { rotation: Some(q), ..t },
        Sampled::Scale(v) => Transform { scale: Some(v), ..t },
    }
}

/// The empty override.
pub open spec fn no_override() -> Transform {
    Transform { translation: None, rotation: None, scale: None }
}

impl Transform {
    /// A rotation, when present, has its components in the unit range.
    pub open spec fn wf(&self) -> bool {
        match self.rotation {
            Some(q) => quat_in_unit_range(q),
            None => true,
        }
    }

    /// The override's matrix, `T * R * S`.
    pub fn matrix(&self) -> (r: Mat4)
        requires
            self.wf(),
        ensures
            r.m@ == transform_matrix(*self),
    {
        let mut matrix = Mat4::identity();
        if let Some(translation) = self.translation {
            matrix = matrix.mul(&Mat4::translation(translation));
        }
        if let Some(rotation) = self.rotation {
            matrix = matrix.mul(&Mat4::rotation(rotation));
        }
        if let Some(scale) = self.scale {
            matrix = matrix.mul(&Mat4::scaling(scale));
        }
        matrix
    }

    /// Replaces the part that `value` drives.
    pub fn apply(&mut self, value: Sampled)
        ensures
            *final(self) == apply_sampled(*old(self), value),
    {
        match value {
            Sampled::Translation(v) => self.translation = Some(v),
            Sampled::Rotation(q) => self.rotation = Some(q),
            Sampled::Scale(v) => self.scale = Some(v),
        }
    }
}

impl Default for Transform {
    fn default() -> (r: Transform)
        ensures
            r == no_override(),
    {
        Transform { translation: None, rotation: None, scale: None }
    }
}

/// The empty override's matrix is the identity.
pub proof fn lemma_no_override_is_identity()
    ensures
        transform_matrix(no_override()) == identity(),
{
}

} // verus!
