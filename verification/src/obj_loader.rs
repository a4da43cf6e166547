//! Triangle meshes: from the vertex and index arrays of a mesh file to a
//! hierarchy of triangles.

use crate::bvh::BVHNode;
use crate::fixed::Fixed;
use crate::hittable::Hittable;
use crate::hittable_list::HittableList;
use crate::material::Material;
use crate::triangle::Triangle;
use crate::vec3::{Point3, Vec3};
use std::sync::Arc;
use vstd::prelude::*;

verus! {

/// One model of a mesh file: the coordinates of its vertices, three numbers
/// for each, and the corners of its triangles, three vertex numbers for
/// each.
pub struct Mesh {
    pub positions: Vec<Fixed>,
    pub indices: Vec<u32>,
}

/// Why a mesh file gives no hierarchy.
#[derive(Clone, Copy, Debug, PartialEq, Eq, Structural)]
pub enum MeshError {
    /// The coordinates of a model do not come in threes.
    BadPositions,
    /// The corners of a model do not come in threes.
    BadIndices,
    /// A corner names a vertex that the model does not have.
    IndexOutOfRange,
    /// The models hold no triangle.
    Empty,
}

impl Mesh {
    /// Vertex `i` of the model.
    pub open spec fn spec_vertex(&self, i: int) -> Point3 {
        Vec3 {
            x: self.positions@[3 * i],
            y: self.positions@[3 * i + 1],
            z: self.positions@[3 * i + 2],
        }
    }

    /// The number of triangles of the model.
    pub open spec fn spec_triangle_count(&self) -> int {
        self.indices@.len() as int / 3
    }

    /// Triangle `k` of the model: the triangle of its three corners, in
    /// the order of the file.
    pub open spec fn spec_triangle(&self, k: int, mat: Arc<Material>) -> Hittable {
        Hittable::Triangle(
            Triangle::spec_new(
                self.spec_vertex(self.indices@[3 * k] as int),
                self.spec_vertex(self.indices@[3 * k + 1] as int),
                self.spec_vertex(self.indices@[3 * k + 2] as int),
                mat,
            ),
        )
    }

    /// The triangles of the model in order.
    pub open spec fn spec_triangles(&self, mat: Arc<Material>) -> Seq<Hittable> {
        Seq::new(self.spec_triangle_count() as nat, |k: int| self.spec_triangle(k, mat))
    }

    /// What is wrong with the model, if anything: the first that holds of
    /// coordinates not in threes, corners not in threes, and a corner
    /// without a vertex.
    pub open spec fn spec_error(&self) -> Option<MeshError> {
        if self.positions@.len() % 3 != 0 {
            Some(MeshError::BadPositions)
        } else if self.indices@.len() % 3 != 0 {
            Some(MeshError::BadIndices)
        } else if exists|j: int|
            0 <= j < self.indices@.len() && #[trigger] self.indices@[j] >= self.positions@.len()
                / 3 {
            Some(MeshError::IndexOutOfRange)
        } else {
            None
        }
    }

    #[verifier::when_used_as_spec(spec_error)]
    pub fn error(&self) -> (r: Option<MeshError>)
        ensures
            r == self.spec_error(),
    {
        if self.positions.len() % 3 != 0 {
            return Some(MeshError::BadPositions);
        }
        if self.indices.len() % 3 != 0 {
            return Some(MeshError::BadIndices);
        }
        let vertices: usize = self.positions.len() / 3;
        let mut j: usize = 0;
        while j < self.indices.len()
            invariant
                j <= self.indices@.len(),
                vertices == self.positions@.len() / 3,
                self.positions@.len() % 3 == 0,
                self.indices@.len() % 3 == 0,
                forall|i: int| 0 <= i < j ==> #[trigger] self.indices@[i] < vertices,
            decreases self.indices@.len() - j,
        {
            if self.indices[j] as usize >= vertices {
                assert(self.indices@[j as int] >= self.positions@.len() / 3);
                return Some(MeshError::IndexOutOfRange);
            }
            j += 1;
        }
        None
    }

    fn vertex(&self, i: usize) -> (r: Point3)
        requires
            3 * i + 2 < self.positions@.len(),
        ensures
            r == self.spec_vertex(i as int),
    {
        let len: usize = self.positions.len();
        assert(3 * i + 2 < len);
        Point3::new(self.positions[3 * i], self.positions[3 * i + 1], self.positions[3 * i + 2])
    }
}

/// The triangles of the first `n` models, model after model.
pub open spec fn spec_all_triangles(models: Seq<Mesh>, mat: Arc<Material>, n: int) -> Seq<Hittable>
    decreases n,
{
    if n <= 0 || n > models.len() {
        Seq::empty()
    } else {
        spec_all_triangles(models, mat, n - 1) + models[n - 1].spec_triangles(mat)
    }
}

/// What is wrong with the first `n` models: what is wrong with the first
/// of them with which anything is.
pub open spec fn spec_first_error(models: Seq<Mesh>, n: int) -> Option<MeshError>
    decreases n,
{
    if n <= 0 || n > models.len() {
        None
    } else {
        match spec_first_error(models, n - 1) {
            Some(e) => Some(e),
            None => models[n - 1].spec_error(),
        }
    }
}

/// The hierarchy of the triangles of `models`, all of the material `mat`.
/// Fails where a model is malformed and where there is no triangle at all.
pub fn load_obj(models: &Vec<Mesh>, mat: Arc<Material>) -> (r: Result<BVHNode, MeshError>)
    ensures
        match spec_first_error(models@, models@.len() as int) {
            Some(e) => r == Err::<BVHNode, MeshError>(e),
            None => if spec_all_triangles(models@, mat, models@.len() as int).len() == 0 {
                r == Err::<BVHNode, MeshError>(MeshError::Empty)
            } else {
                r == Ok::<BVHNode, MeshError>(
                    BVHNode::spec_node(spec_all_triangles(models@, mat, models@.len() as int)),
                )
            },
        },
{
    let mut meshes = HittableList::new();
    let mut m: usize = 0;
    while m < models.len()
        invariant
            m <= models@.len(),
            spec_first_error(models@, m as int) is None,
            meshes.objects@ == spec_all_triangles(models@, mat, m as int),
        decreases models@.len() - m,
    {
        let mesh = &models[m];
        match mesh.error() {
            Some(e) => {
                proof {
                    lemma_first_error_stays(models@, m as int + 1, models@.len() as int);
                }
                return Err(e);
            },
            None => {},
        }
        let total: usize = mesh.indices.len();
        let count: usize = total / 3;
        let ghost before = meshes.objects@;
        let mut k: usize = 0;
        while k < count
            invariant
                k <= count,
                total == mesh.indices@.len(),
                count == total / 3,
                mesh.spec_error() is None,
                meshes.objects@ == before + mesh.spec_triangles(mat).subrange(0, k as int),
            decreases count - k,
        {
            assert(mesh.indices@[3 * k as int] < mesh.positions@.len() / 3);
            assert(mesh.indices@[3 * k as int + 1] < mesh.positions@.len() / 3);
            assert(mesh.indices@[3 * k as int + 2] < mesh.positions@.len() / 3);
            let v0 = mesh.vertex(mesh.indices[3 * k] as usize);
            let v1 = mesh.vertex(mesh.indices[3 * k + 1] as usize);
            let v2 = mesh.vertex(mesh.indices[3 * k + 2] as usize);
            meshes.add(Hittable::Triangle(Triangle::new(v0, v1, v2, mat.clone())));
            assert(meshes.objects@ =~= before + mesh.spec_triangles(mat).subrange(
                0,
                k as int + 1,
            ));
            k += 1;
        }
        assert(mesh.spec_triangles(mat).subrange(0, count as int) =~= mesh.spec_triangles(mat));
        m += 1;
    }
    if meshes.objects.len() == 0 {
        return Err(MeshError::Empty);
    }
    Ok(BVHNode::from_list(meshes))
}

/// Once one of the first `n` models is found wrong, the verdict stays with
/// more models.
pub proof fn lemma_first_error_stays(models: Seq<Mesh>, n: int, more: int)
    requires
        0 <= n <= more <= models.len(),
        spec_first_error(models, n) is Some,
    ensures
        spec_first_error(models, more) == spec_first_error(models, n),
    decreases more,
{
    if n < more {
        lemma_first_error_stays(models, n, more - 1);
    }
}

} // verus!
