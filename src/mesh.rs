//! Index buffers of triangle meshes: turning the polygon faces of a mesh
//! file into triangles, and finding the corners of one triangle.

use vstd::prelude::*;

verus! {

/// Why a face list cannot become a triangle mesh.
#[derive(Debug, Clone, Copy, PartialEq, Eq, Structural)]
pub enum MeshError {
    /// A face with a vertex count other than three or four.
    UnsupportedFace { vertex_count: usize },
    /// A vertex index that is negative or does not fit in `u32`.
    IndexOutOfRange { index: i64 },
}

/// A vertex index that a mesh can store.
pub open spec fn index_fits(i: i64) -> bool {
    0 <= i <= u32::MAX
}

/// The position of the first index of `f` that does not fit, or `f.len()`.
pub open spec fn first_bad_index(f: Seq<i64>) -> int
    decreases f.len(),
{
    if f.len() == 0 {
        0
    } else if !index_fits(f[0]) {
        0
    } else {
        1 + first_bad_index(f.drop_first())
    }
}

/// The triangles of one face, three corners each: a triangle stays as it
/// is, a quad `a b c d` becomes `a b c` and `d a c`.
pub open spec fn face_corners(f: Seq<i64>) -> Seq<u32> {
    let g = f.map_values(|i: i64| i as u32);
    if f.len() == 3 {
        g
    } else {
        g + seq![g[0], g[2]]
    }
}

/// What a single face contributes to the index buffer, or why it is refused.
pub open spec fn face_result(f: Seq<i64>) -> Result<Seq<u32>, MeshError> {
    if f.len() != 3 && f.len() != 4 {
        Err(MeshError::UnsupportedFace { vertex_count: f.len() as usize })
    } else if first_bad_index(f) < f.len() {
        Err(MeshError::IndexOutOfRange { index: f[first_bad_index(f)] })
    } else {
        Ok(face_corners(f))
    }
}

/// The index buffer of a list of faces, face after face, or the error of the
/// first face that is refused.
pub open spec fn mesh_result(faces: Seq<Vec<i64>>) -> Result<Seq<u32>, MeshError>
    decreases faces.len(),
{
    if faces.len() == 0 {
        Ok(Seq::empty())
    } else {
        match mesh_result(faces.drop_last()) {
            Err(e) => Err(e),
            Ok(s) => match face_result(faces.last()@) {
                Err(e) => Err(e),
                Ok(t) => Ok(s + t),
            },
        }
    }
}

proof fn lemma_first_bad_index(f: Seq<i64>)
    ensures
        0 <= first_bad_index(f) <= f.len(),
        forall|j: int| 0 <= j < first_bad_index(f) ==> index_fits(#[trigger] f[j]),
        first_bad_index(f) < f.len() ==> !index_fits(f[first_bad_index(f)]),
    decreases f.len(),
{
    if f.len() > 0 && index_fits(f[0]) {
        lemma_first_bad_index(f.drop_first());
        assert forall|j: int| 0 <= j < first_bad_index(f) implies index_fits(#[trigger] f[j]) by {
            if j > 0 {
                assert(f[j] == f.drop_first()[j - 1]);
            }
        }
    }
}

proof fn lemma_face_corners_len(f: Seq<i64>)
    requires
        face_result(f) is Ok,
    ensures
        face_corners(f).len() == 3 || face_corners(f).len() == 6,
{
    let g = f.map_values(|i: i64| i as u32);
    assert(f.len() == 3 || f.len() == 4);
    assert(g.len() == f.len());
    if f.len() == 4 {
        assert(face_corners(f) == g + seq![g[0], g[2]]);
    } else {
        assert(face_corners(f) == g);
    }
}

/// Splits one polygon face into triangles.
pub fn triangulate_face(face: &Vec<i64>) -> (r: Result<Vec<u32>, MeshError>)
    ensures
        match r {
            Ok(v) => face_result(face@) == Ok::<Seq<u32>, MeshError>(v@),
            Err(e) => face_result(face@) == Err::<Seq<u32>, MeshError>(e),
        },
{
    let n = face.len();
    if n != 3 && n != 4 {
        return Err(MeshError::UnsupportedFace { vertex_count: n });
    }
    proof {
        lemma_first_bad_index(face@);
    }
    let mut out: Vec<u32> = Vec::new();
    let mut k: usize = 0;
    while k < n
        invariant
            n == face@.len(),
            n == 3 || n == 4,
            0 <= k <= n,
            k <= first_bad_index(face@),
            out@ == face@.subrange(0, k as int).map_values(|i: i64| i as u32),
            0 <= first_bad_index(face@) <= face@.len(),
            forall|j: int| 0 <= j < first_bad_index(face@) ==> index_fits(#[trigger] face@[j]),
            first_bad_index(face@) < face@.len() ==> !index_fits(face@[first_bad_index(face@)]),
        decreases n - k,
    {
        let i = face[k];
        if i < 0 || i > u32::MAX as i64 {
            assert(first_bad_index(face@) == k) by {
                if first_bad_index(face@) > k {
                    assert(index_fits(face@[k as int]));
                }
            }
            return Err(MeshError::IndexOutOfRange { index: i });
        }
        assert(k < first_bad_index(face@));
        out.push(i as u32);
        k = k + 1;
        assert(out@ =~= face@.subrange(0, k as int).map_values(|i: i64| i as u32));
    }
    assert(face@.subrange(0, n as int) =~= face@);
    if n == 4 {
        let a = out[0];
        let c = out[2];
        out.push(a);
        out.push(c);
    }
    assert(out@ =~= face_corners(face@));
    Ok(out)
}

/// Builds the index buffer of a mesh from its faces: three corners per
/// triangle, faces in order, quads split in two.
pub fn build_vertex_indices(faces: &Vec<Vec<i64>>) -> (r: Result<Vec<u32>, MeshError>)
    ensures
        match r {
            Ok(v) => mesh_result(faces@) == Ok::<Seq<u32>, MeshError>(v@),
            Err(e) => mesh_result(faces@) == Err::<Seq<u32>, MeshError>(e),
        },
        r is Ok ==> r->Ok_0@.len() % 3 == 0,
{
    let mut out: Vec<u32> = Vec::new();
    let mut k: usize = 0;
    while k < faces.len()
        invariant
            0 <= k <= faces@.len(),
            mesh_result(faces@.subrange(0, k as int)) == Ok::<Seq<u32>, MeshError>(out@),
            out@.len() % 3 == 0,
        decreases faces@.len() - k,
    {
        let ghost before = out@;
        assert(faces@.subrange(0, k + 1).drop_last() =~= faces@.subrange(0, k as int));
        assert(faces@.subrange(0, k + 1).last() == faces@[k as int]);
        match triangulate_face(&faces[k]) {
            Err(e) => {
                assert(mesh_result(faces@.subrange(0, k + 1)) == Err::<Seq<u32>, MeshError>(e));
                proof {
                    lemma_mesh_error_persists(faces@, k as int + 1);
                }
                return Err(e);
            },
            Ok(t) => {
                let mut j: usize = 0;
                while j < t.len()
                    invariant
                        0 <= j <= t@.len(),
                        out@ == before + t@.subrange(0, j as int),
                    decreases t@.len() - j,
                {
                    out.push(t[j]);
                    j = j + 1;
                    assert(out@ =~= before + t@.subrange(0, j as int));
                }
                assert(t@.subrange(0, t@.len() as int) =~= t@);
                assert(face_result(faces@[k as int]@) == Ok::<Seq<u32>, MeshError>(t@));
                proof {
                    lemma_face_corners_len(faces@[k as int]@);
                }
            },
        }
        k = k + 1;
    }
    assert(faces@.subrange(0, faces@.len() as int) =~= faces@);
    Ok(out)
}

/// Once a prefix of the faces is refused, so is every longer prefix, with
/// the same error.
proof fn lemma_mesh_error_persists(faces: Seq<Vec<i64>>, k: int)
    requires
        0 <= k <= faces.len(),
        mesh_result(faces.subrange(0, k)) is Err,
    ensures
        mesh_result(faces) == mesh_result(faces.subrange(0, k)),
    decreases faces.len() - k,
{
    if k < faces.len() {
        assert(faces.subrange(0, k + 1).drop_last() =~= faces.subrange(0, k));
        lemma_mesh_error_persists(faces, k + 1);
    } else {
        assert(faces.subrange(0, k) =~= faces);
    }
}

/// The positions in the vertex arrays of the three corners of triangle `id`.
pub fn triangle_corners(vertex_indices: &Vec<u32>, id: u32) -> (r: [usize; 3])
    requires
        3 * (id as int) + 3 <= vertex_indices@.len(),
    ensures
        forall|c: int| 0 <= c < 3 ==> r@[c] == vertex_indices@[3 * (id as int) + c] as usize,
{
    let len = vertex_indices.len();
    assert(3 * (id as int) + 3 <= len);
    let base = 3 * (id as usize);
    [vertex_indices[base] as usize, vertex_indices[base + 1] as usize, vertex_indices[base + 2] as usize]
}

/// The axis order of the watertight ray/triangle test: the ray's dominant
/// axis `kz` goes last, the other two follow it cyclically.
pub fn shear_axes(kz: usize) -> (r: (usize, usize, usize))
    requires
        kz < 3,
    ensures
        r.2 == kz,
        r.0 == (kz + 1) % 3,
        r.1 == (kz + 2) % 3,
{
    let mut kx = kz + 1;
    if kx == 3 {
        kx = 0;
    }
    let mut ky = kx + 1;
    if ky == 3 {
        ky = 0;
    }
    (kx, ky, kz)
}

} // verus!
