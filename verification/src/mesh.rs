//! Triangle meshes: faces given by the numbers of their vertices, and vertices transformed.

use crate::primitives::Triangle;
use vstd::prelude::*;

verus! {

/// A face names three vertices by their numbers, counted from 1.
pub open spec fn face_in_range(face: (usize, usize, usize), vertices: nat) -> bool {
    &&& 1 <= face.0 <= vertices
    &&& 1 <= face.1 <= vertices
    &&& 1 <= face.2 <= vertices
}

/// The triangle of the three vertices that `face` names.
pub open spec fn face_triangle<T>(vertices: Seq<T>, face: (usize, usize, usize)) -> Triangle<T> {
    Triangle { v1: vertices[face.0 - 1], v2: vertices[face.1 - 1], v3: vertices[face.2 - 1] }
}

/// Makes a triangle of each face, in order. `None` if a face names a vertex that is not
/// there: the number 0, or one beyond the last vertex.
pub fn triangles_of_faces<T: Copy>(vertices: &[T], faces: &[(usize, usize, usize)]) -> (res: Option<
    Vec<Triangle<T>>,
>)
    ensures
        res is Some <==> forall|i: int|
            0 <= i < faces@.len() ==> face_in_range(#[trigger] faces@[i], vertices@.len()),
        res matches Some(triangles) ==> {
            &&& triangles@.len() == faces@.len()
            &&& forall|i: int|
                0 <= i < faces@.len() ==> #[trigger] triangles@[i] == face_triangle(
                    vertices@,
                    faces@[i],
                )
        },
{
    let n = vertices.len();
    let mut triangles: Vec<Triangle<T>> = Vec::new();
    let mut k: usize = 0;
    while k < faces.len()
        invariant
            k <= faces.len(),
            n == vertices@.len(),
            triangles@.len() == k,
            forall|i: int| 0 <= i < k ==> face_in_range(#[trigger] faces@[i], vertices@.len()),
            forall|i: int|
                0 <= i < k ==> #[trigger] triangles@[i] == face_triangle(vertices@, faces@[i]),
        decreases faces.len() - k,
    {
        let (i1, i2, i3) = faces[k];
        if i1 < 1 || i1 > n || i2 < 1 || i2 > n || i3 < 1 || i3 > n {
            assert(!face_in_range(faces@[k as int], vertices@.len()));
            return None;
        }
        triangles.push(Triangle::new(vertices[i1 - 1], vertices[i2 - 1], vertices[i3 - 1]));
        k += 1;
    }
    Some(triangles)
}

/// Makes of each triangle the triangle of its transformed vertices, in order.
pub fn map_vertices<T, U, F>(src: &[Triangle<T>], trans: F) -> (res: Vec<Triangle<U>>) where
    F: Fn(&T) -> U,

    requires
        forall|i: int|
            0 <= i < src@.len() ==> call_requires(trans, (&(#[trigger] src@[i]).v1,))
                && call_requires(trans, (&src@[i].v2,)) && call_requires(trans, (&src@[i].v3,)),
    ensures
        res@.len() == src@.len(),
        forall|i: int|
            0 <= i < src@.len() ==> call_ensures(trans, (&src@[i].v1,), (#[trigger] res@[i]).v1)
                && call_ensures(trans, (&src@[i].v2,), res@[i].v2) && call_ensures(
                trans,
                (&src@[i].v3,),
                res@[i].v3,
            ),
{
    let mut res: Vec<Triangle<U>> = Vec::new();
    let mut k: usize = 0;
    while k < src.len()
        invariant
            k <= src.len(),
            res@.len() == k,
            forall|i: int|
                0 <= i < src@.len() ==> call_requires(trans, (&(#[trigger] src@[i]).v1,))
                    && call_requires(trans, (&src@[i].v2,)) && call_requires(
                    trans,
                    (&src@[i].v3,),
                ),
            forall|i: int|
                0 <= i < k ==> call_ensures(trans, (&src@[i].v1,), (#[trigger] res@[i]).v1)
                    && call_ensures(trans, (&src@[i].v2,), res@[i].v2) && call_ensures(
                    trans,
                    (&src@[i].v3,),
                    res@[i].v3,
                ),
        decreases src.len() - k,
    {
        let triangle = &src[k];
        let v1 = trans(&triangle.v1);
        let v2 = trans(&triangle.v2);
        let v3 = trans(&triangle.v3);
        res.push(Triangle::new(v1, v2, v3));
        k += 1;
    }
    res
}

} // verus!
