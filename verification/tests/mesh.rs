use rust_bvh::{map_vertices, triangles_of_faces, Pos2, Pos3, Triangle};

#[test]
fn faces_name_vertices_from_one() {
    let vertices = vec![Pos3::new(0, 0, 0), Pos3::new(1, 0, 0), Pos3::new(0, 1, 0), Pos3::new(0, 0, 1)];
    let faces = vec![(1usize, 2usize, 3usize), (4, 3, 1)];
    let triangles = triangles_of_faces(&vertices, &faces).unwrap();
    assert_eq!(triangles.len(), 2);
    assert_eq!(triangles[0].v1, Pos3::new(0, 0, 0));
    assert_eq!(triangles[0].v2, Pos3::new(1, 0, 0));
    assert_eq!(triangles[0].v3, Pos3::new(0, 1, 0));
    assert_eq!(triangles[1].v1, Pos3::new(0, 0, 1));
    assert_eq!(triangles[1].v2, Pos3::new(0, 1, 0));
    assert_eq!(triangles[1].v3, Pos3::new(0, 0, 0));
}

#[test]
fn face_beyond_the_vertices_gives_nothing() {
    let vertices = vec![10u8, 20, 30];
    assert!(triangles_of_faces(&vertices, &[(1, 2, 4)]).is_none());
    assert!(triangles_of_faces(&vertices, &[(1, 2, 3), (0, 1, 2)]).is_none());
    assert!(triangles_of_faces(&vertices, &[(1, usize::MAX, 2)]).is_none());
    assert!(triangles_of_faces(&vertices, &[(3, 3, 3)]).is_some());
}

#[test]
fn no_faces_give_no_triangles() {
    let vertices: Vec<u8> = Vec::new();
    assert_eq!(triangles_of_faces(&vertices, &[]).unwrap().len(), 0);
}

#[test]
fn map_vertices_transforms_each_vertex_in_place() {
    let src = vec![
        Triangle::new(Pos3::new(1, 2, 3), Pos3::new(4, 5, 6), Pos3::new(7, 8, 9)),
        Triangle::new(Pos3::new(-1, -2, -3), Pos3::new(0, 0, 0), Pos3::new(1, 1, 1)),
    ];
    let flat = map_vertices(&src, |p: &Pos3| Pos2 { x: p.x, y: p.y });
    assert_eq!(flat.len(), 2);
    assert_eq!(flat[0].v1, Pos2 { x: 1, y: 2 });
    assert_eq!(flat[0].v2, Pos2 { x: 4, y: 5 });
    assert_eq!(flat[0].v3, Pos2 { x: 7, y: 8 });
    assert_eq!(flat[1].v1, Pos2 { x: -1, y: -2 });
    assert_eq!(flat[1].v3, Pos2 { x: 1, y: 1 });
    let shift = 10;
    let moved = map_vertices(&flat, |p: &Pos2| Pos2 { x: p.x + shift, y: p.y * 2 });
    assert_eq!(moved[1].v1, Pos2 { x: 9, y: -4 });
}

#[test]
fn map_vertices_of_nothing_is_nothing() {
    let src: Vec<Triangle<u8>> = Vec::new();
    assert_eq!(map_vertices(&src, |v: &u8| *v as u32).len(), 0);
}
