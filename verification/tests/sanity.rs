use voropp::{Side, VoronoiCell, VoronoiCellBase, VoronoiCellNeighbor};

// The cells of the library know nothing of coordinates. These helpers keep
// the corners beside a cell and do the arithmetic on them.

const TOLERANCE: f64 = 1e-11;

fn sub(a: &[f64; 3], b: &[f64; 3]) -> [f64; 3] {
    [a[0] - b[0], a[1] - b[1], a[2] - b[2]]
}

fn cross(a: &[f64; 3], b: &[f64; 3]) -> [f64; 3] {
    [a[1] * b[2] - a[2] * b[1], a[2] * b[0] - a[0] * b[2], a[0] * b[1] - a[1] * b[0]]
}

fn dot(a: &[f64; 3], b: &[f64; 3]) -> f64 {
    a[0] * b[0] + a[1] * b[1] + a[2] * b[2]
}

fn norm(a: &[f64; 3]) -> f64 {
    dot(a, a).sqrt()
}

fn box_points(lo: &[f64; 3], hi: &[f64; 3]) -> Vec<[f64; 3]> {
    let mut points = Vec::new();
    for i in 0..8 {
        let x = if i & 1 == 0 { lo[0] } else { hi[0] };
        let y = if i & 2 == 0 { lo[1] } else { hi[1] };
        let z = if i & 4 == 0 { lo[2] } else { hi[2] };
        points.push([x, y, z]);
    }
    points
}

fn octahedron_points(l: f64) -> Vec<[f64; 3]> {
    vec![[-l, 0.0, 0.0], [l, 0.0, 0.0], [0.0, -l, 0.0], [0.0, l, 0.0], [0.0, 0.0, -l], [0.0, 0.0, l]]
}

fn distances(points: &[[f64; 3]], xyz: &[f64; 3]) -> Vec<f64> {
    let half = 0.5 * dot(xyz, xyz);
    points.iter().map(|p| half - dot(p, xyz)).collect()
}

fn sides_of(points: &[[f64; 3]], xyz: &[f64; 3]) -> Vec<Side> {
    let band = TOLERANCE * (1.0 + dot(xyz, xyz));
    distances(points, xyz)
        .iter()
        .map(|&d| {
            if d > band {
                Side::Inside
            } else if d < -band {
                Side::Outside
            } else {
                Side::OnPlane
            }
        })
        .collect()
}

fn moved(points: &[[f64; 3]], xyz: &[f64; 3], from: &[(usize, usize)]) -> Vec<[f64; 3]> {
    let d = distances(points, xyz);
    from.iter()
        .map(|&(u, w)| {
            if u == w {
                points[u]
            } else {
                let t = d[u] / (d[u] - d[w]);
                let step = sub(&points[w], &points[u]);
                [points[u][0] + t * step[0], points[u][1] + t * step[1], points[u][2] + t * step[2]]
            }
        })
        .collect()
}

fn face_cross(points: &[[f64; 3]], face: &[usize]) -> [f64; 3] {
    let mut sum = [0.0; 3];
    for i in 1..face.len() - 1 {
        let c = cross(&sub(&points[face[i]], &points[face[0]]), &sub(&points[face[i + 1]], &points[face[0]]));
        sum = [sum[0] + c[0], sum[1] + c[1], sum[2] + c[2]];
    }
    sum
}

fn six_volumes(points: &[[f64; 3]], faces: &[Vec<usize>]) -> f64 {
    let mut sum = 0.0;
    for face in faces {
        for i in 1..face.len() - 1 {
            let a = sub(&points[face[0]], &points[0]);
            let b = sub(&points[face[i]], &points[0]);
            let c = sub(&points[face[i + 1]], &points[0]);
            sum += dot(&a, &cross(&b, &c));
        }
    }
    sum
}

fn volume(points: &[[f64; 3]], faces: &[Vec<usize>]) -> f64 {
    six_volumes(points, faces).abs() / 6.0
}

fn centroid(points: &[[f64; 3]], faces: &[Vec<usize>]) -> [f64; 3] {
    let mut sum = [0.0; 3];
    for face in faces {
        for i in 1..face.len() - 1 {
            let a = sub(&points[face[0]], &points[0]);
            let b = sub(&points[face[i]], &points[0]);
            let c = sub(&points[face[i + 1]], &points[0]);
            let six = dot(&a, &cross(&b, &c));
            for k in 0..3 {
                sum[k] += six * (a[k] + b[k] + c[k]);
            }
        }
    }
    let all = 4.0 * six_volumes(points, faces);
    [points[0][0] + sum[0] / all, points[0][1] + sum[1] / all, points[0][2] + sum[2] / all]
}

fn face_areas(points: &[[f64; 3]], faces: &[Vec<usize>]) -> Vec<f64> {
    faces.iter().map(|f| 0.5 * norm(&face_cross(points, f))).collect()
}

fn face_perimeters(points: &[[f64; 3]], faces: &[Vec<usize>]) -> Vec<f64> {
    faces
        .iter()
        .map(|f| (0..f.len()).map(|i| norm(&sub(&points[f[(i + 1) % f.len()]], &points[f[i]]))).sum())
        .collect()
}

fn normals(points: &[[f64; 3]], faces: &[Vec<usize>]) -> Vec<[f64; 3]> {
    let turn = if six_volumes(points, faces) < 0.0 { -1.0 } else { 1.0 };
    faces
        .iter()
        .map(|f| {
            let c = face_cross(points, f);
            let len = norm(&c);
            if len == 0.0 {
                [0.0; 3]
            } else {
                [turn * c[0] / len, turn * c[1] / len, turn * c[2] / len]
            }
        })
        .collect()
}

fn max_radius_squared(points: &[[f64; 3]]) -> f64 {
    points.iter().map(|p| dot(p, p)).fold(0.0, f64::max)
}

fn translate(points: &mut Vec<[f64; 3]>, xyz: &[f64; 3]) {
    for p in points.iter_mut() {
        *p = [p[0] + xyz[0], p[1] + xyz[1], p[2] + xyz[2]];
    }
}

/// Call every public entry point. Check for sane results.
#[test]
fn voronoi_cell_ffi_sanity() {
    let x = VoronoiCell::init();
    let mut points = box_points(&[0.0; 3], &[1.0; 3]);
    let x = x.clone();
    assert!(x.number_of_faces() == 6);
    assert!(x.number_of_edges() == 12);
    assert!(x.number_of_vertices() == 8);
    let faces = x.face_vertices();
    assert!(face_areas(&points, &faces).iter().sum::<f64>() == 6.0);
    assert!(volume(&points, &faces) == 1.0);
    assert!(face_perimeters(&points, &faces).iter().sum::<f64>() / 2.0 == 12.0);
    assert!(points.len() == 8);
    assert!(face_areas(&points, &faces) == vec![1.0; 6]);
    assert!(face_perimeters(&points, &faces) == vec![4.0; 6]);
    assert!(normals(&points, &faces).len() == 6);
    for n in normals(&points, &faces) {
        assert!(n.iter().all(|&z| z == 0.0 || z.abs() == 1.0));
        assert!(n.iter().sum::<f64>().abs() == 1.0);
    }
    assert!(x.face_vertices().len() == 6);
    for f in x.face_vertices() {
        assert!(f.iter().all(|&z| z < x.number_of_vertices() as usize));
        let mut q = f.clone();
        q.sort();
        q.dedup();
        assert!(q.len() == f.len());
    }
    assert!(max_radius_squared(&points) == 3.0);
    let mut x = x;
    translate(&mut points, &[2.0, -2.0, 0.5]);
    translate(&mut points, &[-2.0, 2.0, -0.5]);
    assert!(centroid(&points, &x.face_vertices()) == [0.5, 0.5, 0.5]);

    let sides = sides_of(&points, &[10.0, 10.0, 10.0]);
    assert!(x.admits_plane(&sides));
    let from = x.origins(&sides);
    assert!(x.plane(&sides) == true);
    points = moved(&points, &[10.0, 10.0, 10.0], &from);
    assert!(points == box_points(&[0.0; 3], &[1.0; 3]));

    let sides = sides_of(&points, &[1.0, 1.0, 1.0]);
    assert!(x.admits_plane(&sides));
    let from = x.origins(&sides);
    assert!(x.plane(&sides) == true);
    points = moved(&points, &[1.0, 1.0, 1.0], &from);
    assert!(x.number_of_faces() == 7);
    assert!(x.number_of_vertices() == 10);
    assert!(volume(&points, &x.face_vertices()) == 0.5);

    translate(&mut points, &[3.3, 3.3, 3.3]);
    let sides = sides_of(&points, &[1.0, 1.0, 1.0]);
    assert!(x.admits_plane(&sides));
    assert!(x.plane(&sides) == false);
    assert!(x.is_eliminated());

    let octahedron = VoronoiCell::init_octahedron();
    assert!(octahedron.number_of_faces() == 8);
    assert!(octahedron.face_vertices().iter().all(|f| f.len() == 3));
    let corners = octahedron_points(1.0);
    assert!(volume(&corners, &octahedron.face_vertices()) == 8.0 / 6.0);

    let tetrhedron = VoronoiCell::init_tetrahedron();
    assert!(tetrhedron.number_of_faces() == 4);
}

/// Call every public entry point. Check for sane results.
#[test]
fn voronoi_cell_neighbor_ffi_sanity() {
    let x = VoronoiCellNeighbor::init();
    let mut points = box_points(&[0.0; 3], &[1.0; 3]);
    let x = x.clone();
    assert!(x.number_of_faces() == 6);
    assert!(x.number_of_edges() == 12);
    assert!(x.number_of_vertices() == 8);
    let faces = x.face_vertices();
    assert!(face_areas(&points, &faces).iter().sum::<f64>() == 6.0);
    assert!(volume(&points, &faces) == 1.0);
    assert!(face_perimeters(&points, &faces).iter().sum::<f64>() / 2.0 == 12.0);
    assert!(points.len() == 8);
    assert!(face_areas(&points, &faces) == vec![1.0; 6]);
    assert!(face_perimeters(&points, &faces) == vec![4.0; 6]);
    assert!(normals(&points, &faces).len() == 6);
    for n in normals(&points, &faces) {
        assert!(n.iter().all(|&z| z == 0.0 || z.abs() == 1.0));
        assert!(n.iter().sum::<f64>().abs() == 1.0);
    }
    assert!(x.face_vertices().len() == 6);
    for f in x.face_vertices() {
        assert!(f.iter().all(|&z| z < x.number_of_vertices() as usize));
        let mut q = f.clone();
        q.sort();
        q.dedup();
        assert!(q.len() == f.len());
    }
    let mut x = x;
    translate(&mut points, &[2.0, -2.0, 0.5]);
    translate(&mut points, &[-2.0, 2.0, -0.5]);
    assert!(centroid(&points, &x.face_vertices()) == [0.5, 0.5, 0.5]);

    let sides = sides_of(&points, &[10.0, 10.0, 10.0]);
    assert!(x.admits_nplane(&sides, 0));
    assert!(x.plane(&sides) == true);
    let sides = sides_of(&points, &[1.0, 1.0, 1.0]);
    assert!(x.admits_nplane(&sides, 123456));
    let from = x.origins(&sides);
    assert!(x.nplane(&sides, 123456) == true);
    points = moved(&points, &[1.0, 1.0, 1.0], &from);
    assert!(x.neighbors().len() == x.number_of_faces() as usize);
    let mut n = x.neighbors();
    n.sort();
    assert!(n == vec![-6, -5, -4, -3, -2, -1, 123456]);

    translate(&mut points, &[3.3, 3.3, 3.3]);
    let sides = sides_of(&points, &[1.0, 1.0, 1.0]);
    assert!(x.admits_nplane(&sides, 0));
    assert!(x.plane(&sides) == false);

    let octahedron = VoronoiCellNeighbor::init_octahedron();
    assert!(octahedron.number_of_faces() == 8);

    let tetrhedron = VoronoiCellNeighbor::init_tetrahedron();
    assert!(tetrhedron.number_of_faces() == 4);
    let corners = vec![[0.0, 0.0, 0.0], [1.0, 1.0, 1.0], [0.0, 1.0, 0.0], [1.0, 1.0, 0.0]];
    assert!(max_radius_squared(&corners) == 3.0);
}
