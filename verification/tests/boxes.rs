use ray1week::cube::{corners, longest_axis, sides, Axis, Corner, Edge, Side};

fn point(c: Corner) -> [i32; 3] {
    [c.x as i32, c.y as i32, c.z as i32]
}

fn step(e: Edge) -> [i32; 3] {
    let d = if e.forward { 1 } else { -1 };
    match e.axis {
        Axis::X => [d, 0, 0],
        Axis::Y => [0, d, 0],
        Axis::Z => [0, 0, d],
    }
}

fn cross(a: [i32; 3], b: [i32; 3]) -> [i32; 3] {
    [
        a[1] * b[2] - a[2] * b[1],
        a[2] * b[0] - a[0] * b[2],
        a[0] * b[1] - a[1] * b[0],
    ]
}

fn corners_of(side: &Side) -> Vec<[i32; 3]> {
    let q = point(side.corner);
    let u = step(side.u);
    let v = step(side.v);
    vec![
        q,
        [q[0] + u[0], q[1] + u[1], q[2] + u[2]],
        [q[0] + v[0], q[1] + v[1], q[2] + v[2]],
        [q[0] + u[0] + v[0], q[1] + u[1] + v[1], q[2] + u[2] + v[2]],
    ]
}

#[test]
fn a_box_has_six_sides_that_face_outward() {
    let sides = sides();
    assert_eq!(sides.len(), 6);
    let mut facings = Vec::new();
    for side in &sides {
        let normal = cross(step(side.u), step(side.v));
        let axis = normal.iter().position(|n| *n != 0).unwrap();
        assert_eq!(normal.iter().map(|n| n.abs()).sum::<i32>(), 1);
        for corner in corners_of(side) {
            assert!(corner.iter().all(|c| *c == 0 || *c == 1));
            assert_eq!(corner[axis], if normal[axis] > 0 { 1 } else { 0 });
        }
        facings.push(normal);
    }
    assert_eq!(
        facings,
        vec![[0, 0, 1], [1, 0, 0], [0, 0, -1], [-1, 0, 0], [0, 1, 0], [0, -1, 0]]
    );
}

#[test]
fn the_first_side_is_the_front() {
    let front = sides()[0];
    assert_eq!(front.corner, Corner { x: false, y: false, z: true });
    assert_eq!(front.u, Edge { axis: Axis::X, forward: true });
    assert_eq!(front.v, Edge { axis: Axis::Y, forward: true });
}

#[test]
fn a_box_has_eight_corners() {
    let corners = corners();
    assert_eq!(corners.len(), 8);
    for (k, corner) in corners.iter().enumerate() {
        let p = point(*corner);
        assert_eq!((4 * p[0] + 2 * p[1] + p[2]) as usize, k);
    }
    assert_eq!(corners[0], Corner { x: false, y: false, z: false });
    assert_eq!(corners[1], Corner { x: false, y: false, z: true });
    assert_eq!(corners[6], Corner { x: true, y: true, z: false });
}

#[test]
fn of_equal_lengths_the_first_axis_is_the_longest() {
    assert_eq!(longest_axis(&[3, 2, 1]), Axis::X);
    assert_eq!(longest_axis(&[1, 3, 2]), Axis::Y);
    assert_eq!(longest_axis(&[1, 2, 3]), Axis::Z);
    assert_eq!(longest_axis(&[2, 2, 2]), Axis::X);
    assert_eq!(longest_axis(&[1, 2, 2]), Axis::Y);
    assert_eq!(longest_axis(&[2, 1, 2]), Axis::X);
    assert_eq!(longest_axis(&[i64::MIN, i64::MIN, i64::MAX]), Axis::Z);
}

#[test]
fn axes_are_numbered() {
    for (index, axis) in [Axis::X, Axis::Y, Axis::Z].into_iter().enumerate() {
        assert_eq!(axis.index(), index);
        assert_eq!(Axis::from_index(index), axis);
    }
}
