use vtk_parser::cube::make_matrices;

#[test]
fn lattice_has_one_instance_per_cell() {
    let m = make_matrices(20);
    assert_eq!(m.len(), 8000);
}

#[test]
fn lattice_centres_split_the_span_evenly() {
    let m = make_matrices(2);
    assert_eq!(m.len(), 8);
    // The x index varies slowest and the z index fastest; each centre is
    // its numerator triple over the common denominator 2.
    assert_eq!(m[0].num, (-1, -1, -1));
    assert_eq!(m[0].den, 2);
    assert_eq!(m[1].num, (-1, -1, 1));
    assert_eq!(m[2].num, (-1, 1, -1));
    assert_eq!(m[4].num, (1, -1, -1));
    assert_eq!(m[7].num, (1, 1, 1));
}

#[test]
fn single_cell_lattice_is_centred() {
    let m = make_matrices(1);
    assert_eq!(m.len(), 1);
    assert_eq!(m[0].num, (0, 0, 0));
    assert_eq!(m[0].den, 1);
}

#[test]
fn empty_lattice_has_no_instances() {
    assert_eq!(make_matrices(0).len(), 0);
}
