use raytracer::perlin::Perlin;

fn table(read: impl Fn(u8) -> u8) -> Vec<u8> {
    (0..=255u8).map(read).collect()
}

#[test]
fn tables_hold_every_byte_once() {
    let p = Perlin::new();
    for t in [
        table(|i| p.table_x_at(i)),
        table(|i| p.table_y_at(i)),
        table(|i| p.table_z_at(i)),
    ] {
        let mut sorted = t.clone();
        sorted.sort();
        let ident: Vec<u8> = (0..=255u8).collect();
        assert_eq!(sorted, ident);
    }
}

#[test]
fn lattice_is_xor_of_tables() {
    let p = Perlin::new();
    for &(x, y, z) in &[(0u8, 0u8, 0u8), (1, 2, 3), (255, 128, 64), (17, 17, 17)] {
        let expect = p.table_x_at(x) ^ p.table_y_at(y) ^ p.table_z_at(z);
        assert_eq!(p.lattice(x, y, z), expect);
    }
}

#[test]
fn independent_tables_differ_almost_surely() {
    // Two fresh shuffles of 256 entries coincide with probability 1/256!,
    // so equal tables mean the shuffle is not happening at all.
    let p = Perlin::new();
    let q = Perlin::new();
    let px = table(|i| p.table_x_at(i));
    let qx = table(|i| q.table_x_at(i));
    let ident: Vec<u8> = (0..=255u8).collect();
    assert!(px != ident || qx != ident);
}
