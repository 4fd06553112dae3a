//! Tests for the lattice structures and the site iterators.

use vegas::lattice::{LatticeBuilder, Site, Vertex};
use vegas::sites::SiteIterator;
use vegas::util::super_mod;

fn drain(mut it: SiteIterator) -> Vec<Vec<usize>> {
    let mut out = Vec::new();
    while let Some(x) = it.next() {
        out.push(x);
    }
    out
}

#[test]
fn testing_the_inside() {
    let latt = LatticeBuilder::new()
        .pbc((true, true, false))
        .vertices(Vertex::list_for_cubic())
        .finalize();
    assert!(latt.inside(&Site { cell: (10, 10, 9), atom: 0 }).is_some());
    assert!(latt.inside(&Site { cell: (10, -1, 9), atom: 0 }).is_some());
    assert!(latt.inside(&Site { cell: (10, 10, 10), atom: 0 }).is_none());
    assert!(latt.inside(&Site { cell: (10, 10, 9), atom: 2 }).is_none());
}

#[test]
fn super_mod_works_as_in_python() {
    assert_eq!(0, super_mod(10, 10));
    assert_eq!(1, super_mod(1, 10));
    assert_eq!(1, super_mod(-9, 10));
    assert_eq!(9, super_mod(-1, 10));
}

#[test]
fn from_main() {
    assert_eq!(9, super_mod(-1, 10));
    assert_eq!(9, super_mod(-11, 10));
    assert_eq!(0, super_mod(-10, 10));
}

#[test]
fn test_new() {
    let s = SiteIterator::new(vec![1, 1, 1]);
    assert!(s.current == vec![0, 0, 0]);
}

#[test]
fn iter_over_zero_sized_yields_empty() {
    let s = SiteIterator::new(vec![0]);
    assert!(drain(s).len() == 0);
}

#[test]
fn simple_site_iterator() {
    let s = SiteIterator::new(vec![1]);
    assert!(drain(s).len() == 1);
}

#[test]
fn complex_site_iterator() {
    let s = SiteIterator::new(vec![10, 2]);
    let sites = drain(s);
    assert!(sites.len() == 20);
}

#[test]
fn more_complex_site_iterator() {
    let s = SiteIterator::new(vec![10, 10]);
    let sites = drain(s);
    assert!(sites.len() == 100);
}

#[test]
fn another_trivial_iterator() {
    let s = SiteIterator::new(vec![]);
    assert!(drain(s).len() == 0);
}

#[test]
fn index_numbers_sites_atom_first() {
    let latt = LatticeBuilder::new()
        .vertices(Vertex::list_for_cubic())
        .finalize();
    assert_eq!(latt.index(&Site { cell: (1, 2, 3), atom: 0 }), Some(321));
    assert_eq!(latt.index(&Site { cell: (0, 0, 0), atom: 0 }), Some(0));
    assert_eq!(latt.index(&Site { cell: (-1, 0, 0), atom: 0 }), Some(9));
}

#[test]
fn cubic_sites_have_six_targets() {
    let latt = LatticeBuilder::new()
        .vertices(Vertex::list_for_cubic())
        .finalize();
    let tgts = latt.targets(&Site { cell: (3, 4, 5), atom: 0 }).unwrap();
    assert_eq!(tgts.len(), 6);
}

#[test]
fn site_iteration_covers_the_lattice() {
    let latt = LatticeBuilder::new()
        .shape((3, 2, 2))
        .natoms(2)
        .vertices(Vertex::list_for_honeycomb())
        .finalize();
    let mut it = latt.sites();
    let mut count = 0;
    while let Some(site) = it.next() {
        assert!(latt.inside(&site).is_some());
        count += 1;
    }
    assert_eq!(count, 3 * 2 * 2 * 2);
}

#[test]
fn vertex_lists_have_documented_sizes() {
    assert_eq!(Vertex::list_for_cubic().len(), 6);
    assert_eq!(Vertex::list_for_hcp().len(), 24);
    assert_eq!(Vertex::list_for_honeycomb().len(), 10);
}
