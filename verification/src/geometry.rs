//! The lattice-geometry collaborator.
//!
//! Unit cells, their periodic expansion and the dropping of periodic
//! boundaries come from the vegas-lattice crate. The engine reads only two
//! things out of a geometry: how many sites it has and the endpoint pairs of
//! its edges; both are given names here so that everything built on top of
//! them carries exact contracts.

use vstd::prelude::*;

verus! {

#[verifier::external_type_specification]
#[verifier::external_body]
pub struct ExLattice(vegas_lattice::Lattice);

/// The number of sites of a geometry.
pub uninterp spec fn lattice_sites(l: &vegas_lattice::Lattice) -> nat;

/// The endpoint pairs of a geometry's edges, in list order.
pub uninterp spec fn lattice_edges(l: &vegas_lattice::Lattice) -> Seq<(usize, usize)>;

/// Relies on vegas_lattice::Lattice::sites returning the site list.
#[verifier::external_body]
pub fn site_count(l: &vegas_lattice::Lattice) -> (r: usize)
    ensures
        r == lattice_sites(l),
{
    l.sites().len()
}

/// Relies on vegas_lattice::Lattice::edges returning the edge list; each
/// edge is reduced to its source and target site indices.
#[verifier::external_body]
pub fn edge_endpoints(l: &vegas_lattice::Lattice) -> (r: Vec<(usize, usize)>)
    ensures
        r@ == lattice_edges(l),
        r@.len() == lattice_edges(l).len(),
{
    l.edges().iter().map(|e| (e.source(), e.target())).collect()
}

/// Relies on vegas_lattice::Lattice::expand, which replicates the lattice
/// the given number of times along each axis, so sites and edges multiply.
#[verifier::external_body]
pub fn expand(l: vegas_lattice::Lattice, x: usize, y: usize, z: usize)
    -> (r: vegas_lattice::Lattice)
    ensures
        lattice_sites(&r) == lattice_sites(&l) * x * y * z,
        lattice_edges(&r).len() == lattice_edges(&l).len() * x * y * z,
{
    l.expand(x, y, z)
}

/// Relies on vegas_lattice::Lattice::drop_x, which removes the edges that
/// wrap around along x and keeps every site.
#[verifier::external_body]
pub fn drop_x(l: vegas_lattice::Lattice) -> (r: vegas_lattice::Lattice)
    ensures
        lattice_sites(&r) == lattice_sites(&l),
{
    l.drop_x()
}

/// Relies on vegas_lattice::Lattice::drop_y, which removes the edges that
/// wrap around along y and keeps every site.
#[verifier::external_body]
pub fn drop_y(l: vegas_lattice::Lattice) -> (r: vegas_lattice::Lattice)
    ensures
        lattice_sites(&r) == lattice_sites(&l),
{
    l.drop_y()
}

/// Relies on vegas_lattice::Lattice::drop_z, which removes the edges that
/// wrap around along z and keeps every site.
#[verifier::external_body]
pub fn drop_z(l: vegas_lattice::Lattice) -> (r: vegas_lattice::Lattice)
    ensures
        lattice_sites(&r) == lattice_sites(&l),
{
    l.drop_z()
}

} // verus!
