//! Data structures to describe crystal lattices: sites, vertex descriptors,
//! a builder, and iteration over all sites of a finite lattice.

use vstd::prelude::*;
use crate::util::super_mod;

verus! {

/// A site of a lattice. The cell says in which copy of the unit cell the
/// site lies, and the atom says which atom of the unit cell it is.
#[derive(Clone, Copy, Debug)]
pub struct Site {
    pub cell: (i64, i64, i64),
    pub atom: u32,
}

/// A vertex descriptor: an edge from atom `source` of one unit cell to atom
/// `target` of the unit cell displaced by `delta`.
#[derive(Clone, Copy, Debug)]
pub struct Vertex {
    pub source: u32,
    pub target: u32,
    pub delta: (i64, i64, i64),
}

/// A finite lattice: per-axis periodicity, a shape in unit cells, a number
/// of atoms per unit cell, and the vertex descriptors of its edges.
pub struct GridLattice {
    pbc: (bool, bool, bool),
    shape: (u32, u32, u32),
    natoms: u32,
    vertices: Vec<Vertex>,
}

/// Whether a cell coordinate is admissible along one axis: a periodic axis
/// admits every coordinate, a finite one only `0 <= c < s`.
pub open spec fn axis_admits(pbc: bool, c: int, s: int) -> bool {
    pbc || (0 <= c && c < s)
}

/// A coordinate folded into the first image along one axis.
pub open spec fn axis_fold(c: int, s: int) -> int {
    c % s
}

impl GridLattice {
    /// The lattice's per-axis periodicity.
    pub closed spec fn pbc_spec(&self) -> (bool, bool, bool) {
        self.pbc
    }

    /// The lattice's shape in unit cells.
    pub closed spec fn shape_spec(&self) -> (int, int, int) {
        (self.shape.0 as int, self.shape.1 as int, self.shape.2 as int)
    }

    /// The number of atoms per unit cell.
    pub closed spec fn natoms_spec(&self) -> int {
        self.natoms as int
    }

    /// The lattice's vertex descriptors.
    pub closed spec fn vertices_spec(&self) -> Seq<Vertex> {
        self.vertices@
    }

    /// A lattice is well formed when every periodic axis has a positive
    /// extent, so that coordinates can be folded into the first image.
    pub open spec fn wf(&self) -> bool {
        &&& self.pbc_spec().0 ==> self.shape_spec().0 > 0
        &&& self.pbc_spec().1 ==> self.shape_spec().1 > 0
        &&& self.pbc_spec().2 ==> self.shape_spec().2 > 0
    }

    /// Whether a site belongs to the lattice, up to periodic images.
    pub open spec fn admits(&self, site: Site) -> bool {
        &&& (site.atom as int) < self.natoms_spec()
        &&& axis_admits(self.pbc_spec().0, site.cell.0 as int, self.shape_spec().0)
        &&& axis_admits(self.pbc_spec().1, site.cell.1 as int, self.shape_spec().1)
        &&& axis_admits(self.pbc_spec().2, site.cell.2 as int, self.shape_spec().2)
    }

    /// The first-image representative of a site the lattice admits.
    pub open spec fn folded(&self, site: Site) -> Site {
        Site {
            cell: (
                axis_fold(site.cell.0 as int, self.shape_spec().0) as i64,
                axis_fold(site.cell.1 as int, self.shape_spec().1) as i64,
                axis_fold(site.cell.2 as int, self.shape_spec().2) as i64,
            ),
            atom: site.atom,
        }
    }

    /// Whether a site's cell coordinates lie within the first image.
    pub open spec fn in_first_image(&self, site: Site) -> bool {
        &&& 0 <= (site.cell.0 as int) < self.shape_spec().0
        &&& 0 <= (site.cell.1 as int) < self.shape_spec().1
        &&& 0 <= (site.cell.2 as int) < self.shape_spec().2
    }

    /// Whether every vertex displacement is small enough that following it
    /// from a first-image site cannot leave the machine's integer range.
    pub open spec fn deltas_bounded(&self) -> bool {
        forall|i: int| 0 <= i < self.vertices_spec().len()
            ==> #[trigger] vertex_delta_small(self.vertices_spec()[i])
    }

    /// The total number of sites of the lattice.
    pub open spec fn nsites_spec(&self) -> int {
        self.natoms_spec() * self.shape_spec().0 * self.shape_spec().1 * self.shape_spec().2
    }

    /// The linear index of a first-image site.
    pub open spec fn rank_of(&self, site: Site) -> int {
        let (sx, sy, _) = self.shape_spec();
        self.natoms_spec() * (sx * (sy * site.cell.2 + site.cell.1) + site.cell.0)
            + site.atom as int
    }

    /// Returns the representative of a site in the first image of the
    /// lattice according to its periodicity, and nothing when the site lies
    /// outside the lattice.
    pub fn inside(&self, site: &Site) -> (r: Option<Site>)
        requires
            self.wf(),
        ensures
            r is Some <==> self.admits(*site),
            r is Some ==> r == Some(self.folded(*site)),
            r is Some ==> self.in_first_image(self.folded(*site)),
    {
        if !(site.atom < self.natoms) {
            return None;
        }

        let (mut x, mut y, mut z) = site.cell;
        let (sx, sy, sz) = (
            self.shape.0 as i64,
            self.shape.1 as i64,
            self.shape.2 as i64,
        );

        if !self.pbc.0 && (x < 0 || sx <= x) {
            return None;
        } else if self.pbc.0 {
            x = super_mod(x, sx);
        } else {
            proof {
                vstd::arithmetic::div_mod::lemma_small_mod(x as nat, sx as nat);
            }
        }

        if !self.pbc.1 && (y < 0 || sy <= y) {
            return None;
        } else if self.pbc.1 {
            y = super_mod(y, sy);
        } else {
            proof {
                vstd::arithmetic::div_mod::lemma_small_mod(y as nat, sy as nat);
            }
        }

        if !self.pbc.2 && (z < 0 || sz <= z) {
            return None;
        } else if self.pbc.2 {
            z = super_mod(z, sz);
        } else {
            proof {
                vstd::arithmetic::div_mod::lemma_small_mod(z as nat, sz as nat);
            }
        }

        Some(Site { cell: (x, y, z), atom: site.atom })
    }

    /// An iterator over all sites of the lattice in linear-index order.
    pub fn sites(&self) -> (r: SiteIterator)
        requires
            self.wf(),
            self.shape_spec().0 * self.shape_spec().1 * self.shape_spec().2 <= u32::MAX,
        ensures
            r.wf(),
            r.shape() == self.shape_spec(),
            r.natoms() == self.natoms_spec(),
            r.rank() == 0,
    {
        SiteIterator::new(self)
    }

    /// The linear index of a site: sites are numbered atom-first within a
    /// unit cell, then by cell along x, then y, then z. Returns nothing when
    /// the site lies outside the lattice.
    pub fn index(&self, site: &Site) -> (r: Option<usize>)
        requires
            self.wf(),
            self.nsites_spec() <= usize::MAX,
        ensures
            r is Some <==> self.admits(*site),
            r is Some ==> r == Some(self.rank_of(self.folded(*site)) as usize),
            r is Some ==> 0 <= self.rank_of(self.folded(*site)) < self.nsites_spec(),
    {
        match self.inside(site) {
            None => None,
            Some(site) => {
                let atom = site.atom as usize;
                let natm = self.natoms as usize;
                let (sx, sy, sz) = (
                    self.shape.0 as usize,
                    self.shape.1 as usize,
                    self.shape.2 as usize,
                );
                let (cx, cy, cz) = (
                    site.cell.0 as usize,
                    site.cell.1 as usize,
                    site.cell.2 as usize,
                );
                proof {
                    lemma_rank_in_range(
                        natm as int, sx as int, sy as int, sz as int,
                        cx as int, cy as int, cz as int, atom as int);
                }
                Some(natm * (sx * (sy * cz + cy) + cx) + atom)
            },
        }
    }

    /// The first-image targets of every vertex that starts at the given
    /// site; vertices whose target falls outside the lattice are dropped.
    /// Returns nothing when the site itself lies outside the lattice.
    pub fn targets(&self, site: &Site) -> (r: Option<Vec<Site>>)
        requires
            self.wf(),
            self.deltas_bounded(),
        ensures
            r is Some <==> self.admits(*site),
            r is Some ==> r.unwrap()@
                == collect_targets(self, self.folded(*site), self.vertices_spec()),
    {
        match self.inside(site) {
            None => None,
            Some(site) => {
                let mut tgts: Vec<Site> = Vec::new();
                let n = self.vertices.len();
                for i in 0..n
                    invariant
                        self.wf(),
                        self.deltas_bounded(),
                        self.in_first_image(site),
                        n == self.vertices_spec().len(),
                        tgts@ == collect_targets(self, site, self.vertices_spec().take(i as int)),
                {
                    proof {
                        assert(vertex_delta_small(self.vertices_spec()[i as int]));
                        assert(self.vertices_spec().take(i + 1 as int).drop_last()
                            == self.vertices_spec().take(i as int));
                        assert(self.vertices_spec().take(i + 1 as int).last()
                            == self.vertices_spec()[i as int]);
                    }
                    let vx = &self.vertices[i];
                    match vx.target_for(&site) {
                        None => {},
                        Some(tgt) => {
                            match self.inside(&tgt) {
                                None => {},
                                Some(tgt) => tgts.push(tgt),
                            }
                        },
                    }
                }
                proof {
                    assert(self.vertices_spec().take(n as int) == self.vertices_spec());
                }
                Some(tgts)
            },
        }
    }
}

/// Whether each component of a vertex displacement stays below the headroom
/// left above a first-image coordinate in a 64-bit signed integer.
pub open spec fn vertex_delta_small(v: Vertex) -> bool {
    &&& -0x7fff_ffff_0000_0000 <= (v.delta.0 as int) <= 0x7fff_ffff_0000_0000
    &&& -0x7fff_ffff_0000_0000 <= (v.delta.1 as int) <= 0x7fff_ffff_0000_0000
    &&& -0x7fff_ffff_0000_0000 <= (v.delta.2 as int) <= 0x7fff_ffff_0000_0000
}

/// The targets collected by walking the vertex list in order: for each vertex
/// that starts at the site's atom and whose displaced target the lattice
/// admits, the first-image representative of that target.
pub open spec fn collect_targets(latt: &GridLattice, site: Site, vs: Seq<Vertex>) -> Seq<Site>
    decreases vs.len(),
{
    if vs.len() == 0 {
        Seq::empty()
    } else {
        let earlier = collect_targets(latt, site, vs.drop_last());
        match vs.last().target_spec(site) {
            None => earlier,
            Some(tgt) => if latt.admits(tgt) {
                earlier.push(latt.folded(tgt))
            } else {
                earlier
            },
        }
    }
}

/// The rank formula stays within the total number of sites.
proof fn lemma_rank_in_range(
    natm: int, sx: int, sy: int, sz: int, cx: int, cy: int, cz: int, atom: int,
)
    requires
        0 <= cx < sx,
        0 <= cy < sy,
        0 <= cz < sz,
        0 <= atom < natm,
    ensures
        0 <= sy * cz + cy < sy * sz,
        0 <= sx * (sy * cz + cy) + cx < sx * sy * sz,
        0 <= natm * (sx * (sy * cz + cy) + cx) + atom < natm * sx * sy * sz,
        sy * sz <= natm * sx * sy * sz,
        sx * sy * sz <= natm * sx * sy * sz,
        sx * (sy * sz) == sx * sy * sz,
{
    assert(0 <= sy * cz + cy < sy * sz
        && 0 <= sx * (sy * cz + cy) + cx < sx * (sy * sz)
        && 0 <= natm * (sx * (sy * cz + cy) + cx) + atom < natm * (sx * (sy * sz))
        && sy * sz <= natm * (sx * (sy * sz))
        && sx * (sy * sz) <= natm * (sx * (sy * sz))
        && sx * (sy * sz) == sx * sy * sz
        && natm * (sx * (sy * sz)) == natm * sx * sy * sz)
        by (nonlinear_arith)
        requires
            0 <= cx < sx,
            0 <= cy < sy,
            0 <= cz < sz,
            0 <= atom < natm,
    ;
}

impl Vertex {
    /// The site this vertex points at when it starts at the given site:
    /// nothing when the atoms do not match, otherwise the target atom in the
    /// cell displaced by the vertex's delta.
    pub open spec fn target_spec(&self, site: Site) -> Option<Site> {
        if site.atom != self.source {
            None
        } else {
            Some(Site {
                cell: (
                    (site.cell.0 + self.delta.0) as i64,
                    (site.cell.1 + self.delta.1) as i64,
                    (site.cell.2 + self.delta.2) as i64,
                ),
                atom: self.target,
            })
        }
    }

    /// The target site of this vertex when followed from the given site.
    pub fn target_for(&self, site: &Site) -> (r: Option<Site>)
        requires
            i64::MIN <= site.cell.0 + self.delta.0 <= i64::MAX,
            i64::MIN <= site.cell.1 + self.delta.1 <= i64::MAX,
            i64::MIN <= site.cell.2 + self.delta.2 <= i64::MAX,
        ensures
            r == self.target_spec(*site),
    {
        if site.atom != self.source {
            return None;
        }
        Some(Site {
            cell: (
                site.cell.0 + self.delta.0,
                site.cell.1 + self.delta.1,
                site.cell.2 + self.delta.2,
            ),
            atom: self.target,
        })
    }

    /// The six nearest-neighbour vertices of a simple cubic lattice.
    pub fn list_for_cubic() -> (r: Vec<Vertex>)
        ensures
            r@ == cubic_vertices(),
    {
        let r = vec![
            Vertex { source: 0, target: 0, delta: (1i64, 0i64, 0i64) },
            Vertex { source: 0, target: 0, delta: (0i64, 1i64, 0i64) },
            Vertex { source: 0, target: 0, delta: (0i64, 0i64, 1i64) },
            Vertex { source: 0, target: 0, delta: (-1i64, 0i64, 0i64) },
            Vertex { source: 0, target: 0, delta: (0i64, -1i64, 0i64) },
            Vertex { source: 0, target: 0, delta: (0i64, 0i64, -1i64) },
        ];
        proof {
            assert(r@ =~= cubic_vertices());
        }
        r
    }

    /// The vertices of a hexagonal close packed lattice with two atoms per
    /// unit cell: in-plane neighbours of both atoms and the out-of-plane
    /// neighbours that couple them.
    pub fn list_for_hcp() -> (r: Vec<Vertex>)
        ensures
            r@ == hcp_vertices(),
    {
        let r = vec![
            Vertex { source: 0, target: 0, delta: (1i64, 0i64, 0i64) },
            Vertex { source: 0, target: 0, delta: (0i64, 1i64, 0i64) },
            Vertex { source: 0, target: 0, delta: (1i64, 1i64, 0i64) },
            Vertex { source: 0, target: 0, delta: (-1i64, 0i64, 0i64) },
            Vertex { source: 0, target: 0, delta: (0i64, -1i64, 0i64) },
            Vertex { source: 0, target: 0, delta: (-1i64, -1i64, 0i64) },
            Vertex { source: 1, target: 1, delta: (1i64, 0i64, 0i64) },
            Vertex { source: 1, target: 1, delta: (0i64, 1i64, 0i64) },
            Vertex { source: 1, target: 1, delta: (1i64, 1i64, 0i64) },
            Vertex { source: 1, target: 1, delta: (-1i64, 0i64, 0i64) },
            Vertex { source: 1, target: 1, delta: (0i64, -1i64, 0i64) },
            Vertex { source: 1, target: 1, delta: (-1i64, -1i64, 0i64) },
            Vertex { source: 0, target: 1, delta: (0i64, 0i64, 0i64) },
            Vertex { source: 0, target: 1, delta: (-1i64, 0i64, 0i64) },
            Vertex { source: 0, target: 1, delta: (-1i64, -1i64, 0i64) },
            Vertex { source: 0, target: 1, delta: (0i64, 0i64, -1i64) },
            Vertex { source: 0, target: 1, delta: (-1i64, 0i64, -1i64) },
            Vertex { source: 0, target: 1, delta: (-1i64, -1i64, -1i64) },
            Vertex { source: 1, target: 0, delta: (0i64, 0i64, 0i64) },
            Vertex { source: 1, target: 0, delta: (1i64, 0i64, 0i64) },
            Vertex { source: 1, target: 0, delta: (1i64, 1i64, 0i64) },
            Vertex { source: 1, target: 0, delta: (0i64, 0i64, 1i64) },
            Vertex { source: 1, target: 0, delta: (1i64, 0i64, 1i64) },
            Vertex { source: 1, target: 0, delta: (1i64, 1i64, 1i64) },
        ];
        proof {
            assert(r@ =~= hcp_vertices());
        }
        r
    }

    /// The vertices of a honeycomb lattice with two atoms per unit cell,
    /// stacked along z.
    pub fn list_for_honeycomb() -> (r: Vec<Vertex>)
        ensures
            r@ == honeycomb_vertices(),
    {
        let r = vec![
            Vertex { source: 0, target: 1, delta: (0i64, 0i64, 0i64) },
            Vertex { source: 1, target: 0, delta: (0i64, 0i64, 0i64) },
            Vertex { source: 0, target: 1, delta: (1i64, 0i64, 0i64) },
            Vertex { source: 1, target: 0, delta: (0i64, 1i64, 0i64) },
            Vertex { source: 0, target: 1, delta: (-1i64, 0i64, 0i64) },
            Vertex { source: 1, target: 0, delta: (0i64, -1i64, 0i64) },
            Vertex { source: 0, target: 0, delta: (0i64, 0i64, 1i64) },
            Vertex { source: 1, target: 1, delta: (0i64, 0i64, 1i64) },
            Vertex { source: 0, target: 0, delta: (0i64, 0i64, -1i64) },
            Vertex { source: 1, target: 1, delta: (0i64, 0i64, -1i64) },
        ];
        proof {
            assert(r@ =~= honeycomb_vertices());
        }
        r
    }
}

/// The six nearest-neighbour vertex descriptors of a simple cubic lattice.
pub open spec fn cubic_vertices() -> Seq<Vertex> {
    seq![
        Vertex { source: 0, target: 0, delta: (1i64, 0i64, 0i64) },
        Vertex { source: 0, target: 0, delta: (0i64, 1i64, 0i64) },
        Vertex { source: 0, target: 0, delta: (0i64, 0i64, 1i64) },
        Vertex { source: 0, target: 0, delta: (-1i64, 0i64, 0i64) },
        Vertex { source: 0, target: 0, delta: (0i64, -1i64, 0i64) },
        Vertex { source: 0, target: 0, delta: (0i64, 0i64, -1i64) },
    ]
}

/// The vertex descriptors of a hexagonal close packed lattice.
pub open spec fn hcp_vertices() -> Seq<Vertex> {
    seq![
        Vertex { source: 0, target: 0, delta: (1i64, 0i64, 0i64) },
        Vertex { source: 0, target: 0, delta: (0i64, 1i64, 0i64) },
        Vertex { source: 0, target: 0, delta: (1i64, 1i64, 0i64) },
        Vertex { source: 0, target: 0, delta: (-1i64, 0i64, 0i64) },
        Vertex { source: 0, target: 0, delta: (0i64, -1i64, 0i64) },
        Vertex { source: 0, target: 0, delta: (-1i64, -1i64, 0i64) },
        Vertex { source: 1, target: 1, delta: (1i64, 0i64, 0i64) },
        Vertex { source: 1, target: 1, delta: (0i64, 1i64, 0i64) },
        Vertex { source: 1, target: 1, delta: (1i64, 1i64, 0i64) },
        Vertex { source: 1, target: 1, delta: (-1i64, 0i64, 0i64) },
        Vertex { source: 1, target: 1, delta: (0i64, -1i64, 0i64) },
        Vertex { source: 1, target: 1, delta: (-1i64, -1i64, 0i64) },
        Vertex { source: 0, target: 1, delta: (0i64, 0i64, 0i64) },
        Vertex { source: 0, target: 1, delta: (-1i64, 0i64, 0i64) },
        Vertex { source: 0, target: 1, delta: (-1i64, -1i64, 0i64) },
        Vertex { source: 0, target: 1, delta: (0i64, 0i64, -1i64) },
        Vertex { source: 0, target: 1, delta: (-1i64, 0i64, -1i64) },
        Vertex { source: 0, target: 1, delta: (-1i64, -1i64, -1i64) },
        Vertex { source: 1, target: 0, delta: (0i64, 0i64, 0i64) },
        Vertex { source: 1, target: 0, delta: (1i64, 0i64, 0i64) },
        Vertex { source: 1, target: 0, delta: (1i64, 1i64, 0i64) },
        Vertex { source: 1, target: 0, delta: (0i64, 0i64, 1i64) },
        Vertex { source: 1, target: 0, delta: (1i64, 0i64, 1i64) },
        Vertex { source: 1, target: 0, delta: (1i64, 1i64, 1i64) },
    ]
}

/// The vertex descriptors of a honeycomb lattice stacked along z.
pub open spec fn honeycomb_vertices() -> Seq<Vertex> {
    seq![
        Vertex { source: 0, target: 1, delta: (0i64, 0i64, 0i64) },
        Vertex { source: 1, target: 0, delta: (0i64, 0i64, 0i64) },
        Vertex { source: 0, target: 1, delta: (1i64, 0i64, 0i64) },
        Vertex { source: 1, target: 0, delta: (0i64, 1i64, 0i64) },
        Vertex { source: 0, target: 1, delta: (-1i64, 0i64, 0i64) },
        Vertex { source: 1, target: 0, delta: (0i64, -1i64, 0i64) },
        Vertex { source: 0, target: 0, delta: (0i64, 0i64, 1i64) },
        Vertex { source: 1, target: 1, delta: (0i64, 0i64, 1i64) },
        Vertex { source: 0, target: 0, delta: (0i64, 0i64, -1i64) },
        Vertex { source: 1, target: 1, delta: (0i64, 0i64, -1i64) },
    ]
}

/// A builder for lattices, with a ten-by-ten-by-ten periodic single-atom
/// default.
pub struct LatticeBuilder {
    pub pbc: (bool, bool, bool),
    pub shape: (u32, u32, u32),
    pub natoms: u32,
    pub vertices: Vec<Vertex>,
}

impl LatticeBuilder {
    /// Start from the default lattice description.
    pub fn new() -> (r: LatticeBuilder)
        ensures
            r.pbc == (true, true, true),
            r.shape == (10u32, 10u32, 10u32),
            r.natoms == 1u32,
            r.vertices@ == Seq::<Vertex>::empty(),
    {
        LatticeBuilder {
            pbc: (true, true, true),
            shape: (10u32, 10u32, 10u32),
            natoms: 1u32,
            vertices: Vec::new(),
        }
    }

    /// Choose the per-axis periodicity.
    pub fn pbc(self, pbc: (bool, bool, bool)) -> (r: LatticeBuilder)
        ensures
            r.pbc == pbc,
            r.shape == self.shape,
            r.natoms == self.natoms,
            r.vertices@ == self.vertices@,
    {
        LatticeBuilder { pbc, ..self }
    }

    /// Choose the shape in unit cells.
    pub fn shape(self, shape: (u32, u32, u32)) -> (r: LatticeBuilder)
        ensures
            r.pbc == self.pbc,
            r.shape == shape,
            r.natoms == self.natoms,
            r.vertices@ == self.vertices@,
    {
        LatticeBuilder { shape, ..self }
    }

    /// Choose the number of atoms per unit cell.
    pub fn natoms(self, natoms: u32) -> (r: LatticeBuilder)
        ensures
            r.pbc == self.pbc,
            r.shape == self.shape,
            r.natoms == natoms,
            r.vertices@ == self.vertices@,
    {
        LatticeBuilder { natoms, ..self }
    }

    /// Choose the vertex descriptors.
    pub fn vertices(self, vertices: Vec<Vertex>) -> (r: LatticeBuilder)
        ensures
            r.pbc == self.pbc,
            r.shape == self.shape,
            r.natoms == self.natoms,
            r.vertices@ == vertices@,
    {
        LatticeBuilder { vertices, ..self }
    }

    /// Produce the described lattice.
    pub fn finalize(self) -> (r: GridLattice)
        ensures
            r.pbc_spec() == self.pbc,
            r.shape_spec() == (self.shape.0 as int, self.shape.1 as int, self.shape.2 as int),
            r.natoms_spec() == self.natoms as int,
            r.vertices_spec() == self.vertices@,
    {
        GridLattice {
            pbc: self.pbc,
            shape: self.shape,
            natoms: self.natoms,
            vertices: self.vertices,
        }
    }
}

/// Iterates over the unit cells of a lattice in linear order: x fastest,
/// then y, then z.
pub struct CellIterator {
    cur: u32,
    max: (u32, u32, u32),
}

/// The cell with a given linear rank inside a shape.
pub open spec fn cell_of_rank(shape: (int, int, int), k: int) -> (int, int, int) {
    (k % shape.0, (k / shape.0) % shape.1, k / shape.0 / shape.1)
}

impl CellIterator {
    /// The shape this iterator walks.
    pub closed spec fn shape(&self) -> (int, int, int) {
        (self.max.0 as int, self.max.1 as int, self.max.2 as int)
    }

    /// How many cells were already yielded.
    pub closed spec fn rank(&self) -> int {
        self.cur as int
    }

    /// The total number of cells.
    pub open spec fn ncells(&self) -> int {
        self.shape().0 * self.shape().1 * self.shape().2
    }

    /// The iterator's state stays meaningful: the rank never passes the
    /// total, and the total fits the counter.
    pub open spec fn wf(&self) -> bool {
        0 <= self.rank() <= self.ncells() && self.ncells() <= u32::MAX
    }

    /// A fresh iterator over the cells of a lattice.
    pub fn new(lattice: &GridLattice) -> (r: CellIterator)
        requires
            lattice.shape_spec().0 * lattice.shape_spec().1 * lattice.shape_spec().2
                <= u32::MAX,
        ensures
            r.wf(),
            r.rank() == 0,
            r.shape() == lattice.shape_spec(),
    {
        CellIterator { cur: 0, max: lattice.shape }
    }

    /// The next cell, or nothing once all cells were yielded.
    pub fn next(&mut self) -> (r: Option<(u32, u32, u32)>)
        requires
            old(self).wf(),
        ensures
            final(self).wf(),
            final(self).shape() == old(self).shape(),
            old(self).rank() < old(self).ncells() ==> {
                &&& r is Some
                &&& {
                    let (x, y, z) = cell_of_rank(old(self).shape(), old(self).rank());
                    r == Some((x as u32, y as u32, z as u32))
                }
                &&& final(self).rank() == old(self).rank() + 1
            },
            old(self).rank() == old(self).ncells() ==> r is None
                && *final(self) == *old(self),
    {
        proof {
            let (a, b, c) = (self.max.0 as int, self.max.1 as int, self.max.2 as int);
            assert(a * b <= 0xffff_ffff * 0xffff_ffff
                && a * b * c <= 0xffff_ffff * 0xffff_ffff * 0xffff_ffff)
                by (nonlinear_arith)
                requires
                    0 <= a <= 0xffff_ffff,
                    0 <= b <= 0xffff_ffff,
                    0 <= c <= 0xffff_ffff,
            ;
        }
        let total: u128 =
            (self.max.0 as u128) * (self.max.1 as u128) * (self.max.2 as u128);
        if self.cur as u128 == total {
            return None;
        }
        proof {
            lemma_cell_of_rank_bounds(self.shape(), self.rank());
        }
        let x = self.cur % self.max.0;
        let y = (self.cur / self.max.0) % self.max.1;
        let z = self.cur / self.max.0 / self.max.1;
        self.cur = self.cur + 1;
        Some((x, y, z))
    }
}

/// A rank below the cell total decomposes into in-range coordinates.
proof fn lemma_cell_of_rank_bounds(shape: (int, int, int), k: int)
    requires
        0 <= shape.0,
        0 <= shape.1,
        0 <= shape.2,
        0 <= k < shape.0 * shape.1 * shape.2,
        shape.0 * shape.1 * shape.2 <= u32::MAX,
    ensures
        shape.0 > 0 && shape.1 > 0 && shape.2 > 0,
        0 <= cell_of_rank(shape, k).0 < shape.0,
        0 <= cell_of_rank(shape, k).1 < shape.1,
        0 <= cell_of_rank(shape, k).2 < shape.2,
{
    let (a, b, c) = shape;
    assert(a > 0 && b > 0 && c > 0) by (nonlinear_arith)
        requires
            0 <= a,
            0 <= b,
            0 <= c,
            0 <= k < a * b * c,
    ;
    vstd::arithmetic::div_mod::lemma_mod_division_less_than_divisor(k, a);
    vstd::arithmetic::div_mod::lemma_mod_division_less_than_divisor(k / a, b);
    vstd::arithmetic::div_mod::lemma_div_pos_is_pos(k, a);
    vstd::arithmetic::div_mod::lemma_div_pos_is_pos(k / a, b);
    assert(k / a / b < c) by {
        assert(k <= a * (b * c) - 1) by (nonlinear_arith)
            requires k < a * b * c,
        ;
        vstd::arithmetic::div_mod::lemma_div_is_ordered(k, a * (b * c) - 1, a);
        assert((a * (b * c) - 1) / a == b * c - 1) by {
            assert(a * (b * c) - 1 == a * (b * c - 1) + (a - 1)) by (nonlinear_arith);
            vstd::arithmetic::div_mod::lemma_fundamental_div_mod_converse(
                a * (b * c) - 1, a, b * c - 1, a - 1);
        }
        vstd::arithmetic::div_mod::lemma_div_is_ordered(k / a, b * c - 1, b);
        assert((b * c - 1) / b == c - 1) by {
            assert(b * c - 1 == b * (c - 1) + (b - 1)) by (nonlinear_arith);
            vstd::arithmetic::div_mod::lemma_fundamental_div_mod_converse(
                b * c - 1, b, c - 1, b - 1);
        }
    }
}

/// Iterates over the sites of a lattice in linear-index order: atoms within
/// a unit cell first, then cell by cell.
pub struct SiteIterator {
    cell_it: CellIterator,
    cur_cell: Option<(u32, u32, u32)>,
    cur_at: u32,
    max_at: u32,
}

impl SiteIterator {
    /// The shape this iterator walks.
    pub closed spec fn shape(&self) -> (int, int, int) {
        self.cell_it.shape()
    }

    /// The number of atoms per unit cell.
    pub closed spec fn natoms(&self) -> int {
        self.max_at as int
    }

    /// The total number of sites.
    pub closed spec fn nsites(&self) -> int {
        self.natoms() * self.cell_it.ncells()
    }

    /// How many sites were already yielded.
    pub closed spec fn rank(&self) -> int {
        if self.cur_cell is None {
            self.nsites()
        } else {
            (self.cell_it.rank() - 1) * self.natoms() + self.cur_at as int
        }
    }

    /// The iterator's state stays meaningful: the cached cell is the one the
    /// cell iterator yielded last, and the atom counter never passes the
    /// atom total.
    pub closed spec fn iter_inv(&self) -> bool {
        &&& self.cell_it.wf()
        &&& match self.cur_cell {
            None => self.cell_it.rank() == self.cell_it.ncells(),
            Some(c) => {
                &&& self.cell_it.rank() >= 1
                &&& {
                    let (x, y, z) = cell_of_rank(
                        self.cell_it.shape(), self.cell_it.rank() - 1);
                    c == ((x as u32, y as u32, z as u32))
                }
                &&& self.cur_at as int <= self.natoms()
            },
        }
    }

    /// Shorthand for a meaningful iterator state with the rank in range.
    pub open spec fn wf(&self) -> bool {
        self.iter_inv() && 0 <= self.rank() <= self.nsites()
    }

    /// A fresh iterator over the sites of a lattice.
    pub fn new(lattice: &GridLattice) -> (r: SiteIterator)
        requires
            lattice.shape_spec().0 * lattice.shape_spec().1 * lattice.shape_spec().2
                <= u32::MAX,
        ensures
            r.wf(),
            r.rank() == 0,
            r.shape() == lattice.shape_spec(),
            r.natoms() == lattice.natoms_spec(),
    {
        let mut iter = CellIterator::new(lattice);
        let first = iter.next();
        proof {
            let n = lattice.natoms_spec();
            assert((1 - 1) * n == 0 && n * 0 == 0) by (nonlinear_arith);
        }
        let r = SiteIterator {
            cur_cell: first,
            cell_it: iter,
            cur_at: 0,
            max_at: lattice.natoms,
        };
        proof {
            lemma_rank_nonneg_and_bounded(&r);
        }
        r
    }

    /// The next site, or nothing once all sites were yielded. A lattice with
    /// no atoms per cell has no sites.
    pub fn next(&mut self) -> (r: Option<Site>)
        requires
            old(self).wf(),
        ensures
            final(self).wf(),
            final(self).shape() == old(self).shape(),
            final(self).natoms() == old(self).natoms(),
            old(self).rank() < old(self).nsites() ==> {
                &&& r == Some(site_of_rank(
                    old(self).shape(), old(self).natoms(), old(self).rank()))
                &&& final(self).rank() == old(self).rank() + 1
            },
            old(self).rank() == old(self).nsites() ==> r is None
                && final(self).rank() == old(self).rank(),
    {
        if self.max_at == 0 {
            proof {
                lemma_rank_times_zero(self);
            }
            return None;
        }
        if self.cur_at == self.max_at {
            match self.cur_cell {
                None => {
                    return None;
                },
                Some(_) => {},
            }
            proof {
                let n = self.natoms();
                let kc = self.cell_it.rank() - 1;
                assert(kc * n + n == (kc + 1) * n) by (nonlinear_arith);
                assert((kc + 1) * n < n * self.cell_it.ncells() ==> kc + 1
                    < self.cell_it.ncells()) by (nonlinear_arith)
                    requires n > 0,
                ;
            }
            self.cur_at = 0;
            self.cur_cell = self.cell_it.next();
        }
        let at = self.cur_at;
        match self.cur_cell {
            None => {
                proof {
                    let n = old(self).natoms();
                    if old(self).cur_at == old(self).max_at && old(self).cur_cell is Some {
                        let c0 = old(self).cell_it.rank();
                        assert((c0 - 1) * n + n == c0 * n) by (nonlinear_arith);
                        assert(c0 * n == n * self.cell_it.ncells()) by (nonlinear_arith)
                            requires c0 == self.cell_it.ncells(),
                        ;
                    }
                }
                None
            },
            Some((x, y, z)) => {
                self.cur_at = self.cur_at + 1;
                proof {
                    let n = old(self).natoms();
                    let kc = self.cell_it.rank() - 1;
                    let k = old(self).rank();
                    if old(self).cur_at < old(self).max_at {
                        lemma_rank_split(kc, old(self).cur_at as int, n);
                    } else {
                        assert((kc - 1) * n + n == kc * n) by (nonlinear_arith);
                        lemma_rank_split(kc, 0, n);
                    }
                    lemma_cell_of_rank_bounds(old(self).shape(), kc);
                    lemma_rank_nonneg_and_bounded(self);
                }
                Some(Site {
                    cell: (x as i64, y as i64, z as i64),
                    atom: at,
                })
            },
        }
    }
}

/// The site with a given linear rank: its atom is the rank modulo the atom
/// count, its cell the cell whose rank is the quotient.
pub open spec fn site_of_rank(shape: (int, int, int), natoms: int, k: int) -> Site {
    let (x, y, z) = cell_of_rank(shape, k / natoms);
    Site {
        cell: (x as i64, y as i64, z as i64),
        atom: (k % natoms) as u32,
    }
}

/// A meaningful site-iterator state keeps its rank between zero and the
/// site total.
proof fn lemma_rank_nonneg_and_bounded(it: &SiteIterator)
    requires
        it.iter_inv(),
    ensures
        0 <= it.rank() <= it.nsites(),
{
    match it.cur_cell {
        None => {},
        Some(_) => {
            let kc = it.cell_it.rank() - 1;
            let n = it.natoms();
            assert(0 <= kc * n && kc * n + it.cur_at as int <= it.nsites())
                by (nonlinear_arith)
                requires
                    0 <= kc < it.cell_it.ncells(),
                    0 <= it.cur_at as int <= n,
                    it.nsites() == n * it.cell_it.ncells(),
            ;
        },
    }
}

/// A linear rank written as cell rank times atom count plus an in-range atom
/// index recovers both through division by the atom count.
proof fn lemma_rank_split(q: int, r: int, n: int)
    requires
        n > 0,
        0 <= r < n,
        0 <= q,
    ensures
        (q * n + r) / n == q,
        (q * n + r) % n == r,
{
    assert(q * n + r == q * n + r && q * n + r == n * q + r) by (nonlinear_arith);
    vstd::arithmetic::div_mod::lemma_fundamental_div_mod_converse(q * n + r, n, q, r);
}

/// An iterator over a lattice with no atoms per cell has rank zero and no
/// sites at all.
proof fn lemma_rank_times_zero(it: &SiteIterator)
    requires
        it.iter_inv(),
        it.natoms() == 0,
    ensures
        it.rank() == it.nsites(),
{
    match it.cur_cell {
        None => {},
        Some(_) => {
            assert((it.cell_it.rank() - 1) * 0 == 0) by (nonlinear_arith);
            assert(0 * it.cell_it.ncells() == 0) by (nonlinear_arith);
        },
    }
}

} // verus!
