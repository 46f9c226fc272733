//! Planning of the rendered scene.
//!
//! Walking the grid in x-outer, z-middle, y-inner order, the planner emits
//! one cube per cell and, for cells that carry a pipe, one prism for the
//! entry direction and one for the exit direction.  A separate pass draws a
//! random color for every block label, so that cells of one label share a
//! material.

use vstd::prelude::*;
use vstd::slice::slice_to_vec;
use crate::direction::COORD_LIMIT;
use crate::direction::Direction;
use crate::layout::Config;
use crate::layout::Coord;
use crate::layout::CoordMap;
use crate::layout::LabelMap;
use crate::layout::coord_at;

verus! {

/// An RGB color with 8-bit channels.
#[derive(PartialEq, Eq, Structural, Clone, Copy, Debug)]
pub struct Color {
    pub r: u8,
    pub g: u8,
    pub b: u8,
}

/// A unit cube to spawn: its cell, and the label whose material it uses.
pub struct CubeSpawn {
    pub x: usize,
    pub y: usize,
    pub z: usize,
    pub label: Vec<u8>,
}

/// A pipe prism to spawn: its extents and its center, in thousandths of a
/// grid unit.
#[derive(PartialEq, Eq, Structural, Clone, Copy, Debug)]
pub struct PipeSpawn {
    pub width: u64,
    pub height: u64,
    pub depth: u64,
    pub cx: u64,
    pub cy: u64,
    pub cz: u64,
}

/// What a cube says: which cell it fills and which label's material it uses.
pub open spec fn cube_view(c: CubeSpawn) -> (Coord, Seq<u8>) {
    (Coord { x: c.x, y: c.y, z: c.z }, c.label@)
}

/// The cells and labels of a list of cubes.
pub open spec fn cubes_view(cs: Seq<CubeSpawn>) -> Seq<(Coord, Seq<u8>)> {
    cs.map_values(|c: CubeSpawn| cube_view(c))
}

/// Every cell of the configured grid has a label in `m`.
pub open spec fn covers(m: Map<Coord, Vec<u8>>, cfg: Config) -> bool {
    forall|x: int, y: int, z: int|
        cfg.in_range(x, y, z) ==> m.contains_key(#[trigger] coord_at(x, y, z))
}

// ---------------------------------------------------------------------------
// The cubes of the scene, cell by cell in walk order
// ---------------------------------------------------------------------------

/// The cubes of column `(x, z)` up to height `y`.
pub open spec fn spec_cubes_col(m: Map<Coord, Vec<u8>>, x: int, z: int, y: int) -> Seq<
    (Coord, Seq<u8>),
>
    decreases y,
{
    if y <= 0 {
        Seq::empty()
    } else {
        spec_cubes_col(m, x, z, y - 1) + seq![(coord_at(x, y, z), m[coord_at(x, y, z)]@)]
    }
}

/// The cubes of slab `x` up to depth `z`, full columns each.
pub open spec fn spec_cubes_plane(m: Map<Coord, Vec<u8>>, cfg: Config, x: int, z: int) -> Seq<
    (Coord, Seq<u8>),
>
    decreases z,
{
    if z <= 0 {
        Seq::empty()
    } else {
        spec_cubes_plane(m, cfg, x, z - 1) + spec_cubes_col(m, x, z, cfg.height as int)
    }
}

/// The cubes of the whole grid up to width `x`, full slabs each.
pub open spec fn spec_cubes(m: Map<Coord, Vec<u8>>, cfg: Config, x: int) -> Seq<(Coord, Seq<u8>)>
    decreases x,
{
    if x <= 0 {
        Seq::empty()
    } else {
        spec_cubes(m, cfg, x - 1) + spec_cubes_plane(m, cfg, x, cfg.depth as int)
    }
}

// ---------------------------------------------------------------------------
// The pipe prisms of the scene, in the same walk order
// ---------------------------------------------------------------------------

/// The prism drawn for direction `d` at cell `(x, y, z)`.
pub open spec fn spec_pipe_prism(d: Direction, x: int, y: int, z: int) -> PipeSpawn {
    PipeSpawn {
        width: d.spec_pipe_width(),
        height: d.spec_pipe_height(),
        depth: d.spec_pipe_depth(),
        cx: d.spec_center_x(x) as u64,
        cy: d.spec_center_y(y) as u64,
        cz: d.spec_center_z(z) as u64,
    }
}

/// The prisms of one cell: entry first, then exit, or none at all.
pub open spec fn spec_cell_pipes(
    pm: Map<Coord, (Direction, Direction)>,
    x: int,
    y: int,
    z: int,
) -> Seq<PipeSpawn> {
    if pm.contains_key(coord_at(x, y, z)) {
        let dd = pm[coord_at(x, y, z)];
        seq![spec_pipe_prism(dd.0, x, y, z), spec_pipe_prism(dd.1, x, y, z)]
    } else {
        Seq::empty()
    }
}

/// The prisms of column `(x, z)` up to height `y`.
pub open spec fn spec_pipes_col(
    pm: Map<Coord, (Direction, Direction)>,
    x: int,
    z: int,
    y: int,
) -> Seq<PipeSpawn>
    decreases y,
{
    if y <= 0 {
        Seq::empty()
    } else {
        spec_pipes_col(pm, x, z, y - 1) + spec_cell_pipes(pm, x, y, z)
    }
}

/// The prisms of slab `x` up to depth `z`, full columns each.
pub open spec fn spec_pipes_plane(
    pm: Map<Coord, (Direction, Direction)>,
    cfg: Config,
    x: int,
    z: int,
) -> Seq<PipeSpawn>
    decreases z,
{
    if z <= 0 {
        Seq::empty()
    } else {
        spec_pipes_plane(pm, cfg, x, z - 1) + spec_pipes_col(pm, x, z, cfg.height as int)
    }
}

/// The prisms of the whole grid up to width `x`, full slabs each.
pub open spec fn spec_pipes(
    pm: Map<Coord, (Direction, Direction)>,
    cfg: Config,
    x: int,
) -> Seq<PipeSpawn>
    decreases x,
{
    if x <= 0 {
        Seq::empty()
    } else {
        spec_pipes(pm, cfg, x - 1) + spec_pipes_plane(pm, cfg, x, cfg.depth as int)
    }
}

/// The planned scene: the cubes and pipe prisms to spawn, in walk order.
pub struct ScenePlan {
    pub cubes: Vec<CubeSpawn>,
    pub pipes: Vec<PipeSpawn>,
}

/// Relies on rand::random_range over `0..=255`: the range is never empty, so
/// the call returns a byte; nothing is assumed about which one.
#[verifier::external_body]
fn random_byte() -> u8 {
    rand::random_range(0..=255u8)
}

/// Builds the prism for direction `d` at cell `(x, y, z)`.
fn pipe_prism(d: Direction, x: usize, y: usize, z: usize) -> (r: PipeSpawn)
    requires
        1 <= x <= COORD_LIMIT,
        1 <= y <= COORD_LIMIT,
        1 <= z <= COORD_LIMIT,
    ensures
        r == spec_pipe_prism(d, x as int, y as int, z as int),
{
    let width = d.pipe_width();
    let height = d.pipe_height();
    let depth = d.pipe_depth();
    let c = d.pipe_center(x, y, z);
    PipeSpawn { width, height, depth, cx: c.x, cy: c.y, cz: c.z }
}

/// Reports whether every cell of the configured grid has a label, which is
/// what the planner requires.
pub fn layout_covers(blocks: &CoordMap<Vec<u8>>, cfg: &Config) -> (r: bool)
    requires
        cfg.wf(),
    ensures
        r == covers(blocks@, *cfg),
{
    let mut x: usize = 1;
    while x <= cfg.width
        invariant
            1 <= x <= cfg.width + 1,
            cfg.wf(),
            forall|a: int, b: int, c: int|
                cfg.in_range(a, b, c) && a < x ==> blocks@.contains_key(
                    #[trigger] coord_at(a, b, c),
                ),
        decreases cfg.width + 1 - x,
    {
        let mut z: usize = 1;
        while z <= cfg.depth
            invariant
                1 <= x <= cfg.width,
                1 <= z <= cfg.depth + 1,
                cfg.wf(),
                forall|a: int, b: int, c: int|
                    cfg.in_range(a, b, c) && (a < x || (a == x && c < z)) ==> blocks@.contains_key(
                        #[trigger] coord_at(a, b, c),
                    ),
            decreases cfg.depth + 1 - z,
        {
            let mut y: usize = 1;
            while y <= cfg.height
                invariant
                    1 <= x <= cfg.width,
                    1 <= z <= cfg.depth,
                    1 <= y <= cfg.height + 1,
                    cfg.wf(),
                    forall|a: int, b: int, c: int|
                        cfg.in_range(a, b, c) && (a < x || (a == x && (c < z || (c == z && b < y))))
                            ==> blocks@.contains_key(#[trigger] coord_at(a, b, c)),
                decreases cfg.height + 1 - y,
            {
                let cell = Coord { x, y, z };
                match blocks.get(cell) {
                    Some(l) => {},
                    None => {
                        proof {
                            assert(cfg.in_range(x as int, y as int, z as int));
                            assert(cell == coord_at(x as int, y as int, z as int));
                        }
                        return false;
                    },
                }
                y = y + 1;
            }
            z = z + 1;
        }
        x = x + 1;
    }
    true
}

/// Draws one random color for every label the grid uses, so that cells of
/// one label share a material.
pub fn assign_colors(blocks: &CoordMap<Vec<u8>>, cfg: &Config) -> (r: LabelMap<Color>)
    requires
        cfg.wf(),
        covers(blocks@, *cfg),
    ensures
        forall|x: int, y: int, z: int|
            cfg.in_range(x, y, z) ==> r@.contains_key(blocks@[#[trigger] coord_at(x, y, z)]@),
        forall|l: Seq<u8>|
            r@.contains_key(l) ==> exists|x: int, y: int, z: int|
                cfg.in_range(x, y, z) && blocks@[#[trigger] coord_at(x, y, z)]@ == l,
{
    let mut colors: LabelMap<Color> = LabelMap::new();
    let mut x: usize = 1;
    while x <= cfg.width
        invariant
            1 <= x <= cfg.width + 1,
            cfg.wf(),
            covers(blocks@, *cfg),
            forall|a: int, b: int, c: int|
                cfg.in_range(a, b, c) && a < x ==> colors@.contains_key(
                    blocks@[#[trigger] coord_at(a, b, c)]@,
                ),
            forall|l: Seq<u8>|
                colors@.contains_key(l) ==> exists|a: int, b: int, c: int|
                    cfg.in_range(a, b, c) && blocks@[#[trigger] coord_at(a, b, c)]@ == l,
        decreases cfg.width + 1 - x,
    {
        let mut z: usize = 1;
        while z <= cfg.depth
            invariant
                1 <= x <= cfg.width,
                1 <= z <= cfg.depth + 1,
                cfg.wf(),
                covers(blocks@, *cfg),
                forall|a: int, b: int, c: int|
                    cfg.in_range(a, b, c) && (a < x || (a == x && c < z)) ==> colors@.contains_key(
                        blocks@[#[trigger] coord_at(a, b, c)]@,
                    ),
                forall|l: Seq<u8>|
                    colors@.contains_key(l) ==> exists|a: int, b: int, c: int|
                        cfg.in_range(a, b, c) && blocks@[#[trigger] coord_at(a, b, c)]@ == l,
            decreases cfg.depth + 1 - z,
        {
            let mut y: usize = 1;
            while y <= cfg.height
                invariant
                    1 <= x <= cfg.width,
                    1 <= z <= cfg.depth,
                    1 <= y <= cfg.height + 1,
                    cfg.wf(),
                    covers(blocks@, *cfg),
                    forall|a: int, b: int, c: int|
                        cfg.in_range(a, b, c) && (a < x || (a == x && (c < z || (c == z && b < y))))
                            ==> colors@.contains_key(blocks@[#[trigger] coord_at(a, b, c)]@),
                    forall|l: Seq<u8>|
                        colors@.contains_key(l) ==> exists|a: int, b: int, c: int|
                            cfg.in_range(a, b, c) && blocks@[#[trigger] coord_at(a, b, c)]@ == l,
                decreases cfg.height + 1 - y,
            {
                let cell = Coord { x, y, z };
                proof {
                    assert(cfg.in_range(x as int, y as int, z as int));
                    assert(cell == coord_at(x as int, y as int, z as int));
                }
                let label = match blocks.get(cell) {
                    Some(l) => l,
                    None => {
                        proof {
                            assert(false);
                        }
                        return colors;
                    },
                };
                let known = match colors.get(label.as_slice()) {
                    Some(col) => true,
                    None => false,
                };
                if !known {
                    let col = Color { r: random_byte(), g: random_byte(), b: random_byte() };
                    colors.insert(slice_to_vec(label.as_slice()), col);
                    proof {
                        assert(cfg.in_range(x as int, y as int, z as int) && blocks@[coord_at(
                            x as int,
                            y as int,
                            z as int,
                        )]@ == label@);
                    }
                }
                y = y + 1;
            }
            z = z + 1;
        }
        x = x + 1;
    }
    colors
}

/// Plans the whole scene: walking the grid with x outermost, then z, then y
/// innermost, one cube per cell, and the two pipe prisms of every cell that
/// carries a pipe.
pub fn plan_scene(
    blocks: &CoordMap<Vec<u8>>,
    pipes: &CoordMap<(Direction, Direction)>,
    cfg: &Config,
) -> (r: ScenePlan)
    requires
        cfg.wf(),
        covers(blocks@, *cfg),
    ensures
        cubes_view(r.cubes@) == spec_cubes(blocks@, *cfg, cfg.width as int),
        r.pipes@ == spec_pipes(pipes@, *cfg, cfg.width as int),
{
    let mut cubes: Vec<CubeSpawn> = Vec::new();
    let mut prisms: Vec<PipeSpawn> = Vec::new();
    proof {
        assert(cubes_view(cubes@) =~= spec_cubes(blocks@, *cfg, 0));
        assert(prisms@ =~= spec_pipes(pipes@, *cfg, 0));
    }
    let mut x: usize = 1;
    while x <= cfg.width
        invariant
            1 <= x <= cfg.width + 1,
            cfg.wf(),
            covers(blocks@, *cfg),
            cubes_view(cubes@) == spec_cubes(blocks@, *cfg, x - 1),
            prisms@ == spec_pipes(pipes@, *cfg, x - 1),
        decreases cfg.width + 1 - x,
    {
        let mut z: usize = 1;
        proof {
            assert(spec_cubes_plane(blocks@, *cfg, x as int, 0) =~= Seq::<(Coord, Seq<u8>)>::empty());
            assert(cubes_view(cubes@) =~= spec_cubes(blocks@, *cfg, x - 1) + spec_cubes_plane(
                blocks@,
                *cfg,
                x as int,
                0,
            ));
            assert(spec_pipes_plane(pipes@, *cfg, x as int, 0) =~= Seq::<PipeSpawn>::empty());
            assert(prisms@ =~= spec_pipes(pipes@, *cfg, x - 1) + spec_pipes_plane(
                pipes@,
                *cfg,
                x as int,
                0,
            ));
        }
        while z <= cfg.depth
            invariant
                1 <= x <= cfg.width,
                1 <= z <= cfg.depth + 1,
                cfg.wf(),
                covers(blocks@, *cfg),
                cubes_view(cubes@) == spec_cubes(blocks@, *cfg, x - 1) + spec_cubes_plane(
                    blocks@,
                    *cfg,
                    x as int,
                    z - 1,
                ),
                prisms@ == spec_pipes(pipes@, *cfg, x - 1) + spec_pipes_plane(
                    pipes@,
                    *cfg,
                    x as int,
                    z - 1,
                ),
            decreases cfg.depth + 1 - z,
        {
            let mut y: usize = 1;
            proof {
                assert(spec_cubes_col(blocks@, x as int, z as int, 0) =~= Seq::<(
                    Coord,
                    Seq<u8>,
                )>::empty());
                assert(cubes_view(cubes@) =~= (spec_cubes(blocks@, *cfg, x - 1) + spec_cubes_plane(
                    blocks@,
                    *cfg,
                    x as int,
                    z - 1,
                )) + spec_cubes_col(blocks@, x as int, z as int, 0));
                assert(spec_pipes_col(pipes@, x as int, z as int, 0) =~= Seq::<PipeSpawn>::empty());
                assert(prisms@ =~= (spec_pipes(pipes@, *cfg, x - 1) + spec_pipes_plane(
                    pipes@,
                    *cfg,
                    x as int,
                    z - 1,
                )) + spec_pipes_col(pipes@, x as int, z as int, 0));
            }
            while y <= cfg.height
                invariant
                    1 <= x <= cfg.width,
                    1 <= z <= cfg.depth,
                    1 <= y <= cfg.height + 1,
                    cfg.wf(),
                    covers(blocks@, *cfg),
                    cubes_view(cubes@) == (spec_cubes(blocks@, *cfg, x - 1) + spec_cubes_plane(
                        blocks@,
                        *cfg,
                        x as int,
                        z - 1,
                    )) + spec_cubes_col(blocks@, x as int, z as int, y - 1),
                    prisms@ == (spec_pipes(pipes@, *cfg, x - 1) + spec_pipes_plane(
                        pipes@,
                        *cfg,
                        x as int,
                        z - 1,
                    )) + spec_pipes_col(pipes@, x as int, z as int, y - 1),
                decreases cfg.height + 1 - y,
            {
                let cell = Coord { x, y, z };
                proof {
                    assert(cfg.in_range(x as int, y as int, z as int));
                    assert(cell == coord_at(x as int, y as int, z as int));
                }
                let label = match blocks.get(cell) {
                    Some(l) => l,
                    None => {
                        proof {
                            assert(false);
                        }
                        return ScenePlan { cubes, pipes: prisms };
                    },
                };
                let ghost old_cubes = cubes@;
                cubes.push(CubeSpawn { x, y, z, label: slice_to_vec(label.as_slice()) });
                proof {
                    assert(cubes_view(cubes@) =~= cubes_view(old_cubes) + seq![
                        (coord_at(x as int, y as int, z as int), blocks@[coord_at(
                            x as int,
                            y as int,
                            z as int,
                        )]@),
                    ]);
                    assert(cubes_view(cubes@) =~= (spec_cubes(blocks@, *cfg, x - 1)
                        + spec_cubes_plane(blocks@, *cfg, x as int, z - 1)) + spec_cubes_col(
                        blocks@,
                        x as int,
                        z as int,
                        y as int,
                    ));
                }
                match pipes.get(cell) {
                    Some(dd) => {
                        let p_in = pipe_prism(dd.0, x, y, z);
                        let p_out = pipe_prism(dd.1, x, y, z);
                        let ghost old_prisms = prisms@;
                        prisms.push(p_in);
                        prisms.push(p_out);
                        proof {
                            assert(prisms@ =~= old_prisms + spec_cell_pipes(
                                pipes@,
                                x as int,
                                y as int,
                                z as int,
                            ));
                        }
                    },
                    None => {
                        proof {
                            assert(spec_cell_pipes(pipes@, x as int, y as int, z as int)
                                =~= Seq::<PipeSpawn>::empty());
                        }
                    },
                }
                proof {
                    assert(prisms@ =~= (spec_pipes(pipes@, *cfg, x - 1) + spec_pipes_plane(
                        pipes@,
                        *cfg,
                        x as int,
                        z - 1,
                    )) + spec_pipes_col(pipes@, x as int, z as int, y as int));
                }
                y = y + 1;
            }
            proof {
                assert(cubes_view(cubes@) =~= spec_cubes(blocks@, *cfg, x - 1) + spec_cubes_plane(
                    blocks@,
                    *cfg,
                    x as int,
                    z as int,
                ));
                assert(prisms@ =~= spec_pipes(pipes@, *cfg, x - 1) + spec_pipes_plane(
                    pipes@,
                    *cfg,
                    x as int,
                    z as int,
                ));
            }
            z = z + 1;
        }
        proof {
            assert(cubes_view(cubes@) =~= spec_cubes(blocks@, *cfg, x as int));
            assert(prisms@ =~= spec_pipes(pipes@, *cfg, x as int));
        }
        x = x + 1;
    }
    ScenePlan { cubes, pipes: prisms }
}

// ---------------------------------------------------------------------------
// The walk covers the grid exactly once
// ---------------------------------------------------------------------------

/// Walk index of cell `(x, y, z)`: x is the outermost loop, then z, then y.
pub open spec fn cell_index(cfg: Config, x: int, y: int, z: int) -> int {
    ((x - 1) * cfg.depth + (z - 1)) * cfg.height + (y - 1)
}

proof fn lemma_cubes_col_len(m: Map<Coord, Vec<u8>>, x: int, z: int, y: int)
    requires
        y >= 0,
    ensures
        spec_cubes_col(m, x, z, y).len() == y,
    decreases y,
{
    if y > 0 {
        lemma_cubes_col_len(m, x, z, y - 1);
    }
}

proof fn lemma_cubes_plane_len(m: Map<Coord, Vec<u8>>, cfg: Config, x: int, z: int)
    requires
        z >= 0,
    ensures
        spec_cubes_plane(m, cfg, x, z).len() == z * cfg.height,
    decreases z,
{
    if z > 0 {
        lemma_cubes_plane_len(m, cfg, x, z - 1);
        lemma_cubes_col_len(m, x, z, cfg.height as int);
        assert((z - 1) * cfg.height + cfg.height == z * cfg.height) by (nonlinear_arith);
    } else {
        assert(z * cfg.height == 0) by (nonlinear_arith)
            requires
                z == 0,
        ;
    }
}

proof fn lemma_cubes_len(m: Map<Coord, Vec<u8>>, cfg: Config, x: int)
    requires
        x >= 0,
    ensures
        spec_cubes(m, cfg, x).len() == x * (cfg.depth * cfg.height),
    decreases x,
{
    if x > 0 {
        lemma_cubes_len(m, cfg, x - 1);
        lemma_cubes_plane_len(m, cfg, x, cfg.depth as int);
        assert((x - 1) * (cfg.depth * cfg.height) + cfg.depth * cfg.height == x * (cfg.depth
            * cfg.height)) by (nonlinear_arith);
    } else {
        assert(x * (cfg.depth * cfg.height) == 0) by (nonlinear_arith)
            requires
                x == 0,
        ;
    }
}

proof fn lemma_cubes_col_at(m: Map<Coord, Vec<u8>>, x: int, z: int, y: int, b: int)
    requires
        1 <= b <= y,
    ensures
        spec_cubes_col(m, x, z, y)[b - 1] == (coord_at(x, b, z), m[coord_at(x, b, z)]@),
    decreases y,
{
    lemma_cubes_col_len(m, x, z, y - 1);
    if b < y {
        lemma_cubes_col_at(m, x, z, y - 1, b);
    }
}

proof fn lemma_cubes_plane_at(m: Map<Coord, Vec<u8>>, cfg: Config, x: int, z: int, c: int, b: int)
    requires
        1 <= c <= z,
        1 <= b <= cfg.height,
    ensures
        spec_cubes_plane(m, cfg, x, z)[(c - 1) * cfg.height + (b - 1)] == (coord_at(x, b, c),
        m[coord_at(x, b, c)]@),
    decreases z,
{
    lemma_cubes_plane_len(m, cfg, x, z - 1);
    if c == z {
        lemma_cubes_col_len(m, x, z, cfg.height as int);
        lemma_cubes_col_at(m, x, z, cfg.height as int, b);
    } else {
        lemma_cubes_plane_at(m, cfg, x, z - 1, c, b);
        assert(0 <= (c - 1) * cfg.height + (b - 1) < (z - 1) * cfg.height) by (nonlinear_arith)
            requires
                1 <= c <= z - 1,
                1 <= b <= cfg.height,
        ;
    }
}

proof fn lemma_cubes_at(m: Map<Coord, Vec<u8>>, cfg: Config, x: int, a: int, b: int, c: int)
    requires
        1 <= a <= x,
        1 <= b <= cfg.height,
        1 <= c <= cfg.depth,
    ensures
        spec_cubes(m, cfg, x)[cell_index(cfg, a, b, c)] == (coord_at(a, b, c), m[coord_at(
            a,
            b,
            c,
        )]@),
    decreases x,
{
    lemma_cubes_len(m, cfg, x - 1);
    if a == x {
        lemma_cubes_plane_len(m, cfg, x, cfg.depth as int);
        lemma_cubes_plane_at(m, cfg, x, cfg.depth as int, c, b);
        assert(((a - 1) * cfg.depth + (c - 1)) * cfg.height == (a - 1) * (cfg.depth * cfg.height)
            + (c - 1) * cfg.height) by (nonlinear_arith);
        assert(0 <= (c - 1) * cfg.height + (b - 1) < cfg.depth * cfg.height) by (nonlinear_arith)
            requires
                1 <= c <= cfg.depth,
                1 <= b <= cfg.height,
        ;
    } else {
        lemma_cubes_at(m, cfg, x - 1, a, b, c);
        assert(0 <= ((a - 1) * cfg.depth + (c - 1)) * cfg.height + (b - 1) < (x - 1) * (cfg.depth
            * cfg.height)) by (nonlinear_arith)
            requires
                1 <= a <= x - 1,
                1 <= b <= cfg.height,
                1 <= c <= cfg.depth,
        ;
    }
}

/// Law: the planned walk spawns exactly one cube for every cell of the grid.
/// The plan holds width·depth·height cubes, and the cube of cell `(x, y, z)`
/// stands at walk index `((x-1)·depth + (z-1))·height + (y-1)`, carrying that
/// cell's label.
pub proof fn lemma_cubes_cover_grid(m: Map<Coord, Vec<u8>>, cfg: Config)
    requires
        cfg.wf(),
    ensures
        spec_cubes(m, cfg, cfg.width as int).len() == cfg.width * (cfg.depth * cfg.height),
        forall|x: int, y: int, z: int|
            cfg.in_range(x, y, z) ==> spec_cubes(m, cfg, cfg.width as int)[#[trigger] cell_index(
                cfg,
                x,
                y,
                z,
            )] == (coord_at(x, y, z), m[coord_at(x, y, z)]@),
{
    lemma_cubes_len(m, cfg, cfg.width as int);
    assert forall|x: int, y: int, z: int| cfg.in_range(x, y, z) implies spec_cubes(
        m,
        cfg,
        cfg.width as int,
    )[#[trigger] cell_index(cfg, x, y, z)] == (coord_at(x, y, z), m[coord_at(x, y, z)]@) by {
        lemma_cubes_at(m, cfg, cfg.width as int, x, y, z);
    }
}

/// Law: distinct cells have distinct walk indexes, so no cell's cube is
/// planned twice.
pub proof fn lemma_cell_index_injective(
    cfg: Config,
    x1: int,
    y1: int,
    z1: int,
    x2: int,
    y2: int,
    z2: int,
)
    requires
        cfg.wf(),
        cfg.in_range(x1, y1, z1),
        cfg.in_range(x2, y2, z2),
        cell_index(cfg, x1, y1, z1) == cell_index(cfg, x2, y2, z2),
    ensures
        x1 == x2,
        y1 == y2,
        z1 == z2,
{
    let q1 = (x1 - 1) * cfg.depth + (z1 - 1);
    let q2 = (x2 - 1) * cfg.depth + (z2 - 1);
    assert(q1 == q2 && y1 == y2) by (nonlinear_arith)
        requires
            q1 * cfg.height + (y1 - 1) == q2 * cfg.height + (y2 - 1),
            0 <= y1 - 1 < cfg.height,
            0 <= y2 - 1 < cfg.height,
    ;
    assert(x1 == x2 && z1 == z2) by (nonlinear_arith)
        requires
            (x1 - 1) * cfg.depth + (z1 - 1) == (x2 - 1) * cfg.depth + (z2 - 1),
            0 <= z1 - 1 < cfg.depth,
            0 <= z2 - 1 < cfg.depth,
    ;
}

} // verus!
