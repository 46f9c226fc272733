use renderer::controls::BlockVisibility;
use renderer::controls::toggled;
use renderer::controls::visibility_for;
use renderer::direction::Direction;
use renderer::layout::Config;
use renderer::layout::Coord;
use renderer::parse::parse_sol;
use renderer::scene::assign_colors;
use renderer::scene::layout_covers;
use renderer::scene::plan_scene;

fn two_cube_layout() -> renderer::layout::Positions {
    parse_sol(
        b"block_pos(1,1,1,a) block_pos(1,2,1,a) block_pos(1,1,2,b) block_pos(1,2,2,b) \
block_pos(2,1,1,c) block_pos(2,2,1,c) block_pos(2,1,2,d) block_pos(2,2,2,d) \
pipe_pos(1,1,1,e,a)",
    )
    .unwrap()
}

fn config_222() -> Config {
    Config { width: 2, height: 2, depth: 2, hide: false }
}

#[test]
fn layout_covers_accepts_a_full_grid() {
    let p = two_cube_layout();
    assert!(layout_covers(&p.positions, &config_222()));
}

#[test]
fn layout_covers_rejects_a_gap() {
    let p = parse_sol(b"block_pos(1,1,1,a)").unwrap();
    assert!(!layout_covers(&p.positions, &config_222()));
    let cfg = Config { width: 1, height: 1, depth: 1, hide: false };
    assert!(layout_covers(&p.positions, &cfg));
}

#[test]
fn plan_walks_every_cell_once_in_order() {
    let p = two_cube_layout();
    let plan = plan_scene(&p.positions, &p.pipe_positions, &config_222());
    assert_eq!(plan.cubes.len(), 8);
    // x outermost, then z, then y innermost.
    let walked: Vec<(usize, usize, usize)> = plan.cubes.iter().map(|c| (c.x, c.y, c.z)).collect();
    assert_eq!(
        walked,
        vec![
            (1, 1, 1),
            (1, 2, 1),
            (1, 1, 2),
            (1, 2, 2),
            (2, 1, 1),
            (2, 2, 1),
            (2, 1, 2),
            (2, 2, 2),
        ]
    );
}

#[test]
fn planned_cubes_carry_their_cell_labels() {
    let p = two_cube_layout();
    let plan = plan_scene(&p.positions, &p.pipe_positions, &config_222());
    for cube in &plan.cubes {
        let want = p.positions.get(Coord { x: cube.x, y: cube.y, z: cube.z }).unwrap();
        assert_eq!(&cube.label, want);
    }
}

#[test]
fn piped_cell_gets_entry_and_exit_prisms() {
    let p = two_cube_layout();
    let plan = plan_scene(&p.positions, &p.pipe_positions, &config_222());
    assert_eq!(plan.pipes.len(), 2);
    // Entry east: wide prism pushed toward +x from cell (1,1,1).
    let entry = plan.pipes[0];
    assert_eq!((entry.width, entry.height, entry.depth), (650, 300, 300));
    assert_eq!((entry.cx, entry.cy, entry.cz), (1175, 1000, 1000));
    // Exit above: tall prism pushed toward +y.
    let exit = plan.pipes[1];
    assert_eq!((exit.width, exit.height, exit.depth), (300, 650, 300));
    assert_eq!((exit.cx, exit.cy, exit.cz), (1000, 1175, 1000));
}

#[test]
fn unpiped_layout_plans_no_prisms() {
    let p = parse_sol(b"block_pos(1,1,1,a)").unwrap();
    let cfg = Config { width: 1, height: 1, depth: 1, hide: false };
    let plan = plan_scene(&p.positions, &p.pipe_positions, &cfg);
    assert_eq!(plan.cubes.len(), 1);
    assert!(plan.pipes.is_empty());
}

#[test]
fn every_used_label_gets_a_color() {
    let p = two_cube_layout();
    let colors = assign_colors(&p.positions, &config_222());
    for l in [b"a", b"b", b"c", b"d"] {
        assert!(colors.get(l).is_some());
    }
    assert!(colors.get(b"unused").is_none());
}

#[test]
fn pressing_the_key_flips_a_flag() {
    assert_eq!(toggled(false, true), true);
    assert_eq!(toggled(true, true), false);
    assert_eq!(toggled(false, false), false);
    assert_eq!(toggled(true, false), true);
}

#[test]
fn hide_flag_decides_visibility() {
    assert_eq!(visibility_for(true), BlockVisibility::Hidden);
    assert_eq!(visibility_for(false), BlockVisibility::Visible);
}
