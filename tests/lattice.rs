use dla::{clip, draw, set_pixel, Cell, Color, Grid, GridError};

fn seed(x: usize, y: usize, color: Color) -> Cell {
    Cell { x, y, color, is_frozen: true }
}

fn mobile(x: usize, y: usize, color: Color) -> Cell {
    Cell { x, y, color, is_frozen: false }
}

const RED: Color = Color { r: 250, g: 0, b: 0 };
const GREEN: Color = Color { r: 0, g: 250, b: 0 };
const BLUE: Color = Color { r: 0, g: 0, b: 250 };

fn occupancy(g: &Grid) -> Vec<Option<Cell>> {
    let mut out = Vec::new();
    for x in 0..g.width() as usize {
        for y in 0..g.height() as usize {
            out.push(g.cell(x, y));
        }
    }
    out
}

fn count_occupied(g: &Grid) -> usize {
    occupancy(g).iter().filter(|c| c.is_some()).count()
}

/// A top-left corner `(x, y)` of an empty `w` by `h` box of cells.
fn empty_box(g: &Grid, w: usize, h: usize) -> (usize, usize) {
    for x in 0..g.width() as usize - w {
        for y in 0..g.height() as usize - h {
            let mut free = true;
            for dx in 0..w {
                for dy in 0..h {
                    if g.cell(x + dx, y + dy).is_some() {
                        free = false;
                    }
                }
            }
            for a in g.active_cells() {
                if a.x >= x && a.x < x + w && a.y >= y && a.y < y + h {
                    free = false;
                }
            }
            if free {
                return (x, y);
            }
        }
    }
    panic!("no empty box");
}

fn assert_consistent(g: &Grid) {
    for x in 0..g.width() as usize {
        for y in 0..g.height() as usize {
            if let Some(c) = g.cell(x, y) {
                assert!(c.is_frozen);
                assert_eq!((c.x, c.y), (x, y));
            }
        }
    }
    for a in g.active_cells() {
        assert!(!a.is_frozen);
        assert!(a.x < g.width() as usize && a.y < g.height() as usize);
    }
}

#[test]
fn clip_wraps_left_and_right_edges() {
    assert_eq!(clip((-1, 4), 10, 7), (9, 4));
    assert_eq!(clip((10, 4), 10, 7), (0, 4));
}

#[test]
fn clip_wraps_top_and_bottom_edges() {
    assert_eq!(clip((3, -1), 10, 7), (3, 6));
    assert_eq!(clip((3, 7), 10, 7), (3, 0));
}

#[test]
fn clip_wraps_corners() {
    assert_eq!(clip((-1, -1), 10, 7), (9, 6));
    assert_eq!(clip((10, 7), 10, 7), (0, 0));
    assert_eq!(clip((-1, 7), 10, 7), (9, 0));
    assert_eq!(clip((10, -1), 10, 7), (0, 6));
}

#[test]
fn clip_keeps_interior_positions() {
    assert_eq!(clip((0, 0), 10, 7), (0, 0));
    assert_eq!(clip((9, 6), 10, 7), (9, 6));
    assert_eq!(clip((4, 3), 10, 7), (4, 3));
}

#[test]
fn clip_on_a_single_cell_lattice() {
    assert_eq!(clip((-1, 1), 1, 1), (0, 0));
    assert_eq!(clip((1, -1), 1, 1), (0, 0));
}

#[test]
fn cell_new_stays_in_bounds_and_colour_range() {
    for i in 0..500 {
        let frozen = i % 2 == 0;
        let c = Cell::new(frozen, 3, 5);
        assert!(c.x < 3);
        assert!(c.y < 5);
        assert_eq!(c.is_frozen, frozen);
        assert!(c.color.r < 234 && c.color.g < 234 && c.color.b < 234);
    }
}

#[test]
fn cell_new_on_one_cell_lattice() {
    let c = Cell::new(false, 1, 1);
    assert_eq!((c.x, c.y), (0, 0));
}

#[test]
fn new_rejects_zero_width() {
    assert!(matches!(Grid::new(0, 10, 5), Err(GridError::InvalidDimensions)));
}

#[test]
fn new_rejects_zero_height() {
    assert!(matches!(Grid::new(10, 0, 5), Err(GridError::InvalidDimensions)));
}

#[test]
fn new_rejects_zero_area() {
    assert!(matches!(Grid::new(0, 0, 0), Err(GridError::InvalidDimensions)));
}

#[test]
fn new_spawns_active_particles_and_seeds() {
    let g = Grid::new(10, 10, 4).ok().unwrap();
    assert_eq!(g.width(), 10);
    assert_eq!(g.height(), 10);
    assert_eq!(g.desired_active(), 4);
    assert_eq!(g.active_cells().len(), 4);
    let seeds = count_occupied(&g);
    assert!(seeds >= 1 && seeds <= 2);
    assert_consistent(&g);
}

#[test]
fn new_with_odd_count_seeds_half_rounded_down() {
    let g = Grid::new(40, 40, 1).ok().unwrap();
    assert_eq!(g.active_cells().len(), 1);
    assert_eq!(count_occupied(&g), 0);
}

#[test]
fn place_writes_a_seed_into_the_occupancy() {
    let mut g = Grid::new(10, 10, 0).ok().unwrap();
    assert_eq!(g.cell(5, 5), None);
    g.place(seed(5, 5, RED));
    assert_eq!(g.cell(5, 5), Some(seed(5, 5, RED)));
    assert_eq!(g.cell(5, 4), None);
    assert_eq!(g.cell(4, 5), None);
    g.place(seed(5, 5, GREEN));
    assert_eq!(g.cell(5, 5), Some(seed(5, 5, GREEN)));
    assert_eq!(count_occupied(&g), 1);
}

#[test]
fn place_adds_a_mobile_particle_to_the_active_set() {
    let mut g = Grid::new(10, 10, 1).ok().unwrap();
    let a = g.active_cells()[0];
    g.place(seed(a.x, (a.y + 1) % 10, RED));
    g.advance(&vec![0]);
    assert_eq!(g.active_cells().len(), 0);
    g.place(mobile(2, 3, BLUE));
    assert_eq!(g.active_cells(), &vec![mobile(2, 3, BLUE)]);
}

#[test]
fn is_frozen_finds_no_neighbour_on_an_empty_lattice() {
    let g = Grid::new(10, 10, 0).ok().unwrap();
    assert_eq!(g.is_frozen((5, 5)), None);
    assert_eq!(g.is_frozen((0, 0)), None);
}

#[test]
fn is_frozen_sees_each_of_the_eight_neighbours() {
    let offsets: [(i32, i32); 8] = [(-1, -1), (0, -1), (1, -1), (-1, 0), (1, 0), (-1, 1), (0, 1), (1, 1)];
    for (dx, dy) in offsets {
        let mut g = Grid::new(10, 10, 0).ok().unwrap();
        let x = (5 + dx) as usize;
        let y = (5 + dy) as usize;
        g.place(seed(x, y, BLUE));
        assert_eq!(g.is_frozen((5, 5)), Some(BLUE));
    }
}

#[test]
fn is_frozen_ignores_the_cell_itself_and_distant_cells() {
    let mut g = Grid::new(10, 10, 0).ok().unwrap();
    g.place(seed(5, 5, RED));
    g.place(seed(7, 5, RED));
    g.place(seed(5, 3, RED));
    assert_eq!(g.is_frozen((5, 5)), None);
}

#[test]
fn is_frozen_keeps_the_last_neighbour_in_scanning_order() {
    let mut g = Grid::new(10, 10, 0).ok().unwrap();
    g.place(seed(4, 4, RED));
    g.place(seed(6, 6, GREEN));
    g.place(seed(5, 4, BLUE));
    assert_eq!(g.is_frozen((5, 5)), Some(GREEN));
}

#[test]
fn is_frozen_wraps_around_the_corners() {
    let mut g = Grid::new(10, 8, 0).ok().unwrap();
    g.place(seed(9, 7, RED));
    assert_eq!(g.is_frozen((0, 0)), Some(RED));
    let mut h = Grid::new(10, 8, 0).ok().unwrap();
    h.place(seed(0, 3, GREEN));
    assert_eq!(h.is_frozen((9, 4)), Some(GREEN));
}

#[test]
fn advance_moves_a_particle_by_its_offset() {
    let mut g = Grid::new(30, 30, 1).ok().unwrap();
    let a = g.active_cells()[0];
    // offset 4 is one step right
    g.advance(&vec![4]);
    let b = g.active_cells()[0];
    assert_eq!((b.x, b.y), ((a.x + 1) % 30, a.y));
    assert_eq!(b.color, a.color);
    assert!(!b.is_frozen);
    // offset 0 is one step up and left
    g.advance(&vec![0]);
    let c = g.active_cells()[0];
    assert_eq!((c.x, c.y), ((b.x + 29) % 30, (b.y + 29) % 30));
}

#[test]
fn advance_wraps_a_particle_across_the_edge() {
    let mut g = Grid::new(1, 1, 1).ok().unwrap();
    assert_eq!(g.active_cells()[0].x, 0);
    for d in 0..8 {
        g.advance(&vec![d]);
        let a = g.active_cells()[0];
        assert_eq!((a.x, a.y), (0, 0));
    }
}

#[test]
fn advance_freezes_with_the_neighbour_colour() {
    let mut g = Grid::new(10, 10, 1).ok().unwrap();
    let a = g.active_cells()[0];
    let sx = (a.x + 1) % 10;
    let sy = (a.y + 1) % 10;
    g.place(seed(sx, sy, GREEN));
    g.advance(&vec![3]);
    assert!(g.active_cells().is_empty());
    let frozen = g.cell(a.x, a.y).unwrap();
    assert_eq!(frozen, seed(a.x, a.y, GREEN));
    assert_eq!(g.cell(sx, sy), Some(seed(sx, sy, GREEN)));
}

#[test]
fn advance_decides_every_freeze_on_the_lattice_as_it_stood() {
    let mut g = Grid::new(20, 20, 2).ok().unwrap();
    // freeze both initial particles so that the active set can be filled by hand
    for a in g.active_cells().clone() {
        g.place(seed((a.x + 1) % 20, a.y, RED));
    }
    g.advance(&vec![0, 0]);
    assert!(g.active_cells().is_empty());
    let (x, y) = empty_box(&g, 5, 3);
    let (fx, fy) = (x + 1, y + 1);
    g.place(seed(fx, fy, BLUE));
    g.place(mobile(fx + 1, fy, RED));
    g.place(mobile(fx + 2, fy, GREEN));
    // the first freezes; the second, next to it only, must move (one step down)
    g.advance(&vec![4, 6]);
    assert_eq!(g.cell(fx + 1, fy), Some(seed(fx + 1, fy, BLUE)));
    assert_eq!(g.active_cells(), &vec![mobile(fx + 2, fy + 1, GREEN)]);
    assert_eq!(g.cell(fx + 2, fy), None);
    // and it stands on an empty cell
    assert_eq!(g.cell(fx + 2, fy + 1), None);
}

#[test]
fn cycle_keeps_the_population_at_its_target() {
    let mut g = Grid::new(16, 12, 10).ok().unwrap();
    for _ in 0..200 {
        g.cycle();
        assert_eq!(g.active_cells().len(), 10);
        assert_consistent(&g);
    }
}

#[test]
fn cycle_never_clears_an_occupied_cell() {
    let mut g = Grid::new(12, 12, 8).ok().unwrap();
    let mut before = occupancy(&g);
    for _ in 0..200 {
        g.cycle();
        let after = occupancy(&g);
        for (b, a) in before.iter().zip(after.iter()) {
            if b.is_some() {
                assert!(a.is_some());
                assert!(a.unwrap().is_frozen);
            }
        }
        before = after;
    }
}

#[test]
fn cycle_freezes_only_with_colours_of_neighbours() {
    let mut g = Grid::new(12, 12, 8).ok().unwrap();
    for _ in 0..200 {
        let before = occupancy(&g);
        g.cycle();
        for x in 0..12usize {
            for y in 0..12usize {
                let now = g.cell(x, y);
                if now != before[x * 12 + y] {
                    let c = now.unwrap().color;
                    let mut found = false;
                    for dx in [11usize, 0, 1] {
                        for dy in [11usize, 0, 1] {
                            if (dx, dy) != (0, 0) {
                                if let Some(n) = before[((x + dx) % 12) * 12 + (y + dy) % 12] {
                                    found |= n.color == c;
                                }
                            }
                        }
                    }
                    assert!(found);
                }
            }
        }
    }
}

#[test]
fn seeded_growth_freezes_and_keeps_the_seed_cell_occupied() {
    let mut g = Grid::new(10, 10, 4).ok().unwrap();
    g.place(seed(5, 5, Color { r: 10, g: 20, b: 30 }));
    let mut froze = false;
    let mut before = occupancy(&g);
    for _ in 0..1000 {
        g.cycle();
        assert!(g.cell(5, 5).is_some());
        let after = occupancy(&g);
        if after != before {
            froze = true;
        }
        before = after;
    }
    assert!(froze);
}

#[test]
fn zero_population_never_changes() {
    let mut g = Grid::new(10, 10, 0).ok().unwrap();
    g.place(seed(2, 3, RED));
    let start = occupancy(&g);
    for _ in 0..100 {
        g.cycle();
        assert!(g.active_cells().is_empty());
        assert_eq!(occupancy(&g), start);
    }
}

#[test]
fn set_pixel_writes_padding_then_blue_green_red() {
    let mut buffer = vec![7u8; 12];
    set_pixel(&mut buffer, 4, 1, 2, 3);
    assert_eq!(buffer, vec![7, 7, 7, 7, 0, 3, 2, 1, 7, 7, 7, 7]);
}

#[test]
fn set_pixel_at_the_end_of_the_buffer() {
    let mut buffer = vec![9u8; 8];
    set_pixel(&mut buffer, 4, 200, 100, 50);
    assert_eq!(buffer, vec![9, 9, 9, 9, 0, 50, 100, 200]);
}

#[test]
fn draw_clears_the_buffer_and_paints_frozen_cells() {
    let mut g = Grid::new(3, 2, 0).unwrap();
    g.place(seed(0, 0, Color { r: 1, g: 2, b: 3 }));
    g.place(seed(2, 1, Color { r: 4, g: 5, b: 6 }));
    // rows of 16 bytes: 12 for the three pixels, 4 of padding
    let mut buffer = vec![0xAAu8; 32];
    draw(&g, &mut buffer, 16);
    let mut expected = vec![0u8; 32];
    expected[0..4].copy_from_slice(&[0, 3, 2, 1]);
    expected[16 + 8..16 + 12].copy_from_slice(&[0, 6, 5, 4]);
    assert_eq!(buffer, expected);
}

#[test]
fn draw_paints_active_particles_over_frozen_ones() {
    let mut g = Grid::new(3, 2, 1).unwrap();
    let a = g.active_cells()[0];
    g.place(seed(a.x, a.y, RED));
    let mut buffer = vec![0x55u8; 24];
    draw(&g, &mut buffer, 12);
    let pos = 12 * a.y + 4 * a.x;
    assert_eq!(&buffer[pos..pos + 4], &[0, a.color.b, a.color.g, a.color.r]);
    for (i, byte) in buffer.iter().enumerate() {
        if i < pos || i >= pos + 4 {
            assert_eq!(*byte, 0);
        }
    }
}

#[test]
fn draw_leaves_bytes_past_the_last_row_cleared() {
    let g = Grid::new(2, 2, 0).unwrap();
    let mut buffer = vec![9u8; 40];
    draw(&g, &mut buffer, 8);
    assert_eq!(buffer, vec![0u8; 40]);
}
