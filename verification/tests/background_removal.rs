use image_processor::buffer::RgbaBuffer;
use image_processor::feather::Opacity;
use image_processor::mask::Mask;
use image_processor::pixel::Pixel;
use image_processor::remover::BackgroundRemover;

const WHITE: Pixel = Pixel { r: 255, g: 255, b: 255, a: 255 };
const BLACK: Pixel = Pixel { r: 0, g: 0, b: 0, a: 255 };

fn mask_from_rows(rows: &[&str]) -> Mask {
    let height = rows.len();
    let width = if height == 0 { 0 } else { rows[0].len() };
    let mut mask = Mask::filled(width, height, true);
    for (y, row) in rows.iter().enumerate() {
        for (x, cell) in row.chars().enumerate() {
            if cell == '.' {
                mask.set(x, y, false);
            }
        }
    }
    mask
}

fn rows_of(mask: &Mask) -> Vec<String> {
    let mut rows = Vec::new();
    for y in 0..mask.height() {
        let mut row = String::new();
        for x in 0..mask.width() {
            row.push(if mask.get(x, y) { '#' } else { '.' });
        }
        rows.push(row);
    }
    rows
}

fn ratio(opacity: Opacity) -> (usize, usize) {
    (opacity.numer, opacity.denom)
}

#[test]
fn new_remover_has_default_settings() {
    let remover = BackgroundRemover::new();
    assert_eq!(remover.color_tolerance(), 30);
    assert_eq!(remover.edge_blur(), 2);
}

#[test]
fn white_image_becomes_fully_transparent() {
    let remover = BackgroundRemover::new();
    let image = RgbaBuffer::from_pixel(10, 10, WHITE);
    assert_eq!(remover.detect_background_color(&image), WHITE);
    let mask = remover.create_mask(&image, WHITE);
    for y in 0..10 {
        for x in 0..10 {
            assert!(!mask.get(x, y));
        }
    }
    let output = remover.remove_background(image).ok().unwrap();
    assert_eq!(output.dimensions(), (10, 10));
    for y in 0..10 {
        for x in 0..10 {
            assert_eq!(output.get_pixel(x, y), Pixel { r: 255, g: 255, b: 255, a: 0 });
        }
    }
}

#[test]
fn single_black_pixel_is_kept_but_heavily_feathered() {
    let remover = BackgroundRemover::new();
    let mut image = RgbaBuffer::from_pixel(10, 10, WHITE);
    image.put_pixel(5, 5, BLACK);
    assert_eq!(remover.detect_background_color(&image), WHITE);
    let mask = remover.create_mask(&image, WHITE);
    for y in 0..10 {
        for x in 0..10 {
            assert_eq!(mask.get(x, y), x == 5 && y == 5);
        }
    }
    assert_eq!(ratio(remover.calculate_edge_alpha(&mask, 5, 5)), (1, 25));
    let output = remover.remove_background(image).ok().unwrap();
    for y in 0..10 {
        for x in 0..10 {
            let expected = if x == 5 && y == 5 {
                Pixel { r: 0, g: 0, b: 0, a: 10 }
            } else {
                Pixel { r: 255, g: 255, b: 255, a: 0 }
            };
            assert_eq!(output.get_pixel(x, y), expected);
        }
    }
}

#[test]
fn uniform_image_of_any_colour_is_all_background() {
    let remover = BackgroundRemover::new();
    let colour = Pixel { r: 12, g: 200, b: 77, a: 140 };
    let image = RgbaBuffer::from_pixel(7, 3, colour);
    assert_eq!(
        remover.detect_background_color(&image),
        Pixel { r: 12, g: 200, b: 77, a: 255 }
    );
    let output = remover.remove_background(image).ok().unwrap();
    assert_eq!(output.dimensions(), (7, 3));
    for y in 0..3 {
        for x in 0..7 {
            assert_eq!(output.get_pixel(x, y), Pixel { r: 12, g: 200, b: 77, a: 0 });
        }
    }
}

#[test]
fn centred_rectangle_is_foreground_and_surroundings_background() {
    let remover = BackgroundRemover::new();
    let mut image = RgbaBuffer::from_pixel(20, 16, WHITE);
    let red = Pixel { r: 200, g: 10, b: 10, a: 255 };
    for y in 5..11 {
        for x in 6..14 {
            image.put_pixel(x, y, red);
        }
    }
    let background = remover.detect_background_color(&image);
    assert_eq!(background, WHITE);
    let mask = remover.create_mask(&image, background);
    for y in 0..16 {
        for x in 0..20 {
            let inside = (6..14).contains(&x) && (5..11).contains(&y);
            assert_eq!(mask.get(x, y), inside);
        }
    }
    let output = remover.remove_background(image).ok().unwrap();
    // Deep inside the rectangle the window holds foreground only.
    assert_eq!(output.get_pixel(9, 8), red);
    // On the rectangle's corner 9 of the 25 window cells are foreground.
    assert_eq!(output.get_pixel(6, 5), Pixel { r: 200, g: 10, b: 10, a: 92 });
    // Outside it everything is transparent.
    assert_eq!(output.get_pixel(5, 5).a, 0);
    assert_eq!(output.get_pixel(0, 0).a, 0);
}

#[test]
fn sampler_averages_the_four_corners_rounding_down() {
    let remover = BackgroundRemover::new();
    // 8x8: the sampled square has side 2, so 16 samples in all.
    let mut image = RgbaBuffer::from_pixel(8, 8, Pixel { r: 0, g: 0, b: 0, a: 255 });
    // Top-left block: four pixels of (100, 40, 7).
    for y in 0..2 {
        for x in 0..2 {
            image.put_pixel(x, y, Pixel { r: 100, g: 40, b: 7, a: 9 });
        }
    }
    // One pixel of the bottom-right block.
    image.put_pixel(7, 7, Pixel { r: 255, g: 1, b: 0, a: 0 });
    // A pixel outside every block does not count.
    image.put_pixel(4, 4, Pixel { r: 255, g: 255, b: 255, a: 255 });
    // red: (400 + 255) / 16 = 40, green: (160 + 1) / 16 = 10, blue: 28 / 16 = 1.
    assert_eq!(
        remover.detect_background_color(&image),
        Pixel { r: 40, g: 10, b: 1, a: 255 }
    );
}

#[test]
fn sampler_uses_at_most_five_pixels_per_side() {
    let remover = BackgroundRemover::new();
    let mut image = RgbaBuffer::from_pixel(40, 40, Pixel { r: 10, g: 10, b: 10, a: 255 });
    // Column 5 lies just outside the 5x5 top-left block.
    for y in 0..40 {
        image.put_pixel(5, y, Pixel { r: 250, g: 250, b: 250, a: 255 });
    }
    assert_eq!(
        remover.detect_background_color(&image),
        Pixel { r: 10, g: 10, b: 10, a: 255 }
    );
    image.put_pixel(4, 4, Pixel { r: 110, g: 10, b: 10, a: 255 });
    assert_eq!(
        remover.detect_background_color(&image),
        Pixel { r: 11, g: 10, b: 10, a: 255 }
    );
}

#[test]
fn sampler_clamps_the_sample_to_one_pixel_in_small_images() {
    let remover = BackgroundRemover::new();
    let single = RgbaBuffer::from_pixel(1, 1, Pixel { r: 9, g: 8, b: 7, a: 6 });
    assert_eq!(
        remover.detect_background_color(&single),
        Pixel { r: 9, g: 8, b: 7, a: 255 }
    );
    let mut small = RgbaBuffer::from_pixel(3, 2, Pixel { r: 0, g: 0, b: 0, a: 255 });
    small.put_pixel(0, 0, Pixel { r: 40, g: 0, b: 0, a: 255 });
    small.put_pixel(2, 0, Pixel { r: 80, g: 0, b: 0, a: 255 });
    small.put_pixel(0, 1, Pixel { r: 120, g: 0, b: 0, a: 255 });
    small.put_pixel(2, 1, Pixel { r: 3, g: 0, b: 0, a: 255 });
    small.put_pixel(1, 0, Pixel { r: 255, g: 255, b: 255, a: 255 });
    // (40 + 80 + 120 + 3) / 4 = 60
    assert_eq!(
        remover.detect_background_color(&small),
        Pixel { r: 60, g: 0, b: 0, a: 255 }
    );
}

#[test]
fn empty_images_are_handled() {
    let remover = BackgroundRemover::new();
    for (width, height) in [(0, 0), (0, 5), (5, 0)] {
        let image = RgbaBuffer::new(width, height);
        assert_eq!(
            remover.detect_background_color(&image),
            Pixel { r: 0, g: 0, b: 0, a: 255 }
        );
        let mask = remover.create_mask(&image, BLACK);
        assert_eq!(mask.area(), 0);
        assert_eq!((mask.width(), mask.height()), (width as usize, height as usize));
        let output = remover.remove_background(image).ok().unwrap();
        assert_eq!(output.dimensions(), (width, height));
        assert_eq!(output.pixel_count(), 0);
    }
}

#[test]
fn colour_distance_is_squared_and_ignores_alpha() {
    let remover = BackgroundRemover::new();
    let a = Pixel { r: 10, g: 20, b: 30, a: 0 };
    let b = Pixel { r: 13, g: 16, b: 42, a: 255 };
    assert_eq!(remover.color_distance_squared(&a, &b), 9 + 16 + 144);
    assert_eq!(remover.color_distance_squared(&b, &a), 169);
    assert_eq!(remover.color_distance_squared(&WHITE, &BLACK), 3 * 255 * 255);
    assert_eq!(remover.color_distance_squared(&a, &a), 0);
}

#[test]
fn tolerance_is_inclusive_at_distance_thirty() {
    let remover = BackgroundRemover::new();
    let background = Pixel { r: 100, g: 100, b: 100, a: 255 };
    let mut image = RgbaBuffer::from_pixel(3, 1, background);
    // Distance exactly 30: background.
    image.put_pixel(0, 0, Pixel { r: 130, g: 100, b: 100, a: 255 });
    // Squared distance 901: foreground.
    image.put_pixel(1, 0, Pixel { r: 130, g: 101, b: 100, a: 255 });
    // Squared distance 18^2 + 24^2 = 900: background.
    image.put_pixel(2, 0, Pixel { r: 82, g: 124, b: 100, a: 255 });
    let mask = remover.create_mask(&image, background);
    assert!(!mask.get(0, 0));
    assert!(mask.get(1, 0));
    assert!(!mask.get(2, 0));
}

#[test]
fn flood_fill_leaves_the_mask_unchanged_and_marks_border_connected_background() {
    let remover = BackgroundRemover::new();
    let rows = [
        ".......",
        ".#####.",
        ".#...#.",
        ".#.#.#.",
        ".#...#.",
        ".#####.",
        ".......",
    ];
    let mut mask = mask_from_rows(&rows);
    let visited = remover.flood_fill_background(&mut mask);
    assert_eq!(rows_of(&mask), rows.to_vec());
    // The enclosed background ring is not reached; visited cells print as '#'.
    assert_eq!(
        rows_of(&visited),
        vec![
            "#######",
            "#.....#",
            "#.....#",
            "#.....#",
            "#.....#",
            "#.....#",
            "#######",
        ]
    );
}

#[test]
fn flood_fill_follows_channels_but_not_diagonals() {
    let remover = BackgroundRemover::new();
    let rows = [
        "#.###",
        "#.#.#",
        "#..##",
        "###.#",
        "#####",
    ];
    let mut mask = mask_from_rows(&rows);
    let visited = remover.flood_fill_background(&mut mask);
    assert_eq!(rows_of(&mask), rows.to_vec());
    assert_eq!(
        rows_of(&visited),
        vec![".#...", ".#...", ".##..", ".....", "....."]
    );
}

#[test]
fn flood_fill_is_idempotent() {
    let remover = BackgroundRemover::new();
    let rows = ["..##.", "#.#..", "##.##", ".#..#"];
    let mut once = mask_from_rows(&rows);
    remover.flood_fill_background(&mut once);
    let mut twice = mask_from_rows(&rows);
    remover.flood_fill_background(&mut twice);
    remover.flood_fill_background(&mut twice);
    assert_eq!(rows_of(&once), rows_of(&twice));
    assert_eq!(rows_of(&once), rows.to_vec());
}

#[test]
fn single_fill_respects_cells_already_visited() {
    let remover = BackgroundRemover::new();
    let mut mask = mask_from_rows(&[".....", "####.", "....."]);
    let mut visited = Mask::filled(5, 3, false);
    // A visited cell in the only passage blocks the fill.
    visited.set(4, 1, true);
    remover.flood_fill_iterative(&mut mask, &mut visited, 0, 0);
    assert_eq!(rows_of(&visited), vec!["#####", "....#", "....."]);
    assert_eq!(rows_of(&mask), vec![".....", "####.", "....."]);
    // Starting on foreground or on a visited cell marks nothing.
    remover.flood_fill_iterative(&mut mask, &mut visited, 0, 1);
    remover.flood_fill_iterative(&mut mask, &mut visited, 4, 1);
    assert_eq!(rows_of(&visited), vec!["#####", "....#", "....."]);
    remover.flood_fill_iterative(&mut mask, &mut visited, 2, 2);
    assert_eq!(rows_of(&visited), vec!["#####", "....#", "#####"]);
}

#[test]
fn flood_fill_handles_a_long_corridor_without_recursion() {
    let remover = BackgroundRemover::new();
    let mut mask = Mask::filled(60_000, 3, true);
    for x in 0..60_000 {
        mask.set(x, 1, false);
    }
    let visited = remover.flood_fill_background(&mut mask);
    assert!(visited.get(0, 1));
    assert!(visited.get(30_000, 1));
    assert!(visited.get(59_999, 1));
    assert!(!visited.get(30_000, 0));
    assert!(mask.get(30_000, 0));
    assert!(!mask.get(30_000, 1));
}

#[test]
fn feathering_extremes() {
    let remover = BackgroundRemover::new();
    let solid = Mask::filled(9, 9, true);
    assert_eq!(ratio(remover.calculate_edge_alpha(&solid, 4, 4)), (25, 25));
    // The window is clipped at the border: 3x3 cells in the corner.
    assert_eq!(ratio(remover.calculate_edge_alpha(&solid, 0, 0)), (9, 9));
    assert_eq!(ratio(remover.calculate_edge_alpha(&solid, 8, 3)), (15, 15));
    let empty = Mask::filled(9, 9, false);
    assert_eq!(ratio(remover.calculate_edge_alpha(&empty, 4, 4)), (0, 1));
}

#[test]
fn feathering_counts_background_in_the_window() {
    let remover = BackgroundRemover::new();
    let mask = mask_from_rows(&[
        "......",
        "..###.",
        "..###.",
        "..###.",
        "......",
    ]);
    // Window x 1..=5, y 0..=4: 25 cells, 9 of them foreground.
    assert_eq!(ratio(remover.calculate_edge_alpha(&mask, 3, 2)), (9, 25));
    // Window x 0..=4, y 0..=3: 20 cells, 9 of them foreground.
    assert_eq!(ratio(remover.calculate_edge_alpha(&mask, 2, 1)), (9, 20));
    // Window x 2..=5, y 1..=4: 16 cells, 9 of them foreground.
    assert_eq!(ratio(remover.calculate_edge_alpha(&mask, 4, 3)), (9, 16));
    // A background pixel has opacity 0 whatever surrounds it.
    assert_eq!(ratio(remover.calculate_edge_alpha(&mask, 1, 2)), (0, 1));
}

#[test]
fn applied_mask_rounds_alpha_to_nearest() {
    let remover = BackgroundRemover::new();
    // A 1x2 mask with one foreground cell: its window holds both cells.
    let mask = mask_from_rows(&["#", "."]);
    let mut image = RgbaBuffer::new(1, 2);
    image.put_pixel(0, 0, Pixel { r: 1, g: 2, b: 3, a: 255 });
    image.put_pixel(0, 1, Pixel { r: 4, g: 5, b: 6, a: 255 });
    let output = remover.apply_mask(&image, &mask);
    // 255 / 2 = 127.5 rounds to 128.
    assert_eq!(output.get_pixel(0, 0), Pixel { r: 1, g: 2, b: 3, a: 128 });
    assert_eq!(output.get_pixel(0, 1), Pixel { r: 4, g: 5, b: 6, a: 0 });

    image.put_pixel(0, 0, Pixel { r: 1, g: 2, b: 3, a: 100 });
    assert_eq!(remover.apply_mask(&image, &mask).get_pixel(0, 0).a, 50);
    image.put_pixel(0, 0, Pixel { r: 1, g: 2, b: 3, a: 0 });
    assert_eq!(remover.apply_mask(&image, &mask).get_pixel(0, 0).a, 0);

    // One foreground cell among three: 200 / 3 = 66.67 rounds to 67,
    // 100 / 3 = 33.33 rounds to 33.
    let thirds = mask_from_rows(&["#.."]);
    let mut row = RgbaBuffer::new(3, 1);
    row.put_pixel(0, 0, Pixel { r: 0, g: 0, b: 0, a: 200 });
    assert_eq!(remover.apply_mask(&row, &thirds).get_pixel(0, 0).a, 67);
    row.put_pixel(0, 0, Pixel { r: 0, g: 0, b: 0, a: 100 });
    assert_eq!(remover.apply_mask(&row, &thirds).get_pixel(0, 0).a, 33);
}

#[test]
fn background_pixels_lose_their_alpha_whatever_it_was() {
    let remover = BackgroundRemover::new();
    let mask = Mask::filled(4, 1, false);
    let mut image = RgbaBuffer::new(4, 1);
    for (x, alpha) in [0u8, 1, 128, 255].into_iter().enumerate() {
        image.put_pixel(x as u32, 0, Pixel { r: 9, g: 9, b: 9, a: alpha });
    }
    let output = remover.apply_mask(&image, &mask);
    for x in 0..4 {
        assert_eq!(output.get_pixel(x, 0), Pixel { r: 9, g: 9, b: 9, a: 0 });
    }
}

#[test]
fn enclosed_background_island_stays_background_and_transparent() {
    let remover = BackgroundRemover::new();
    let mut image = RgbaBuffer::from_pixel(12, 12, WHITE);
    for y in 3..9 {
        for x in 3..9 {
            image.put_pixel(x, y, BLACK);
        }
    }
    // A white island inside the black square.
    image.put_pixel(5, 5, WHITE);
    let mask = remover.create_mask(&image, WHITE);
    assert!(!mask.get(5, 5));
    assert!(mask.get(4, 5));
    let output = remover.remove_background(image).ok().unwrap();
    assert_eq!(output.get_pixel(5, 5), Pixel { r: 255, g: 255, b: 255, a: 0 });
}

#[test]
fn output_dimensions_equal_input_dimensions() {
    let remover = BackgroundRemover::new();
    for (width, height) in [(1, 1), (1, 9), (9, 1), (4, 4), (13, 7)] {
        let mut image = RgbaBuffer::from_pixel(width, height, WHITE);
        image.put_pixel(width / 2, height / 2, BLACK);
        let output = remover.remove_background(image).ok().unwrap();
        assert_eq!(output.dimensions(), (width, height));
        assert_eq!(output.pixel_count(), (width * height) as usize);
    }
}
