use planet::file::{get_commandline_footer, get_file_extension, FileType};
use planet::geometry::edge_rotation_order;
use planet::math::{RandPrecision, SeedGenerator};
use planet::render::slicing::Slicing;
use planet::render::{gen_canvas, gen_heightfield, gen_shading, get_filetypes, smooth_shading};

#[test]
fn file_extensions() {
    assert_eq!(get_file_extension(&FileType::bmp), ".bmp");
    assert_eq!(get_file_extension(&FileType::ppm), ".ppm");
    assert_eq!(get_file_extension(&FileType::xpm), ".xpm");
    assert_eq!(get_file_extension(&FileType::heightfield), ".heightfield");
    assert_eq!(get_file_extension(&FileType::png), ".png");
}

#[test]
fn commandline_footer_joins_arguments() {
    let args = vec![
        "planet".to_string(),
        "-w".to_string(),
        "100".to_string(),
        "--bmp".to_string(),
    ];
    assert_eq!(get_commandline_footer(&args), "Command line:\n-w 100 --bmp\n");
}

#[test]
fn commandline_footer_without_arguments() {
    assert_eq!(
        get_commandline_footer(&vec!["planet".to_string()]),
        "Command line:\n\n"
    );
    assert_eq!(get_commandline_footer(&Vec::new()), "Command line:\n\n");
}

#[test]
fn seed_generator_reads_config() {
    let s = SeedGenerator::new("nh");
    assert_eq!(s.pre1, RandPrecision::Normal);
    assert_eq!(s.pre2, RandPrecision::High);
    assert_eq!(s.pre3, RandPrecision::Original);
    assert_eq!(s.pre4, RandPrecision::Original);
    let d = SeedGenerator::new("");
    assert_eq!(d.pre1, RandPrecision::Original);
    let x = SeedGenerator::new("xxhnq");
    assert_eq!(x.pre1, RandPrecision::Original);
    assert_eq!(x.pre3, RandPrecision::High);
    assert_eq!(x.pre4, RandPrecision::Normal);
}

#[test]
fn edge_rotation_table() {
    // The swap sequences of the subdivision step compose to these orders,
    // one per longest edge in the scan order ab, ac, ad, bc, bd, cd.
    assert_eq!(edge_rotation_order(0), [0, 1, 2, 3]);
    assert_eq!(edge_rotation_order(1), [0, 2, 1, 3]);
    assert_eq!(edge_rotation_order(2), [0, 3, 1, 2]);
    assert_eq!(edge_rotation_order(3), [2, 0, 1, 3]);
    assert_eq!(edge_rotation_order(4), [1, 3, 0, 2]);
    assert_eq!(edge_rotation_order(5), [2, 3, 0, 1]);
}

#[test]
fn filetype_list_follows_flags() {
    assert_eq!(
        get_filetypes(true, false, true, false, true),
        vec![FileType::ppm, FileType::png, FileType::bmp]
    );
    assert_eq!(get_filetypes(false, false, false, false, false), Vec::new());
    assert_eq!(
        get_filetypes(false, true, false, true, false),
        vec![FileType::xpm, FileType::heightfield]
    );
}

#[test]
fn buffers_are_allocated_per_slice() {
    let slicing = Slicing::new(5, 4, 2);
    let formats = vec![FileType::bmp];
    let canvas = gen_canvas(0, &formats, &slicing);
    assert_eq!(canvas.len(), 3);
    assert_eq!(canvas[0].len(), 4);
    assert_eq!(canvas[0][0], 0);

    // A pure heightfield run keeps no canvas and no shading.
    let hf_only = vec![FileType::heightfield];
    assert!(gen_canvas(0, &hf_only, &slicing).is_empty());
    assert!(gen_shading(0, &hf_only, 2, &slicing).is_empty());
    let hf = gen_heightfield(1, true, &slicing);
    assert_eq!(hf.len(), 2);
    assert_eq!(hf[0].len(), 4);
    assert!(gen_heightfield(1, false, &slicing).is_empty());
    // Shading buffers exist only when a shading level is set.
    assert!(gen_shading(0, &formats, 0, &slicing).is_empty());
    assert_eq!(gen_shading(0, &formats, 2, &slicing).len(), 3);
}

#[test]
fn smoothing_weights_neighbours() {
    let slicing = Slicing::new(2, 2, 1);
    let mut shading = vec![vec![vec![9u8, 18], vec![27, 36]]];
    smooth_shading(&mut shading, &slicing);
    // (4*9 + 2*18 + 2*27 + 36 + 4) / 9 = 18; everything else untouched.
    assert_eq!(shading[0][0], vec![18, 18]);
    assert_eq!(shading[0][1], vec![27, 36]);
}

#[test]
fn smoothing_reads_across_slice_boundaries() {
    let slicing = Slicing::new(2, 2, 2);
    let mut shading = vec![vec![vec![9u8, 18]], vec![vec![27, 36]]];
    smooth_shading(&mut shading, &slicing);
    assert_eq!(shading[0][0], vec![18, 18]);
    assert_eq!(shading[1][0], vec![27, 36]);
}
