use planet::color::{
    build_color_data, generate_color_data, get_color_line_values, get_color_steps, Color,
    ColorFileParseError, ColorRow, ColorTable,
};

fn lines(text: &[&str]) -> Vec<String> {
    text.iter().map(|s| s.to_string()).collect()
}

/// The seven fixed slots plus a land ramp, the shape most tests share.
fn base_rows() -> Vec<&'static str> {
    vec![
        "0 0 0 0",
        "1 255 255 255",
        "2 0 0 255",
        "3 50 50 50",
        "4 60 60 60",
        "5 70 70 70",
        "6 0 0 80",
    ]
}

#[test]
fn test_read_color_line() {
    let row = get_color_line_values("      5    9     22 99".to_string()).unwrap();

    assert_eq!(row.index, 5);
    assert_eq!(row.color.red, 9); // verifying that values
    assert_eq!(row.color.green, 22); // are all correct and
    assert_eq!(row.color.blue, 99); // final value is extended onward
}

#[test]
#[should_panic]
fn test_read_bad_color_line() {
    get_color_line_values("      5    -     22 999".to_string()).unwrap();
}

#[test]
fn test_color_step_calc() {
    let start = Color::from_colors(0, 0, 0);
    let end = Color::from_colors(255, 255, 255);
    let (red, green, blue, span) = get_color_steps(0, &start, 255, &end);

    assert_eq!(red as f64 / span as f64, 1.);
    assert_eq!(green as f64 / span as f64, 1.);
    assert_eq!(blue as f64 / span as f64, 1.);
}

#[test]
fn test_negative_color_step_calc() {
    let start = Color::from_colors(238, 170, 34);
    let end = Color::from_colors(221, 136, 34);
    let (red, green, blue, span) = get_color_steps(49, &start, 51, &end);

    assert_eq!(red as f64 / span as f64, -8.5);
    assert_eq!(green as f64 / span as f64, -17.);
    assert_eq!(blue as f64 / span as f64, 0.);
}

#[test]
fn line_parse_clamps_large_index() {
    let row = get_color_line_values("70000 1 2 3".to_string()).unwrap();
    assert_eq!(row.index, 65535);
}

#[test]
fn line_parse_accepts_plus_and_extra_tokens() {
    let row = get_color_line_values("+7 8 9 10 ignored".to_string()).unwrap();
    assert_eq!(row.index, 7);
    assert_eq!(row.color.red, 8);
    assert_eq!(row.color.green, 9);
    assert_eq!(row.color.blue, 10);
}

#[test]
fn line_parse_error_kinds() {
    assert_eq!(
        get_color_line_values("1 2 3".to_string()),
        Err(ColorFileParseError::TooFewTokens)
    );
    assert_eq!(
        get_color_line_values("x 2 3 4".to_string()),
        Err(ColorFileParseError::IndexParse)
    );
    assert_eq!(
        get_color_line_values("99999999999999999999 2 3 4".to_string()),
        Err(ColorFileParseError::IndexParse)
    );
    assert_eq!(
        get_color_line_values("5 - 22 999".to_string()),
        Err(ColorFileParseError::ColorParse)
    );
    assert_eq!(
        get_color_line_values("5 22 22 999".to_string()),
        Err(ColorFileParseError::ColorParse)
    );
}

#[test]
fn test_color_file_interpolation() {
    let mut text = base_rows();
    text.push("261 255 255 255");
    let table = generate_color_data(&lines(&text)).unwrap();

    assert_eq!(table.highest_land, 261);
    assert_eq!(table.len(), 262);

    // The ramp between (6, blue 80) and (261, white) steps each channel
    // linearly; red runs 0..255 over 255 indices, one grey step per index.
    for i in 7..=261usize {
        assert_eq!(table.get(i).red, (i - 6) as u8);
    }
}

#[test]
fn test_olsson_color_file_interpolation() {
    // The land ramp of the stock palette around index 50: an explicit record
    // at 49 and at 51, with 50 interpolated between them.
    let mut text = base_rows();
    text.push("49 238 170 34");
    text.push("51 221 136 34");
    text.push("66 255 255 255");
    let table = generate_color_data(&lines(&text)).unwrap();

    assert_eq!(table.highest_land, 66);
    assert_eq!(table.len(), 67);

    assert_eq!(table.get(49), Color::from_colors(238, 170, 34));
    assert_eq!(table.get(50), Color::from_colors(230, 153, 34));
    assert_eq!(table.get(51), Color::from_colors(221, 136, 34));
}

#[test]
fn named_slots_follow_the_size() {
    let mut text = base_rows();
    text.push("66 255 255 255");
    let table = generate_color_data(&lines(&text)).unwrap();
    assert_eq!(table.black, 0);
    assert_eq!(table.white, 1);
    assert_eq!(table.back, 2);
    assert_eq!(table.grid, 3);
    assert_eq!(table.outline1, 4);
    assert_eq!(table.outline2, 5);
    assert_eq!(table.sea_bottom, 6);
    assert_eq!(table.sea_level, (6 + 66) / 2);
    assert_eq!(table.lowest_land, table.sea_level + 1);
    assert_eq!(table.highest_land, 66);
    assert_eq!(table.sea_depth, table.sea_level - 6);
    assert_eq!(table.land_height, table.highest_land - table.lowest_land);
}

#[test]
fn validation_requires_each_fixed_slot() {
    // Dropping any one of the indices 0..=6 fails validation.
    for missing in 0..=6usize {
        let mut text: Vec<String> = Vec::new();
        for i in 0..=6usize {
            if i != missing {
                text.push(format!("{} 1 2 3", i));
            }
        }
        text.push("40 9 9 9".to_string());
        text.push("41 9 9 9".to_string());
        let r = generate_color_data(&text.iter().map(|s| s.to_string()).collect());
        assert_eq!(r.unwrap_err(), ColorFileParseError::Validation);
    }
}

#[test]
fn validation_requires_increasing_indices() {
    let mut text = base_rows();
    text.push("30 1 1 1");
    text.push("20 2 2 2");
    let r = generate_color_data(&lines(&text));
    assert_eq!(r.unwrap_err(), ColorFileParseError::Validation);
}

#[test]
fn blank_lines_are_skipped() {
    let mut text = vec!["", "   "];
    text.extend(base_rows());
    text.push("");
    text.push("9 1 2 3");
    let table = generate_color_data(&lines(&text)).unwrap();
    assert_eq!(table.len(), 10);
    assert_eq!(table.get(9), Color::from_colors(1, 2, 3));
}

#[test]
fn first_bad_line_decides_the_error() {
    let mut text = base_rows();
    text.push("bad 0 0 0");
    text.push("also bad");
    let r = generate_color_data(&lines(&text));
    assert_eq!(r.unwrap_err(), ColorFileParseError::IndexParse);
}

#[test]
fn monochrome_detection() {
    let mut t = ColorTable::new(4);
    t.set(1, Color::from_colors(255, 255, 255));
    t.set(2, Color::from_colors(255, 255, 255));
    assert!(t.is_monochrome());
    t.set(3, Color::from_colors(1, 0, 0));
    assert!(!t.is_monochrome());
}

#[test]
fn biome_band_overwrites_land_colors() {
    let mut text = base_rows();
    text.push("66 255 255 255");
    let plain = build_color_data(&lines(&text), false).unwrap();
    let biomes = build_color_data(&lines(&text), true).unwrap();
    let lowest = biomes.lowest_land as usize;
    // The tundra slot ('T' - '@' above lowest land) takes its fixed color...
    assert_eq!(biomes.get(lowest + 20), Color::from_colors(210, 210, 210));
    // ...the grassland and icecap slots likewise...
    assert_eq!(biomes.get(lowest + 7), Color::from_colors(250, 215, 165));
    assert_eq!(biomes.get(lowest + 9), Color::from_colors(255, 255, 255));
    // ...and a slot between them that is no biome letter keeps its ramp color.
    assert_eq!(biomes.get(lowest + 8), plain.get(lowest + 8));
    assert_eq!(biomes.get(3), plain.get(3));
}

#[test]
fn color_row_constructors() {
    let row = ColorRow::from_index_and_colors(12, 1, 2, 3);
    assert_eq!(row.index, 12);
    assert_eq!(row.color, Color::from_colors(1, 2, 3));
    assert_eq!(Color::new(), Color::from_colors(0, 0, 0));
}
