use ssheet::grid::{grid_columns, grid_rows};
use ssheet::layout::{create_spritesheet, IconInfo, IconSource, PixelBuffer, SheetError};

fn solid(path: &str, w: u32, h: u32, rgba: [u8; 4]) -> IconSource {
    let mut data = Vec::new();
    for _ in 0..(w * h) {
        data.extend_from_slice(&rgba);
    }
    IconSource { path: path.to_string(), pixels: PixelBuffer::new(w, h, data).unwrap() }
}

fn pixel(sheet: &PixelBuffer, x: u32, y: u32) -> [u8; 4] {
    let o = (4 * (y * sheet.width + x)) as usize;
    [sheet.data[o], sheet.data[o + 1], sheet.data[o + 2], sheet.data[o + 3]]
}

fn check_record(r: &IconInfo, name: &str, x: u32, y: u32, w: u32, h: u32) {
    assert_eq!(r.name, name);
    assert_eq!((r.x, r.y, r.width, r.height), (x, y, w, h));
}

#[test]
fn grid_sizing_examples() {
    assert_eq!(grid_columns(1), 1);
    assert_eq!(grid_rows(1, 1), 1);
    assert_eq!(grid_columns(4), 2);
    assert_eq!(grid_rows(4, 2), 2);
    assert_eq!(grid_columns(5), 3);
    assert_eq!(grid_rows(5, 3), 2);
    assert_eq!(grid_columns(3), 2);
    assert_eq!(grid_rows(3, 2), 2);
    assert_eq!(grid_columns(0), 0);
    assert_eq!(grid_columns(10), 4);
    assert_eq!(grid_rows(10, 4), 3);
}

#[test]
fn grid_covers_every_count() {
    for n in 1u32..=300 {
        let c = grid_columns(n);
        let r = grid_rows(n, c);
        assert!(c * c >= n && (c - 1) * (c - 1) < n);
        assert!(c * r >= n);
        assert!(c * (r - 1) < n);
        assert!(r <= c);
    }
}

#[test]
fn three_icons_round_trip() {
    let icons = vec![
        solid("icons/a.png", 16, 16, [255, 0, 0, 255]),
        solid("icons/b.png", 16, 16, [0, 255, 0, 255]),
        solid("icons/c.png", 16, 16, [0, 0, 255, 255]),
    ];
    let (sheet, records) = create_spritesheet(&icons).unwrap();
    assert_eq!((sheet.width, sheet.height), (32, 32));
    assert_eq!(sheet.data.len(), 32 * 32 * 4);
    assert_eq!(records.len(), 3);
    check_record(&records[0], "a", 0, 0, 16, 16);
    check_record(&records[1], "b", 16, 0, 16, 16);
    check_record(&records[2], "c", 0, 16, 16, 16);
    assert_eq!(pixel(&sheet, 0, 0), [255, 0, 0, 255]);
    assert_eq!(pixel(&sheet, 15, 15), [255, 0, 0, 255]);
    assert_eq!(pixel(&sheet, 16, 0), [0, 255, 0, 255]);
    assert_eq!(pixel(&sheet, 31, 15), [0, 255, 0, 255]);
    assert_eq!(pixel(&sheet, 0, 16), [0, 0, 255, 255]);
    assert_eq!(pixel(&sheet, 15, 31), [0, 0, 255, 255]);
    assert_eq!(pixel(&sheet, 16, 16), [0, 0, 0, 0]);
    assert_eq!(pixel(&sheet, 31, 31), [0, 0, 0, 0]);
}

#[test]
fn empty_input_gives_no_sheet() {
    let icons: Vec<IconSource> = Vec::new();
    assert_eq!(create_spritesheet(&icons).unwrap_err(), SheetError::NoIcons);
}

#[test]
fn single_icon() {
    let icons = vec![solid("only.png", 8, 8, [1, 2, 3, 4])];
    let (sheet, records) = create_spritesheet(&icons).unwrap();
    assert_eq!((sheet.width, sheet.height), (8, 8));
    assert_eq!(records.len(), 1);
    check_record(&records[0], "only", 0, 0, 8, 8);
    assert_eq!(pixel(&sheet, 7, 7), [1, 2, 3, 4]);
}

#[test]
fn pixels_keep_their_position_inside_the_cell() {
    let mut data = Vec::new();
    for i in 0..(2 * 3) {
        data.extend_from_slice(&[i as u8, 10, 20, 30]);
    }
    let first = IconSource { path: "p/one.png".to_string(), pixels: PixelBuffer::new(2, 3, data.clone()).unwrap() };
    let mut data2 = Vec::new();
    for i in 0..(2 * 3) {
        data2.extend_from_slice(&[100 + i as u8, 1, 2, 3]);
    }
    let second = IconSource { path: "p/two.png".to_string(), pixels: PixelBuffer::new(2, 3, data2).unwrap() };
    let (sheet, records) = create_spritesheet(&vec![first, second]).unwrap();
    assert_eq!((sheet.width, sheet.height), (4, 3));
    check_record(&records[1], "two", 2, 0, 2, 3);
    for py in 0..3u32 {
        for px in 0..2u32 {
            let k = (py * 2 + px) as u8;
            assert_eq!(pixel(&sheet, px, py), [k, 10, 20, 30]);
            assert_eq!(pixel(&sheet, 2 + px, py), [100 + k, 1, 2, 3]);
        }
    }
}

#[test]
fn layout_is_deterministic() {
    let icons: Vec<IconSource> = (0..7u8)
        .map(|i| solid(&format!("d/{}.png", i), 4, 2, [i, i, i, 255]))
        .collect();
    let (s1, r1) = create_spritesheet(&icons).unwrap();
    let (s2, r2) = create_spritesheet(&icons).unwrap();
    assert_eq!((s1.width, s1.height), (s2.width, s2.height));
    assert_eq!(s1.data, s2.data);
    assert_eq!(r1.len(), r2.len());
    for (a, b) in r1.iter().zip(r2.iter()) {
        assert_eq!((&a.name, a.x, a.y, a.width, a.height), (&b.name, b.x, b.y, b.width, b.height));
    }
}

#[test]
fn records_do_not_overlap_and_stay_inside() {
    let icons: Vec<IconSource> = (0..5u8)
        .map(|i| solid(&format!("n/{}.png", i), 3, 5, [i, 0, 0, 255]))
        .collect();
    let (sheet, records) = create_spritesheet(&icons).unwrap();
    assert_eq!((sheet.width, sheet.height), (9, 10));
    for i in 0..records.len() {
        let a = &records[i];
        assert!(a.x + a.width <= sheet.width && a.y + a.height <= sheet.height);
        for j in 0..records.len() {
            if i != j {
                let b = &records[j];
                assert!(a.x + a.width <= b.x || b.x + b.width <= a.x || a.y + a.height <= b.y || b.y + b.height <= a.y);
            }
        }
    }
}

#[test]
fn order_of_records_follows_input() {
    let names = ["z/zeta.png", "a/alpha.bmp", "m/mu.ico", "b/beta.png"];
    let icons: Vec<IconSource> = names.iter().map(|p| solid(p, 1, 1, [9, 9, 9, 9])).collect();
    let (_, records) = create_spritesheet(&icons).unwrap();
    let got: Vec<&str> = records.iter().map(|r| r.name.as_str()).collect();
    assert_eq!(got, vec!["zeta", "alpha", "mu", "beta"]);
}

#[test]
fn size_mismatch_names_first_offender() {
    let icons = vec![
        solid("a.png", 4, 4, [0, 0, 0, 255]),
        solid("b.png", 4, 4, [0, 0, 0, 255]),
        solid("c.png", 4, 5, [0, 0, 0, 255]),
        solid("d.png", 3, 4, [0, 0, 0, 255]),
    ];
    assert_eq!(create_spritesheet(&icons).unwrap_err(), SheetError::SizeMismatch { index: 2 });
}

#[test]
fn oversized_sheet_is_refused() {
    let wide = || IconSource { path: "w.png".to_string(), pixels: PixelBuffer::new(u32::MAX, 0, Vec::new()).unwrap() };
    let icons = vec![wide(), wide()];
    assert_eq!(create_spritesheet(&icons).unwrap_err(), SheetError::TooLarge);
}

#[test]
fn pixel_buffer_rejects_wrong_length() {
    assert!(PixelBuffer::new(2, 2, vec![0; 15]).is_none());
    assert!(PixelBuffer::new(2, 2, vec![0; 17]).is_none());
    let b = PixelBuffer::new(2, 2, vec![7; 16]).unwrap();
    assert_eq!((b.width, b.height, b.data.len()), (2, 2, 16));
}
