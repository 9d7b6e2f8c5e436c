use gt_crust::dgtf::spritesheet::{
    include_spritesheet, Frame, FrameData, FrameFrame, Sprite, SpriteSheetImage,
};
use gt_crust::dgtf::text::{find_char, string_to_indices, CHARACTERS};

fn frame(x: u8, y: u8, w: u8, h: u8, ox: u8, oy: u8) -> Frame {
    Frame {
        frame: FrameFrame { x, y, w, h },
        spriteSourceSize: FrameFrame { x: ox, y: oy, w, h },
    }
}

#[test]
fn test_my_macro() {
    let frame_data = FrameData { frames: vec![frame(0, 0, 8, 8, 0, 0), frame(8, 0, 6, 7, 1, 1)] };
    let image = SpriteSheetImage {
        pixels_per_byte: 1,
        width: 16,
        height: 8,
        palette: [0; 16],
        pixel_array: vec![0; 128],
    };
    let spritesheet = include_spritesheet(&frame_data, image);

    println!("{:?}", spritesheet);
}

#[test]
fn sprites_follow_frames() {
    let frame_data = FrameData { frames: vec![frame(1, 2, 3, 4, 5, 6), frame(10, 20, 30, 40, 50, 60)] };
    let mut palette = [0u8; 16];
    palette[3] = 9;
    let image = SpriteSheetImage {
        pixels_per_byte: 2,
        width: 300,
        height: 128,
        palette,
        pixel_array: vec![1, 2, 3],
    };
    let sheet = include_spritesheet(&frame_data, image);
    assert_eq!(
        sheet.sprite_data,
        vec![
            Sprite { sheet_x: 1, sheet_y: 2, width: 3, height: 4, x_offset: 5, y_offset: 6 },
            Sprite { sheet_x: 10, sheet_y: 20, width: 30, height: 40, x_offset: 50, y_offset: 60 },
        ]
    );
    assert_eq!(sheet.width, 44);
    assert_eq!(sheet.height, 128);
    assert_eq!(sheet.pixels_per_byte, 2);
    assert_eq!(sheet.palette, palette);
    assert_eq!(sheet.pixel_array, vec![1, 2, 3]);
    assert_eq!(Sprite::from_frame(&frame(7, 7, 2, 2, 0, 1)).y_offset, 1);
}

#[test]
fn empty_frame_list_gives_no_sprites() {
    let frame_data = FrameData { frames: vec![] };
    let image = SpriteSheetImage { pixels_per_byte: 1, width: 0, height: 0, palette: [0; 16], pixel_array: vec![] };
    assert!(include_spritesheet(&frame_data, image).sprite_data.is_empty());
}

#[test]
fn letters_and_digits_map_to_the_table() {
    assert_eq!(string_to_indices("Start"), Ok(vec![19, 46, 27, 44, 46]));
    assert_eq!(string_to_indices("A"), Ok(vec![1]));
    assert_eq!(string_to_indices("Up"), Ok(vec![21, 42]));
    assert_eq!(string_to_indices(" z10"), Ok(vec![0, 52, 53, 62]));
    assert_eq!(string_to_indices(""), Ok(vec![]));
    assert_eq!(string_to_indices("!<>"), Ok(vec![63, 78, 79]));
}

#[test]
fn quotes_alternate_left_and_right() {
    assert_eq!(string_to_indices("\"Hi\""), Ok(vec![70, 8, 35, 71]));
    assert_eq!(string_to_indices("\"\"\""), Ok(vec![70, 71, 70]));
}

#[test]
fn unknown_character_is_reported() {
    assert_eq!(string_to_indices("ok~no"), Err('~'));
    assert_eq!(string_to_indices("a#b@"), Err('#'));
    assert_eq!(string_to_indices("é"), Err('é'));
}

#[test]
fn table_lookup() {
    assert_eq!(find_char(CHARACTERS, ' '), Some(0));
    assert_eq!(find_char(CHARACTERS, '"'), Some(70));
    assert_eq!(find_char(CHARACTERS, '>'), Some(79));
    assert_eq!(find_char(CHARACTERS, '~'), None);
    assert_eq!(CHARACTERS.chars().count(), 80);
}
