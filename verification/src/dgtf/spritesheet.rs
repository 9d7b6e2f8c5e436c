use vstd::prelude::*;

verus! {

/// A rectangle of a sprite sheet frame description: where, and how large.
#[derive(Clone, Copy, Debug, PartialEq, Eq, Structural)]
pub struct FrameFrame {
    pub x: u8,
    pub y: u8,
    pub w: u8,
    pub h: u8,
}

/// One frame of a sprite sheet description: its place on the sheet, and the
/// place of its trimmed pixels within the untrimmed sprite.
#[allow(non_snake_case)]
#[derive(Clone, Copy, Debug, PartialEq, Eq, Structural)]
pub struct Frame {
    pub frame: FrameFrame,
    pub spriteSourceSize: FrameFrame,
}

/// The frames of a sprite sheet description, in order.
#[derive(Debug)]
pub struct FrameData {
    pub frames: Vec<Frame>,
}

/// A sprite of a sheet: its rectangle on the sheet and its drawing offset.
#[derive(Clone, Copy, Debug, PartialEq, Eq, Structural)]
pub struct Sprite {
    pub sheet_x: u8,
    pub sheet_y: u8,
    pub width: u8,
    pub height: u8,
    pub x_offset: u8,
    pub y_offset: u8,
}

/// A decoded sprite sheet image: pixel packing, size, palette and packed pixels.
#[derive(Debug, PartialEq, Eq)]
pub struct SpriteSheetImage {
    pub pixels_per_byte: u8,
    pub width: u32,
    pub height: u32,
    pub palette: [u8; 16],
    pub pixel_array: Vec<u8>,
}

/// A sprite sheet ready for the console: image data and the sprites on it.
#[derive(Debug, PartialEq, Eq)]
pub struct SpriteSheet {
    pub pixels_per_byte: u8,
    pub palette: [u8; 16],
    pub width: u8,
    pub height: u8,
    pub sprite_data: Vec<Sprite>,
    pub pixel_array: Vec<u8>,
}

/// The sprite that a frame describes: the frame's rectangle on the sheet, offset by
/// the corner of its source rectangle.
pub open spec fn sprite_of(f: Frame) -> Sprite {
    Sprite {
        sheet_x: f.frame.x,
        sheet_y: f.frame.y,
        width: f.frame.w,
        height: f.frame.h,
        x_offset: f.spriteSourceSize.x,
        y_offset: f.spriteSourceSize.y,
    }
}

/// A frame's sprite sits on the sheet at the frame's own x and y, has the frame's
/// width and height, and is offset by the corner of the frame's source rectangle.
pub proof fn lemma_sprite_of_fields(f: Frame)
    ensures
        sprite_of(f).sheet_x == f.frame.x,
        sprite_of(f).sheet_y == f.frame.y,
        sprite_of(f).width == f.frame.w,
        sprite_of(f).height == f.frame.h,
        sprite_of(f).x_offset == f.spriteSourceSize.x,
        sprite_of(f).y_offset == f.spriteSourceSize.y,
{
}

impl Sprite {
    /// The sprite that `frame` describes.
    pub fn from_frame(frame: &Frame) -> (s: Sprite)
        ensures
            s == sprite_of(*frame),
            s.sheet_x == frame.frame.x,
            s.sheet_y == frame.frame.y,
            s.width == frame.frame.w,
            s.height == frame.frame.h,
            s.x_offset == frame.spriteSourceSize.x,
            s.y_offset == frame.spriteSourceSize.y,
    {
        Sprite {
            sheet_x: frame.frame.x,
            sheet_y: frame.frame.y,
            width: frame.frame.w,
            height: frame.frame.h,
            x_offset: frame.spriteSourceSize.x,
            y_offset: frame.spriteSourceSize.y,
        }
    }
}

/// Builds a sprite sheet from its frame description and its decoded image: one
/// sprite per frame, in order, and the image's packing, palette and pixels, with
/// its width and height cut to a byte.
pub fn include_spritesheet(frame_data: &FrameData, image: SpriteSheetImage) -> (sheet: SpriteSheet)
    ensures
        sheet.sprite_data@.len() == frame_data.frames@.len(),
        forall|i: int| 0 <= i < frame_data.frames@.len() ==>
            #[trigger] sheet.sprite_data@[i] == sprite_of(frame_data.frames@[i]),
        forall|i: int| 0 <= i < frame_data.frames@.len() ==> {
            &&& (#[trigger] sheet.sprite_data@[i]).sheet_x == frame_data.frames@[i].frame.x
            &&& sheet.sprite_data@[i].sheet_y == frame_data.frames@[i].frame.y
            &&& sheet.sprite_data@[i].width == frame_data.frames@[i].frame.w
            &&& sheet.sprite_data@[i].height == frame_data.frames@[i].frame.h
            &&& sheet.sprite_data@[i].x_offset == frame_data.frames@[i].spriteSourceSize.x
            &&& sheet.sprite_data@[i].y_offset == frame_data.frames@[i].spriteSourceSize.y
        },
        sheet.pixels_per_byte == image.pixels_per_byte,
        sheet.palette == image.palette,
        sheet.width == image.width % 256,
        sheet.height == image.height % 256,
        sheet.pixel_array@ == image.pixel_array@,
{
    let mut sprites: Vec<Sprite> = Vec::new();
    let num_frames = frame_data.frames.len();
    let mut i: usize = 0;
    while i < num_frames
        invariant
            num_frames == frame_data.frames@.len(),
            i <= num_frames,
            sprites@.len() == i,
            forall|k: int| 0 <= k < i ==> #[trigger] sprites@[k] == sprite_of(frame_data.frames@[k]),
        decreases num_frames - i,
    {
        sprites.push(Sprite::from_frame(&frame_data.frames[i]));
        i += 1;
    }
    SpriteSheet {
        pixels_per_byte: image.pixels_per_byte,
        palette: image.palette,
        width: (image.width % 256) as u8,
        height: (image.height % 256) as u8,
        sprite_data: sprites,
        pixel_array: image.pixel_array,
    }
}

} // verus!
