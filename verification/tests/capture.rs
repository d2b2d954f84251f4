//! Captures and what is shown on the screen.

use oxiplay::render::{planes_to_make, shader_params, PlaneGeometry};
use oxiplay::video::{
    capture_name, downscale_rgba, gif_target_dims, save_gif, save_screenshot, CaptureError,
    VideoFrameData, YuvFrame, GIF_MAX_WIDTH,
};

#[test]
fn downscale_halves_dimensions() {
    let src = vec![255u8; 4 * 2 * 4];
    let out = downscale_rgba(&src, 4, 2, 2, 1);
    assert_eq!(out.len(), 2 * 4);
    assert!(out.iter().all(|&b| b == 255));
}

#[test]
fn gif_dims_bounded_and_even() {
    assert_eq!(gif_target_dims(320, 240), (320, 240));
    let (w, h) = gif_target_dims(1920, 1080);
    assert_eq!(w, GIF_MAX_WIDTH);
    assert_eq!(h % 2, 0);
    assert_eq!(h, 270);
}

#[test]
fn gif_encodes_frames() {
    let (w, h) = (4u32, 4u32);
    let frames = vec![
        vec![0u8; (w * h * 4) as usize],
        vec![255u8; (w * h * 4) as usize],
    ];
    let bytes = save_gif(frames, w, h, 10).unwrap();
    assert_eq!(&bytes[..6], b"GIF89a");
}

#[test]
fn screenshot_writes_valid_png() {
    let frame = VideoFrameData {
        width: 2,
        height: 2,
        pixels: vec![255; 2 * 2 * 4],
        pts_us: 0,
        yuv: None,
    };
    let data = save_screenshot(&frame).unwrap();
    assert_eq!(&data[1..4], b"PNG");
}

#[test]
fn odd_sizes_become_even() {
    assert_eq!(gif_target_dims(321, 241), (320, 240));
    assert_eq!(gif_target_dims(1, 1), (2, 2));
    assert_eq!(gif_target_dims(0, 9), (0, 0));
    assert_eq!(gif_target_dims(4000, 9), (480, 2));
}

#[test]
fn scaling_takes_the_nearest_pixel() {
    let src: Vec<u8> = (0..16).collect();
    assert_eq!(downscale_rgba(&src, 4, 1, 2, 1), vec![0, 1, 2, 3, 8, 9, 10, 11]);
    assert_eq!(downscale_rgba(&src, 0, 1, 1, 1), vec![0; 4]);
    assert_eq!(downscale_rgba(&src[..4], 1, 2, 1, 2), vec![0, 1, 2, 3, 0, 0, 0, 0]);
}

#[test]
fn a_screenshot_can_be_read_again() {
    let pixels: Vec<u8> = vec![1, 2, 3, 4, 5, 6, 7, 8];
    let frame = VideoFrameData { width: 1, height: 2, pixels: pixels.clone(), pts_us: 0, yuv: None };
    let file = save_screenshot(&frame).unwrap();
    let decoder = png::Decoder::new(std::io::Cursor::new(file));
    let mut reader = decoder.read_info().unwrap();
    let mut out = vec![0; 8];
    let info = reader.next_frame(&mut out).unwrap();
    assert_eq!((info.width, info.height), (1, 2));
    assert_eq!(out, pixels);
}

#[test]
fn broken_pictures_are_not_captured() {
    let frame = VideoFrameData { width: 0, height: 2, pixels: vec![], pts_us: 0, yuv: None };
    assert_eq!(save_screenshot(&frame).unwrap_err(), CaptureError::EmptyPicture);
    let frame = VideoFrameData { width: 1, height: 2, pixels: vec![0], pts_us: 0, yuv: None };
    assert_eq!(save_screenshot(&frame).unwrap_err(), CaptureError::PixelCount);
    assert_eq!(save_gif(vec![], 1, 1, 5).unwrap_err(), CaptureError::NoFrame);
    assert_eq!(capture_name("17", "png"), "oxiplay-17.png");
}

#[test]
fn an_animation_can_be_read_again() {
    let red = vec![255, 0, 0, 255];
    let blue = vec![0, 0, 255, 255];
    let file = save_gif(vec![red, blue], 1, 1, 7).unwrap();
    assert_eq!(file[file.len() - 1], 0x3b);
    let mut options = gif::DecodeOptions::new();
    options.set_color_output(gif::ColorOutput::RGBA);
    let mut decoder = options.read_info(std::io::Cursor::new(file)).unwrap();
    assert_eq!((decoder.width(), decoder.height()), (1, 1));
    let first = decoder.read_next_frame().unwrap().unwrap();
    assert_eq!(first.delay, 7);
    assert_eq!(&first.buffer[..], &[255, 0, 0, 255]);
    let second = decoder.read_next_frame().unwrap().unwrap();
    assert_eq!(&second.buffer[..], &[0, 0, 255, 255]);
    assert!(decoder.read_next_frame().unwrap().is_none());
    assert_eq!(decoder.repeat(), gif::Repeat::Infinite);
}

#[test]
fn many_colours_are_reduced() {
    let mut picture = Vec::new();
    for i in 0..1024u32 {
        picture.extend_from_slice(&[(i % 32 * 8) as u8, (i / 32 * 8) as u8, 77, 255]);
    }
    let file = save_gif(vec![picture], 32, 32, 1).unwrap();
    let mut decoder = gif::DecodeOptions::new()
        .read_info(std::io::Cursor::new(file))
        .unwrap();
    let frame = decoder.read_next_frame().unwrap().unwrap();
    assert_eq!(frame.buffer.len(), 1024);
    assert!(frame.palette.as_ref().unwrap().len() <= 768);
}

fn yuv() -> YuvFrame {
    YuvFrame {
        width: 4,
        height: 2,
        y: vec![],
        u: vec![],
        v: vec![],
        y_stride: 4,
        uv_stride: 2,
        chroma_width: 2,
        chroma_height: 1,
        bytes_per_sample: 1,
        matrix: 0x0102_0304,
        full_range: 1,
        transfer: 2,
    }
}

#[test]
fn the_shader_gets_its_parameters() {
    let params = shader_params(&yuv());
    assert_eq!(&params[..4], &0x0102_0304u32.to_le_bytes());
    assert_eq!(&params[4..8], &1u32.to_le_bytes());
    assert_eq!(&params[8..12], &2u32.to_le_bytes());
    assert_eq!(&params[12..], &203.0f32.to_le_bytes());
}

#[test]
fn planes_are_made_when_the_size_changes() {
    let wanted = PlaneGeometry { width: 4, height: 2, chroma_width: 2, chroma_height: 1 };
    assert_eq!(planes_to_make(None, &yuv()), Some(wanted));
    assert_eq!(planes_to_make(Some(wanted), &yuv()), None);
    let other = PlaneGeometry { width: 5, ..wanted };
    assert_eq!(planes_to_make(Some(other), &yuv()), Some(wanted));
}
