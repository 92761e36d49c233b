use shadereye::compile::ShaderLang;
use shadereye::render::{
    animation_frame_count, animation_output, encode_frame, montage, fragment_source, padded_bytes_per_row, readback_size, resolve_lang, unpad_rows,
    FragmentSource, RenderError, RenderOutput,
};

fn output(width: u32, height: u32, rgba: Vec<u8>) -> RenderOutput {
    RenderOutput { width, height, png: Vec::new(), rgba, backend: "Vulkan".to_string() }
}

#[test]
fn pixel_reads_row_major_rgba() {
    let rgba: Vec<u8> = (0..2 * 2 * 4).map(|v| v as u8).collect();
    let out = output(2, 2, rgba);
    assert_eq!(out.pixel(0, 0), [0, 1, 2, 3]);
    assert_eq!(out.pixel(1, 0), [4, 5, 6, 7]);
    assert_eq!(out.pixel(0, 1), [8, 9, 10, 11]);
    assert_eq!(out.pixel(1, 1), [12, 13, 14, 15]);
}

#[test]
fn explicit_language_wins_over_detection() {
    assert_eq!(resolve_lang(Some(ShaderLang::Glsl), "@fragment fn f() {}"), ShaderLang::Glsl);
    assert_eq!(resolve_lang(None, "@fragment fn f() {}"), ShaderLang::Wgsl);
    assert_eq!(resolve_lang(None, "void mainImage(){}"), ShaderLang::Glsl);
}

#[test]
fn fragment_source_per_language() {
    match fragment_source(ShaderLang::Wgsl, "@fragment fn f() {}") {
        Ok(FragmentSource::Wgsl(s)) => assert_eq!(s, "@fragment fn f() {}"),
        _ => panic!("expected WGSL source"),
    }
    match fragment_source(ShaderLang::Glsl, "void mainImage(out vec4 o, in vec2 f){}") {
        Ok(FragmentSource::Glsl(s)) => assert!(s.starts_with("#version 460")),
        _ => panic!("expected GLSL source"),
    }
    assert!(matches!(fragment_source(ShaderLang::Hlsl, "x"),
        Err(RenderError::ShaderCompile(m)) if m == "unsupported render language Hlsl"));
    assert!(matches!(fragment_source(ShaderLang::SpirV, "x"),
        Err(RenderError::ShaderCompile(m)) if m == "unsupported render language SpirV"));
}

#[test]
fn rows_are_padded_to_256_bytes() {
    assert_eq!(padded_bytes_per_row(0), 0);
    assert_eq!(padded_bytes_per_row(1), 256);
    assert_eq!(padded_bytes_per_row(16), 256);
    assert_eq!(padded_bytes_per_row(64), 256);
    assert_eq!(padded_bytes_per_row(65), 512);
    assert_eq!(readback_size(256, 16), 4096);
}

#[test]
fn unpadding_drops_row_tails() {
    // 2x2 pixels, rows 12 bytes apart: 8 pixel bytes then 4 padding bytes
    let data: Vec<u8> = (0..24).map(|v| v as u8).collect();
    assert_eq!(unpad_rows(&data, 2, 2, 12), vec![0, 1, 2, 3, 4, 5, 6, 7, 12, 13, 14, 15, 16, 17, 18, 19]);
    // without padding the buffer is taken as it is
    assert_eq!(unpad_rows(&data, 3, 2, 12), data);
    assert!(unpad_rows(&data, 3, 0, 12).is_empty());
}

#[test]
fn frame_encoding() {
    let rgba = vec![255u8, 0, 0, 255, 0, 255, 0, 255];
    let out = encode_frame(2, 1, rgba.clone(), "Gl".to_string()).ok().unwrap();
    assert_eq!(out.width, 2);
    assert_eq!(out.height, 1);
    assert_eq!(out.rgba, rgba);
    assert_eq!(out.backend, "Gl");
    assert_eq!(&out.png[0..8], &[0x89, 0x50, 0x4E, 0x47, 0x0D, 0x0A, 0x1A, 0x0A]);
    assert!(matches!(encode_frame(2, 1, vec![0u8; 4], "Gl".to_string()),
        Err(RenderError::Gpu(m)) if m == "buffer size mismatch"));
    assert!(matches!(encode_frame(0, 0, Vec::new(), "Gl".to_string()), Err(RenderError::Gpu(_))));
}

#[test]
fn montage_lays_frames_left_to_right() {
    // Two opaque 2x1 frames, then a fully transparent one that leaves the canvas blank.
    let a = vec![1, 2, 3, 255, 4, 5, 6, 255];
    let b = vec![7, 8, 9, 255, 10, 11, 12, 255];
    let clear = vec![50, 60, 70, 0, 80, 90, 100, 0];
    let canvas = montage(2, 1, &vec![a.clone(), b.clone(), clear]);
    let mut expected = a;
    expected.extend_from_slice(&b);
    expected.extend_from_slice(&[0; 8]);
    assert_eq!(canvas, expected);
}

#[test]
fn montage_stacks_rows_per_frame() {
    // 1x2 frames: each frame's column keeps its two rows.
    let a = vec![1, 1, 1, 255, 2, 2, 2, 255];
    let b = vec![3, 3, 3, 255, 4, 4, 4, 255];
    let canvas = montage(1, 2, &vec![a, b]);
    assert_eq!(
        canvas,
        vec![1, 1, 1, 255, 3, 3, 3, 255, 2, 2, 2, 255, 4, 4, 4, 255]
    );
}

#[test]
fn animation_renders_at_least_one_frame() {
    assert_eq!(animation_frame_count(0), 1);
    assert_eq!(animation_frame_count(1), 1);
    assert_eq!(animation_frame_count(4), 4);
}

#[test]
fn animation_output_encodes_the_montage() {
    let mut first = output(1, 1, vec![255, 0, 0, 255]);
    first.backend = "Metal".to_string();
    let second = output(1, 1, vec![0, 0, 255, 255]);
    let out = match animation_output(1, 1, vec![first, second]) {
        Ok(out) => out,
        Err(_) => panic!("montage encodes"),
    };
    assert_eq!(out.width, 2);
    assert_eq!(out.height, 1);
    assert_eq!(out.rgba, vec![255, 0, 0, 255, 0, 0, 255, 255]);
    assert_eq!(out.backend, "Metal");
    assert_eq!(&out.png[0..8], &[0x89, 0x50, 0x4E, 0x47, 0x0D, 0x0A, 0x1A, 0x0A]);
    assert_eq!(out.pixel(1, 0), [0, 0, 255, 255]);
}

#[test]
fn animation_of_zero_width_frames_is_an_encoder_error() {
    let frames = vec![output(0, 1, Vec::new()), output(0, 1, Vec::new())];
    assert!(matches!(animation_output(0, 1, frames), Err(RenderError::Gpu(_))));
}
