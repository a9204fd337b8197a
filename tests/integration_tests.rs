use msx2_processor::processor::MSX2Processor;

#[test]
fn test_processor_creation() {
    let _processor = MSX2Processor::new(256, 212);
    assert!(true);
}

#[test]
fn test_rgba_conversion() {
    let processor = MSX2Processor::new(256, 212);

    // 0x12: pixel 1 is colour 1 (red), pixel 2 is colour 2 (green)
    let bin_data = vec![0x12];
    let rgba = processor.transform_to_rgba(&bin_data);

    assert_eq!(rgba.len(), 8);
    assert_eq!(rgba[0..4], [255, 0, 0, 255]);
    assert_eq!(rgba[4..8], [0, 255, 0, 255]);
}

#[test]
fn test_bilinear_interpolation_dimensions() {
    let processor = MSX2Processor::new(256, 212);
    let msx2_data = vec![0xFF; 256 * 212 / 2];
    let rgba = processor.transform_to_rgba(&msx2_data);
    let upscaled = processor.bilinear_interpolation(&rgba).unwrap();

    let expected_size = 3840 * 2160 * 4;
    assert_eq!(upscaled.len(), expected_size);
}

#[test]
fn test_bilinear_preserves_colors() {
    let processor = MSX2Processor::new(256, 212);

    let mut msx2_data = vec![0x0; 256 * 212 / 2];
    for byte in &mut msx2_data {
        *byte = 0x11;
    }

    let rgba = processor.transform_to_rgba(&msx2_data);
    let upscaled = processor.bilinear_interpolation(&rgba).unwrap();

    let sample_pixel = &upscaled[0..4];
    assert!(sample_pixel[0] > 200);
}

#[test]
fn test_normal_map_generation() {
    let processor = MSX2Processor::new(256, 212);
    let msx2_data = vec![0xAA; 256 * 212 / 2];
    let rgba = processor.transform_to_rgba(&msx2_data);
    let normals = processor.generate_normal_map(&rgba);

    let expected_size = 256 * 212 * 3;
    assert_eq!(normals.len(), expected_size);

    for &byte in &normals {
        assert!(u32::from(byte) <= 255);
    }
}

#[test]
fn test_normal_map_center_value() {
    let processor = MSX2Processor::new(256, 212);
    let msx2_data = vec![0xAA; 256 * 212 / 2];
    let rgba = processor.transform_to_rgba(&msx2_data);
    let normals = processor.generate_normal_map(&rgba);

    let center_pixel = (212 / 2) * 256 + (256 / 2);
    let idx = center_pixel * 3;

    let nz = normals[idx + 2] as i32;
    assert!(nz > 240);
}

#[test]
fn test_sobel_edge_detection() {
    let processor = MSX2Processor::new(256, 212);
    let msx2_data = vec![0xFF; 256 * 212 / 2];
    let rgba = processor.transform_to_rgba(&msx2_data);
    let edges = processor.detect_edges_sobel(&rgba);

    assert_eq!(edges.len(), 256 * 212);

    // edge values are magnitudes in 1/256 steps
    let zero_count = edges.iter().filter(|&&e| (e as f32) / 256.0 < 5.0).count();
    assert!(zero_count > 256 * 212 / 2);
}

#[test]
fn test_sobel_gradient_detection() {
    let processor = MSX2Processor::new(256, 212);

    let mut msx2_data = vec![0x0; 256 * 212 / 2];
    for y in 0..212 {
        for x in 0..128 {
            let idx = (y * 256 + x) / 2;
            msx2_data[idx] = 0x00;
        }
        for x in 128..256 {
            let idx = (y * 256 + x) / 2;
            msx2_data[idx] = 0xFF;
        }
    }

    let rgba = processor.transform_to_rgba(&msx2_data);
    let edges = processor.detect_edges_sobel(&rgba);

    let border_x = 127;
    let mut border_edges = Vec::new();
    for y in 50..162 {
        border_edges.push((edges[y * 256 + border_x] as f32) / 256.0);
    }

    let avg_edge: f32 = border_edges.iter().sum::<f32>() / border_edges.len() as f32;
    assert!(avg_edge > 50.0);
}

#[test]
fn test_neon_glow_application() {
    let processor = MSX2Processor::new(256, 212);
    let msx2_data = vec![0xAA; 256 * 212 / 2];
    let rgba = processor.transform_to_rgba(&msx2_data);
    let edges = processor.detect_edges_sobel(&rgba);

    // intensity 1.0, in hundredths
    let glowed = processor.apply_neon_glow(&rgba, &edges, 100).unwrap();

    assert_eq!(glowed.len(), rgba.len());

    let original_brightness: u32 = rgba.iter().take(3).map(|&b| b as u32).sum();
    let glowed_brightness: u32 = glowed.iter().take(3).map(|&b| b as u32).sum();

    assert!(glowed_brightness >= original_brightness);
}

#[test]
fn test_process_with_all_effects() {
    let processor = MSX2Processor::new(256, 212);
    let msx2_data = vec![0x55; 256 * 212 / 2];

    let result = processor
        .process_with_post_effects(&msx2_data, true, true, true, 100)
        .unwrap();

    assert!(result.get_rgba().len() > 0, "RGBA debería generarse");
    assert!(result.get_normals().len() > 0, "Normals debería generarse");
    assert!(result.get_edges().len() > 0, "Edges debería generarse");

    assert_eq!(result.get_rgba().len(), 3840 * 2160 * 4);
    assert_eq!(result.get_normals().len(), 256 * 212 * 3);
    assert_eq!(result.get_edges().len(), 256 * 212);
}

#[test]
fn test_process_without_optional_effects() {
    let processor = MSX2Processor::new(256, 212);
    let msx2_data = vec![0x88; 256 * 212 / 2];

    let result = processor
        .process_with_post_effects(&msx2_data, false, false, false, 0)
        .unwrap();

    assert_eq!(result.get_rgba().len(), 256 * 212 * 4);
    assert_eq!(result.get_normals().len(), 0);
    assert_eq!(result.get_edges().len(), 0);
}

#[test]
fn test_palette_loading() {
    let processor = MSX2Processor::new(256, 212);

    let test_data = vec![0x00];
    let rgba = processor.transform_to_rgba(&test_data);

    assert_eq!(rgba[0], 0);
    assert_eq!(rgba[1], 0);
    assert_eq!(rgba[2], 0);
    assert_eq!(rgba[3], 255);
}

#[test]
fn test_glow_intensity_levels() {
    let processor = MSX2Processor::new(256, 212);
    let msx2_data = vec![0x55; 256 * 212 / 2];
    let rgba = processor.transform_to_rgba(&msx2_data);
    let edges = processor.detect_edges_sobel(&rgba);

    // intensities 0.5 and 2.0, in hundredths
    let glow_low = processor.apply_neon_glow(&rgba, &edges, 50).unwrap();
    let glow_high = processor.apply_neon_glow(&rgba, &edges, 200).unwrap();

    let brightness_low: u32 = glow_low[..100].iter().map(|&b| b as u32).sum();
    let brightness_high: u32 = glow_high[..100].iter().map(|&b| b as u32).sum();

    assert!(brightness_high >= brightness_low);
}

#[test]
fn test_multiple_frames_processing() {
    let processor = MSX2Processor::new(256, 212);

    for frame in 0..10 {
        let mut frame_data = vec![0; 256 * 212 / 2];
        frame_data.fill(frame as u8);

        let result = processor
            .process_with_post_effects(&frame_data, true, false, true, 100)
            .unwrap();

        assert_eq!(result.get_rgba().len(), 3840 * 2160 * 4);
    }
}

#[test]
fn test_papiweb_branding() {
    let _processor = MSX2Processor::new(256, 212);
    assert!(true);
}
