use msx2_processor::luma::sample_luminance;
use msx2_processor::glow::glow_composite;
use msx2_processor::normals::normal_component_byte;
use msx2_processor::processor::{MSX2Processor, ProcessError};
use msx2_processor::resample::resample_bilinear;
use msx2_processor::roots::{ceil_sqrt, floor_sqrt};

fn split_image() -> Vec<u8> {
    // left half colour 0 (black), right half colour 15 (200, 200, 200)
    let mut bin = vec![0u8; 256 * 212 / 2];
    for y in 0..212 {
        for x in (128..256).step_by(2) {
            bin[(y * 256 + x) / 2] = 0xFF;
        }
    }
    bin
}

#[test]
fn unpack_length_is_eight_bytes_per_input_byte() {
    let processor = MSX2Processor::new(256, 212);
    for n in [0usize, 1, 7, 300] {
        let bin = vec![0x3Cu8; n];
        assert_eq!(processor.transform_to_rgba(&bin).len(), 4 * 2 * n);
    }
}

#[test]
fn unpack_high_nibble_first() {
    let processor = MSX2Processor::new(4, 4);
    let rgba = processor.transform_to_rgba(&[0xF8, 0x0E]);
    assert_eq!(
        rgba,
        vec![
            200, 200, 200, 255, 128, 0, 0, 255, 0, 0, 0, 255, 128, 128, 128, 255
        ]
    );
}

#[test]
fn bilinear_uniform_source_keeps_colour_everywhere() {
    let processor = MSX2Processor::new(256, 212);
    let rgba = processor.transform_to_rgba(&vec![0xFF; 256 * 212 / 2]);
    let up = processor.bilinear_interpolation(&rgba).unwrap();
    assert_eq!(up.len(), 3840 * 2160 * 4);
    for (i, &b) in up.iter().enumerate() {
        let expected = if i % 4 == 3 { 255 } else { 200 };
        assert_eq!(b, expected, "byte {}", i);
    }
}

#[test]
fn bilinear_rejects_other_resolutions() {
    let processor = MSX2Processor::new(256, 212);
    let rgba = vec![0u8; 256 * 212 * 4 - 4];
    assert_eq!(
        processor.bilinear_interpolation(&rgba),
        Err(ProcessError::ResolutionUnsupported)
    );
}

#[test]
fn bilinear_blend_exact_values() {
    // a 2 by 1 source (black, then 255 red) widened to 4 by 1
    let src = vec![0u8, 0, 0, 255, 255, 0, 0, 255];
    let out = resample_bilinear(&src, 2, 1, 4, 1);
    let reds: Vec<u8> = out.iter().step_by(4).copied().collect();
    assert_eq!(reds, vec![0, 127, 255, 255]);
    assert!(out.iter().skip(3).step_by(4).all(|&a| a == 255));
}

#[test]
fn normal_component_exact_bytes() {
    assert_eq!(normal_component_byte(0, 4), 127);
    assert_eq!(normal_component_byte(2, 4), 255);
    assert_eq!(normal_component_byte(200, 40004), 254);
    assert_eq!(normal_component_byte(-200, 40004), 0);
    assert_eq!(normal_component_byte(2, 40004), 128);
    assert_eq!(normal_component_byte(0, 40004), 127);
}

#[test]
fn normal_map_flat_source_and_border() {
    let processor = MSX2Processor::new(256, 212);
    let rgba = processor.transform_to_rgba(&vec![0x77; 256 * 212 / 2]);
    let normals = processor.generate_normal_map(&rgba);
    assert_eq!(normals.len(), 256 * 212 * 3);
    // border pixels keep the neutral value
    assert_eq!(normals[0..3], [128, 128, 128]);
    // interior: floor(127.5), floor(127.5), 255
    let idx = (100 * 256 + 100) * 3;
    assert_eq!(normals[idx..idx + 3], [127, 127, 255]);
}

#[test]
fn normal_map_at_seam() {
    let processor = MSX2Processor::new(256, 212);
    let rgba = processor.transform_to_rgba(&split_image());
    let normals = processor.generate_normal_map(&rgba);
    // at x = 127: left 0, right 200, so twice the normal is (-200, 0, 2)
    let idx = (100 * 256 + 127) * 3;
    assert_eq!(normals[idx..idx + 3], [0, 127, 128]);
    // at x = 128: left 0 (x = 127), right 200, the same slope
    let idx = (100 * 256 + 128) * 3;
    assert_eq!(normals[idx..idx + 3], [0, 127, 128]);
}

#[test]
fn edges_flat_source_are_zero() {
    let processor = MSX2Processor::new(256, 212);
    let rgba = processor.transform_to_rgba(&vec![0x99; 256 * 212 / 2]);
    let edges = processor.detect_edges_sobel(&rgba);
    assert_eq!(edges.len(), 256 * 212);
    assert!(edges.iter().all(|&e| e == 0));
}

#[test]
fn edges_split_source_seam_and_elsewhere() {
    let processor = MSX2Processor::new(256, 212);
    let rgba = processor.transform_to_rgba(&split_image());
    let edges = processor.detect_edges_sobel(&rgba);
    // gx = 4 * 200 = 800 at both seam columns, clamped to 255
    assert_eq!(edges[100 * 256 + 127], 65280);
    assert_eq!(edges[100 * 256 + 128], 65280);
    assert_eq!(edges[100 * 256 + 126], 0);
    assert_eq!(edges[100 * 256 + 10], 0);
    assert_eq!(edges[100 * 256 + 200], 0);
    // border row
    assert_eq!(edges[127], 0);
}

#[test]
fn glow_exact_falloff() {
    let processor = MSX2Processor::new(8, 8);
    let rgba = processor.transform_to_rgba(&vec![0u8; 32]);
    let mut edges = vec![0u16; 64];
    edges[4 * 8 + 4] = 65280;
    let out = processor.apply_neon_glow(&rgba, &edges, 100).unwrap();
    let px = |x: usize, y: usize| &out[(y * 8 + x) * 4..(y * 8 + x) * 4 + 4];
    assert_eq!(px(4, 4), [100, 100, 100, 255]);
    assert_eq!(px(5, 4), [66, 66, 66, 255]);
    assert_eq!(px(5, 5), [52, 52, 52, 255]);
    assert_eq!(px(6, 4), [33, 33, 33, 255]);
    assert_eq!(px(6, 5), [25, 25, 25, 255]);
    assert_eq!(px(6, 6), [5, 5, 5, 255]);
    assert_eq!(px(7, 4), [0, 0, 0, 255]);
    assert_eq!(px(6, 7), [0, 0, 0, 255]);
    assert_eq!(px(1, 4), [0, 0, 0, 255]);
    assert_eq!(px(0, 0), [0, 0, 0, 255]);
}

#[test]
fn glow_saturates_at_255() {
    let processor = MSX2Processor::new(8, 8);
    let rgba = processor.transform_to_rgba(&vec![0xFFu8; 32]);
    let mut edges = vec![0u16; 64];
    edges[4 * 8 + 4] = 65280;
    let out = processor.apply_neon_glow(&rgba, &edges, 100).unwrap();
    let idx = (4 * 8 + 4) * 4;
    assert_eq!(out[idx..idx + 4], [255, 255, 255, 255]);
}

#[test]
fn glow_threshold_is_strict() {
    let processor = MSX2Processor::new(8, 8);
    let rgba = processor.transform_to_rgba(&vec![0u8; 32]);
    let mut edges = vec![0u16; 64];
    edges[4 * 8 + 4] = 12800;
    let out = processor.apply_neon_glow(&rgba, &edges, 100).unwrap();
    assert_eq!(out, rgba);
}

#[test]
fn glow_never_darkens() {
    let processor = MSX2Processor::new(256, 212);
    let rgba = processor.transform_to_rgba(&split_image());
    let edges = processor.detect_edges_sobel(&rgba);
    let out = processor.apply_neon_glow(&rgba, &edges, 150).unwrap();
    assert!(out.iter().zip(rgba.iter()).all(|(o, i)| o >= i));
    assert!(out.iter().zip(rgba.iter()).any(|(o, i)| o > i));
}

#[test]
fn glow_higher_intensity_not_dimmer() {
    let processor = MSX2Processor::new(256, 212);
    let rgba = processor.transform_to_rgba(&split_image());
    let edges = processor.detect_edges_sobel(&rgba);
    let low = processor.apply_neon_glow(&rgba, &edges, 50).unwrap();
    let high = processor.apply_neon_glow(&rgba, &edges, 200).unwrap();
    assert!(high.iter().zip(low.iter()).all(|(h, l)| h >= l));
    assert!(high.iter().zip(low.iter()).any(|(h, l)| h > l));
}

#[test]
fn glow_rejects_mismatched_buffers() {
    let processor = MSX2Processor::new(8, 8);
    let rgba = vec![0u8; 8 * 8 * 4];
    assert_eq!(
        processor.apply_neon_glow(&rgba, &vec![0u16; 63], 100),
        Err(ProcessError::BufferResolutionMismatch)
    );
    assert_eq!(
        processor.apply_neon_glow(&rgba[..255], &vec![0u16; 64], 100),
        Err(ProcessError::BufferResolutionMismatch)
    );
    let longer = vec![0u8; 8 * 8 * 4 + 4];
    assert_eq!(
        processor.apply_neon_glow(&longer, &vec![0u16; 64], 100),
        Err(ProcessError::BufferResolutionMismatch)
    );
    let ragged = vec![0u8; 8 * 8 * 4 + 1];
    assert_eq!(
        processor.apply_neon_glow(&ragged, &vec![0u16; 64], 100),
        Err(ProcessError::BufferResolutionMismatch)
    );
    assert!(processor.apply_neon_glow(&rgba, &vec![0u16; 64], 100).is_ok());
}

#[test]
fn pipeline_rejects_wrong_packed_size() {
    let processor = MSX2Processor::new(256, 212);
    let r = processor.process_with_post_effects(&vec![0u8; 100], false, false, false, 0);
    assert!(matches!(r, Err(ProcessError::SizeMismatch)));
}

#[test]
fn pipeline_rejects_upscale_of_other_sizes() {
    let processor = MSX2Processor::new(4, 4);
    let r = processor.process_with_post_effects(&vec![0u8; 8], true, false, false, 0);
    assert!(matches!(r, Err(ProcessError::ResolutionUnsupported)));
    let ok = processor.process_with_post_effects(&vec![0u8; 8], false, true, true, 100);
    assert!(ok.is_ok());
}

#[test]
fn pipeline_all_off_passes_unpacked_through() {
    let processor = MSX2Processor::new(4, 4);
    let bin = vec![0x12u8, 0x34, 0x56, 0x78, 0x9A, 0xBC, 0xDE, 0xF0];
    let result = processor
        .process_with_post_effects(&bin, false, false, false, 300)
        .unwrap();
    assert_eq!(result.get_rgba(), processor.transform_to_rgba(&bin));
    assert!(result.get_normals().is_empty());
    assert!(result.get_edges().is_empty());
}

#[test]
fn pipeline_stages_use_source_resolution() {
    let processor = MSX2Processor::new(256, 212);
    let bin = split_image();
    let rgba = processor.transform_to_rgba(&bin);
    let result = processor
        .process_with_post_effects(&bin, true, true, true, 100)
        .unwrap();
    assert_eq!(result.get_normals(), processor.generate_normal_map(&rgba));
    assert_eq!(result.get_edges(), processor.detect_edges_sobel(&rgba));
    let scaled = processor.bilinear_interpolation(&rgba).unwrap();
    // the 4K image is glowed at source-resolution addressing
    assert_eq!(
        processor.apply_neon_glow(&scaled, &result.get_edges(), 100),
        Err(ProcessError::BufferResolutionMismatch)
    );
    let expected = glow_composite(&scaled, &result.get_edges(), 256, 212, 100);
    assert_eq!(result.get_rgba(), expected);
}

#[test]
fn pipeline_intensity_inert_without_edges() {
    let processor = MSX2Processor::new(256, 212);
    let bin = split_image();
    let a = processor
        .process_with_post_effects(&bin, false, false, false, 0)
        .unwrap();
    let b = processor
        .process_with_post_effects(&bin, false, false, false, 500)
        .unwrap();
    assert_eq!(a.get_rgba(), b.get_rgba());
}

#[test]
fn square_roots() {
    assert_eq!(floor_sqrt(0), 0);
    assert_eq!(floor_sqrt(15), 3);
    assert_eq!(floor_sqrt(16), 4);
    assert_eq!(ceil_sqrt(15), 4);
    assert_eq!(ceil_sqrt(16), 4);
    assert_eq!(ceil_sqrt(17), 5);
}

#[test]
fn memory_slot_lookup() {
    let processor = MSX2Processor::new(256, 212);
    assert_eq!(processor.find_memory_slot(0x0000), "BIOS/ROM (0x0000)");
    assert_eq!(processor.find_memory_slot(0x4100), "Cartridge (0x4000)");
    assert_eq!(processor.find_memory_slot(0xBFFF), "RAM (Slot 2) (0x8000)");
    assert_eq!(processor.find_memory_slot(0xC000), "RAM Principal (0xC000)");
    assert_eq!(processor.find_memory_slot(0x10000), "Desconocido");
}

#[test]
fn load_info_saturates_end_address() {
    let processor = MSX2Processor::new(256, 212);
    let info = processor.create_load_info(0x8000, 0x1000);
    assert_eq!(info.get_load_address(), 0x8000);
    assert_eq!(info.get_binary_size(), 0x1000);
    assert_eq!(info.get_start_address(), 0x8000);
    assert_eq!(info.get_end_address(), 0x9000);
    assert_eq!(info.get_memory_slot(), "RAM (Slot 2) (0x8000)");
    let far = processor.create_load_info(0xFFFF_FFF0, 0x100);
    assert_eq!(far.get_end_address(), u32::MAX);
    assert_eq!(far.get_memory_slot(), "Desconocido");
}

#[test]
fn memory_map_catalogue() {
    let processor = MSX2Processor::new(256, 212);
    let slots = processor.memory_slots();
    assert_eq!(slots.len(), 4);
    assert_eq!(slots[3].get_address(), 0xC000);
    assert_eq!(slots[3].get_size(), 0x4000);
    assert_eq!(slots[3].get_name(), "RAM Principal");
    assert_eq!(slots[3].get_region_type(), "RAM");
}

#[test]
fn luminance_weights_and_clamping() {
    // a 2 by 1 image: white, then pure red
    let rgba = vec![255u8, 255, 255, 255, 255, 0, 0, 255];
    assert_eq!(sample_luminance(&rgba, 2, 1, 0, 0), 255);
    assert_eq!(sample_luminance(&rgba, 2, 1, 1, 0), 76);
    // coordinates outside the image clamp to the nearest edge pixel
    assert_eq!(sample_luminance(&rgba, 2, 1, -5, 3), 255);
    assert_eq!(sample_luminance(&rgba, 2, 1, 9, -1), 76);
    let grey = vec![200u8, 200, 200, 255];
    assert_eq!(sample_luminance(&grey, 1, 1, 0, 0), 200);
    let green = vec![0u8, 255, 0, 255];
    assert_eq!(sample_luminance(&green, 1, 1, 0, 0), 149);
}
