//! The processor: a fixed 16-colour palette and a source resolution, and the
//! pipeline that runs the stages in order.
use vstd::prelude::*;
use crate::palette::{unpacked, unpack_pixels, lemma_unpacked_len, lemma_unpacked_at, colour_bytes, high_nibble, low_nibble};
use crate::resample::{resampled, resample_bilinear};
use crate::normals::{normal_map, normal_map_of};
use crate::edges::{edge_map, edge_map_of};
use crate::glow::{glowed, glow_composite, lemma_glowed_len, lemma_glowed_monotone_in_intensity, pointwise_le};
use crate::memory_map::{MemoryMapSlot, LoadInfo, standard_slots, slots_wf, find_label, standard_memory_map, find_slot_label, load_info_for};

verus! {

/// Width of the only source resolution the fixed upscaler accepts.
pub const SOURCE_WIDTH: u16 = 256;

/// Height of the only source resolution the fixed upscaler accepts.
pub const SOURCE_HEIGHT: u16 = 212;

/// Width of the upscale target (4K).
pub const TARGET_WIDTH: u16 = 3840;

/// Height of the upscale target (4K).
pub const TARGET_HEIGHT: u16 = 2160;

/// The standard MSX2 palette, indexed by 4-bit colour number.
pub open spec fn msx2_palette() -> Seq<[u8; 4]> {
    seq![
        [0u8, 0, 0, 255],
        [255u8, 0, 0, 255],
        [0u8, 255, 0, 255],
        [255u8, 255, 0, 255],
        [0u8, 0, 255, 255],
        [255u8, 0, 255, 255],
        [0u8, 255, 255, 255],
        [255u8, 255, 255, 255],
        [128u8, 0, 0, 255],
        [0u8, 128, 0, 255],
        [128u8, 128, 0, 255],
        [0u8, 0, 128, 255],
        [128u8, 0, 128, 255],
        [0u8, 128, 128, 255],
        [128u8, 128, 128, 255],
        [200u8, 200, 200, 255],
    ]
}


/// The three buffers of a pipeline run on the packed buffer `bin` at source
/// size `w` by `h`: the final image, the normal map and the edge map.
pub open spec fn pipeline(
    bin: Seq<u8>,
    w: int,
    h: int,
    bilinear: bool,
    normals: bool,
    edges: bool,
    inten: int,
) -> (Seq<u8>, Seq<u8>, Seq<u16>) {
    let rgba = unpacked(msx2_palette(), bin);
    let scaled = if bilinear {
        resampled(
            rgba,
            SOURCE_WIDTH as int,
            SOURCE_HEIGHT as int,
            TARGET_WIDTH as int,
            TARGET_HEIGHT as int,
        )
    } else {
        rgba
    };
    let normal_buf = if normals {
        normal_map(rgba, w, h)
    } else {
        Seq::empty()
    };
    let edge_buf = if edges {
        edge_map(rgba, w, h)
    } else {
        Seq::empty()
    };
    let image = if edges {
        glowed(scaled, edge_buf, w, h, inten)
    } else {
        scaled
    };
    (image, normal_buf, edge_buf)
}

/// With every stage off, the final image is the unpacked source and the
/// other two buffers are empty.
pub proof fn lemma_pipeline_all_off(bin: Seq<u8>, w: int, h: int, inten: int)
    requires
        bin.len() * 2 == w * h,
    ensures
        pipeline(bin, w, h, false, false, false, inten).0.len() == w * h * 4,
        pipeline(bin, w, h, false, false, false, inten).1.len() == 0,
        pipeline(bin, w, h, false, false, false, inten).2.len() == 0,
{
    lemma_unpacked_len(msx2_palette(), bin);
}

/// With every stage on at 256 by 212, the final image is 4K and the normal
/// and edge maps stay at the source size.
pub proof fn lemma_pipeline_all_on(bin: Seq<u8>, inten: int)
    requires
        bin.len() * 2 == SOURCE_WIDTH * SOURCE_HEIGHT,
    ensures
        pipeline(bin, SOURCE_WIDTH as int, SOURCE_HEIGHT as int, true, true, true, inten).0.len()
            == TARGET_WIDTH * TARGET_HEIGHT * 4,
        pipeline(bin, SOURCE_WIDTH as int, SOURCE_HEIGHT as int, true, true, true, inten).1.len()
            == SOURCE_WIDTH * SOURCE_HEIGHT * 3,
        pipeline(bin, SOURCE_WIDTH as int, SOURCE_HEIGHT as int, true, true, true, inten).2.len()
            == SOURCE_WIDTH * SOURCE_HEIGHT,
{
    let (w, h) = (SOURCE_WIDTH as int, SOURCE_HEIGHT as int);
    lemma_unpacked_len(msx2_palette(), bin);
    let rgba = unpacked(msx2_palette(), bin);
    let scaled = resampled(rgba, w, h, TARGET_WIDTH as int, TARGET_HEIGHT as int);
    assert(TARGET_WIDTH as int * TARGET_HEIGHT as int * 4 == 33177600) by (nonlinear_arith);
    assert(scaled.len() == 33177600);
    assert(w * h * 4 == 217088);
    lemma_glowed_len(scaled, edge_map(rgba, w, h), w, h, inten);
}

/// The faults a stage can reject its input with.
#[derive(Debug, Clone, Copy, PartialEq, Eq)]
pub enum ProcessError {
    /// The packed buffer does not hold two pixels per byte for the configured size.
    SizeMismatch,
    /// The fixed upscaler was given a buffer that is not a 256 by 212 RGBA image.
    ResolutionUnsupported,
    /// The edge map does not cover the configured size, or the RGBA buffer
    /// does not hold exactly one pixel per edge-map entry.
    BufferResolutionMismatch,
}

/// The three buffers of one pipeline run: the final RGBA image, the normal
/// map and the edge map (the last two empty when disabled).
pub struct PostProcessResult {
    rgba: Vec<u8>,
    normals: Vec<u8>,
    edges: Vec<u16>,
}

impl PostProcessResult {
    pub closed spec fn rgba_view(&self) -> Seq<u8> {
        self.rgba@
    }

    pub closed spec fn normals_view(&self) -> Seq<u8> {
        self.normals@
    }

    pub closed spec fn edges_view(&self) -> Seq<u16> {
        self.edges@
    }

    pub fn new(rgba: Vec<u8>, normals: Vec<u8>, edges: Vec<u16>) -> (r: PostProcessResult)
        ensures
            r.rgba_view() == rgba@,
            r.normals_view() == normals@,
            r.edges_view() == edges@,
    {
        PostProcessResult { rgba, normals, edges }
    }

    pub fn get_rgba(&self) -> (r: Vec<u8>)
        ensures
            r@ == self.rgba_view(),
    {
        let r: Vec<u8> = self.rgba.clone();
        assert(r@ =~= self.rgba@);
        r
    }

    pub fn get_normals(&self) -> (r: Vec<u8>)
        ensures
            r@ == self.normals_view(),
    {
        let r: Vec<u8> = self.normals.clone();
        assert(r@ =~= self.normals@);
        r
    }

    pub fn get_edges(&self) -> (r: Vec<u16>)
        ensures
            r@ == self.edges_view(),
    {
        let r: Vec<u16> = self.edges.clone();
        assert(r@ =~= self.edges@);
        r
    }
}

/// The processor: palette, source resolution and memory-map catalogue, all
/// fixed at construction.
pub struct MSX2Processor {
    palette: [[u8; 4]; 16],
    width: usize,
    height: usize,
    memory_map: Vec<MemoryMapSlot>,
}

impl MSX2Processor {
    pub closed spec fn width_spec(&self) -> int {
        self.width as int
    }

    pub closed spec fn height_spec(&self) -> int {
        self.height as int
    }

    /// The palette is the standard one, the catalogue is the standard one, and
    /// an RGBA image of the configured size fits in memory.
    pub closed spec fn wf(&self) -> bool {
        &&& self.palette@ == msx2_palette()
        &&& slots_wf(self.memory_map@)
        &&& self.width * self.height * 4 <= usize::MAX
    }

    /// A well-formed processor has a non-negative size whose RGBA image fits
    /// in memory.
    pub proof fn lemma_wf_size(&self)
        requires
            self.wf(),
        ensures
            self.width_spec() >= 0,
            self.height_spec() >= 0,
            self.width_spec() * self.height_spec() * 4 <= usize::MAX,
    {
    }

    /// Unpacking a buffer of the configured packed size gives eight bytes per
    /// packed byte, and byte `i` gives its high-nibble colour then its
    /// low-nibble colour.
    pub proof fn lemma_unpack_laws(&self, bin: Seq<u8>, i: int)
        requires
            self.wf(),
            bin.len() * 2 == self.width_spec() * self.height_spec(),
            0 <= i < bin.len(),
        ensures
            bin.len() * 8 <= usize::MAX,
            unpacked(msx2_palette(), bin).len() == 8 * bin.len(),
            unpacked(msx2_palette(), bin).subrange(8 * i, 8 * i + 8) == colour_bytes(
                msx2_palette()[high_nibble(bin[i])],
            ) + colour_bytes(msx2_palette()[low_nibble(bin[i])]),
    {
        lemma_unpacked_len(msx2_palette(), bin);
        lemma_unpacked_at(msx2_palette(), bin, i);
    }

    /// On the configured size, raising the glow intensity never darkens any
    /// byte of the composite.
    pub proof fn lemma_glow_intensity_monotone(
        &self,
        rgba: Seq<u8>,
        edges: Seq<u16>,
        i1: int,
        i2: int,
    )
        requires
            self.wf(),
            edges.len() == self.width_spec() * self.height_spec(),
            rgba.len() == edges.len() * 4,
            0 <= i1 <= i2,
        ensures
            pointwise_le(
                glowed(rgba, edges, self.width_spec(), self.height_spec(), i1),
                glowed(rgba, edges, self.width_spec(), self.height_spec(), i2),
            ),
    {
        lemma_glowed_monotone_in_intensity(
            rgba,
            edges,
            self.width_spec(),
            self.height_spec(),
            i1,
            i2,
        );
    }

    pub fn new(width: u32, height: u32) -> (r: Self)
        requires
            width * height * 4 <= usize::MAX,
        ensures
            r.wf(),
            r.width_spec() == width,
            r.height_spec() == height,
    {
        let palette: [[u8; 4]; 16] = [
            [0, 0, 0, 255],
            [255, 0, 0, 255],
            [0, 255, 0, 255],
            [255, 255, 0, 255],
            [0, 0, 255, 255],
            [255, 0, 255, 255],
            [0, 255, 255, 255],
            [255, 255, 255, 255],
            [128, 0, 0, 255],
            [0, 128, 0, 255],
            [128, 128, 0, 255],
            [0, 0, 128, 255],
            [128, 0, 128, 255],
            [0, 128, 128, 255],
            [128, 128, 128, 255],
            [200, 200, 200, 255],
        ];
        assert(palette@ =~= msx2_palette());
        let memory_map: Vec<MemoryMapSlot> = standard_memory_map();
        MSX2Processor { palette, width: width as usize, height: height as usize, memory_map }
    }

    /// The memory-map catalogue.
    pub fn memory_slots(&self) -> (r: &Vec<MemoryMapSlot>)
        requires
            self.wf(),
        ensures
            slots_wf(r@),
    {
        &self.memory_map
    }

    /// The label of the catalogue slot that holds `address`.
    pub fn find_memory_slot(&self, address: u32) -> (r: String)
        requires
            self.wf(),
        ensures
            r@ == find_label(standard_slots(), address),
    {
        find_slot_label(&self.memory_map, address)
    }

    /// Load placement of `binary_size` bytes at `load_address`.
    pub fn create_load_info(&self, load_address: u32, binary_size: u32) -> (r: LoadInfo)
        requires
            self.wf(),
        ensures
            r.load_address == load_address,
            r.binary_size == binary_size,
            r.start_address == load_address,
            r.end_address == (if load_address + binary_size > u32::MAX {
                u32::MAX as int
            } else {
                load_address + binary_size
            }),
            r.memory_slot@ == find_label(standard_slots(), load_address),
    {
        load_info_for(&self.memory_map, load_address, binary_size)
    }

    /// Expands packed 4-bit pixels into RGBA bytes through the palette.
    pub fn transform_to_rgba(&self, bin_data: &[u8]) -> (r: Vec<u8>)
        requires
            self.wf(),
            bin_data@.len() * 8 <= usize::MAX,
        ensures
            r@ == unpacked(msx2_palette(), bin_data@),
            r@.len() == 8 * bin_data@.len(),
    {
        unpack_pixels(&self.palette, bin_data)
    }

    /// Upscales a 256 by 212 RGBA image to 3840 by 2160.
    pub fn bilinear_interpolation(&self, rgba_data: &[u8]) -> (r: Result<Vec<u8>, ProcessError>)
        ensures
            rgba_data@.len() != SOURCE_WIDTH * SOURCE_HEIGHT * 4 <==> r == Err::<Vec<u8>, ProcessError>(
                ProcessError::ResolutionUnsupported,
            ),
            r is Ok <==> rgba_data@.len() == SOURCE_WIDTH * SOURCE_HEIGHT * 4,
            r matches Ok(out) ==> out@ == resampled(
                rgba_data@,
                SOURCE_WIDTH as int,
                SOURCE_HEIGHT as int,
                TARGET_WIDTH as int,
                TARGET_HEIGHT as int,
            ),
            r matches Ok(out) ==> out@.len() == TARGET_WIDTH * TARGET_HEIGHT * 4,
    {
        if rgba_data.len() != (SOURCE_WIDTH as usize) * (SOURCE_HEIGHT as usize) * 4 {
            return Err(ProcessError::ResolutionUnsupported);
        }
        Ok(resample_bilinear(rgba_data, SOURCE_WIDTH, SOURCE_HEIGHT, TARGET_WIDTH, TARGET_HEIGHT))
    }

    /// The normal map of the source-resolution RGBA image at the front of `rgba_data`.
    pub fn generate_normal_map(&self, rgba_data: &[u8]) -> (r: Vec<u8>)
        requires
            self.wf(),
            self.width_spec() * self.height_spec() * 4 <= rgba_data@.len(),
        ensures
            r@ == normal_map(rgba_data@, self.width_spec(), self.height_spec()),
            r@.len() == self.width_spec() * self.height_spec() * 3,
    {
        normal_map_of(rgba_data, self.width, self.height)
    }

    /// The Sobel edge map of the source-resolution RGBA image at the front of `rgba_data`.
    pub fn detect_edges_sobel(&self, rgba_data: &[u8]) -> (r: Vec<u16>)
        requires
            self.wf(),
            self.width_spec() * self.height_spec() * 4 <= rgba_data@.len(),
        ensures
            r@ == edge_map(rgba_data@, self.width_spec(), self.height_spec()),
            r@.len() == self.width_spec() * self.height_spec(),
    {
        edge_map_of(rgba_data, self.width, self.height)
    }

    /// Glow around the strong edges of `edge_data`, with `intensity` in
    /// hundredths. Both buffers are addressed at the configured resolution.
    pub fn apply_neon_glow(&self, rgba_data: &[u8], edge_data: &[u16], intensity: u32) -> (r:
        Result<Vec<u8>, ProcessError>)
        requires
            self.wf(),
        ensures
            (edge_data@.len() != self.width_spec() * self.height_spec() || rgba_data@.len()
                != edge_data@.len() * 4) <==> r == Err::<Vec<u8>, ProcessError>(
                ProcessError::BufferResolutionMismatch,
            ),
            r is Ok <==> (edge_data@.len() == self.width_spec() * self.height_spec()
                && rgba_data@.len() == edge_data@.len() * 4),
            r matches Ok(out) ==> out@ == glowed(
                rgba_data@,
                edge_data@,
                self.width_spec(),
                self.height_spec(),
                intensity as int,
            ),
            r matches Ok(out) ==> out@.len() == rgba_data@.len(),
            r matches Ok(out) ==> forall|i: int|
                0 <= i < rgba_data@.len() ==> out@[i] >= #[trigger] rgba_data@[i],
            r matches Ok(out) ==> forall|i: int|
                0 <= i < rgba_data@.len() && i % 4 == 3 ==> out@[i] == #[trigger] rgba_data@[i],
    {
        let pixels: usize = self.width * self.height;
        if edge_data.len() != pixels || rgba_data.len() != pixels * 4 {
            return Err(ProcessError::BufferResolutionMismatch);
        }
        Ok(glow_composite(rgba_data, edge_data, self.width, self.height, intensity))
    }

    /// Runs the pipeline on the packed buffer `bin_data`: unpack, then the
    /// enabled stages. Normals and edges are always taken from the
    /// source-resolution image; glow runs only with edges, on the (possibly
    /// upscaled) image. `glow_intensity` is in hundredths.
    pub fn process_with_post_effects(
        &self,
        bin_data: &[u8],
        enable_bilinear: bool,
        enable_normals: bool,
        enable_edges: bool,
        glow_intensity: u32,
    ) -> (r: Result<PostProcessResult, ProcessError>)
        requires
            self.wf(),
        ensures
            bin_data@.len() * 2 != self.width_spec() * self.height_spec() <==> r
                == Err::<PostProcessResult, ProcessError>(ProcessError::SizeMismatch),
            (bin_data@.len() * 2 == self.width_spec() * self.height_spec() && enable_bilinear
                && self.width_spec() * self.height_spec() != SOURCE_WIDTH * SOURCE_HEIGHT) <==> r
                == Err::<PostProcessResult, ProcessError>(ProcessError::ResolutionUnsupported),
            r is Ok <==> (bin_data@.len() * 2 == self.width_spec() * self.height_spec() && (
            !enable_bilinear || self.width_spec() * self.height_spec() == SOURCE_WIDTH
                * SOURCE_HEIGHT)),
            r matches Ok(res) ==> (res.rgba_view(), res.normals_view(), res.edges_view())
                == pipeline(
                bin_data@,
                self.width_spec(),
                self.height_spec(),
                enable_bilinear,
                enable_normals,
                enable_edges,
                glow_intensity as int,
            ),
            r matches Ok(res) ==> enable_normals || res.normals_view().len() == 0,
            r matches Ok(res) ==> enable_edges || res.edges_view().len() == 0,
            r matches Ok(res) ==> enable_bilinear || res.rgba_view().len() == self.width_spec()
                * self.height_spec() * 4,
    {
        let pixels: usize = self.width * self.height;
        if pixels % 2 != 0 || bin_data.len() != pixels / 2 {
            return Err(ProcessError::SizeMismatch);
        }
        let rgba: Vec<u8> = self.transform_to_rgba(bin_data);
        let scaled: Vec<u8> = if enable_bilinear {
            if pixels != (SOURCE_WIDTH as usize) * (SOURCE_HEIGHT as usize) {
                return Err(ProcessError::ResolutionUnsupported);
            }
            resample_bilinear(
                rgba.as_slice(),
                SOURCE_WIDTH,
                SOURCE_HEIGHT,
                TARGET_WIDTH,
                TARGET_HEIGHT,
            )
        } else {
            rgba.clone()
        };
        let normals: Vec<u8> = if enable_normals {
            normal_map_of(rgba.as_slice(), self.width, self.height)
        } else {
            Vec::new()
        };
        let edges: Vec<u16> = if enable_edges {
            edge_map_of(rgba.as_slice(), self.width, self.height)
        } else {
            Vec::new()
        };
        let image: Vec<u8> = if enable_edges {
            glow_composite(scaled.as_slice(), edges.as_slice(), self.width, self.height, glow_intensity)
        } else {
            scaled
        };
        proof {
            assert(normals@ =~= pipeline(
                bin_data@,
                self.width_spec(),
                self.height_spec(),
                enable_bilinear,
                enable_normals,
                enable_edges,
                glow_intensity as int,
            ).1);
            assert(edges@ =~= pipeline(
                bin_data@,
                self.width_spec(),
                self.height_spec(),
                enable_bilinear,
                enable_normals,
                enable_edges,
                glow_intensity as int,
            ).2);
        }
        proof {
            lemma_unpacked_len(msx2_palette(), bin_data@);
            if enable_edges {
                lemma_glowed_len(
                    scaled@,
                    edges@,
                    self.width_spec(),
                    self.height_spec(),
                    glow_intensity as int,
                );
            }
        }
        Ok(PostProcessResult::new(image, normals, edges))
    }
}

} // verus!
