//! GPU resource bookkeeping that is plain arithmetic: memory-type choice,
//! texture staging layout, surface-format choice and the ring of per-frame
//! semaphore pairs.
use vstd::arithmetic::div_mod::lemma_fundamental_div_mod_converse;
use vstd::prelude::*;

verus! {

/// Memory type `id` is allowed by `type_mask` and has every property bit of
/// `required`. Ids from 64 on are never chosen: the mask has 64 bits.
pub open spec fn memory_type_fits(type_mask: u64, properties: Seq<u16>, required: u16, id: int) -> bool {
    &&& 0 <= id < 64
    &&& id < properties.len()
    &&& type_mask & (1u64 << (id as u64)) != 0
    &&& properties[id] & required == required
}

/// The first memory type allowed by `type_mask` whose property bits include
/// `required`, if there is one.
pub fn find_memory_type(type_mask: u64, properties: &Vec<u16>, required: u16) -> (r: Option<usize>)
    ensures
        match r {
            Some(id) => memory_type_fits(type_mask, properties@, required, id as int) && forall|j: int|
                0 <= j < id ==> !#[trigger] memory_type_fits(type_mask, properties@, required, j),
            None => forall|j: int| !#[trigger] memory_type_fits(type_mask, properties@, required, j),
        },
{
    let n = if properties.len() < 64 {
        properties.len()
    } else {
        64
    };
    let mut id: usize = 0;
    while id < n
        invariant
            n <= 64,
            n <= properties@.len(),
            n == properties@.len() || n == 64,
            id <= n,
            forall|j: int| 0 <= j < id ==> !#[trigger] memory_type_fits(type_mask, properties@, required, j),
        decreases n - id,
    {
        let bit: u64 = 1u64 << (id as u64);
        if type_mask & bit != 0 && properties[id] & required == required {
            return Some(id);
        }
        id = id + 1;
    }
    None
}

/// Whether `count` items of `stride` bytes written at byte `offset` stay
/// within a buffer of `size` bytes.
pub fn update_fits(offset: u64, count: usize, stride: usize, size: u64) -> (r: bool)
    requires
        count * stride <= usize::MAX,
        offset + count * stride <= u64::MAX,
    ensures
        r == (offset + count * stride <= size),
{
    assert(0 <= count * stride) by (nonlinear_arith);
    let upload_size: usize = count * stride;
    offset + (upload_size as u64) <= size
}

/// Bytes per texel of the RGBA staging image.
pub const IMAGE_STRIDE: u32 = 4;

/// Row pitch and total size of the staging buffer for a `width` x `height`
/// RGBA image (rows are not padded).
pub fn texture_upload_layout(width: u32, height: u32) -> (r: (u32, u64))
    requires
        width * 4 <= u32::MAX,
        height * (width * 4) <= u32::MAX,
    ensures
        r.0 == width * 4,
        r.1 == height * (width * 4),
{
    let row_alignment_mask: u32 = 0;
    let row_bytes: u32 = width * IMAGE_STRIDE;
    let padded: u32 = row_bytes + row_alignment_mask;
    let row_pitch: u32 = padded & !row_alignment_mask;
    assert(row_pitch == padded) by (bit_vector)
        requires
            row_alignment_mask == 0u32,
            row_pitch == padded & !row_alignment_mask,
    ;
    let upload_size: u64 = (height * row_pitch) as u64;
    (row_pitch, upload_size)
}

/// Byte `j` of a staging buffer whose rows are `row_pitch` bytes apart and
/// hold `row_bytes` image bytes each, the rest of a row being zero.
pub open spec fn staged_byte(pixels: Seq<u8>, row_bytes: int, row_pitch: int, j: int) -> u8 {
    let y = j / row_pitch;
    let x = j % row_pitch;
    if x < row_bytes {
        pixels[y * row_bytes + x]
    } else {
        0u8
    }
}

/// Lays the first `height` rows of a tightly packed RGBA image out with a
/// row pitch of `row_pitch` bytes.
pub fn stage_texture_rows(pixels: &[u8], width: u32, height: u32, row_pitch: u32) -> (r: Vec<u8>)
    requires
        width * 4 <= row_pitch,
        height * (width * 4) <= pixels@.len(),
        height * row_pitch <= usize::MAX,
    ensures
        r@.len() == height * row_pitch,
        forall|j: int|
            0 <= j < r@.len() ==> #[trigger] r@[j] == staged_byte(
                pixels@,
                width * 4,
                row_pitch as int,
                j,
            ),
{
    let row_bytes: usize = (width as usize) * (IMAGE_STRIDE as usize);
    let pitch: usize = row_pitch as usize;
    let h: usize = height as usize;
    let mut out: Vec<u8> = Vec::new();
    let mut y: usize = 0;
    assert(pixels@.len() == pixels.len());
    while y < h
        invariant
            row_bytes == width * 4,
            pitch == row_pitch,
            h == height,
            row_bytes <= pitch,
            h * row_bytes <= pixels@.len(),
            h * pitch <= usize::MAX,
            y <= h,
            out@.len() == y * pitch,
            forall|j: int|
                0 <= j < out@.len() ==> #[trigger] out@[j] == staged_byte(
                    pixels@,
                    row_bytes as int,
                    pitch as int,
                    j,
                ),
        decreases h - y,
    {
        assert((y + 1) * pitch <= h * pitch) by (nonlinear_arith)
            requires
                y < h,
        ;
        assert((y + 1) * row_bytes <= h * row_bytes) by (nonlinear_arith)
            requires
                y < h,
        ;
        assert((y + 1) * pitch == y * pitch + pitch) by (nonlinear_arith);
        assert((y + 1) * row_bytes == y * row_bytes + row_bytes) by (nonlinear_arith);
        let mut x: usize = 0;
        while x < pitch
            invariant
                row_bytes == width * 4,
                pitch == row_pitch,
                row_bytes <= pitch,
                y < h,
                h * row_bytes <= pixels@.len(),
                (y + 1) * pitch <= usize::MAX,
                (y + 1) * row_bytes <= pixels@.len(),
                (y + 1) * pitch == y * pitch + pitch,
                (y + 1) * row_bytes == y * row_bytes + row_bytes,
                pixels@.len() == pixels.len(),
                x <= pitch,
                out@.len() == y * pitch + x,
                forall|j: int|
                    0 <= j < out@.len() ==> #[trigger] out@[j] == staged_byte(
                        pixels@,
                        row_bytes as int,
                        pitch as int,
                        j,
                    ),
            decreases pitch - x,
        {
            let ghost j = out@.len() as int;
            proof {
                lemma_fundamental_div_mod_converse(j, pitch as int, y as int, x as int);
            }
            let b: u8 = if x < row_bytes {
                pixels[y * row_bytes + x]
            } else {
                0u8
            };
            out.push(b);
            x = x + 1;
        }
        y = y + 1;
    }
    out
}

/// Position `i` holds the first sRGB format, or is 0 when none is sRGB.
pub open spec fn is_preferred_format<F>(formats: Seq<(F, bool)>, i: int) -> bool {
    &&& 0 <= i < formats.len()
    &&& formats[i].1 || (i == 0 && forall|j: int| 0 <= j < formats.len() ==> !(#[trigger] formats[j]).1)
    &&& forall|j: int| 0 <= j < i ==> !(#[trigger] formats[j]).1
}

/// First format whose channel is sRGB, else the first format; `fallback`
/// when the surface states no formats. Each format comes with whether its
/// channel type is sRGB.
pub fn pick_surface_format<F: Copy>(formats: Option<&Vec<(F, bool)>>, fallback: F) -> (r: F)
    requires
        formats matches Some(v) ==> v@.len() > 0,
    ensures
        match formats {
            None => r == fallback,
            Some(v) => exists|i: int| #[trigger] is_preferred_format(v@, i) && r == v@[i].0,
        },
{
    match formats {
        None => fallback,
        Some(v) => {
            let idx = first_srgb_index(v);
            let f = v[idx].0;
            f
        },
    }
}

/// The position of the first sRGB format, or 0 when there is none.
fn first_srgb_index<F>(v: &Vec<(F, bool)>) -> (r: usize)
    requires
        v@.len() > 0,
    ensures
        is_preferred_format(v@, r as int),
{
    let mut i: usize = 0;
    while i < v.len()
        invariant
            v@.len() > 0,
            i <= v@.len(),
            forall|j: int| 0 <= j < i ==> !(#[trigger] v@[j]).1,
        decreases v.len() - i,
    {
        if v[i].1 {
            return i;
        }
        i = i + 1;
    }
    0
}

/// The ring of acquire/present semaphore pairs of the frame buffer: one
/// slot per swapchain image (one when the swapchain has none), handed out
/// in turn.
pub struct FrameBuffer {
    slot_count: usize,
    last_ref: usize,
}

/// The cursor after `k` turns of a ring of `n` slots started at 0.
pub open spec fn cursor_after(n: nat, k: nat) -> nat
    decreases k,
{
    if k == 0 {
        0
    } else {
        cursor_after(n, (k - 1) as nat) % n + 1
    }
}

impl FrameBuffer {
    pub closed spec fn slots(&self) -> nat {
        self.slot_count as nat
    }

    /// How many turns into the current round the ring is.
    pub closed spec fn cursor(&self) -> nat {
        self.last_ref as nat
    }

    pub open spec fn wf(&self) -> bool {
        &&& 1 <= self.slots()
        &&& self.cursor() <= self.slots()
    }

    /// The slot that the next turn hands out.
    pub open spec fn next_index(&self) -> nat {
        self.cursor() % self.slots()
    }

    pub fn new(frame_image_count: usize) -> (r: Self)
        ensures
            r.wf(),
            r.slots() == (if frame_image_count != 0 { frame_image_count as nat } else { 1 }),
            r.cursor() == 0,
    {
        let iter_count = if frame_image_count != 0 {
            frame_image_count
        } else {
            1
        };
        FrameBuffer { slot_count: iter_count, last_ref: 0 }
    }

    pub fn slot_count(&self) -> (r: usize)
        ensures
            r == self.slots(),
    {
        self.slot_count
    }

    /// Hands out the next semaphore slot, wrapping round after the last.
    pub fn next_acq_pre_pair_index(&mut self) -> (r: usize)
        requires
            old(self).wf(),
        ensures
            final(self).wf(),
            r == old(self).next_index(),
            r < old(self).slots(),
            final(self).slots() == old(self).slots(),
            final(self).cursor() == r + 1,
    {
        proof {
            if self.last_ref < self.slot_count {
                vstd::arithmetic::div_mod::lemma_small_mod(self.last_ref as nat, self.slot_count as nat);
            } else {
                vstd::arithmetic::div_mod::lemma_mod_self_0(self.slot_count as int);
            }
        }
        if self.last_ref >= self.slot_count {
            self.last_ref = 0;
        }
        let ret = self.last_ref;
        self.last_ref = self.last_ref + 1;
        ret
    }
}

/// From a fresh ring of `n` slots, turn `k` (counting from 0) hands out
/// slot `k % n`, and the cursor stays within the ring.
pub proof fn lemma_ring_turns(n: nat, k: nat)
    requires
        n >= 1,
    ensures
        cursor_after(n, k) <= n,
        cursor_after(n, k) % n == k % n,
    decreases k,
{
    if k > 0 {
        lemma_ring_turns(n, (k - 1) as nat);
        vstd::arithmetic::div_mod::lemma_add_mod_noop_right(1, k - 1, n as int);
    }
}

} // verus!
