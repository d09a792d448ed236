//! Frames in shared memory.
//!
//! Each monitor has a slot: a header of 64 bytes and room for the pixels of one frame. The
//! header holds, little-endian, the sequence number at 0, the number of payload bytes at 4,
//! the elevation mark at 8, the width at 12 and the height at 14; the rest is reserved.
//!
//! One worker writes a slot while controllers read it. The sequence number is odd while a
//! frame is being written and even when it is whole. A reader takes the number before and
//! after it copies; only where both are the same even number does the copy count.
use vstd::prelude::*;
use vstd::slice::slice_subrange;

use crate::bytes::{le_at, le_bytes, push_le, read_le};

verus! {

/// The most payload bytes that a slot holds: 3840 by 2160 pixels of four bytes.
pub const SHM_RAW_MAX: usize = 33_177_600;

/// The length of the header.
pub const SHM_HDR_SIZE: usize = 64;

/// The length of a slot.
pub const SHM_SLOT_SIZE: usize = 33_177_664;

/// The sequence number in a slot.
pub open spec fn sequence_of(slot: Seq<u8>) -> nat {
    le_at(slot, 0, 4)
}

/// A slot with another sequence number.
pub open spec fn with_sequence(slot: Seq<u8>, n: nat) -> Seq<u8> {
    le_bytes(n, 4) + slot.skip(4)
}

/// The sequence number of a slot whose frame is being written: the lowest odd one from `cur`.
pub open spec fn busy_sequence(cur: int) -> int {
    if cur % 2 == 0 {
        cur + 1
    } else {
        cur
    }
}

/// The sequence number of a slot whose next frame is whole.
pub open spec fn done_sequence(cur: int) -> int {
    busy_sequence(cur) + 1
}

/// The sequence number to store before a frame is written.
pub fn begin_sequence(cur: u32) -> (n: u32)
    ensures
        n == busy_sequence(cur as int),
{
    if cur % 2 == 0 {
        cur + 1
    } else {
        cur
    }
}

/// The sequence number to store once the frame is whole, where there is one.
pub fn end_sequence(cur: u32) -> (n: u32)
    requires
        cur < 0xFFFF_FFFE,
    ensures
        n == done_sequence(cur as int),
{
    begin_sequence(cur) + 1
}

/// How many bytes of `pixels` a slot takes.
pub open spec fn frame_len(pixels: Seq<u8>) -> nat {
    if pixels.len() < SHM_RAW_MAX {
        pixels.len()
    } else {
        SHM_RAW_MAX as nat
    }
}

/// How many pixels are written: those of the frame, as far as the bytes reach.
pub open spec fn frame_pixels(pixels: Seq<u8>, width: nat, height: nat) -> nat {
    if width * height < frame_len(pixels) / 4 {
        width * height
    } else {
        frame_len(pixels) / 4
    }
}

/// Byte `k` of the payload. The screen gives blue, green, red and a byte without meaning for
/// each pixel; the payload holds red, green, blue and full opacity.
pub open spec fn payload_byte(pixels: Seq<u8>, k: int) -> u8 {
    if k % 4 == 0 {
        pixels[k + 2]
    } else if k % 4 == 1 {
        pixels[k]
    } else if k % 4 == 2 {
        pixels[k - 2]
    } else {
        255
    }
}

pub open spec fn admin_word(is_admin: bool) -> nat {
    if is_admin {
        1
    } else {
        0
    }
}

/// A slot after a frame was put into it, under an unchanged sequence number.
pub open spec fn filled(
    slot: Seq<u8>,
    pixels: Seq<u8>,
    width: u32,
    height: u32,
    is_admin: bool,
) -> Seq<u8> {
    Seq::new(
        slot.len(),
        |i: int|
            if 4 <= i < 8 {
                le_bytes(frame_len(pixels), 4)[i - 4]
            } else if 8 <= i < 12 {
                le_bytes(admin_word(is_admin), 4)[i - 8]
            } else if 12 <= i < 14 {
                le_bytes(width as nat % 0x1_0000, 2)[i - 12]
            } else if 14 <= i < 16 {
                le_bytes(height as nat % 0x1_0000, 2)[i - 14]
            } else if 64 <= i < 64 + 4 * frame_pixels(pixels, width as nat, height as nat) {
                payload_byte(pixels, i - 64)
            } else {
                slot[i]
            },
    )
}

/// A slot after a frame was written into it.
pub open spec fn written(
    slot: Seq<u8>,
    pixels: Seq<u8>,
    width: u32,
    height: u32,
    is_admin: bool,
) -> Seq<u8> {
    with_sequence(
        filled(slot, pixels, width, height, is_admin),
        done_sequence(sequence_of(slot) as int) as nat,
    )
}

/// The header fields of a frame, from the number of payload bytes to the height. They stand
/// behind the sequence number.
pub open spec fn header_fields(
    pixels: Seq<u8>,
    width: u32,
    height: u32,
    is_admin: bool,
) -> Seq<u8> {
    le_bytes(frame_len(pixels), 4) + le_bytes(admin_word(is_admin), 4) + le_bytes(
        width as nat % 0x1_0000,
        2,
    ) + le_bytes(height as nat % 0x1_0000, 2)
}

/// `b` with the payload of a frame at `base`.
pub open spec fn with_pixels(
    b: Seq<u8>,
    base: int,
    pixels: Seq<u8>,
    width: u32,
    height: u32,
) -> Seq<u8> {
    Seq::new(
        b.len(),
        |i: int|
            if base <= i < base + 4 * frame_pixels(pixels, width as nat, height as nat) {
                payload_byte(pixels, i - base)
            } else {
                b[i]
            },
    )
}

/// `b` with the bytes `part` at `at`.
pub open spec fn with_part(b: Seq<u8>, at: int, part: Seq<u8>) -> Seq<u8> {
    Seq::new(
        b.len(),
        |i: int|
            if at <= i < at + part.len() {
                part[i - at]
            } else {
                b[i]
            },
    )
}

/// Stores bytes at `at`.
fn put_part(b: &mut [u8], at: usize, part: &Vec<u8>)
    requires
        at + part@.len() <= old(b)@.len(),
    ensures
        final(b)@ == with_part(old(b)@, at as int, part@),
{
    let ghost before = b@;
    let mut i: usize = 0;
    while i < part.len()
        invariant
            i <= part@.len(),
            at + part@.len() <= b@.len(),
            b@ == with_part(before, at as int, part@.take(i as int)),
        decreases part@.len() - i,
    {
        assert(at + i < b.len());
        b[at + i] = part[i];
        assert(b@ =~= with_part(before, at as int, part@.take(i as int + 1)));
        i = i + 1;
    }
    assert(part@.take(part@.len() as int) =~= part@);
}

/// The header fields of a frame.
pub fn make_header(pixels: &[u8], width: u32, height: u32, is_admin: bool) -> (fields: Vec<u8>)
    ensures
        fields@ == header_fields(pixels@, width, height, is_admin),
        fields@.len() == 12,
{
    let len: usize = if pixels.len() < SHM_RAW_MAX { pixels.len() } else { SHM_RAW_MAX };
    let mut fields: Vec<u8> = Vec::new();
    push_le(&mut fields, len as u64, 4);
    push_le(&mut fields, if is_admin { 1 } else { 0 }, 4);
    push_le(&mut fields, (width % 0x1_0000) as u64, 2);
    push_le(&mut fields, (height % 0x1_0000) as u64, 2);
    proof {
        assert(fields@ =~= header_fields(pixels@, width, height, is_admin));
        lemma_header_len(pixels@, width, height, is_admin);
    }
    fields
}

proof fn lemma_header_len(pixels: Seq<u8>, width: u32, height: u32, is_admin: bool)
    ensures
        header_fields(pixels, width, height, is_admin).len() == 12,
        le_bytes(frame_len(pixels), 4).len() == 4,
        le_bytes(admin_word(is_admin), 4).len() == 4,
        le_bytes(width as nat % 0x1_0000, 2).len() == 2,
        le_bytes(height as nat % 0x1_0000, 2).len() == 2,
{
    crate::bytes::lemma_le_bytes_len(frame_len(pixels), 4);
    crate::bytes::lemma_le_bytes_len(admin_word(is_admin), 4);
    crate::bytes::lemma_le_bytes_len(width as nat % 0x1_0000, 2);
    crate::bytes::lemma_le_bytes_len(height as nat % 0x1_0000, 2);
}

/// Puts the payload of a frame at `base`.
pub fn fill_pixels(b: &mut [u8], base: usize, pixels: &[u8], width: u32, height: u32)
    requires
        base + SHM_RAW_MAX <= old(b)@.len(),
        width * height <= u32::MAX,
    ensures
        final(b)@ == with_pixels(old(b)@, base as int, pixels@, width, height),
{
    let len: usize = if pixels.len() < SHM_RAW_MAX { pixels.len() } else { SHM_RAW_MAX };
    let ghost start = b@;
    assert(base + SHM_RAW_MAX <= b.len());
    let pixel_count: u32 = width * height;
    let room: usize = len / 4;
    let mut i: usize = 0;
    while i < room && (i as u64) < pixel_count as u64
        invariant
            room == frame_len(pixels@) / 4,
            room <= 8_294_400,
            4 * room <= pixels@.len(),
            pixel_count == width * height,
            i <= room,
            i <= pixel_count,
            base + SHM_RAW_MAX <= start.len(),
            base + SHM_RAW_MAX <= usize::MAX,
            b@.len() == start.len(),
            forall|j: int|
                #![trigger b@[j]]
                0 <= j < b@.len() ==> b@[j] == (if base <= j < base + 4 * i {
                    payload_byte(pixels@, j - base)
                } else {
                    start[j]
                }),
        decreases room - i,
    {
        let offset: usize = i * 4;
        let at: usize = base + offset;
        let ghost before = b@;
        b[at] = pixels[offset + 2];
        b[at + 1] = pixels[offset + 1];
        b[at + 2] = pixels[offset];
        b[at + 3] = 255;
        assert(b@ =~= before.update(at as int, pixels@[offset + 2]).update(
            at + 1,
            pixels@[offset + 1],
        ).update(at + 2, pixels@[offset as int]).update(at + 3, 255));
        i = i + 1;
    }
    assert(i == frame_pixels(pixels@, width as nat, height as nat));
    assert(b@ =~= with_pixels(start, base as int, pixels@, width, height));
}

/// A frame in a slot is its header fields behind the sequence number and its payload behind the
/// header.
pub proof fn header_and_payload_make_frame(
    slot: Seq<u8>,
    pixels: Seq<u8>,
    width: u32,
    height: u32,
    is_admin: bool,
)
    requires
        slot.len() == SHM_SLOT_SIZE,
    ensures
        filled(slot, pixels, width, height, is_admin) == with_pixels(
            with_part(slot, 4, header_fields(pixels, width, height, is_admin)),
            64,
            pixels,
            width,
            height,
        ),
        filled(slot, pixels, width, height, is_admin).skip(64) == with_pixels(
            slot.skip(64),
            0,
            pixels,
            width,
            height,
        ),
{
    lemma_header_len(pixels, width, height, is_admin);
    let whole = filled(slot, pixels, width, height, is_admin);
    assert(whole =~= with_pixels(
        with_part(slot, 4, header_fields(pixels, width, height, is_admin)),
        64,
        pixels,
        width,
        height,
    ));
    assert(whole.skip(64) =~= with_pixels(slot.skip(64), 0, pixels, width, height));
}

/// Puts a frame into a slot: everything but the sequence number.
pub fn fill_frame(slot: &mut [u8], pixels: &[u8], width: u32, height: u32, is_admin: bool)
    requires
        old(slot)@.len() == SHM_SLOT_SIZE,
        width * height <= u32::MAX,
    ensures
        final(slot)@ == filled(old(slot)@, pixels@, width, height, is_admin),
{
    proof {
        header_and_payload_make_frame(slot@, pixels@, width, height, is_admin);
    }
    let fields: Vec<u8> = make_header(pixels, width, height, is_admin);
    put_part(slot, 4, &fields);
    fill_pixels(slot, SHM_HDR_SIZE, pixels, width, height);
}

/// Stores a sequence number.
fn put_sequence(slot: &mut [u8], n: u32)
    requires
        old(slot)@.len() >= 4,
    ensures
        final(slot)@ == with_sequence(old(slot)@, n as nat),
{
    let mut bytes: Vec<u8> = Vec::new();
    push_le(&mut bytes, n as u64, 4);
    proof {
        crate::bytes::lemma_le_bytes_len(n as nat, 4);
        assert(bytes@ =~= le_bytes(n as nat, 4));
        assert(with_part(slot@, 0, bytes@) =~= with_sequence(slot@, n as nat));
    }
    put_part(slot, 0, &bytes);
}

/// Writes a frame into a slot that nobody reads meanwhile.
pub fn write_shm_frame(slot: &mut [u8], pixels: &[u8], width: u32, height: u32, is_admin: bool)
    requires
        old(slot)@.len() == SHM_SLOT_SIZE,
        width * height <= u32::MAX,
        sequence_of(old(slot)@) < 0xFFFF_FFFE,
    ensures
        final(slot)@ == written(old(slot)@, pixels@, width, height, is_admin),
{
    proof {
        crate::bytes::lemma_byte_ranges();
    }
    let cur: u32 = read_le(slot, 0, 4) as u32;
    put_sequence(slot, begin_sequence(cur));
    proof {
        crate::bytes::lemma_le_bytes_len(busy_sequence(cur as int) as nat, 4);
    }
    fill_frame(slot, pixels, width, height, is_admin);
    put_sequence(slot, end_sequence(cur));
    proof {
        crate::bytes::lemma_le_bytes_len(done_sequence(cur as int) as nat, 4);
        assert(slot@ =~= written(old(slot)@, pixels@, width, height, is_admin));
    }
}

/// What the header of a slot says of its frame.
#[derive(Clone, Copy, Debug, PartialEq, Eq)]
pub struct FrameInfo {
    pub data_size: usize,
    pub width: u32,
    pub height: u32,
    pub is_admin: bool,
}

/// What the header says, where it is that of a whole frame with a payload that fits: the
/// sequence number that was read is even and not zero.
pub open spec fn header_info(sequence: nat, slot: Seq<u8>) -> Option<FrameInfo> {
    let size = le_at(slot, 4, 4);
    if sequence == 0 || sequence % 2 == 1 || size == 0 || size > SHM_RAW_MAX {
        None
    } else {
        Some(
            FrameInfo {
                data_size: size as usize,
                width: le_at(slot, 12, 2) as u32,
                height: le_at(slot, 14, 2) as u32,
                is_admin: le_at(slot, 8, 4) != 0,
            },
        )
    }
}

/// The payload of a slot.
pub open spec fn payload(slot: Seq<u8>, size: int) -> Seq<u8> {
    slot.subrange(64, 64 + size)
}

/// Looks at the header of a slot after its sequence number was read. The number is not taken
/// from the header again.
pub fn check_header(sequence: u32, header: &[u8]) -> (info: Option<FrameInfo>)
    requires
        header@.len() >= SHM_HDR_SIZE,
    ensures
        info == header_info(sequence as nat, header@),
{
    proof {
        crate::bytes::lemma_byte_ranges();
    }
    if sequence == 0 || sequence % 2 == 1 {
        return None;
    }
    let data_size: u64 = read_le(header, 4, 4);
    if data_size == 0 || data_size > SHM_RAW_MAX as u64 {
        return None;
    }
    Some(
        FrameInfo {
            data_size: data_size as usize,
            width: read_le(header, 12, 2) as u32,
            height: read_le(header, 14, 2) as u32,
            is_admin: read_le(header, 8, 4) != 0,
        },
    )
}

/// Copies the payload at the start of `area` into `buf`, whose memory is used again.
pub fn copy_payload(area: &[u8], size: usize, buf: &mut Vec<u8>)
    requires
        size <= area@.len(),
    ensures
        final(buf)@ == area@.take(size as int),
{
    if buf.len() != size {
        buf.resize(size, 0);
    }
    let mut i: usize = 0;
    while i < size
        invariant
            i <= size,
            size <= area@.len(),
            buf@.len() == size,
            forall|j: int| 0 <= j < i ==> buf@[j] == area@[j],
        decreases size - i,
    {
        buf[i] = area[i];
        i = i + 1;
    }
    assert(buf@ =~= area@.take(size as int));
}

/// Width, height and elevation of the frame that was copied. It counts only where the
/// sequence number after the copy is the one before it.
pub fn confirm_read(before: u32, after: u32, info: FrameInfo) -> (frame: Option<(u32, u32, bool)>)
    ensures
        frame == (if before == after {
            Some((info.width, info.height, info.is_admin))
        } else {
            None
        }),
{
    if before != after {
        return None;
    }
    Some((info.width, info.height, info.is_admin))
}

/// Reads the frame in a slot that nobody writes meanwhile. Without a whole frame `buf` stays
/// as it is.
pub fn read_shm_frame_into(slot: &[u8], buf: &mut Vec<u8>) -> (frame: Option<(u32, u32, bool)>)
    requires
        slot@.len() == SHM_SLOT_SIZE,
    ensures
        match header_info(sequence_of(slot@), slot@) {
            Some(info) => {
                &&& frame == Some((info.width, info.height, info.is_admin))
                &&& final(buf)@ == payload(slot@, info.data_size as int)
            },
            None => frame is None && final(buf)@ == old(buf)@,
        },
{
    proof {
        crate::bytes::lemma_byte_ranges();
    }
    let before: u32 = read_le(slot, 0, 4) as u32;
    match check_header(before, slot) {
        Some(info) => {
            let area: &[u8] = slice_subrange(slot, SHM_HDR_SIZE, slot.len());
            copy_payload(area, info.data_size, buf);
            assert(area@.take(info.data_size as int) =~= payload(slot@, info.data_size as int));
            let after: u32 = read_le(slot, 0, 4) as u32;
            confirm_read(before, after, info)
        },
        None => None,
    }
}

// ---------------------------------------------------------------------------------------
// What holds of writing and reading together
// ---------------------------------------------------------------------------------------

/// Setting the sequence number sets it, and nothing else.
proof fn lemma_with_sequence(slot: Seq<u8>, n: nat)
    requires
        slot.len() >= 4,
        n <= 0xFFFF_FFFF,
    ensures
        with_sequence(slot, n).len() == slot.len(),
        sequence_of(with_sequence(slot, n)) == n,
        forall|i: int| 4 <= i < slot.len() ==> with_sequence(slot, n)[i] == slot[i],
{
    crate::bytes::lemma_byte_ranges();
    crate::bytes::lemma_le_bytes_len(n, 4);
    crate::bytes::le_value_of_le_bytes(n, 4);
    assert(with_sequence(slot, n).subrange(0, 4) =~= le_bytes(n, 4));
}

/// A frame that was written is the frame that is read: its size modulo 65536 each way, its
/// elevation mark, and its pixels with red and blue exchanged and full opacity. Payload bytes
/// that belong to no pixel of the frame are those that stood in the slot before.
pub proof fn written_frame_is_read(
    slot: Seq<u8>,
    pixels: Seq<u8>,
    width: u32,
    height: u32,
    is_admin: bool,
)
    requires
        slot.len() == SHM_SLOT_SIZE,
        sequence_of(slot) < 0xFFFF_FFFE,
        pixels.len() > 0,
    ensures
        ({
            let after = written(slot, pixels, width, height, is_admin);
            let info = header_info(sequence_of(after), after);
            &&& info == Some(
                FrameInfo {
                    data_size: frame_len(pixels) as usize,
                    width: (width % 0x1_0000) as u32,
                    height: (height % 0x1_0000) as u32,
                    is_admin,
                },
            )
            &&& payload(after, frame_len(pixels) as int) == Seq::new(
                frame_len(pixels),
                |k: int|
                    if k < 4 * frame_pixels(pixels, width as nat, height as nat) {
                        payload_byte(pixels, k)
                    } else {
                        slot[64 + k]
                    },
            )
        }),
{
    let inside = filled(slot, pixels, width, height, is_admin);
    let n = done_sequence(sequence_of(slot) as int) as nat;
    let after = with_sequence(inside, n);
    lemma_with_sequence(inside, n);
    crate::bytes::lemma_byte_ranges();
    let w = width as nat % 0x1_0000;
    let h = height as nat % 0x1_0000;
    crate::bytes::lemma_le_bytes_len(frame_len(pixels), 4);
    crate::bytes::lemma_le_bytes_len(admin_word(is_admin), 4);
    crate::bytes::lemma_le_bytes_len(w, 2);
    crate::bytes::lemma_le_bytes_len(h, 2);
    crate::bytes::le_value_of_le_bytes(frame_len(pixels), 4);
    crate::bytes::le_value_of_le_bytes(admin_word(is_admin), 4);
    crate::bytes::le_value_of_le_bytes(w, 2);
    crate::bytes::le_value_of_le_bytes(h, 2);
    assert(after.subrange(4, 8) =~= le_bytes(frame_len(pixels), 4));
    assert(after.subrange(8, 12) =~= le_bytes(admin_word(is_admin), 4));
    assert(after.subrange(12, 14) =~= le_bytes(w, 2));
    assert(after.subrange(14, 16) =~= le_bytes(h, 2));
    assert(payload(after, frame_len(pixels) as int) =~= Seq::new(
        frame_len(pixels),
        |k: int|
            if k < 4 * frame_pixels(pixels, width as nat, height as nat) {
                payload_byte(pixels, k)
            } else {
                slot[64 + k]
            },
    ));
}

/// One step in the life of a slot: nothing happens; the writer marks it busy; the writer
/// changes anything but the number of a busy slot; or the writer marks it whole.
pub open spec fn slot_step(a: Seq<u8>, b: Seq<u8>) -> bool {
    ||| b == a
    ||| b == with_sequence(a, busy_sequence(sequence_of(a) as int) as nat)
    ||| sequence_of(a) % 2 == 1 && sequence_of(b) == sequence_of(a) && b.len() == a.len()
    ||| sequence_of(a) % 2 == 1 && sequence_of(a) < 0xFFFF_FFFF && b == with_sequence(
        a,
        sequence_of(a) + 1,
    )
}

/// The life of a slot: every state follows from the one before by a step.
pub open spec fn slot_history(h: Seq<Seq<u8>>) -> bool {
    &&& forall|t: int| 0 <= t < h.len() ==> (#[trigger] h[t]).len() == SHM_SLOT_SIZE
    &&& forall|t: int| 0 <= t < h.len() - 1 ==> slot_step(#[trigger] h[t], h[t + 1])
}

/// The sequence number never falls, and an even one that stays means that nothing happened.
proof fn lemma_step(a: Seq<u8>, b: Seq<u8>)
    requires
        a.len() == SHM_SLOT_SIZE,
        slot_step(a, b),
    ensures
        sequence_of(a) <= sequence_of(b),
        sequence_of(a) == sequence_of(b) && sequence_of(a) % 2 == 0 ==> a == b,
{
    crate::bytes::lemma_byte_ranges();
    crate::bytes::lemma_le_value_bound(a.subrange(0, 4));
    let n = sequence_of(a);
    if n % 2 == 0 {
        lemma_with_sequence(a, (n + 1) as nat);
    } else {
        lemma_with_sequence(a, n);
        if n < 0xFFFF_FFFF {
            lemma_with_sequence(a, (n + 1) as nat);
        }
    }
}

proof fn lemma_history_grows(h: Seq<Seq<u8>>, i: int, j: int)
    requires
        slot_history(h),
        0 <= i <= j < h.len(),
    ensures
        sequence_of(h[i]) <= sequence_of(h[j]),
    decreases j - i,
{
    if i < j {
        lemma_history_grows(h, i, j - 1);
        assert(slot_step(h[j - 1], h[j - 1 + 1]));
        lemma_step(h[j - 1], h[j]);
    }
}

/// While the sequence number is one and the same even number, the slot does not change.
pub proof fn even_sequence_freezes_slot(h: Seq<Seq<u8>>, i: int, j: int)
    requires
        slot_history(h),
        0 <= i <= j < h.len(),
        sequence_of(h[i]) == sequence_of(h[j]),
        sequence_of(h[i]) % 2 == 0,
    ensures
        h[j] == h[i],
    decreases j - i,
{
    if i < j {
        lemma_history_grows(h, i, j - 1);
        assert(slot_step(h[j - 1], h[j - 1 + 1]));
        lemma_step(h[j - 1], h[j]);
        even_sequence_freezes_slot(h, i, j - 1);
    }
}

/// No torn frames. A reader takes the sequence number at time `t1`, then each byte of the slot
/// at a time of its own, then the number again at time `t2`. Where `check_header` and
/// `confirm_read` accept, the bytes that it took are those of the slot at `t1`, whatever the
/// writer did meanwhile.
pub proof fn confirmed_read_is_whole(
    h: Seq<Seq<u8>>,
    t1: int,
    t2: int,
    times: Seq<int>,
    taken: Seq<u8>,
)
    requires
        slot_history(h),
        0 <= t1 <= t2 < h.len(),
        times.len() == SHM_SLOT_SIZE,
        taken.len() == SHM_SLOT_SIZE,
        forall|k: int| 0 <= k < times.len() ==> t1 <= #[trigger] times[k] <= t2,
        forall|k: int| 0 <= k < times.len() ==> #[trigger] taken[k] == h[times[k]][k],
        header_info(sequence_of(h[t1]), taken) is Some,
        sequence_of(h[t1]) == sequence_of(h[t2]),
    ensures
        taken == h[t1],
        header_info(sequence_of(h[t1]), taken.take(64)) == header_info(sequence_of(h[t1]), h[t1]),
{
    assert forall|k: int| 0 <= k < taken.len() implies taken[k] == h[t1][k] by {
        let t = times[k];
        lemma_history_grows(h, t1, t);
        lemma_history_grows(h, t, t2);
        even_sequence_freezes_slot(h, t1, t);
        assert(taken[k] == h[times[k]][k]);
    }
    assert(taken =~= h[t1]);
    let header = taken.take(64);
    assert(header.subrange(4, 8) =~= taken.subrange(4, 8));
    assert(header.subrange(8, 12) =~= taken.subrange(8, 12));
    assert(header.subrange(12, 14) =~= taken.subrange(12, 14));
    assert(header.subrange(14, 16) =~= taken.subrange(14, 16));
}

/// Writing a frame passes through steps of the slot: busy, filled, whole.
pub proof fn writing_takes_slot_steps(
    slot: Seq<u8>,
    pixels: Seq<u8>,
    width: u32,
    height: u32,
    is_admin: bool,
)
    requires
        slot.len() == SHM_SLOT_SIZE,
        sequence_of(slot) < 0xFFFF_FFFE,
    ensures
        ({
            let busy = with_sequence(slot, busy_sequence(sequence_of(slot) as int) as nat);
            let inside = filled(busy, pixels, width, height, is_admin);
            let whole = written(slot, pixels, width, height, is_admin);
            &&& slot_step(slot, busy)
            &&& slot_step(busy, inside)
            &&& slot_step(inside, whole)
        }),
{
    let n = busy_sequence(sequence_of(slot) as int) as nat;
    let busy = with_sequence(slot, n);
    let inside = filled(busy, pixels, width, height, is_admin);
    let whole = written(slot, pixels, width, height, is_admin);
    lemma_with_sequence(slot, n);
    assert(inside.subrange(0, 4) =~= busy.subrange(0, 4));
    assert(inside.skip(4) =~= filled(slot, pixels, width, height, is_admin).skip(4));
    assert(whole =~= with_sequence(inside, (n + 1) as nat));
}

/// The number that stands while a frame is written is odd and the one after it even. The first
/// is the number before or the next one, the second one more: so a whole frame never has the
/// number of the one before.
pub proof fn sequence_goes_up(cur: int)
    requires
        0 <= cur,
    ensures
        busy_sequence(cur) % 2 == 1,
        cur <= busy_sequence(cur) <= cur + 1,
        done_sequence(cur) == busy_sequence(cur) + 1,
        done_sequence(cur) % 2 == 0,
        done_sequence(cur) > cur,
{
}

/// Setting the sequence number stores it in the first four bytes, the lowest first, and leaves
/// every other byte.
pub proof fn sequence_is_the_first_word(slot: Seq<u8>, n: nat)
    requires
        slot.len() >= 4,
        n <= 0xFFFF_FFFF,
    ensures
        with_sequence(slot, n).len() == slot.len(),
        forall|i: int| 4 <= i < slot.len() ==> #[trigger] with_sequence(slot, n)[i] == slot[i],
        ({
            let b = with_sequence(slot, n);
            b[0] + 256 * b[1] + 65536 * b[2] + 16777216 * b[3] == n
        }),
        sequence_of(slot) == slot[0] + 256 * slot[1] + 65536 * slot[2] + 16777216 * slot[3],
{
    lemma_with_sequence(slot, n);
    crate::bytes::low_byte_counts_least(with_sequence(slot, n), 0);
    crate::bytes::low_byte_counts_least(slot, 0);
}

/// When a header counts: the number that was read is even and not zero, and the payload is from 1
/// to 33177600 bytes, which is 3840 by 2160 pixels of four. It then says what stands in its bytes:
/// the size at 4, the elevation mark at 8, the width at 12 and the height at 14.
pub proof fn header_counts_where_whole(sequence: nat, header: Seq<u8>)
    requires
        header.len() >= 64,
    ensures
        ({
            let size = header[4] + 256 * header[5] + 65536 * header[6] + 16777216 * header[7];
            let info = header_info(sequence, header);
            &&& info is Some <==> sequence > 0 && sequence % 2 == 0 && 1 <= size <= 33177600
            &&& info is Some ==> {
                &&& info->0.data_size == size
                &&& info->0.width == header[12] + 256 * header[13]
                &&& info->0.height == header[14] + 256 * header[15]
                &&& info->0.is_admin <==> (header[8] != 0 || header[9] != 0 || header[10] != 0
                    || header[11] != 0)
            }
        }),
{
    crate::bytes::low_byte_counts_least(header, 4);
    crate::bytes::low_byte_counts_least(header, 8);
    crate::bytes::low_byte_counts_least(header, 12);
    crate::bytes::low_byte_counts_least(header, 14);
}

/// The header fields of a frame: the number of its bytes, or 33177600 where there are more, one
/// or zero for the elevation, and the sides modulo 65536.
pub proof fn header_tells_the_frame(
    pixels: Seq<u8>,
    width: u32,
    height: u32,
    is_admin: bool,
)
    ensures
        ({
            let f = header_fields(pixels, width, height, is_admin);
            &&& f.len() == 12
            &&& pixels.len() <= 33177600 ==> f[0] + 256 * f[1] + 65536 * f[2] + 16777216 * f[3]
                == pixels.len()
            &&& pixels.len() > 33177600 ==> f[0] + 256 * f[1] + 65536 * f[2] + 16777216 * f[3]
                == 33177600
            &&& f[4] == (if is_admin {
                1int
            } else {
                0int
            })
            &&& f[5] == 0 && f[6] == 0 && f[7] == 0
            &&& f[8] + 256 * f[9] == width % 65536
            &&& f[10] + 256 * f[11] == height % 65536
        }),
{
    lemma_header_len(pixels, width, height, is_admin);
    crate::bytes::bytes_are_digits(frame_len(pixels), 4);
    crate::bytes::bytes_are_digits(admin_word(is_admin), 4);
    crate::bytes::bytes_are_digits(width as nat % 0x1_0000, 2);
    crate::bytes::bytes_are_digits(height as nat % 0x1_0000, 2);
    let f = header_fields(pixels, width, height, is_admin);
    assert(forall|i: int| 0 <= i < 4 ==> f[i] == le_bytes(frame_len(pixels), 4)[i]);
    assert(forall|i: int| 4 <= i < 8 ==> f[i] == le_bytes(admin_word(is_admin), 4)[i - 4]);
    assert(forall|i: int|
        8 <= i < 10 ==> f[i] == le_bytes(width as nat % 0x1_0000, 2)[i - 8]);
    assert(forall|i: int|
        10 <= i < 12 ==> f[i] == le_bytes(height as nat % 0x1_0000, 2)[i - 10]);
}

/// The payload of a frame, pixel by pixel: red, green and blue are the third, second and first
/// byte that the screen gave, and the fourth is 255. This holds of every pixel of the frame that
/// is within the bytes that the screen gave and within the room of a slot. All other bytes stay.
pub proof fn pixels_are_turned_round(
    b: Seq<u8>,
    base: int,
    pixels: Seq<u8>,
    width: u32,
    height: u32,
    i: int,
)
    requires
        0 <= base,
        base + 33177600 <= b.len(),
        0 <= i,
    ensures
        ({
            let after = with_pixels(b, base, pixels, width, height);
            &&& after.len() == b.len()
            &&& i < width * height && 4 * i + 4 <= pixels.len() && 4 * i + 4 <= 33177600 ==> {
                &&& after[base + 4 * i] == pixels[4 * i + 2]
                &&& after[base + 4 * i + 1] == pixels[4 * i + 1]
                &&& after[base + 4 * i + 2] == pixels[4 * i]
                &&& after[base + 4 * i + 3] == 255
            }
            &&& i < b.len() && (i < base || i >= base + 4 * (width * height) || i >= base + 4 * (
            pixels.len() / 4) || i >= base + 33177600) ==> after[i] == b[i]
        }),
{
    assert(width as nat * height as nat == width * height);
}

/// A whole frame comes back whole. For a frame that fills its size and fits in a slot, with sides
/// below 65536, a reader of the slot finds its size in bytes, its sides and its elevation mark,
/// the bytes make an image of that size, and pixel by pixel they are the red, green and blue of
/// the screen and full opacity. The number before was another, and what is in the header behind
/// these fields and behind the payload stays.
pub proof fn whole_frame_comes_back(
    slot: Seq<u8>,
    pixels: Seq<u8>,
    width: u32,
    height: u32,
    is_admin: bool,
    i: int,
)
    requires
        slot.len() == 33177664,
        sequence_of(slot) < 0xFFFF_FFFE,
        width < 65536,
        height < 65536,
        pixels.len() == width * height * 4,
        0 < pixels.len() <= 33177600,
        0 <= i < width * height,
    ensures
        ({
            let after = written(slot, pixels, width, height, is_admin);
            let info = header_info(sequence_of(after), after);
            &&& after.len() == 33177664
            &&& sequence_of(after) > sequence_of(slot)
            &&& info is Some
            &&& info->0.data_size == pixels.len()
            &&& info->0.width * info->0.height * 4 == info->0.data_size
            &&& info->0.width == width && info->0.height == height
            &&& info->0.is_admin == is_admin
            &&& payload(after, info->0.data_size as int).len() == pixels.len()
            &&& payload(after, info->0.data_size as int)[4 * i] == pixels[4 * i + 2]
            &&& payload(after, info->0.data_size as int)[4 * i + 1] == pixels[4 * i + 1]
            &&& payload(after, info->0.data_size as int)[4 * i + 2] == pixels[4 * i]
            &&& payload(after, info->0.data_size as int)[4 * i + 3] == 255
            &&& forall|k: int|
                16 <= k < 64 || 64 + pixels.len() <= k < slot.len() ==> #[trigger] after[k] == slot[k]
        }),
{
    written_frame_is_read(slot, pixels, width, height, is_admin);
    let after = written(slot, pixels, width, height, is_admin);
    let inside = filled(slot, pixels, width, height, is_admin);
    lemma_with_sequence(inside, done_sequence(sequence_of(slot) as int) as nat);
    assert(frame_pixels(pixels, width as nat, height as nat) == width * height);
    assert forall|k: int|
        16 <= k < 64 || 64 + pixels.len() <= k < slot.len() implies #[trigger] after[k] == slot[k] by {
        assert(after[k] == inside[k]);
    }
}

/// Of a frame with more bytes than a slot holds, 33177600 bytes are kept.
pub proof fn large_frame_is_cut(
    slot: Seq<u8>,
    pixels: Seq<u8>,
    width: u32,
    height: u32,
    is_admin: bool,
)
    requires
        slot.len() == 33177664,
        sequence_of(slot) < 0xFFFF_FFFE,
        pixels.len() > 0,
    ensures
        ({
            let after = written(slot, pixels, width, height, is_admin);
            let info = header_info(sequence_of(after), after);
            &&& info is Some
            &&& info->0.data_size <= pixels.len()
            &&& info->0.data_size <= 33177600
            &&& info->0.data_size == pixels.len() || info->0.data_size == 33177600
            &&& info->0.width == width % 65536 && info->0.height == height % 65536
            &&& info->0.is_admin == is_admin
        }),
{
    written_frame_is_read(slot, pixels, width, height, is_admin);
}

/// The payload of a slot is what stands behind its 64 bytes of header.
pub proof fn payload_follows_the_header(slot: Seq<u8>, size: int, k: int)
    requires
        0 <= k < size,
        64 + size <= slot.len(),
    ensures
        payload(slot, size).len() == size,
        payload(slot, size)[k] == slot[64 + k],
{
}

/// What a slot goes through while a frame is written into it. While its number is even nothing
/// but the number changes, and the number becomes odd; an odd number stays while anything else
/// changes, or becomes the next even one while nothing else does.
pub proof fn steps_keep_whole_frames(a: Seq<u8>, b: Seq<u8>)
    requires
        a.len() == 33177664,
        slot_step(a, b),
    ensures
        b.len() == a.len(),
        sequence_of(a) % 2 == 0 && b != a ==> {
            &&& sequence_of(b) == sequence_of(a) + 1
            &&& forall|k: int| 4 <= k < a.len() ==> #[trigger] b[k] == a[k]
        },
        sequence_of(a) % 2 == 1 && sequence_of(b) != sequence_of(a) ==> {
            &&& sequence_of(b) == sequence_of(a) + 1
            &&& forall|k: int| 4 <= k < a.len() ==> #[trigger] b[k] == a[k]
        },
{
    crate::bytes::lemma_byte_ranges();
    crate::bytes::lemma_le_value_bound(a.subrange(0, 4));
    let n = sequence_of(a);
    if n % 2 == 0 {
        lemma_with_sequence(a, (n + 1) as nat);
    } else {
        lemma_with_sequence(a, n);
        if n < 0xFFFF_FFFF {
            lemma_with_sequence(a, (n + 1) as nat);
        }
    }
}

/// Putting bytes somewhere puts them there, in order, and leaves the others.
pub proof fn part_is_put(b: Seq<u8>, at: int, part: Seq<u8>, i: int)
    requires
        0 <= at,
        at + part.len() <= b.len(),
        0 <= i < b.len(),
    ensures
        with_part(b, at, part).len() == b.len(),
        at <= i < at + part.len() ==> with_part(b, at, part)[i] == part[i - at],
        i < at || at + part.len() <= i ==> with_part(b, at, part)[i] == b[i],
{
}

/// Whatever is written, the number becomes the next even one, every other byte is that of the
/// frame put into the slot, and with the fields and the payload put in nothing else changes.
pub proof fn written_slot_is_filled_and_numbered(
    slot: Seq<u8>,
    pixels: Seq<u8>,
    width: u32,
    height: u32,
    is_admin: bool,
    k: int,
)
    requires
        slot.len() == 33177664,
        sequence_of(slot) < 0xFFFF_FFFE,
        0 <= k < slot.len(),
    ensures
        ({
            let after = written(slot, pixels, width, height, is_admin);
            let fields = header_fields(pixels, width, height, is_admin);
            &&& after.len() == slot.len()
            &&& sequence_of(after) % 2 == 0
            &&& sequence_of(slot) < sequence_of(after) <= sequence_of(slot) + 2
            &&& 4 <= k < 16 ==> after[k] == fields[k - 4]
            &&& 16 <= k < 64 ==> after[k] == slot[k]
            &&& k >= 64 ==> after[k] == with_pixels(slot, 64, pixels, width, height)[k]
        }),
{
    let inside = filled(slot, pixels, width, height, is_admin);
    lemma_with_sequence(inside, done_sequence(sequence_of(slot) as int) as nat);
    header_and_payload_make_frame(slot, pixels, width, height, is_admin);
    lemma_header_len(pixels, width, height, is_admin);
    let after = written(slot, pixels, width, height, is_admin);
    if k >= 4 {
        assert(after[k] == inside[k]);
    }
}

} // verus!
