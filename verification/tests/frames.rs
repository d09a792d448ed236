use aster_dual::image::{fits_image, frame_image};
use aster_dual::shm::{
    begin_sequence, check_header, confirm_read, copy_payload, end_sequence, fill_frame,
    fill_pixels, make_header, read_shm_frame_into, write_shm_frame, FrameInfo, SHM_HDR_SIZE, SHM_RAW_MAX, SHM_SLOT_SIZE,
};

#[test]
fn sizes_of_a_slot() {
    assert_eq!(SHM_RAW_MAX, 3840 * 2160 * 4);
    assert_eq!(SHM_SLOT_SIZE, SHM_HDR_SIZE + SHM_RAW_MAX);
}

#[test]
fn written_frame_is_the_frame_that_is_read() {
    let mut slot = vec![0u8; SHM_SLOT_SIZE];
    let pixels = [1u8, 2, 3, 4, 5, 6, 7, 8];
    write_shm_frame(&mut slot, &pixels, 2, 1, true);
    assert_eq!(&slot[0..16], &[2, 0, 0, 0, 8, 0, 0, 0, 1, 0, 0, 0, 2, 0, 1, 0]);
    let mut buf = vec![9u8; 3];
    assert_eq!(read_shm_frame_into(&slot, &mut buf), Some((2, 1, true)));
    assert_eq!(buf, vec![3, 2, 1, 255, 7, 6, 5, 255]);
    write_shm_frame(&mut slot, &pixels[0..4], 1, 1, false);
    assert_eq!(slot[0], 4);
    assert_eq!(read_shm_frame_into(&slot, &mut buf), Some((1, 1, false)));
    assert_eq!(buf, vec![3, 2, 1, 255]);
}

#[test]
fn bytes_without_a_pixel_stay_as_they_were() {
    let mut slot = vec![7u8; SHM_SLOT_SIZE];
    for b in slot[0..4].iter_mut() {
        *b = 0;
    }
    fill_frame(&mut slot, &[1, 2, 3, 4, 5, 6], 5, 5, false);
    assert_eq!(&slot[0..4], &[0, 0, 0, 0]);
    assert_eq!(&slot[64..72], &[3, 2, 1, 255, 7, 7, 7, 7]);
    let mut slot = vec![7u8; SHM_SLOT_SIZE];
    fill_frame(&mut slot, &[1, 2, 3, 4, 5, 6, 7, 8], 1, 1, false);
    assert_eq!(&slot[64..72], &[3, 2, 1, 255, 7, 7, 7, 7]);
    assert_eq!(slot[4], 8);
}

#[test]
fn sides_are_kept_modulo_65536() {
    let mut slot = vec![0u8; SHM_SLOT_SIZE];
    write_shm_frame(&mut slot, &[0, 0, 0, 0], 65537, 1, false);
    let mut buf: Vec<u8> = Vec::new();
    assert_eq!(read_shm_frame_into(&slot, &mut buf), Some((1, 1, false)));
}

#[test]
fn unfinished_or_empty_slots_hold_no_frame() {
    let mut slot = vec![0u8; SHM_SLOT_SIZE];
    let mut buf = vec![1u8, 2];
    assert_eq!(read_shm_frame_into(&slot, &mut buf), None);
    assert_eq!(buf, vec![1, 2]);
    write_shm_frame(&mut slot, &[1, 2, 3, 4], 1, 1, false);
    slot[0] = 3;
    assert_eq!(read_shm_frame_into(&slot, &mut buf), None);
    slot[0] = 2;
    slot[4] = 0;
    assert_eq!(read_shm_frame_into(&slot, &mut buf), None);
    slot[7] = 255;
    assert_eq!(read_shm_frame_into(&slot, &mut buf), None);
    assert_eq!(buf, vec![1, 2]);
}

#[test]
fn sequence_is_odd_while_writing_and_even_after() {
    assert_eq!(begin_sequence(0), 1);
    assert_eq!(end_sequence(0), 2);
    assert_eq!(begin_sequence(5), 5);
    assert_eq!(end_sequence(5), 6);
    assert_eq!(begin_sequence(u32::MAX), u32::MAX);
}

#[test]
fn torn_read_does_not_count() {
    let mut slot = vec![0u8; SHM_SLOT_SIZE];
    write_shm_frame(&mut slot, &[1, 2, 3, 4], 1, 1, true);
    let info = check_header(2, &slot).unwrap();
    assert_eq!(info, FrameInfo { data_size: 4, width: 1, height: 1, is_admin: true });
    let mut buf: Vec<u8> = Vec::new();
    copy_payload(&slot[SHM_HDR_SIZE..], info.data_size, &mut buf);
    assert_eq!(buf, vec![3, 2, 1, 255]);
    assert_eq!(confirm_read(2, 2, info), Some((1, 1, true)));
    assert_eq!(confirm_read(2, 3, info), None);
    assert_eq!(check_header(3, &slot), None);
    assert_eq!(check_header(2, &slot[..SHM_HDR_SIZE]), Some(info));
}

#[test]
fn header_and_payload_make_a_frame() {
    let pixels = [1u8, 2, 3, 4, 5, 6, 7, 8];
    let fields = make_header(&pixels, 2, 65537, true);
    assert_eq!(fields, vec![8, 0, 0, 0, 1, 0, 0, 0, 2, 0, 1, 0]);
    let mut whole = vec![7u8; SHM_SLOT_SIZE];
    fill_frame(&mut whole, &pixels, 2, 65537, true);
    let mut parts = vec![7u8; SHM_SLOT_SIZE];
    parts[4..16].copy_from_slice(&fields);
    fill_pixels(&mut parts[SHM_HDR_SIZE..], 0, &pixels, 2, 65537);
    assert!(parts == whole);
    assert_eq!(&whole[64..74], &[3, 2, 1, 255, 7, 6, 5, 255, 7, 7]);
}

#[test]
fn image_shows_the_frame() {
    let rgba = vec![3u8, 2, 1, 255, 9, 9, 9, 0, 200, 100, 50, 128];
    assert!(fits_image(3, 1, rgba.len()));
    assert!(!fits_image(2, 1, rgba.len()));
    assert!(!fits_image(u32::MAX, u32::MAX, rgba.len()));
    let image = frame_image(3, 1, &rgba);
    assert_eq!(image.size, [3, 1]);
    assert_eq!(image.pixels.len(), 3);
    assert_eq!(image.pixels[0].to_array(), [3, 2, 1, 255]);
    assert_eq!(image.pixels[1].to_array(), [0, 0, 0, 0]);
    assert_eq!(image.pixels[2].to_array()[3], 128);
}

#[test]
fn screen_of_the_worker_is_what_is_shown() {
    let mut slot = vec![0u8; SHM_SLOT_SIZE];
    write_shm_frame(&mut slot, &[10, 20, 30, 0, 40, 50, 60, 0], 1, 2, false);
    let mut buf: Vec<u8> = Vec::new();
    let (w, h, _) = read_shm_frame_into(&slot, &mut buf).unwrap();
    let image = frame_image(w, h, &buf);
    assert_eq!(image.size, [1, 2]);
    assert_eq!(image.pixels[0].to_array(), [30, 20, 10, 255]);
    assert_eq!(image.pixels[1].to_array(), [60, 50, 40, 255]);
}
