use veil::capture::{read_long, read_word, ScreencopyCapture, ShmCapture, HEADER_SIZE, MAGIC};
use veil::gpu::{
    byte, halfblock_bytes, halfblock_cells, luma_bytes, luma_cells, params, render_node, work_groups,
};
use veil::screencopy::{
    bind_version, crop_rgba, xrgb_to_rgba, ConnectError, FrameInfo, WaylandCapture,
};

fn buffer(id: u64, w: u32, h: u32, stride: u32, pixels: &[u8]) -> Vec<u8> {
    let mut b = vec![0u8; 32];
    b[0..4].copy_from_slice(&MAGIC.to_le_bytes());
    b[8..16].copy_from_slice(&id.to_le_bytes());
    b[16..20].copy_from_slice(&w.to_le_bytes());
    b[20..24].copy_from_slice(&h.to_le_bytes());
    b[24..28].copy_from_slice(&stride.to_le_bytes());
    b.extend_from_slice(pixels);
    b
}

#[test]
fn words_are_little_endian() {
    let b = [1u8, 2, 3, 4, 5, 6, 7, 8, 9];
    assert_eq!(read_word(&b, 1), u32::from_le_bytes([2, 3, 4, 5]));
    assert_eq!(read_long(&b, 1), u64::from_le_bytes([2, 3, 4, 5, 6, 7, 8, 9]));
}

#[test]
fn a_frame_is_read_once() {
    let mut c = ShmCapture::open(HEADER_SIZE).unwrap();
    assert!(ShmCapture::open(31).is_none());
    let b = buffer(7, 1, 2, 4, &[1, 2, 3, 4, 5, 6, 7, 8]);
    assert_eq!(c.read_frame(&b), Some((1, 2, 4, vec![1, 2, 3, 4, 5, 6, 7, 8])));
    assert_eq!(c.read_frame(&b), None);
    assert_eq!(c.last_frame_id, 7);
}

#[test]
fn bad_buffers_are_not_read() {
    let mut c = ShmCapture::open(64).unwrap();
    let mut b = buffer(7, 1, 1, 4, &[1, 2, 3, 4]);
    b[0] = 0;
    assert_eq!(c.read_frame(&b), None);
    assert_eq!(c.last_frame_id, 0);
    let short = buffer(8, 1, 2, 4, &[1, 2, 3, 4]);
    assert_eq!(c.read_frame(&short), None);
    assert_eq!(c.last_frame_id, 8);
}

#[test]
fn a_screen_buffer_holds_its_rows() {
    assert!(ScreencopyCapture::new(0, 0, 0).is_none());
    let mut c = ScreencopyCapture::new(2, 3, 8).unwrap();
    assert_eq!((c.width(), c.height(), c.stride()), (2, 3, 8));
    assert_eq!(c.as_bytes(), vec![0u8; 24].as_slice());
    c.as_bytes_mut()[5] = 9;
    assert_eq!(c.as_bytes()[5], 9);
}

#[test]
fn pixels_become_opaque() {
    assert_eq!(xrgb_to_rgba(&[1, 2, 3, 4, 5, 6, 7, 8]), vec![3, 2, 1, 255, 7, 6, 5, 255]);
    assert_eq!(xrgb_to_rgba(&[1, 2, 3]), Vec::<u8>::new());
}

fn picture(w: u32, h: u32) -> Vec<u8> {
    let mut v = Vec::new();
    for y in 0..h {
        for x in 0..w {
            v.extend_from_slice(&[x as u8, y as u8, 0, 255]);
        }
    }
    v
}

#[test]
fn a_window_is_cut_out() {
    let p = picture(8, 6);
    let (w, h, out) = crop_rgba(&p, 8, 6, 1, 2, 2, 1, 2);
    assert_eq!((w, h), (4, 2));
    assert_eq!(out.len(), 4 * 2 * 4);
    for row in 0..2usize {
        for col in 0..4usize {
            let at = (row * 4 + col) * 4;
            assert_eq!(out[at..at + 2], [2 + col as u8, 4 + row as u8]);
        }
    }
}

#[test]
fn a_window_is_cut_off_at_the_edges() {
    let p = picture(4, 4);
    let (w, h, out) = crop_rgba(&p, 4, 4, -3, 3, 100, 100, 1);
    assert_eq!((w, h), (4, 1));
    assert_eq!(out, p[48..64]);
    assert_eq!(crop_rgba(&p, 4, 4, 9, 0, 1, 1, 1), (0, 0, vec![]));
    assert_eq!(crop_rgba(&p, 4, 4, 0, 0, 0, 1, 1), (0, 0, vec![]));
    assert_eq!(crop_rgba(&p, 4, 4, 0, 0, 1, 1, -5).0, 1);
    let (w, h, out) = crop_rgba(&p[..20], 4, 4, 0, 0, 4, 2, 1);
    assert_eq!((w, h, out.len()), (4, 2, 16));
}

#[test]
fn interfaces_are_bound_at_known_versions() {
    assert_eq!(bind_version("wl_shm", 9), Some(1));
    assert_eq!(bind_version("zwlr_screencopy_manager_v1", 2), Some(2));
    assert_eq!(bind_version("zwlr_screencopy_manager_v1", 9), Some(3));
    assert_eq!(bind_version("wl_output", 1), Some(2));
    assert_eq!(bind_version("wl_output", 9), Some(4));
    assert_eq!(bind_version("wl_seat", 9), None);
}

#[test]
fn a_capture_needs_a_manager_and_an_output() {
    assert_eq!(WaylandCapture::connect(false, 1, 1), Err(ConnectError::NoManager));
    assert_eq!(WaylandCapture::connect(true, 0, 1), Err(ConnectError::NoOutput));
    assert_eq!(WaylandCapture::connect_output(true, 2, 1, 1).unwrap().target, 1);
    assert_eq!(WaylandCapture::connect_output(true, 2, 2, 1).unwrap().target, 0);
}

#[test]
fn a_frame_is_announced_copied_and_taken() {
    let mut c = WaylandCapture::connect(true, 1, 2).unwrap();
    assert_eq!(c.output_scale(), 2);
    assert_eq!(c.capture_region(1, -2, 3, 4), (2, -4, 6, 8));
    let info = FrameInfo { width: 6, height: 8, stride: 24 };
    assert!(!c.done());
    assert_eq!(c.buffer_event(false, true, info), None);
    assert_eq!(c.buffer_event(true, false, info), None);
    // A frame that is not taken may be of any size.
    let huge = FrameInfo { width: 1, height: u32::MAX, stride: u32::MAX };
    assert_eq!(c.buffer_event(false, true, huge), None);
    assert_eq!(c.buffer_event(true, true, FrameInfo { width: 1, height: 0, stride: 4 }), None);
    assert_eq!(c.buffer_event(true, true, info), Some(192));
    assert_eq!(c.buffer_event(true, true, info), None);
    c.ready_event();
    assert!(c.done());
    assert_eq!(c.take_frame(), Some(info));
    assert_eq!(c.take_frame(), None);
}

#[test]
fn a_failed_frame_is_given_up() {
    let mut c = WaylandCapture::connect(true, 1, 0).unwrap();
    assert_eq!(c.output_scale(), 1);
    c.scale_event(3);
    assert_eq!(c.output_scale(), 3);
    c.capture_full();
    let info = FrameInfo { width: 1, height: 1, stride: 4 };
    assert_eq!(c.buffer_event(true, true, info), Some(4));
    assert_eq!(c.failed_event(), Some(info));
    assert!(c.done());
    assert_eq!(c.take_frame(), None);
    c.capture_full();
    assert!(!c.done());
    assert_eq!(c.buffer_event(true, true, info), Some(4));
    c.allocation_failed();
    assert_eq!(c.take_frame(), None);
}

#[test]
fn packed_words_come_apart() {
    assert_eq!(byte(0x11223344, 0), 0x44);
    assert_eq!(byte(0x11223344, 1), 0x33);
    assert_eq!(byte(0x11223344, 2), 0x22);
    assert_eq!(byte(0x11223344, 3), 0x11);
    let raw = [1u8, 2, 3, 0xff, 4, 5, 6, 0xff];
    let cells = halfblock_cells(&raw, 1, 1);
    assert_eq!(cells.len(), 1);
    assert_eq!((cells[0].fg, cells[0].bg), ([1, 2, 3], [4, 5, 6]));
    assert_eq!(luma_cells(&[7, 1, 1, 1, 8, 0, 0, 0]), vec![7, 8]);
}

#[test]
fn sizes_for_the_graphics_card() {
    assert_eq!(work_groups(80), 10);
    assert_eq!(work_groups(81), 11);
    assert_eq!(work_groups(0), 0);
    assert_eq!(halfblock_bytes(80, 24), 15360);
    assert_eq!(luma_bytes(80, 24), 7680);
    assert_eq!(params(1, 2, 3, 4), [1, 2, 3, 4]);
    assert_eq!(render_node(0), Some(128));
    assert_eq!(render_node(7), Some(135));
    assert_eq!(render_node(8), None);
}
