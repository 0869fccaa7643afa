use core_video_editor::frame::Frame;
use core_video_editor::pixels::{
    bgr_to_rgba, load_bgr, rgba_to_bgr, split_rows, writer_rows, FRAME_COLS, FRAME_ROWS,
};

#[test]
fn bgr_becomes_opaque_rgba() {
    assert_eq!(bgr_to_rgba(&[1, 2, 3, 4, 5, 6]), vec![3, 2, 1, 255, 6, 5, 4, 255]);
    assert!(bgr_to_rgba(&[]).is_empty());
}

#[test]
fn rgba_becomes_bgr_without_alpha() {
    assert_eq!(rgba_to_bgr(&[3, 2, 1, 255, 6, 5, 4, 0]), vec![1, 2, 3, 4, 5, 6]);
}

#[test]
fn round_trip_keeps_the_colours() {
    let bgr: Vec<u8> = (0..300u32).map(|i| (i * 7 % 256) as u8).collect();
    assert_eq!(rgba_to_bgr(&bgr_to_rgba(&bgr)), bgr);
}

#[test]
fn rows_are_cut_row_after_row() {
    let v: Vec<u8> = (0..FRAME_ROWS * FRAME_COLS + 5).map(|i| (i % 251) as u8).collect();
    let rows = split_rows(&v);
    assert_eq!(rows.len(), FRAME_ROWS);
    for (i, row) in rows.iter().enumerate() {
        assert_eq!(row.len(), FRAME_COLS);
        assert_eq!(row[0], v[i * FRAME_COLS]);
        assert_eq!(row[FRAME_COLS - 1], v[i * FRAME_COLS + FRAME_COLS - 1]);
    }
}

#[test]
fn empty_capture_leaves_the_frame() {
    let mut f = Frame { w: 1, h: 1, vec_rgba: vec![9, 9, 9, 9] };
    assert!(!load_bgr(&mut f, &[]));
    assert_eq!(f.vec_rgba, vec![9, 9, 9, 9]);
    assert!(load_bgr(&mut f, &[10, 20, 30]));
    assert_eq!(f.vec_rgba, vec![30, 20, 10, 255]);
    assert_eq!((f.w, f.h), (1, 1));
}

#[test]
fn writer_rows_take_the_bgr_bytes() {
    let n = FRAME_ROWS * FRAME_COLS / 3 + 1;
    let mut rgba = Vec::with_capacity(n * 4);
    for p in 0..n {
        rgba.extend_from_slice(&[(p % 200) as u8, 1, 2, 255]);
    }
    let f = Frame { w: n, h: 1, vec_rgba: rgba };
    let rows = writer_rows(&f);
    assert_eq!(rows.len(), FRAME_ROWS);
    assert_eq!(&rows[0][0..6], &[2, 1, 0, 2, 1, 1]);
    assert!(rows.iter().all(|r| r.len() == FRAME_COLS));
}
