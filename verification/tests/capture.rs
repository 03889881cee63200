use wmacro::pixels::PixelFormat;
use wmacro::retained::{
    request_coverable, request_union, retained_pixel, retained_rect_covered, retained_snapshot, scan_retained, serve_box,
    serve_requests, visible_region_rect, PendingRegion, RetainedFrame, RetainedScan, ServeRequest,
};

/// A retained buffer of `w` x `h` pixels at `origin`, filled with `0, 1, 2, ...`.
fn counting(w: u32, h: u32, origin: (u32, u32), fmt: PixelFormat) -> RetainedFrame {
    let n = (w * h * 4) as usize;
    RetainedFrame {
        data: (0..n).map(|i| i as u8).collect(),
        stride: (w * 4) as usize,
        w,
        h,
        origin_x: origin.0,
        origin_y: origin.1,
        fmt,
    }
}

#[test]
fn visible_rect_is_clipped_to_the_frame() {
    assert_eq!(visible_region_rect((-5, 2, 10, 20), 8, 6), Some((0, 2, 8, 6)));
    assert_eq!(visible_region_rect((1, 1, 3, 4), 8, 6), Some((1, 1, 3, 4)));
    assert_eq!(visible_region_rect((9, 0, 12, 3), 8, 6), None);
    assert_eq!(visible_region_rect((3, 3, 3, 5), 8, 6), None);
}

#[test]
fn covered_needs_data_and_the_whole_rect() {
    let f = counting(3, 2, (1, 1), PixelFormat::Rgba);
    assert!(retained_rect_covered(&f, 1, 1, 4, 3));
    assert!(retained_rect_covered(&f, 2, 1, 4, 2));
    assert!(!retained_rect_covered(&f, 0, 1, 4, 3));
    assert!(!retained_rect_covered(&f, 1, 1, 5, 3));
    let empty = counting(0, 0, (0, 0), PixelFormat::Rgba);
    assert!(!retained_rect_covered(&empty, 0, 0, 0, 0));
}

#[test]
fn snapshot_copies_rows_and_zero_fills_past_the_end() {
    let f = counting(3, 2, (1, 1), PixelFormat::Rgba);
    let (snap, w, h) = retained_snapshot(&f, 2, 1, 4, 3);
    assert_eq!((w, h), (2, 2));
    let want: Vec<u8> = (4..12).chain(16..24).collect();
    assert_eq!(snap, want);

    let mut short = counting(3, 2, (1, 1), PixelFormat::Rgba);
    short.data.truncate(20);
    let (snap, w, h) = retained_snapshot(&short, 2, 1, 4, 3);
    assert_eq!((w, h), (2, 2));
    let want: Vec<u8> = (4..12).chain(std::iter::repeat(0).take(8)).collect();
    assert_eq!(snap, want);
}

#[test]
fn pixel_reads_follow_the_channel_order() {
    let f = counting(3, 2, (1, 1), PixelFormat::Bgra);
    assert_eq!(retained_pixel(&f, 2, 1), Some((6, 5, 4)));
    assert_eq!(retained_pixel(&f, 3, 2), Some((22, 21, 20)));
    assert_eq!(retained_pixel(&f, 0, 1), None);
    assert_eq!(retained_pixel(&f, 4, 1), None);
    let f = counting(3, 2, (1, 1), PixelFormat::Rgba);
    assert_eq!(retained_pixel(&f, 2, 1), Some((4, 5, 6)));
    let mut short = counting(3, 2, (1, 1), PixelFormat::Rgba);
    short.data.truncate(20);
    assert_eq!(retained_pixel(&short, 3, 2), None);
}

#[test]
fn union_of_pending_regions() {
    let pending = vec![
        PendingRegion { full: false, rect: Some((-2, -2, 3, 3)) },
        PendingRegion { full: false, rect: Some((5, 6, 9, 7)) },
        PendingRegion { full: false, rect: None },
        PendingRegion { full: false, rect: Some((20, 20, 30, 30)) },
    ];
    assert_eq!(request_union(&pending, 8, 8), Some((0, 0, 8, 7)));

    let one = vec![PendingRegion { full: false, rect: Some((2, 3, 4, 6)) }];
    assert_eq!(request_union(&one, 8, 8), Some((2, 3, 2, 3)));

    let with_full = vec![
        PendingRegion { full: false, rect: Some((2, 3, 4, 6)) },
        PendingRegion { full: true, rect: None },
    ];
    assert_eq!(request_union(&with_full, 8, 8), None);

    let none_visible = vec![PendingRegion { full: false, rect: Some((9, 9, 12, 12)) }];
    assert_eq!(request_union(&none_visible, 8, 8), None);
    assert_eq!(request_union(&Vec::new(), 8, 8), None);
}

#[test]
fn coverable_requests() {
    let f = counting(10, 10, (5, 5), PixelFormat::Rgba);
    let fr = Some((100, 100));
    assert!(request_coverable(fr, &f, false, Some((6, 6, 8, 8))));
    assert!(request_coverable(fr, &f, false, Some((5, 5, 15, 15))));
    assert!(!request_coverable(fr, &f, false, Some((0, 0, 8, 8))));
    assert!(request_coverable(fr, &f, false, Some((3, 3, 3, 9))));
    assert!(!request_coverable(fr, &f, false, None));
    assert!(!request_coverable(fr, &f, true, None));
    assert!(!request_coverable(None, &f, false, Some((6, 6, 8, 8))));
    let whole = counting(4, 3, (0, 0), PixelFormat::Rgba);
    assert!(request_coverable(Some((4, 3)), &whole, true, None));
}

#[test]
fn serve_box_clips_to_the_buffer() {
    let f = counting(4, 3, (2, 2), PixelFormat::Rgba);
    assert_eq!(serve_box(&f, true, None), Some((0, 0, 4, 3)));
    assert_eq!(serve_box(&f, false, Some((3, 2, 5, 4))), Some((1, 0, 2, 2)));
    assert_eq!(serve_box(&f, false, Some((0, 0, 9, 9))), Some((0, 0, 4, 3)));
    assert_eq!(serve_box(&f, false, Some((10, 10, 12, 12))), Some((0, 0, 0, 0)));
    assert_eq!(serve_box(&f, false, None), None);
    assert_eq!(serve_box(&f, false, Some((i64::MIN, i64::MIN, i64::MAX, i64::MAX))), Some((0, 0, 4, 3)));
}

#[test]
fn serving_requests_from_the_buffer() {
    let f = counting(2, 2, (0, 0), PixelFormat::Rgba);
    let reqs = vec![
        ServeRequest { full: false, color: true, rect: Some((1, 0, 5, 1)) },
        ServeRequest { full: false, color: false, rect: Some((1, 0, 5, 1)) },
        ServeRequest { full: false, color: true, rect: None },
        ServeRequest { full: true, color: false, rect: None },
    ];
    let out = serve_requests(&f, &reqs);
    assert_eq!(out.len(), 4);
    let img = out[0].as_ref().unwrap().as_ref().unwrap();
    assert_eq!((img.w, img.h, img.color), (1, 1, true));
    assert_eq!(img.pixels, vec![4, 5, 6, 255]);
    let img = out[1].as_ref().unwrap().as_ref().unwrap();
    assert_eq!((img.w, img.h, img.color), (1, 1, false));
    assert_eq!(img.pixels, vec![((4 * 77 + 5 * 150 + 6 * 29) / 256) as u8]);
    assert!(out[2].is_none());
    let img = out[3].as_ref().unwrap().as_ref().unwrap();
    assert_eq!((img.w, img.h), (2, 2));
    assert_eq!(img.pixels.len(), 4);

    let empty = counting(0, 0, (0, 0), PixelFormat::Rgba);
    let out = serve_requests(&empty, &reqs);
    assert_eq!(out.len(), 4);
    for o in &out {
        match o {
            Some(Err(e)) => assert_eq!(e, "no frame data available"),
            other => panic!("unexpected answer {:?}", other),
        }
    }
}

#[test]
fn scanning_the_retained_buffer() {
    // 3 x 2 RGBA, red at (1, 0) and (2, 0), black elsewhere, placed at (1, 1).
    let mut f = counting(3, 2, (1, 1), PixelFormat::Rgba);
    for b in f.data.iter_mut() {
        *b = 0;
    }
    f.data[4] = 255;
    f.data[8] = 255;
    match scan_retained(&f, Some((10, 10)), Some((0, 0, 10, 10)), true, true, 255, 0, 0, 0, 1, 1) {
        RetainedScan::Refresh => {}
        other => panic!("expected a refresh, got {:?}", other),
    }
    match scan_retained(&f, Some((10, 10)), Some((1, 1, 4, 3)), true, true, 255, 0, 0, 0, 1, 1) {
        RetainedScan::Done(Some((x, y, reg))) => {
            assert_eq!((x, y), (1, 1));
            assert_eq!(reg.area, 2);
            assert_eq!((reg.x0, reg.y0, reg.x1, reg.y1), (1, 0, 2, 0));
        }
        other => panic!("expected a region, got {:?}", other),
    }
    match scan_retained(&f, Some((10, 10)), Some((1, 1, 4, 3)), false, true, 255, 0, 0, 0, 1, 1) {
        RetainedScan::Refresh => {}
        other => panic!("expected a refresh, got {:?}", other),
    }
    match scan_retained(&f, Some((10, 10)), Some((1, 1, 4, 3)), false, false, 255, 0, 0, 0, 3, 1) {
        RetainedScan::Done(None) => {}
        other => panic!("expected nothing, got {:?}", other),
    }
    match scan_retained(&f, Some((10, 10)), Some((20, 20, 30, 30)), true, true, 255, 0, 0, 0, 1, 1) {
        RetainedScan::Done(None) => {}
        other => panic!("expected nothing, got {:?}", other),
    }
    match scan_retained(&f, None, Some((1, 1, 4, 3)), true, true, 255, 0, 0, 0, 1, 1) {
        RetainedScan::Done(None) => {}
        other => panic!("expected nothing, got {:?}", other),
    }
}
