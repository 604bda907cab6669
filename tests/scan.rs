use raytracer::raster::{ImageSize, Scan, ScanStep};

fn walk(size: ImageSize, steps: usize) -> Vec<ScanStep> {
    let mut scan = Scan::new(size);
    (0..steps).map(|_| scan.next()).collect()
}

#[test]
fn image_height_is_floored_at_one() {
    assert_eq!(ImageSize::new(400, 0), ImageSize { width: 400, height: 1 });
    assert_eq!(ImageSize::new(400, 225), ImageSize { width: 400, height: 225 });
}

#[test]
fn pixel_count_of_large_grid() {
    assert_eq!(ImageSize::new(1200, 675).pixel_count(), 810_000);
    let big = ImageSize::new(u32::MAX, u32::MAX);
    assert_eq!(big.pixel_count(), u32::MAX as u64 * u32::MAX as u64);
}

#[test]
fn scan_two_by_two_in_raster_order() {
    let steps = walk(ImageSize { width: 2, height: 2 }, 8);
    assert_eq!(
        steps,
        vec![
            ScanStep::Row { remaining: 2 },
            ScanStep::Pixel { i: 0, j: 0 },
            ScanStep::Pixel { i: 1, j: 0 },
            ScanStep::Row { remaining: 1 },
            ScanStep::Pixel { i: 0, j: 1 },
            ScanStep::Pixel { i: 1, j: 1 },
            ScanStep::Done,
            ScanStep::Done,
        ]
    );
}

#[test]
fn scan_zero_width_announces_rows_only() {
    let steps = walk(ImageSize { width: 0, height: 2 }, 3);
    assert_eq!(
        steps,
        vec![ScanStep::Row { remaining: 2 }, ScanStep::Row { remaining: 1 }, ScanStep::Done]
    );
}

#[test]
fn scan_visits_every_pixel_once() {
    let size = ImageSize::new(20, 11);
    let mut scan = Scan::new(size);
    let mut pixels = Vec::new();
    let mut rows = Vec::new();
    loop {
        match scan.next() {
            ScanStep::Done => break,
            ScanStep::Row { remaining } => rows.push(remaining),
            ScanStep::Pixel { i, j } => pixels.push((j, i)),
        }
    }
    assert_eq!(rows, (1..=11).rev().collect::<Vec<u32>>());
    let expected: Vec<(u32, u32)> = (0..11).flat_map(|j| (0..20).map(move |i| (j, i))).collect();
    assert_eq!(pixels, expected);
}
