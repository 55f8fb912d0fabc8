use std::cell::RefCell;

use itertools_num::linspace;
use noise::NoiseFn;
use noisimation::raster::Raster;
use noisimation::sampler::{make_image, make_volume};

#[test]
fn generate_checkerboard() {
    let function = noise::Checkerboard::default(); // 1s or -1s
    let function = noise::ScaleBias::new(&function).set_scale(u16::MAX as f64);
    let field = |x: u32, y: u32, d: f64| function.get([x as f64, y as f64, d]) as u16;
    let image = make_image(&field, 10, 10, 0.0);
    assert_eq!(image.width(), 10);
    assert_eq!(image.height(), 10);
    assert_eq!(image.as_samples().len(), 100);
}

#[test]
fn volume() {
    let function = noise::OpenSimplex::default();
    let function = noise::ScaleBias::new(&function).set_scale(u16::MAX as f64);
    let field = |x: u32, y: u32, d: f64| function.get([x as f64, y as f64, d]) as u16;
    let depths: Vec<f64> = linspace(0.0, 10.0, 100).collect();
    let mut slices = make_volume(&field, 100, 100, depths);
    let mut count = 0;
    while let Some(image) = slices.next_raster() {
        assert_eq!(image.width(), 100);
        assert_eq!(image.height(), 100);
        count += 1;
    }
    assert_eq!(count, 100);
}

#[test]
fn sample_has_requested_dimensions() {
    let field = |x: u32, y: u32, _d: u16| (x + 10 * y) as u16;
    let image = make_image(&field, 3, 2, 0u16);
    assert_eq!(image.width(), 3);
    assert_eq!(image.height(), 2);
    assert_eq!(image.as_samples(), &[0, 1, 2, 10, 11, 12]);
    assert_eq!(image.get(2, 1), 12);
    assert_eq!(image.get(0, 1), 10);
}

#[test]
fn sample_of_empty_grid() {
    let field = |_x: u32, _y: u32, _d: u16| 7u16;
    let image = make_image(&field, 0, 5, 0u16);
    assert_eq!(image.width(), 0);
    assert_eq!(image.height(), 5);
    assert!(image.as_samples().is_empty());
}

#[test]
fn sample_carries_depth_to_field() {
    let field = |x: u32, _y: u32, d: u16| d + x as u16;
    let image = make_image(&field, 2, 1, 40u16);
    assert_eq!(image.into_samples(), vec![40, 41]);
}

#[test]
fn checkerboard_alternates_along_first_axis() {
    let function = noise::Checkerboard::default();
    let function = noise::ScaleBias::new(&function).set_scale(u16::MAX as f64);
    let field = |x: u32, y: u32, d: f64| function.get([x as f64, y as f64, d]) as u16;
    let image = make_image(&field, 10, 2, 0.0);
    assert_eq!(image.width(), 10);
    assert_eq!(image.height(), 2);
    assert_ne!(image.get(0, 0), image.get(1, 0));
}

#[test]
fn sampling_twice_gives_same_raster() {
    let function = noise::Perlin::default();
    let function = noise::ScaleBias::new(&function)
        .set_bias(1.0)
        .set_scale(30000.0);
    let field = |x: u32, y: u32, d: f64| function.get([x as f64 * 0.1, y as f64 * 0.1, d]) as u16;
    let a = make_image(&field, 16, 9, 2.5);
    let b = make_image(&field, 16, 9, 2.5);
    assert_eq!(a.as_samples(), b.as_samples());
    assert_eq!((a.width(), a.height()), (b.width(), b.height()));
}

#[test]
fn volume_yields_one_raster_per_depth_in_order() {
    let field = |x: u32, _y: u32, d: u16| d * 100 + x as u16;
    let mut slices = make_volume(&field, 2, 1, vec![3u16, 1, 2]);
    assert_eq!(slices.remaining(), 3);
    let mut firsts = Vec::new();
    while let Some(image) = slices.next_raster() {
        firsts.push(image.get(0, 0));
        assert_eq!(image.get(1, 0), image.get(0, 0) + 1);
    }
    assert_eq!(firsts, vec![300, 100, 200]);
    assert_eq!(slices.remaining(), 0);
    assert!(slices.next_raster().is_none());
}

#[test]
fn volume_of_no_depths_is_empty() {
    let field = |_x: u32, _y: u32, _d: u16| 0u16;
    let mut slices = make_volume(&field, 4, 4, Vec::new());
    assert_eq!(slices.remaining(), 0);
    assert!(slices.next_raster().is_none());
}

#[test]
fn volume_samples_lazily() {
    let queried: RefCell<Vec<f64>> = RefCell::new(Vec::new());
    let field = |_x: u32, _y: u32, d: f64| {
        let mut seen = queried.borrow_mut();
        if !seen.contains(&d) {
            seen.push(d);
        }
        d as u16
    };
    let mut slices = make_volume(&field, 2, 2, vec![0.0, 5.0, 10.0]);
    assert!(queried.borrow().is_empty());
    let first = slices.next_raster().unwrap();
    assert_eq!(first.as_samples(), &[0, 0, 0, 0]);
    assert_eq!(*queried.borrow(), vec![0.0]);
    assert_eq!(slices.remaining(), 2);
    let second = slices.next_raster().unwrap();
    assert_eq!(second.as_samples(), &[5, 5, 5, 5]);
    assert_eq!(*queried.borrow(), vec![0.0, 5.0]);
    let third = slices.next_raster().unwrap();
    assert_eq!(third.as_samples(), &[10, 10, 10, 10]);
    assert!(slices.next_raster().is_none());
    assert_eq!(*queried.borrow(), vec![0.0, 5.0, 10.0]);
}

#[test]
fn raster_from_samples_checks_length() {
    assert!(Raster::from_samples(2, 3, vec![0; 5]).is_none());
    assert!(Raster::from_samples(2, 3, vec![0; 7]).is_none());
    let r = Raster::from_samples(2, 3, vec![1, 2, 3, 4, 5, 6]).unwrap();
    assert_eq!(r.get(1, 2), 6);
    assert_eq!(r.get(0, 1), 3);
}
