use voxel_rs::texture::{downsample, generate_mipmaps};

#[test]
fn downsample_averages_two_by_two() {
    // 2x2 image, one pixel: channels average and round down
    let img = vec![0, 10, 255, 1, 4, 10, 255, 2, 8, 10, 255, 3, 13, 10, 255, 4];
    assert_eq!(downsample(&img, 2), vec![6, 10, 255, 2]);
}

#[test]
fn mipmaps_of_four_pixel_side() {
    let img: Vec<u8> = (0..64u32).map(|i| (i * 4) as u8).collect();
    let levels = generate_mipmaps(img.clone(), 4);
    assert_eq!(levels.len(), 3);
    assert_eq!(levels[0], img);
    assert_eq!(levels[1].len(), 16);
    assert_eq!(levels[2].len(), 4);
    // top-left pixel of level 1: pixels (0,0), (0,1), (1,0), (1,1), red channel
    assert_eq!(levels[1][0], ((0 + 16 + 64 + 80) / 4) as u8);
}

#[test]
fn mipmaps_stop_at_five_levels() {
    let levels = generate_mipmaps(vec![7u8; 64 * 64 * 4], 64);
    assert_eq!(levels.len(), 5);
    assert_eq!(levels[4].len(), 4 * 4 * 4);
    assert!(levels[4].iter().all(|&b| b == 7));
}

#[test]
fn single_pixel_has_one_level() {
    assert_eq!(generate_mipmaps(vec![1, 2, 3, 4], 1), vec![vec![1, 2, 3, 4]]);
}

#[test]
fn odd_side_rounds_down() {
    let levels = generate_mipmaps(vec![200u8; 3 * 3 * 4], 3);
    assert_eq!(levels.len(), 2);
    assert_eq!(levels[1], vec![200u8; 4]);
}
