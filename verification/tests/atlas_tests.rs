//! Tests of the atlas shelf packer and its pixel buffer.

use fontstash::atlas::Atlas;
use fontstash::Rect;

fn overlap(a: &Rect, b: &Rect) -> bool {
    !(a.x + a.w <= b.x || b.x + b.w <= a.x || a.y + a.h <= b.y || b.y + b.h <= a.y)
}

#[test]
fn first_allocation_is_top_left() {
    let mut a = Atlas::new(64, 64);
    let r = a.allocate(10, 7).unwrap();
    assert_eq!((r.x, r.y, r.w, r.h), (0, 0, 10, 7));
}

#[test]
fn same_shelf_packs_left_to_right() {
    let mut a = Atlas::new(64, 64);
    let r1 = a.allocate(10, 7).unwrap();
    let r2 = a.allocate(5, 7).unwrap();
    assert_eq!((r1.x, r1.y), (0, 0));
    assert_eq!((r2.x, r2.y), (10, 0));
}

#[test]
fn taller_request_opens_new_shelf() {
    let mut a = Atlas::new(64, 64);
    let r1 = a.allocate(10, 7).unwrap();
    let r2 = a.allocate(10, 9).unwrap();
    assert_eq!(r1.y, 0);
    assert_eq!((r2.x, r2.y), (0, 7));
}

#[test]
fn allocations_never_overlap() {
    let mut a = Atlas::new(48, 48);
    let sizes = [
        (10u32, 7u32),
        (5, 7),
        (20, 3),
        (8, 9),
        (48, 2),
        (1, 1),
        (13, 5),
        (7, 7),
        (3, 12),
    ];
    let mut rects: Vec<Rect> = Vec::new();
    for (w, h) in sizes {
        if let Some(r) = a.allocate(w, h) {
            assert!(r.x + r.w <= 48 && r.y + r.h <= 48);
            rects.push(r);
        }
    }
    for i in 0..rects.len() {
        for j in 0..rects.len() {
            if i != j {
                assert!(!overlap(&rects[i], &rects[j]));
            }
        }
    }
}

#[test]
fn allocation_fails_when_no_room() {
    let mut a = Atlas::new(8, 8);
    assert!(a.allocate(9, 1).is_none());
    assert!(a.allocate(1, 9).is_none());
    assert!(a.allocate(8, 8).is_some());
    assert!(a.allocate(1, 1).is_none());
}

#[test]
fn blit_writes_rect_and_leaves_rest() {
    let mut a = Atlas::new(8, 8);
    let r = a.allocate(2, 2).unwrap();
    a.blit(r, &vec![10, 20, 30, 40]);
    assert_eq!(a.data[0], 10);
    assert_eq!(a.data[1], 20);
    assert_eq!(a.data[8], 30);
    assert_eq!(a.data[9], 40);
    assert_eq!(a.data[2], 0);
    assert_eq!(a.data[16], 0);
}

#[test]
fn expand_preserves_content() {
    let mut a = Atlas::new(8, 8);
    let r = a.allocate(3, 2).unwrap();
    a.blit(r, &vec![1, 2, 3, 4, 5, 6]);
    let before: Vec<u8> = a.data.clone();
    a.expand(16, 12);
    assert_eq!(a.width, 16);
    assert_eq!(a.height, 12);
    for y in 0..8usize {
        for x in 0..8usize {
            assert_eq!(a.data[y * 16 + x], before[y * 8 + x]);
        }
    }
    // New area is zero.
    assert_eq!(a.data[8 * 16], 0);
    assert_eq!(a.data[15], 0);
}

#[test]
fn expand_keeps_rects_valid_and_packing_continues() {
    let mut a = Atlas::new(8, 8);
    let r1 = a.allocate(8, 8).unwrap();
    assert!(a.allocate(1, 1).is_none());
    a.expand(8, 16);
    let r2 = a.allocate(4, 4).unwrap();
    assert!(!overlap(&r1, &r2));
    assert_eq!((r2.x, r2.y), (0, 8));
}

#[test]
fn reset_clears_everything() {
    let mut a = Atlas::new(8, 8);
    let r = a.allocate(2, 2).unwrap();
    a.blit(r, &vec![255, 255, 255, 255]);
    a.reset(16, 16);
    assert_eq!(a.width, 16);
    assert_eq!(a.height, 16);
    assert!(a.data.iter().all(|&b| b == 0));
    // The packer starts over from the top-left corner.
    let r2 = a.allocate(5, 5).unwrap();
    assert_eq!((r2.x, r2.y), (0, 0));
}

#[test]
fn dirty_rect_tracks_blits_and_validate_clears() {
    let mut a = Atlas::new(16, 16);
    assert!(a.dirty.is_none());
    let r1 = a.allocate(2, 2).unwrap();
    a.blit(r1, &vec![1, 1, 1, 1]);
    let d = a.dirty.unwrap();
    assert_eq!((d.x, d.y, d.w, d.h), (0, 0, 2, 2));
    let r2 = a.allocate(3, 2).unwrap();
    a.blit(r2, &vec![2, 2, 2, 2, 2, 2]);
    let d2 = a.dirty.unwrap();
    // The union grows to the bounding box of both blits.
    assert_eq!((d2.x, d2.y, d2.w, d2.h), (0, 0, 5, 2));
    let taken = a.validate().unwrap();
    assert_eq!((taken.x, taken.y, taken.w, taken.h), (0, 0, 5, 2));
    assert!(a.dirty.is_none());
    assert!(a.validate().is_none());
}
