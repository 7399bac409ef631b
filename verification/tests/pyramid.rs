use backdrop_blur::pyramid::{clamped_passes, BlurError, BlurPass, BlurPyramid, PassSource};

fn sizes(p: &BlurPyramid) -> Vec<(i32, i32)> {
    let mut v = Vec::new();
    for i in 0..p.len() {
        let e = p.entry(i);
        v.push((e.w, e.h));
    }
    v
}

fn ids(p: &BlurPyramid) -> Vec<u64> {
    let mut v = Vec::new();
    for i in 0..p.len() {
        v.push(p.entry(i).id);
    }
    v
}

#[test]
fn prepare_builds_halving_levels() {
    let mut p = BlurPyramid::new(7);
    p.prepare(100, 65, 4, true);
    assert_eq!(
        sizes(&p),
        vec![(100, 65), (50, 32), (25, 16), (12, 8), (6, 4)]
    );
}

#[test]
fn prepare_clamps_pass_count() {
    assert_eq!(clamped_passes(0), 1);
    assert_eq!(clamped_passes(31), 31);
    assert_eq!(clamped_passes(200), 31);

    let mut p = BlurPyramid::new(0);
    p.prepare(4096, 4096, 0, true);
    assert_eq!(p.len(), 2);

    let mut q = BlurPyramid::new(0);
    q.prepare(4096, 4096, 255, true);
    assert_eq!(q.len(), 32);
}

#[test]
fn prepare_floors_sizes_at_one_pixel() {
    let mut p = BlurPyramid::new(0);
    p.prepare(3, 1, 3, true);
    assert_eq!(sizes(&p), vec![(3, 1), (1, 1), (1, 1), (1, 1)]);
}

#[test]
fn repeat_prepare_is_a_noop() {
    let mut p = BlurPyramid::new(0);
    p.prepare(64, 64, 3, true);
    let before = ids(&p);
    p.prepare(64, 64, 3, true);
    assert_eq!(ids(&p), before);
    assert_eq!(sizes(&p), vec![(64, 64), (32, 32), (16, 16), (8, 8)]);
}

#[test]
fn size_change_recreates_all_slots() {
    let mut p = BlurPyramid::new(0);
    p.prepare(64, 64, 3, true);
    let before = ids(&p);
    p.prepare(128, 64, 3, true);
    let after = ids(&p);
    for id in &after {
        assert!(!before.contains(id));
    }
    assert_eq!(sizes(&p)[0], (128, 64));
}

#[test]
fn shared_output_recreates_all_slots() {
    let mut p = BlurPyramid::new(0);
    p.prepare(64, 64, 3, true);
    let before = ids(&p);
    p.prepare(64, 64, 3, false);
    let after = ids(&p);
    for id in &after {
        assert!(!before.contains(id));
    }
}

#[test]
fn pass_count_growth_creates_only_missing_slots() {
    let mut p = BlurPyramid::new(0);
    p.prepare(64, 64, 2, true);
    let before = ids(&p);
    assert_eq!(before.len(), 3);
    p.prepare(64, 64, 4, true);
    let after = ids(&p);
    assert_eq!(after.len(), 5);
    assert_eq!(&after[..3], &before[..]);
    assert!(!before.contains(&after[3]));
    assert!(!before.contains(&after[4]));
}

#[test]
fn pass_count_shrink_drops_trailing_slots() {
    let mut p = BlurPyramid::new(0);
    p.prepare(64, 64, 4, true);
    let before = ids(&p);
    p.prepare(64, 64, 2, true);
    assert_eq!(ids(&p), &before[..3]);
}

#[test]
fn render_schedule_orders_passes() {
    let mut p = BlurPyramid::new(9);
    p.prepare(100, 60, 2, true);
    let sched = p.render_schedule(9, 100, 60, 2, true).unwrap();
    assert_eq!(
        sched,
        vec![
            BlurPass {
                down: true,
                src: PassSource::Source,
                dst: 1,
                half_pixel_w: 50,
                half_pixel_h: 30,
            },
            BlurPass {
                down: true,
                src: PassSource::Entry(1),
                dst: 2,
                half_pixel_w: 25,
                half_pixel_h: 15,
            },
            BlurPass {
                down: false,
                src: PassSource::Entry(2),
                dst: 1,
                half_pixel_w: 25,
                half_pixel_h: 15,
            },
            BlurPass {
                down: false,
                src: PassSource::Entry(1),
                dst: 0,
                half_pixel_w: 50,
                half_pixel_h: 30,
            },
        ]
    );
}

#[test]
fn render_schedule_refuses_wrong_renderer() {
    let mut p = BlurPyramid::new(1);
    p.prepare(64, 64, 2, true);
    assert_eq!(
        p.render_schedule(2, 64, 64, 2, true),
        Err(BlurError::WrongRenderer)
    );
}

#[test]
fn render_schedule_refuses_wrong_slot_count() {
    let mut p = BlurPyramid::new(1);
    p.prepare(64, 64, 2, true);
    assert_eq!(
        p.render_schedule(1, 64, 64, 3, true),
        Err(BlurError::WrongTexturesLen)
    );
}

#[test]
fn render_schedule_refuses_wrong_output_size() {
    let mut p = BlurPyramid::new(1);
    p.prepare(64, 64, 2, true);
    assert_eq!(
        p.render_schedule(1, 32, 64, 2, true),
        Err(BlurError::WrongOutputSize)
    );
}

#[test]
fn render_schedule_refuses_shared_output() {
    let mut p = BlurPyramid::new(1);
    p.prepare(64, 64, 2, true);
    assert_eq!(
        p.render_schedule(1, 64, 64, 2, false),
        Err(BlurError::OutputNotUnique)
    );
}
