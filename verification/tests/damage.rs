use backdrop_blur::damage::{filter_damage, plan_element_draw};
use backdrop_blur::rect::Rect;

fn rect(x1: i32, y1: i32, x2: i32, y2: i32) -> Rect {
    Rect { x1, y1, x2, y2 }
}

#[test]
fn filter_keeps_only_overlapping_fragments() {
    let sub = vec![rect(0, 0, 10, 10), rect(20, 0, 30, 10)];
    let damage = vec![rect(5, 5, 25, 8), rect(40, 40, 50, 50)];
    let mut filtered = Vec::new();
    filter_damage(&sub, &damage, &mut filtered);
    assert_eq!(filtered, vec![rect(5, 5, 10, 8), rect(20, 5, 25, 8)]);
}

#[test]
fn filter_appends_and_preserves_existing_fragments() {
    // The output vector is a reusable scratch buffer: prior contents stay,
    // and the new fragments follow them.
    let sub = vec![rect(0, 0, 10, 10)];
    let damage = vec![rect(5, 5, 20, 20)];
    let mut filtered = vec![rect(100, 100, 110, 110)];
    filter_damage(&sub, &damage, &mut filtered);
    assert_eq!(filtered, vec![rect(100, 100, 110, 110), rect(5, 5, 10, 10)]);
}

#[test]
fn filter_with_empty_damage_leaves_buffer_untouched() {
    let sub = vec![rect(0, 0, 10, 10)];
    let damage: Vec<Rect> = Vec::new();
    let mut filtered = vec![rect(1, 2, 3, 4)];
    filter_damage(&sub, &damage, &mut filtered);
    assert_eq!(filtered, vec![rect(1, 2, 3, 4)]);
}

#[test]
fn filter_with_disjoint_damage_is_empty() {
    let sub = vec![rect(0, 0, 10, 10)];
    let damage = vec![rect(10, 0, 20, 10)];
    let mut filtered = Vec::new();
    filter_damage(&sub, &damage, &mut filtered);
    assert_eq!(filtered, vec![]);
}

#[test]
fn plan_passes_damage_through_when_unclamped() {
    let dst = rect(0, 0, 100, 100);
    let damage = vec![rect(10, 10, 20, 20)];
    let plan = plan_element_draw(&dst, 100, 100, None, &damage).unwrap();
    assert_eq!(plan.clamped_dst, dst);
    assert_eq!(plan.damage, damage);
}

#[test]
fn plan_skips_draw_on_empty_damage() {
    let dst = rect(0, 0, 100, 100);
    let damage: Vec<Rect> = Vec::new();
    assert!(plan_element_draw(&dst, 100, 100, None, &damage).is_none());
}

#[test]
fn plan_skips_draw_when_subregion_filters_everything() {
    let dst = rect(0, 0, 100, 100);
    let sub = vec![rect(0, 0, 10, 10)];
    let damage = vec![rect(50, 50, 60, 60)];
    assert!(plan_element_draw(&dst, 100, 100, Some(&sub), &damage).is_none());
}

#[test]
fn plan_skips_fully_offscreen_destination() {
    let dst = rect(200, 200, 300, 300);
    let damage = vec![rect(0, 0, 100, 100)];
    assert!(plan_element_draw(&dst, 100, 100, None, &damage).is_none());
}

#[test]
fn plan_clamps_destination_to_output_bounds() {
    // A destination partially outside the output keeps only the visible
    // window, and the damage is re-expressed relative to that window.
    let dst = rect(-5, -5, 15, 15);
    let damage = vec![rect(0, 0, 20, 20)];
    let plan = plan_element_draw(&dst, 10, 10, None, &damage).unwrap();
    assert_eq!(plan.clamped_dst, rect(0, 0, 10, 10));
    assert_eq!(plan.damage, vec![rect(0, 0, 10, 10)]);
}

#[test]
fn plan_translates_clamped_damage_fragments() {
    let dst = rect(-10, 0, 10, 10);
    // Only the right half of the destination is on the output. Damage in the
    // element's left half disappears; damage straddling the edge is cut and
    // shifted by the clamp offset.
    let damage = vec![rect(0, 0, 5, 10), rect(8, 2, 14, 6)];
    let plan = plan_element_draw(&dst, 100, 100, None, &damage).unwrap();
    assert_eq!(plan.clamped_dst, rect(0, 0, 10, 10));
    assert_eq!(plan.damage, vec![rect(0, 2, 4, 6)]);
}

#[test]
fn plan_combines_subregion_and_clamp() {
    let dst = rect(-10, 0, 10, 10);
    let sub = vec![rect(10, 0, 16, 10)];
    let damage = vec![rect(0, 0, 20, 10)];
    let plan = plan_element_draw(&dst, 100, 100, Some(&sub), &damage).unwrap();
    assert_eq!(plan.clamped_dst, rect(0, 0, 10, 10));
    assert_eq!(plan.damage, vec![rect(0, 0, 6, 10)]);
}
