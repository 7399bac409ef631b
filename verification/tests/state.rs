use backdrop_blur::effect_buffer::EffectBuffer;
use backdrop_blur::effect_capture::{ElementCapture, Intermediate};
use backdrop_blur::effect_state::{
    BackgroundEffect, BlurConfig, CornerRadiusBits, FractionSetting, Options, ParamSource,
};
use backdrop_blur::rect::Rect;
use backdrop_blur::region::RegionOp;
use backdrop_blur::region_cache::{
    resolve_requested_region, whole_surface_rect, LegacyRegion, RegionCache, RequestedRegion,
};

fn rect(x1: i32, y1: i32, x2: i32, y2: i32) -> Rect {
    Rect { x1, y1, x2, y2 }
}

fn fraction(value: f64) -> FractionSetting {
    FractionSetting {
        bits: value.to_bits(),
        positive: value > 0.0,
        is_one: value == 1.0,
    }
}

fn radius(r: f32) -> CornerRadiusBits {
    CornerRadiusBits {
        top_left: r.to_bits(),
        top_right: r.to_bits(),
        bottom_right: r.to_bits(),
        bottom_left: r.to_bits(),
    }
}

#[test]
fn cache_recomputes_only_when_dirty() {
    let mut cache = RegionCache::new();
    let request = RequestedRegion::Region(vec![(RegionOp::Add, rect(0, 0, 10, 10))]);

    // Clean cache: reading computes nothing.
    cache.refresh(&request);
    assert!(cache.cached_rects().is_none());

    // A request alone changes nothing until the commit.
    assert!(cache.mark_pending_dirty());
    cache.refresh(&request);
    assert!(cache.cached_rects().is_none());

    // After the commit the next read recomputes.
    cache.on_commit();
    cache.refresh(&request);
    assert_eq!(cache.cached_rects().unwrap(), &vec![rect(0, 0, 10, 10)]);

    // The hook is registered only once.
    assert!(!cache.mark_pending_dirty());
}

#[test]
fn cache_distinguishes_unset_from_empty() {
    let mut cache = RegionCache::new();
    cache.mark_pending_dirty();
    cache.on_commit();
    cache.refresh(&RequestedRegion::Region(vec![]));
    assert_eq!(cache.cached_rects().unwrap(), &Vec::<Rect>::new());

    cache.mark_pending_dirty();
    cache.on_commit();
    cache.refresh(&RequestedRegion::Unset);
    assert!(cache.cached_rects().is_none());
}

#[test]
fn cache_whole_surface_is_one_huge_rect() {
    let mut cache = RegionCache::new();
    cache.mark_pending_dirty();
    cache.on_commit();
    cache.refresh(&RequestedRegion::WholeSurface);
    assert_eq!(cache.cached_rects().unwrap(), &vec![whole_surface_rect()]);
    let r = whole_surface_rect();
    assert_eq!(r.x2 - r.x1, i32::MAX);
    assert_eq!(r.y2 - r.y1, i32::MAX);
}

#[test]
fn primary_protocol_wins_over_legacy() {
    // Primary state present without a region still overrides the legacy one.
    let r = resolve_requested_region(Some(None), Some(Some(LegacyRegion::WholeSurface)));
    assert!(matches!(r, RequestedRegion::Unset));
    let r = resolve_requested_region(None, Some(Some(LegacyRegion::WholeSurface)));
    assert!(matches!(r, RequestedRegion::WholeSurface));
    let ops = vec![(RegionOp::Add, rect(0, 0, 1, 1))];
    let r = resolve_requested_region(Some(Some(ops)), Some(Some(LegacyRegion::WholeSurface)));
    assert!(matches!(r, RequestedRegion::Region(_)));
    let r = resolve_requested_region(None, None);
    assert!(matches!(r, RequestedRegion::Unset));
}

#[test]
fn options_visibility() {
    let invisible = Options { blur: false, xray: false, noise: None, saturation: None };
    assert!(!invisible.is_visible());
    assert!(Options { blur: true, ..invisible }.is_visible());
    assert!(Options { xray: true, ..invisible }.is_visible());
    assert!(Options { noise: Some(fraction(0.2)), ..invisible }.is_visible());
    assert!(!Options { noise: Some(fraction(0.0)), ..invisible }.is_visible());
    assert!(Options { saturation: Some(fraction(0.5)), ..invisible }.is_visible());
    assert!(!Options { saturation: Some(fraction(1.0)), ..invisible }.is_visible());
}

#[test]
fn blur_region_defaults_blur_on() {
    let mut effect = BackgroundEffect::new();
    // With a blur region, blur defaults to on unless explicitly refused.
    effect.update_render_elements(radius(0.0), None, Some(false), None, None, true);
    assert!(effect.is_visible());
    let d = effect.render_decision().unwrap();
    assert!(d.blur && !d.xray);

    // Without a blur region, blur must be requested explicitly.
    effect.update_render_elements(radius(0.0), None, Some(false), None, None, false);
    assert!(!effect.is_visible());
    assert!(effect.render_decision().is_none());
}

#[test]
fn visible_effect_defaults_to_xray() {
    let mut effect = BackgroundEffect::new();
    effect.update_render_elements(radius(0.0), Some(true), None, None, None, false);
    let d = effect.render_decision().unwrap();
    assert!(d.xray, "an effect without an explicit x-ray choice uses the cheaper x-ray path");
}

#[test]
fn config_change_damages_everything() {
    let mut effect = BackgroundEffect::new();
    effect.take_damage_all();
    let config = BlurConfig {
        off: false,
        passes: 3,
        offset_bits: (4.0f64).to_bits(),
        noise_bits: (0.1f64).to_bits(),
        saturation_bits: (1.2f64).to_bits(),
    };
    effect.update_config(config);
    assert!(effect.take_damage_all());
    // The same configuration again damages nothing.
    effect.update_config(config);
    assert!(!effect.take_damage_all());
}

#[test]
fn radius_change_damages_everything() {
    let mut effect = BackgroundEffect::new();
    effect.update_render_elements(radius(8.0), Some(true), Some(true), None, None, false);
    effect.take_damage_all();
    effect.update_render_elements(radius(8.0), Some(true), Some(true), None, None, false);
    assert!(!effect.take_damage_all());
    effect.update_render_elements(radius(9.0), Some(true), Some(true), None, None, false);
    assert!(effect.take_damage_all());
}

#[test]
fn render_decision_falls_back_to_config_defaults() {
    let mut effect = BackgroundEffect::new();
    effect.update_render_elements(radius(0.0), Some(true), Some(true), None, None, false);
    let d = effect.render_decision().unwrap();
    assert_eq!(d.noise, ParamSource::FromBlurConfig);
    assert_eq!(d.saturation, ParamSource::FromBlurConfig);

    // Blur switched off in the configuration: neutral values.
    let mut config = BlurConfig {
        off: true,
        passes: 2,
        offset_bits: 0,
        noise_bits: 0,
        saturation_bits: 0,
    };
    effect.update_config(config);
    let d = effect.render_decision().unwrap();
    assert!(!d.blur);
    assert_eq!(d.noise, ParamSource::Neutral);
    assert_eq!(d.saturation, ParamSource::Neutral);

    // Explicit options win over both.
    config.off = false;
    effect.update_config(config);
    effect.update_render_elements(
        radius(0.0),
        Some(true),
        Some(true),
        Some(fraction(0.3)),
        Some(fraction(0.7)),
        false,
    );
    let d = effect.render_decision().unwrap();
    assert_eq!(d.noise, ParamSource::FromOptions);
    assert_eq!(d.saturation, ParamSource::FromOptions);
}

#[test]
fn effect_buffer_commit_rises_only_on_content_change() {
    let mut buffer = EffectBuffer::new();
    assert_eq!(buffer.commit(), 0);
    assert!(!buffer.render_available());

    // First capture.
    assert!(buffer.is_stale(1, false));
    assert!(buffer.prepare(1, false, true));
    let c1 = buffer.commit();
    assert!(buffer.render_available());

    // Same content, same blur: idempotent across the draws of one frame.
    assert!(!buffer.is_stale(1, false));
    assert!(buffer.prepare(1, false, true));
    assert_eq!(buffer.commit(), c1);

    // A blur toggle recaptures but the content did not change.
    assert!(buffer.prepare(1, true, true));
    assert_eq!(buffer.commit(), c1);

    // New content bumps the commit.
    assert!(buffer.prepare(2, true, true));
    assert!(buffer.commit() > c1);

    // A failed capture leaves the old capture available.
    let c2 = buffer.commit();
    assert!(buffer.prepare(3, true, false));
    assert_eq!(buffer.commit(), c2);
}

#[test]
fn element_capture_state_machine() {
    let mut cap = ElementCapture::new(true);
    assert!(cap.accepts_render(true));
    assert!(!cap.can_draw());

    // First capture allocates the texture.
    let t1 = cap.begin_capture(200, 100);
    cap.finish_capture(true, true);
    assert_eq!(cap.intermediate_kind(), Intermediate::Blurred);
    assert!(cap.can_draw());

    // Same size: the texture is reused; blur failure falls back to the raw
    // capture instead of skipping the frame.
    let t2 = cap.begin_capture(200, 100);
    assert!(!cap.can_draw());
    assert_eq!(t1, t2);
    cap.finish_capture(true, false);
    assert_eq!(cap.intermediate_kind(), Intermediate::Raw);
    assert!(cap.can_draw());

    // A size change recreates the texture.
    let t3 = cap.begin_capture(100, 50);
    assert_ne!(t1.id, t3.id);

    // Without the blur shader, an element that wants blur declines.
    let plain = ElementCapture::new(false);
    assert!(!plain.accepts_render(true));
    assert!(plain.accepts_render(false));
}
