//! The per-surface background-effect state: which effects are enabled, the
//! configured defaults, and the damage flag that forces a full redraw when
//! either changes.
//!
//! Fractional settings (noise, saturation, blur offset) are carried as their
//! raw bit patterns plus the predicates the logic reads; the fractional
//! values themselves stay outside.

use vstd::prelude::*;

verus! {

/// A fractional effect setting: its raw bit pattern for change detection and
/// the two predicates the visibility logic reads.
#[derive(Clone, Copy, PartialEq, Eq, Structural, Debug)]
pub struct FractionSetting {
    /// The bit pattern of the configured value.
    pub bits: u64,
    /// Whether the value is greater than zero.
    pub positive: bool,
    /// Whether the value equals one.
    pub is_one: bool,
}

/// The per-surface effect options after applying the defaulting rules.
#[derive(Clone, Copy, PartialEq, Eq, Structural, Debug)]
pub struct Options {
    pub blur: bool,
    pub xray: bool,
    pub noise: Option<FractionSetting>,
    pub saturation: Option<FractionSetting>,
}

/// An effect is visible when it passes content through (x-ray), blurs, adds
/// noise, or shifts saturation away from one.
pub open spec fn options_visible(o: Options) -> bool {
    ||| o.xray
    ||| o.blur
    ||| (o.noise matches Some(n) && n.positive)
    ||| (o.saturation matches Some(s) && !s.is_one)
}

impl Options {
    /// Whether these options produce any visible effect.
    pub fn is_visible(&self) -> (r: bool)
        ensures
            r == options_visible(*self),
    {
        self.xray || self.blur || (match self.noise {
            Some(n) => n.positive,
            None => false,
        }) || (match self.saturation {
            Some(s) => !s.is_one,
            None => false,
        })
    }
}

/// The externally owned blur configuration, compared for change to decide
/// cache invalidation. Fractional fields are bit patterns.
#[derive(Clone, Copy, PartialEq, Eq, Structural, Debug)]
pub struct BlurConfig {
    pub off: bool,
    pub passes: u8,
    pub offset_bits: u64,
    pub noise_bits: u64,
    pub saturation_bits: u64,
}

/// The corner radii of the clip rectangle, as bit patterns, compared for
/// change to decide damage.
#[derive(Clone, Copy, PartialEq, Eq, Structural, Debug)]
pub struct CornerRadiusBits {
    pub top_left: u32,
    pub top_right: u32,
    pub bottom_right: u32,
    pub bottom_left: u32,
}

/// The options that follow from a surface's requested effect. A surface that
/// set an explicit blur region wants blur unless it said otherwise; one
/// without a region gets blur only on request. A visible effect without an
/// explicit x-ray choice defaults to x-ray, the cheaper path.
pub open spec fn computed_options(
    blur_req: Option<bool>,
    xray_req: Option<bool>,
    noise: Option<FractionSetting>,
    saturation: Option<FractionSetting>,
    has_blur_region: bool,
) -> Options {
    let blur = if has_blur_region {
        blur_req != Some(false)
    } else {
        blur_req == Some(true)
    };
    let base = Options { blur, xray: xray_req == Some(true), noise, saturation };
    if options_visible(base) && xray_req is None {
        Options { xray: true, ..base }
    } else {
        base
    }
}

/// Where a shader parameter's value comes from.
#[derive(Clone, Copy, PartialEq, Eq, Structural, Debug)]
pub enum ParamSource {
    /// The surface's own option value.
    FromOptions,
    /// The blur configuration's default.
    FromBlurConfig,
    /// The neutral value: zero noise, saturation one.
    Neutral,
}

/// What one frame of a visible effect renders with.
#[derive(Clone, Copy, PartialEq, Eq, Structural, Debug)]
pub struct RenderDecision {
    /// Render through the x-ray path.
    pub xray: bool,
    /// Blur the captured content.
    pub blur: bool,
    pub noise: ParamSource,
    pub saturation: ParamSource,
}

/// The background-effect state of one surface.
pub struct BackgroundEffect {
    /// Everything must be redrawn because options or radius changed.
    damage_all: bool,
    corner_radius: CornerRadiusBits,
    blur_config: BlurConfig,
    options: Options,
}

impl BackgroundEffect {
    /// The current options.
    pub closed spec fn spec_options(&self) -> Options {
        self.options
    }

    /// The current blur configuration.
    pub closed spec fn spec_blur_config(&self) -> BlurConfig {
        self.blur_config
    }

    /// The current corner radii.
    pub closed spec fn spec_corner_radius(&self) -> CornerRadiusBits {
        self.corner_radius
    }

    /// Whether a full redraw is owed.
    pub closed spec fn spec_damage_all(&self) -> bool {
        self.damage_all
    }

    /// A fresh state: no effect, neutral configuration, nothing to redraw.
    pub fn new() -> (r: BackgroundEffect)
        ensures
            r.spec_options() == (Options { blur: false, xray: false, noise: None, saturation: None }),
            r.spec_blur_config() == (BlurConfig {
                off: false,
                passes: 0,
                offset_bits: 0,
                noise_bits: 0,
                saturation_bits: 0,
            }),
            r.spec_corner_radius() == (CornerRadiusBits {
                top_left: 0,
                top_right: 0,
                bottom_right: 0,
                bottom_left: 0,
            }),
            !r.spec_damage_all(),
    {
        BackgroundEffect {
            damage_all: false,
            corner_radius: CornerRadiusBits {
                top_left: 0,
                top_right: 0,
                bottom_right: 0,
                bottom_left: 0,
            },
            blur_config: BlurConfig {
                off: false,
                passes: 0,
                offset_bits: 0,
                noise_bits: 0,
                saturation_bits: 0,
            },
            options: Options { blur: false, xray: false, noise: None, saturation: None },
        }
    }

    /// Adopts a new blur configuration, damaging everything exactly when it
    /// differs from the current one.
    pub fn update_config(&mut self, config: BlurConfig)
        ensures
            final(self).spec_blur_config() == config,
            final(self).spec_options() == old(self).spec_options(),
            final(self).spec_corner_radius() == old(self).spec_corner_radius(),
            final(self).spec_damage_all() == (old(self).spec_damage_all() || config != old(
                self,
            ).spec_blur_config()),
    {
        if self.blur_config == config {
            return ;
        }
        self.blur_config = config;
        self.damage_all = true;
    }

    /// Adopts the surface's requested effect and clip radii, applying the
    /// defaulting rules, and damages everything exactly when the outcome
    /// differs from the current state.
    pub fn update_render_elements(
        &mut self,
        corner_radius: CornerRadiusBits,
        blur_req: Option<bool>,
        xray_req: Option<bool>,
        noise: Option<FractionSetting>,
        saturation: Option<FractionSetting>,
        has_blur_region: bool,
    )
        ensures
            final(self).spec_options() == computed_options(
                blur_req,
                xray_req,
                noise,
                saturation,
                has_blur_region,
            ),
            final(self).spec_corner_radius() == corner_radius,
            final(self).spec_blur_config() == old(self).spec_blur_config(),
            final(self).spec_damage_all() == (old(self).spec_damage_all() || computed_options(
                blur_req,
                xray_req,
                noise,
                saturation,
                has_blur_region,
            ) != old(self).spec_options() || corner_radius != old(self).spec_corner_radius()),
    {
        let blur = if has_blur_region {
            blur_req != Some(false)
        } else {
            blur_req == Some(true)
        };
        let mut options = Options { blur, xray: xray_req == Some(true), noise, saturation };
        if options.is_visible() && xray_req.is_none() {
            options.xray = true;
        }
        if self.options == options && self.corner_radius == corner_radius {
            return ;
        }
        self.options = options;
        self.corner_radius = corner_radius;
        self.damage_all = true;
    }

    /// Whether the effect produces anything visible.
    pub fn is_visible(&self) -> (r: bool)
        ensures
            r == options_visible(self.spec_options()),
    {
        self.options.is_visible()
    }

    /// What a render of this effect does, or `None` when nothing is visible
    /// and no element is produced. Noise and saturation fall back to the blur
    /// configuration's defaults when blurred, and to the neutral values when
    /// not.
    pub fn render_decision(&self) -> (r: Option<RenderDecision>)
        ensures
            r is Some <==> options_visible(self.spec_options()),
            match r {
                Some(d) => {
                    &&& d.xray == self.spec_options().xray
                    &&& d.blur == (self.spec_options().blur && !self.spec_blur_config().off)
                    &&& d.noise == (if self.spec_options().noise is Some {
                        ParamSource::FromOptions
                    } else if self.spec_options().blur && !self.spec_blur_config().off {
                        ParamSource::FromBlurConfig
                    } else {
                        ParamSource::Neutral
                    })
                    &&& d.saturation == (if self.spec_options().saturation is Some {
                        ParamSource::FromOptions
                    } else if self.spec_options().blur && !self.spec_blur_config().off {
                        ParamSource::FromBlurConfig
                    } else {
                        ParamSource::Neutral
                    })
                },
                None => true,
            },
    {
        if !self.options.is_visible() {
            return None;
        }
        let blur = self.options.blur && !self.blur_config.off;
        let noise = if self.options.noise.is_some() {
            ParamSource::FromOptions
        } else if blur {
            ParamSource::FromBlurConfig
        } else {
            ParamSource::Neutral
        };
        let saturation = if self.options.saturation.is_some() {
            ParamSource::FromOptions
        } else if blur {
            ParamSource::FromBlurConfig
        } else {
            ParamSource::Neutral
        };
        Some(RenderDecision { xray: self.options.xray, blur, noise, saturation })
    }

    /// Whether a full redraw is owed; consuming it clears the flag.
    pub fn take_damage_all(&mut self) -> (r: bool)
        ensures
            r == old(self).spec_damage_all(),
            !final(self).spec_damage_all(),
            final(self).spec_options() == old(self).spec_options(),
            final(self).spec_blur_config() == old(self).spec_blur_config(),
            final(self).spec_corner_radius() == old(self).spec_corner_radius(),
    {
        let r = self.damage_all;
        self.damage_all = false;
        r
    }
}

} // verus!
