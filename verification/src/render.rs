//! The FFmpeg side of a reel: the randomised background treatment, the
//! timing of the text layers, and the filter graph and arguments of the
//! FFmpeg run that composes the reel.
use vstd::prelude::*;
use rand::Rng;
use crate::text;
use crate::parser::{BlurStrength, Script};
use crate::parser;
use crate::overlay::{WIDTH, HEIGHT};

verus! {

// ---------------------------------------------------------------------------
// Randomness
// ---------------------------------------------------------------------------

#[verifier::external_type_specification]
#[verifier::external_body]
pub struct ExThreadRng(rand::rngs::ThreadRng);

/// `rand::thread_rng`: the generator of the current thread.
#[verifier::external_body]
fn thread_rng() -> rand::rngs::ThreadRng {
    rand::thread_rng()
}

/// `Rng::gen_range` on `lo..=hi`: some value in that range (it panics on an
/// empty range, which `requires` leaves out).
#[verifier::external_body]
fn roll(rng: &mut rand::rngs::ThreadRng, lo: u64, hi: u64) -> (r: u64)
    requires
        lo <= hi,
    ensures
        lo <= r <= hi,
{
    rng.gen_range(lo..=hi)
}

// ---------------------------------------------------------------------------
// Blur bands
// ---------------------------------------------------------------------------

/// A range of blur strengths (Gaussian sigma) with the matching range of
/// tint opacities, in percent.
#[derive(Clone, Copy, PartialEq, Eq, Structural)]
pub struct BlurBand {
    pub sigma_min: u32,
    pub sigma_max: u32,
    pub tint_min: u32,
    pub tint_max: u32,
}

pub open spec fn band(sigma_min: u32, sigma_max: u32, tint_min: u32, tint_max: u32) -> BlurBand {
    BlurBand { sigma_min, sigma_max, tint_min, tint_max }
}

pub fn light_band() -> (b: BlurBand)
    ensures
        b == band(3, 5, 18, 25),
{
    BlurBand { sigma_min: 3, sigma_max: 5, tint_min: 18, tint_max: 25 }
}

pub fn middle_band() -> (b: BlurBand)
    ensures
        b == band(6, 8, 26, 34),
{
    BlurBand { sigma_min: 6, sigma_max: 8, tint_min: 26, tint_max: 34 }
}

pub fn heavy_band() -> (b: BlurBand)
    ensures
        b == band(9, 12, 35, 42),
{
    BlurBand { sigma_min: 9, sigma_max: 12, tint_min: 35, tint_max: 42 }
}

/// The band of a roll in `0..100`: half of the rolls light, three in ten
/// middle, the rest heavy.
pub open spec fn band_of_roll(r: u64) -> BlurBand {
    if r < 50 {
        band(3, 5, 18, 25)
    } else if r < 80 {
        band(6, 8, 26, 34)
    } else {
        band(9, 12, 35, 42)
    }
}

pub fn band_for_roll(r: u64) -> (b: BlurBand)
    ensures
        b == band_of_roll(r),
{
    if r < 50 {
        light_band()
    } else if r < 80 {
        middle_band()
    } else {
        heavy_band()
    }
}

/// A band drawn at random, with the roll it came from.
fn random_band(rng: &mut rand::rngs::ThreadRng) -> (b: (BlurBand, u64))
    ensures
        b.1 < 100,
        b.0 == band_of_roll(b.1),
{
    let r = roll(rng, 0, 99);
    (band_for_roll(r), r)
}

fn random_sigma_in_band(rng: &mut rand::rngs::ThreadRng, b: BlurBand) -> (s: u32)
    requires
        b.sigma_min <= b.sigma_max,
    ensures
        b.sigma_min <= s <= b.sigma_max,
{
    roll(rng, b.sigma_min as u64, b.sigma_max as u64) as u32
}

fn random_opacity_in_band(rng: &mut rand::rngs::ThreadRng, b: BlurBand) -> (t: u32)
    requires
        b.tint_min <= b.tint_max,
    ensures
        b.tint_min <= t <= b.tint_max,
{
    roll(rng, b.tint_min as u64, b.tint_max as u64) as u32
}

/// FFmpeg steps for a sigma: 1 up to 5, 2 up to 8, 3 above.
pub open spec fn blur_steps(sigma: u32) -> nat {
    if sigma <= 5 {
        1
    } else if sigma <= 8 {
        2
    } else {
        3
    }
}

/// `gblur=sigma=<sigma>:steps=<steps>`
pub open spec fn blur_filter_text(sigma: u32) -> Seq<char> {
    "gblur=sigma="@ + text::decimal(sigma as nat) + ":steps="@ + text::decimal(blur_steps(sigma))
}

fn push_blur_filter(v: &mut Vec<char>, sigma: u32)
    ensures
        final(v)@ == old(v)@ + blur_filter_text(sigma),
{
    let steps: u128 = if sigma <= 5 {
        1
    } else if sigma <= 8 {
        2
    } else {
        3
    };
    text::push_str(v, "gblur=sigma=");
    text::push_decimal(v, sigma as u128);
    text::push_str(v, ":steps=");
    text::push_decimal(v, steps);
    assert(v@ =~= old(v)@ + blur_filter_text(sigma));
}

/// The FFmpeg Gaussian blur filter for a sigma.
pub fn blur_filter_for_sigma(sigma: u32) -> (r: String)
    ensures
        r@ == blur_filter_text(sigma),
{
    let mut v: Vec<char> = Vec::new();
    push_blur_filter(&mut v, sigma);
    assert(v@ =~= blur_filter_text(sigma));
    text::string_of(&v)
}


// ---------------------------------------------------------------------------
// Background treatments
// ---------------------------------------------------------------------------

#[derive(Clone, Copy, PartialEq, Eq, Structural)]
pub enum BackgroundVariant {
    Normal,
    TintOnly,
    GradientTint,
    CardOverlay,
}

/// How the background of a reel is treated: an optional blur, a black tint
/// over everything (or over the upper part, with a second tint below, for the
/// gradient), and for the card variant a darker card behind the text.
/// Opacities are in percent.
#[derive(Clone, Copy, PartialEq, Eq, Structural)]
pub struct BackgroundTreatment {
    pub variant: BackgroundVariant,
    pub blur_sigma: Option<u32>,
    pub tint_percent: u32,
    pub secondary_tint_percent: u32,
    pub card_percent: u32,
}

pub open spec fn max_u32(a: u32, b: u32) -> u32 {
    if a >= b {
        a
    } else {
        b
    }
}

/// `tint - off`, but at least `floor`.
pub open spec fn lowered(tint: u32, off: u32, floor: u32) -> u32 {
    if tint >= off {
        max_u32((tint - off) as u32, floor)
    } else {
        floor
    }
}

/// `tint + off`, but at most 48.
pub open spec fn raised(tint: u32, off: u32) -> u32 {
    if tint + off <= 48 {
        (tint + off) as u32
    } else {
        48
    }
}

/// The treatment that given draws select. `variant_roll` is in `0..100`;
/// `sigma` and `tint` were drawn in the band (for the plain tint without
/// blur, `tint` was drawn in `18..=42`); `card` in `12..=22`.
pub open spec fn treatment_of(
    blur: BlurStrength,
    variant_roll: u64,
    sigma: u32,
    tint: u32,
    card: u32,
) -> BackgroundTreatment {
    if blur == BlurStrength::Off {
        if variant_roll < 10 {
            BackgroundTreatment {
                variant: BackgroundVariant::TintOnly,
                blur_sigma: None,
                tint_percent: tint,
                secondary_tint_percent: 0,
                card_percent: 0,
            }
        } else if variant_roll < 20 {
            BackgroundTreatment {
                variant: BackgroundVariant::GradientTint,
                blur_sigma: Some(sigma),
                tint_percent: lowered(tint, 6, 12),
                secondary_tint_percent: raised(tint, 9),
                card_percent: 0,
            }
        } else if variant_roll < 30 {
            BackgroundTreatment {
                variant: BackgroundVariant::CardOverlay,
                blur_sigma: Some(sigma),
                tint_percent: lowered(tint, 10, 10),
                secondary_tint_percent: 0,
                card_percent: card,
            }
        } else {
            BackgroundTreatment {
                variant: BackgroundVariant::Normal,
                blur_sigma: Some(sigma),
                tint_percent: tint,
                secondary_tint_percent: 0,
                card_percent: 0,
            }
        }
    } else {
        if variant_roll < 12 {
            BackgroundTreatment {
                variant: BackgroundVariant::GradientTint,
                blur_sigma: Some(sigma),
                tint_percent: lowered(tint, 5, 12),
                secondary_tint_percent: raised(tint, 7),
                card_percent: 0,
            }
        } else if variant_roll < 24 {
            BackgroundTreatment {
                variant: BackgroundVariant::CardOverlay,
                blur_sigma: Some(sigma),
                tint_percent: lowered(tint, 8, 10),
                secondary_tint_percent: 0,
                card_percent: card,
            }
        } else {
            BackgroundTreatment {
                variant: BackgroundVariant::Normal,
                blur_sigma: Some(sigma),
                tint_percent: tint,
                secondary_tint_percent: 0,
                card_percent: 0,
            }
        }
    }
}

/// The band a chosen blur strength draws from; without blur, the band is
/// itself drawn from `band_roll`.
pub open spec fn band_of_strength(blur: BlurStrength, band_roll: u64) -> BlurBand {
    match blur {
        BlurStrength::Light => band(3, 5, 18, 25),
        BlurStrength::Middle => band(6, 8, 26, 34),
        BlurStrength::Heavy => band(9, 12, 35, 42),
        BlurStrength::Off => band_of_roll(band_roll),
    }
}

/// Draws that the treatment of a blur strength can be made of.
pub open spec fn valid_draws(
    blur: BlurStrength,
    variant_roll: u64,
    band_roll: u64,
    sigma: u32,
    tint: u32,
    card: u32,
) -> bool {
    let b = band_of_strength(blur, band_roll);
    &&& variant_roll < 100
    &&& band_roll < 100
    &&& 12 <= card <= 22
    &&& if blur == BlurStrength::Off && variant_roll < 10 {
        18 <= tint <= 42
    } else {
        b.sigma_min <= sigma <= b.sigma_max && b.tint_min <= tint <= b.tint_max
    }
}

/// A treatment that `choose_background_treatment` can return.
pub open spec fn possible_treatment(blur: BlurStrength, t: BackgroundTreatment) -> bool {
    exists|variant_roll: u64, band_roll: u64, sigma: u32, tint: u32, card: u32|
        valid_draws(blur, variant_roll, band_roll, sigma, tint, card) && t == treatment_of(
            blur,
            variant_roll,
            sigma,
            tint,
            card,
        )
}

/// The treatment for given draws.
pub fn treatment_from_draws(
    blur: BlurStrength,
    variant_roll: u64,
    sigma: u32,
    tint: u32,
    card: u32,
) -> (t: BackgroundTreatment)
    ensures
        t == treatment_of(blur, variant_roll, sigma, tint, card),
{
    let lower = |off: u32, floor: u32| -> (r: u32)
        ensures
            r == lowered(tint, off, floor),
        {
            if tint >= off {
                let d = tint - off;
                if d >= floor {
                    d
                } else {
                    floor
                }
            } else {
                floor
            }
        };
    let raise = |off: u32| -> (r: u32)
        requires
            off <= 48,
        ensures
            r == raised(tint, off),
        {
            if tint <= 48 - off {
                tint + off
            } else {
                48
            }
        };
    if blur == BlurStrength::Off {
        if variant_roll < 10 {
            BackgroundTreatment {
                variant: BackgroundVariant::TintOnly,
                blur_sigma: None,
                tint_percent: tint,
                secondary_tint_percent: 0,
                card_percent: 0,
            }
        } else if variant_roll < 20 {
            BackgroundTreatment {
                variant: BackgroundVariant::GradientTint,
                blur_sigma: Some(sigma),
                tint_percent: lower(6, 12),
                secondary_tint_percent: raise(9),
                card_percent: 0,
            }
        } else if variant_roll < 30 {
            BackgroundTreatment {
                variant: BackgroundVariant::CardOverlay,
                blur_sigma: Some(sigma),
                tint_percent: lower(10, 10),
                secondary_tint_percent: 0,
                card_percent: card,
            }
        } else {
            BackgroundTreatment {
                variant: BackgroundVariant::Normal,
                blur_sigma: Some(sigma),
                tint_percent: tint,
                secondary_tint_percent: 0,
                card_percent: 0,
            }
        }
    } else {
        if variant_roll < 12 {
            BackgroundTreatment {
                variant: BackgroundVariant::GradientTint,
                blur_sigma: Some(sigma),
                tint_percent: lower(5, 12),
                secondary_tint_percent: raise(7),
                card_percent: 0,
            }
        } else if variant_roll < 24 {
            BackgroundTreatment {
                variant: BackgroundVariant::CardOverlay,
                blur_sigma: Some(sigma),
                tint_percent: lower(8, 10),
                secondary_tint_percent: 0,
                card_percent: card,
            }
        } else {
            BackgroundTreatment {
                variant: BackgroundVariant::Normal,
                blur_sigma: Some(sigma),
                tint_percent: tint,
                secondary_tint_percent: 0,
                card_percent: 0,
            }
        }
    }
}

/// Draws a background treatment for a blur strength: without blur, one reel
/// in ten gets a plain tint and the others a blur from a random band; with a
/// chosen strength, the blur comes from that strength's band. Some reels get
/// the gradient or the card variant.
pub fn choose_background_treatment(blur_strength: BlurStrength) -> (t: BackgroundTreatment)
    ensures
        possible_treatment(blur_strength, t),
{
    let mut rng = thread_rng();
    let card: u32 = 12;
    if blur_strength == BlurStrength::Off {
        let variant_roll = roll(&mut rng, 0, 99);
        if variant_roll < 10 {
            let tint = roll(&mut rng, 18, 42) as u32;
            let t = treatment_from_draws(blur_strength, variant_roll, 3, tint, card);
            assert(valid_draws(blur_strength, variant_roll, 0, 3, tint, card));
            return t;
        }
        let (b, band_roll) = random_band(&mut rng);
        let sigma = random_sigma_in_band(&mut rng, b);
        let tint = random_opacity_in_band(&mut rng, b);
        let card = if 20 <= variant_roll && variant_roll < 30 {
            roll(&mut rng, 12, 22) as u32
        } else {
            card
        };
        let t = treatment_from_draws(blur_strength, variant_roll, sigma, tint, card);
        assert(valid_draws(blur_strength, variant_roll, band_roll, sigma, tint, card));
        t
    } else {
        let b = match blur_strength {
            BlurStrength::Light => light_band(),
            BlurStrength::Middle => middle_band(),
            _ => heavy_band(),
        };
        let variant_roll = roll(&mut rng, 0, 99);
        let sigma = random_sigma_in_band(&mut rng, b);
        let tint = random_opacity_in_band(&mut rng, b);
        let card = if 12 <= variant_roll && variant_roll < 24 {
            roll(&mut rng, 12, 22) as u32
        } else {
            card
        };
        let t = treatment_from_draws(blur_strength, variant_roll, sigma, tint, card);
        assert(valid_draws(blur_strength, variant_roll, 0, sigma, tint, card));
        t
    }
}


// ---------------------------------------------------------------------------
// Number formatting
// ---------------------------------------------------------------------------

/// A percentage as a fraction with two decimals (`{:.2}` of `p / 100`).
pub open spec fn fraction_text(p: nat) -> Seq<char> {
    text::decimal(p / 100) + "."@ + text::padded(p % 100, 2)
}

fn push_fraction(v: &mut Vec<char>, p: u32)
    ensures
        final(v)@ == old(v)@ + fraction_text(p as nat),
{
    text::push_decimal(v, (p / 100) as u128);
    text::push_str(v, ".");
    text::push_padded(v, (p % 100) as u128, 2);
    assert(v@ =~= old(v)@ + fraction_text(p as nat));
}

/// Microseconds rounded to whole milliseconds, a tie going to the even
/// millisecond (how `{:.3}` rounds).
pub open spec fn rounded_ms(us: nat) -> nat {
    let ms = us / 1000;
    let rem = us % 1000;
    if rem > 500 || (rem == 500 && ms % 2 == 1) {
        ms + 1
    } else {
        ms
    }
}

/// Microseconds as seconds with three decimals (`{:.3}`).
pub open spec fn seconds3_text(us: nat) -> Seq<char> {
    let ms = rounded_ms(us);
    text::decimal(ms / 1000) + "."@ + text::padded(ms % 1000, 3)
}

fn push_seconds3(v: &mut Vec<char>, us: u128)
    ensures
        final(v)@ == old(v)@ + seconds3_text(us as nat),
{
    let whole = us / 1000;
    let rem = us % 1000;
    let ms: u128 = if rem > 500 || (rem == 500 && whole % 2 == 1) {
        whole + 1
    } else {
        whole
    };
    text::push_decimal(v, ms / 1000);
    text::push_str(v, ".");
    text::push_padded(v, ms % 1000, 3);
    assert(v@ =~= old(v)@ + seconds3_text(us as nat));
}

/// The `width` fraction digits of `f`, trailing zeros dropped (at least one
/// digit kept).
pub open spec fn fraction_digits(f: nat, width: nat) -> Seq<char>
    decreases width,
{
    if width > 1 && f % 10 == 0 {
        fraction_digits(f / 10, (width - 1) as nat)
    } else {
        text::padded(f, width)
    }
}

/// Microseconds as seconds in the shortest decimal form: `14`, `12.5`,
/// `12.3456`.
pub open spec fn seconds_text(us: nat) -> Seq<char> {
    if us % 1000000 == 0 {
        text::decimal(us / 1000000)
    } else {
        text::decimal(us / 1000000) + "."@ + fraction_digits(us % 1000000, 6)
    }
}

fn push_seconds(v: &mut Vec<char>, us: u128)
    ensures
        final(v)@ == old(v)@ + seconds_text(us as nat),
{
    text::push_decimal(v, us / 1000000);
    let f0 = us % 1000000;
    if f0 != 0 {
        text::push_str(v, ".");
        let mut f = f0;
        let mut w: u64 = 6;
        while w > 1 && f % 10 == 0
            invariant
                1 <= w <= 6,
                fraction_digits(f as nat, w as nat) == fraction_digits(f0 as nat, 6),
            decreases w,
        {
            f = f / 10;
            w = w - 1;
        }
        text::push_padded(v, f, w);
    }
    assert(v@ =~= old(v)@ + seconds_text(us as nat));
}

pub fn seconds_string(us: u128) -> (r: String)
    ensures
        r@ == seconds_text(us as nat),
{
    let mut v: Vec<char> = Vec::new();
    push_seconds(&mut v, us);
    assert(v@ =~= seconds_text(us as nat));
    text::string_of(&v)
}

// ---------------------------------------------------------------------------
// Background filter chain
// ---------------------------------------------------------------------------

/// A black box over the whole frame.
pub open spec fn full_tint_text(p: u32) -> Seq<char> {
    ",drawbox=t=fill:color=black@"@ + fraction_text(p as nat)
}

/// A black box at a position.
pub open spec fn box_text(x: nat, y: nat, w: nat, h: nat, p: u32) -> Seq<char> {
    ",drawbox=x="@ + text::decimal(x) + ":y="@ + text::decimal(y) + ":w="@ + text::decimal(w)
        + ":h="@ + text::decimal(h) + ":t=fill:color=black@"@ + fraction_text(p as nat)
}

/// The filters that a treatment appends to the background chain: the blur if
/// any, then the tint boxes of its variant. The gradient splits the frame at
/// eleven twentieths of its height.
pub open spec fn treatment_text(t: BackgroundTreatment) -> Seq<char> {
    let blur = match t.blur_sigma {
        Some(s) => ","@ + blur_filter_text(s),
        None => seq![],
    };
    let split_y: nat = (HEIGHT * 11 / 20) as nat;
    blur + match t.variant {
        BackgroundVariant::Normal | BackgroundVariant::TintOnly => full_tint_text(t.tint_percent),
        BackgroundVariant::GradientTint => box_text(0, 0, WIDTH as nat, split_y, t.tint_percent)
            + box_text(0, split_y, WIDTH as nat, (HEIGHT - split_y) as nat, t.secondary_tint_percent),
        BackgroundVariant::CardOverlay => full_tint_text(t.tint_percent) + box_text(
            70,
            240,
            (WIDTH - 140) as nat,
            (HEIGHT - 480) as nat,
            t.card_percent,
        ),
    }
}

fn push_box(v: &mut Vec<char>, x: u32, y: u32, w: u32, h: u32, p: u32)
    ensures
        final(v)@ == old(v)@ + box_text(x as nat, y as nat, w as nat, h as nat, p),
{
    text::push_str(v, ",drawbox=x=");
    text::push_decimal(v, x as u128);
    text::push_str(v, ":y=");
    text::push_decimal(v, y as u128);
    text::push_str(v, ":w=");
    text::push_decimal(v, w as u128);
    text::push_str(v, ":h=");
    text::push_decimal(v, h as u128);
    text::push_str(v, ":t=fill:color=black@");
    push_fraction(v, p);
    assert(v@ =~= old(v)@ + box_text(x as nat, y as nat, w as nat, h as nat, p));
}

fn push_full_tint(v: &mut Vec<char>, p: u32)
    ensures
        final(v)@ == old(v)@ + full_tint_text(p),
{
    text::push_str(v, ",drawbox=t=fill:color=black@");
    push_fraction(v, p);
    assert(v@ =~= old(v)@ + full_tint_text(p));
}

fn push_treatment(v: &mut Vec<char>, t: BackgroundTreatment)
    ensures
        final(v)@ == old(v)@ + treatment_text(t),
{
    let ghost start = v@;
    match t.blur_sigma {
        Some(sigma) => {
            text::push_str(v, ",");
            push_blur_filter(v, sigma);
        },
        None => {},
    }
    let ghost mid = v@;
    match t.variant {
        BackgroundVariant::Normal | BackgroundVariant::TintOnly => {
            push_full_tint(v, t.tint_percent);
        },
        BackgroundVariant::GradientTint => {
            let split_y = HEIGHT * 11 / 20;
            let bottom_height = HEIGHT - split_y;
            push_box(v, 0, 0, WIDTH, split_y, t.tint_percent);
            push_box(v, 0, split_y, WIDTH, bottom_height, t.secondary_tint_percent);
        },
        BackgroundVariant::CardOverlay => {
            push_full_tint(v, t.tint_percent);
            push_box(v, 70, 240, WIDTH - 140, HEIGHT - 480, t.card_percent);
        },
    }
    assert(v@ =~= start + treatment_text(t));
}

/// Appends the treatment's filters to a filter chain.
pub fn apply_background_treatment(base_chain: &mut String, treatment: BackgroundTreatment)
    ensures
        final(base_chain)@ == old(base_chain)@ + treatment_text(treatment),
{
    let mut v = text::chars_of(base_chain.as_str());
    push_treatment(&mut v, treatment);
    *base_chain = text::string_of(&v);
}


// ---------------------------------------------------------------------------
// When each layer appears
// ---------------------------------------------------------------------------

/// The time between two layer reveals, in microseconds.
pub open spec fn reveal_step() -> nat {
    2500000
}

/// Pause markers before point `i` (none when the script lacks the count).
pub open spec fn pauses_before(s: parser::ScriptView, i: int) -> nat {
    if 0 <= i < s.point_pause_counts_before.len() {
        s.point_pause_counts_before[i] as nat
    } else {
        0
    }
}

/// The wait after layer `k` is revealed: one step after the title; before
/// point `i`, one step more per pause marker; after the points, one step
/// more per pause marker before the call to action.
pub open spec fn wait_after(s: parser::ScriptView, k: nat) -> nat {
    if k == 0 {
        reveal_step()
    } else if k - 1 < s.points.len() {
        reveal_step() * (1 + pauses_before(s, k - 1))
    } else {
        reveal_step() * (1 + s.cta_pause_count_before as nat)
    }
}

/// The time at which layer `k` appears, when layers come one by one.
pub open spec fn staggered_start(s: parser::ScriptView, k: nat) -> nat
    decreases k,
{
    if k == 0 {
        0
    } else {
        staggered_start(s, (k - 1) as nat) + wait_after(s, (k - 1) as nat)
    }
}

/// The reveal time of layer `k`: all at zero when the script shows
/// everything at once.
pub open spec fn reveal_start(s: parser::ScriptView, k: nat) -> nat {
    if s.all_at_once {
        0
    } else {
        staggered_start(s, k)
    }
}

pub open spec fn max_wait() -> nat {
    2500000 * 4294967296
}

proof fn lemma_wait_bound(s: parser::ScriptView, k: nat)
    ensures
        wait_after(s, k) <= max_wait(),
{
}

proof fn lemma_start_bound(s: parser::ScriptView, k: nat)
    ensures
        staggered_start(s, k) <= k * max_wait(),
    decreases k,
{
    if k > 0 {
        lemma_start_bound(s, (k - 1) as nat);
        lemma_wait_bound(s, (k - 1) as nat);
        let m = max_wait();
        assert(k * m == (k - 1) * m + m) by (nonlinear_arith)
            requires
                k > 0,
        ;
    }
}

/// The reveal time of each of `overlay_count` layers, in microseconds.
pub fn build_reveal_starts(script: &Script, overlay_count: usize) -> (r: Vec<u128>)
    ensures
        r.len() == overlay_count,
        forall|k: int| 0 <= k < overlay_count ==> r@[k] as nat == reveal_start(script@, k as nat),
{
    let mut r: Vec<u128> = Vec::new();
    if script.all_at_once {
        let mut k: usize = 0;
        while k < overlay_count
            invariant
                k <= overlay_count,
                r.len() == k,
                script@.all_at_once,
                forall|j: int| 0 <= j < k ==> r@[j] == 0,
            decreases overlay_count - k,
        {
            r.push(0);
            k += 1;
        }
        return r;
    }
    let mut current: u128 = 0;
    let mut k: usize = 0;
    while k < overlay_count
        invariant
            k <= overlay_count,
            r.len() == k,
            !script@.all_at_once,
            current as nat == staggered_start(script@, k as nat),
            forall|j: int| 0 <= j < k ==> r@[j] as nat == reveal_start(script@, j as nat),
        decreases overlay_count - k,
    {
        r.push(current);
        proof {
            lemma_start_bound(script@, (k + 1) as nat);
            assert((k + 1) * max_wait() <= 18446744073709551616 * max_wait()) by (nonlinear_arith)
                requires
                    k + 1 <= 18446744073709551616,
            ;
        }
        let wait: u128 = if k == 0 {
            2500000
        } else if k - 1 < script.points.len() {
            let pauses: u32 = if k - 1 < script.point_pause_counts_before.len() {
                script.point_pause_counts_before[k - 1]
            } else {
                0
            };
            2500000 * (1 + pauses as u128)
        } else {
            2500000 * (1 + script.cta_pause_count_before as u128)
        };
        current = current + wait;
        k += 1;
    }
    r
}

// ---------------------------------------------------------------------------
// The filter graph
// ---------------------------------------------------------------------------

pub open spec fn faded_label(i: nat) -> Seq<char> {
    "ovr_faded_"@ + text::decimal(i)
}

pub open spec fn next_label(i: nat) -> Seq<char> {
    "bg_next_"@ + text::decimal(i)
}

/// The stream that overlay `i` is laid onto: the background for the first,
/// the previous result for the others.
pub open spec fn input_label(i: nat) -> Seq<char> {
    if i == 0 {
        "[bg]"@
    } else {
        "["@ + next_label((i - 1) as nat) + "]"@
    }
}

/// The background chain: the scaled and cropped video, or the black canvas,
/// then the treatment.
pub open spec fn background_chain_text(has_video: bool, t: BackgroundTreatment) -> Seq<char> {
    let head = if has_video {
        "[0:v]scale=w="@ + text::decimal(WIDTH as nat) + ":h="@ + text::decimal(HEIGHT as nat)
            + ":force_original_aspect_ratio=increase,crop="@ + text::decimal(WIDTH as nat) + ":"@
            + text::decimal(HEIGHT as nat)
    } else {
        "[0:v]null"@
    };
    head + treatment_text(t) + "[bg]"@
}

/// The input filter of overlay `i`: unchanged for the title or when all text
/// shows at once, otherwise a 0.1 s fade-in at its reveal time.
pub open spec fn fade_filter_text(i: nat, start: nat, all_at_once: bool) -> Seq<char> {
    if i == 0 || all_at_once {
        "["@ + text::decimal(i + 1) + ":v]null["@ + faded_label(i) + "]"@
    } else {
        "["@ + text::decimal(i + 1) + ":v]fade=t=in:st="@ + seconds3_text(start) + ":d=0.1:alpha=1["@
            + faded_label(i) + "]"@
    }
}

/// The overlay filter of layer `i`: laid onto the previous stream, enabled
/// from its reveal time on unless it is the title or all text shows at once.
pub open spec fn overlay_filter_text(i: nat, start: nat, all_at_once: bool) -> Seq<char> {
    let enable = if i > 0 && !all_at_once {
        ":enable='gte(t,"@ + seconds3_text(start) + ")'"@
    } else {
        seq![]
    };
    input_label(i) + "["@ + faded_label(i) + "]overlay=0:0"@ + enable + "["@ + next_label(i) + "]"@
}

/// The filters of the graph: the background chain, then for each layer its
/// fade filter and its overlay filter.
pub open spec fn filter_list(has_video: bool, t: BackgroundTreatment, s: parser::ScriptView, n: nat) -> Seq<Seq<char>> {
    Seq::new(
        1 + 2 * n,
        |k: int|
            if k == 0 {
                background_chain_text(has_video, t)
            } else if k % 2 == 1 {
                fade_filter_text(((k - 1) / 2) as nat, reveal_start(s, ((k - 1) / 2) as nat), s.all_at_once)
            } else {
                overlay_filter_text(((k - 2) / 2) as nat, reveal_start(s, ((k - 2) / 2) as nat), s.all_at_once)
            },
    )
}

/// The stream that holds the finished picture.
pub open spec fn final_label(n: nat) -> Seq<char> {
    input_label(n)
}

fn push_label(v: &mut Vec<char>, prefix: &str, i: usize)
    ensures
        final(v)@ == old(v)@ + prefix@ + text::decimal(i as nat),
{
    text::push_str(v, prefix);
    text::push_decimal(v, i as u128);
    assert(v@ =~= old(v)@ + prefix@ + text::decimal(i as nat));
}

fn input_label_exec(i: usize) -> (r: Vec<char>)
    ensures
        r@ == input_label(i as nat),
{
    let mut v: Vec<char> = Vec::new();
    if i == 0 {
        text::push_str(&mut v, "[bg]");
    } else {
        text::push_str(&mut v, "[");
        push_label(&mut v, "bg_next_", i - 1);
        text::push_str(&mut v, "]");
    }
    assert(v@ =~= input_label(i as nat));
    v
}

fn background_chain(has_video: bool, t: BackgroundTreatment) -> (r: Vec<char>)
    ensures
        r@ == background_chain_text(has_video, t),
{
    let mut v: Vec<char> = Vec::new();
    if has_video {
        text::push_str(&mut v, "[0:v]scale=w=");
        text::push_decimal(&mut v, WIDTH as u128);
        text::push_str(&mut v, ":h=");
        text::push_decimal(&mut v, HEIGHT as u128);
        text::push_str(&mut v, ":force_original_aspect_ratio=increase,crop=");
        text::push_decimal(&mut v, WIDTH as u128);
        text::push_str(&mut v, ":");
        text::push_decimal(&mut v, HEIGHT as u128);
    } else {
        text::push_str(&mut v, "[0:v]null");
    }
    push_treatment(&mut v, t);
    text::push_str(&mut v, "[bg]");
    assert(v@ =~= background_chain_text(has_video, t));
    v
}

fn fade_filter(i: usize, start: u128, all_at_once: bool) -> (r: Vec<char>)
    ensures
        r@ == fade_filter_text(i as nat, start as nat, all_at_once),
{
    let mut v: Vec<char> = Vec::new();
    text::push_str(&mut v, "[");
    text::push_decimal(&mut v, (i as u128) + 1);
    if i == 0 || all_at_once {
        text::push_str(&mut v, ":v]null[");
    } else {
        text::push_str(&mut v, ":v]fade=t=in:st=");
        push_seconds3(&mut v, start);
        text::push_str(&mut v, ":d=0.1:alpha=1[");
    }
    push_label(&mut v, "ovr_faded_", i);
    text::push_str(&mut v, "]");
    assert(v@ =~= fade_filter_text(i as nat, start as nat, all_at_once));
    v
}

fn overlay_filter(i: usize, start: u128, all_at_once: bool) -> (r: Vec<char>)
    ensures
        r@ == overlay_filter_text(i as nat, start as nat, all_at_once),
{
    let mut v = input_label_exec(i);
    text::push_str(&mut v, "[");
    push_label(&mut v, "ovr_faded_", i);
    text::push_str(&mut v, "]overlay=0:0");
    let ghost mid = v@;
    if i > 0 && !all_at_once {
        text::push_str(&mut v, ":enable='gte(t,");
        push_seconds3(&mut v, start);
        text::push_str(&mut v, ")'");
    }
    text::push_str(&mut v, "[");
    push_label(&mut v, "bg_next_", i);
    text::push_str(&mut v, "]");
    assert(v@ =~= overlay_filter_text(i as nat, start as nat, all_at_once));
    v
}

/// The filters of the graph for a script with `overlay_count` layers.
pub fn build_filters(
    script: &Script,
    has_video: bool,
    treatment: BackgroundTreatment,
    overlay_count: usize,
) -> (r: Vec<Vec<char>>)
    ensures
        text::views(r@) == filter_list(has_video, treatment, script@, overlay_count as nat),
{
    let starts = build_reveal_starts(script, overlay_count);
    let mut r: Vec<Vec<char>> = Vec::new();
    r.push(background_chain(has_video, treatment));
    let ghost full = filter_list(has_video, treatment, script@, overlay_count as nat);
    let mut i: usize = 0;
    while i < overlay_count
        invariant
            i <= overlay_count,
            starts.len() == overlay_count,
            forall|k: int| 0 <= k < overlay_count ==> starts@[k] as nat == reveal_start(script@, k as nat),
            full == filter_list(has_video, treatment, script@, overlay_count as nat),
            r.len() == 1 + 2 * i,
            forall|k: int| 0 <= k < r.len() ==> #[trigger] r@[k]@ == full[k],
        decreases overlay_count - i,
    {
        let f = fade_filter(i, starts[i], script.all_at_once);
        r.push(f);
        let o = overlay_filter(i, starts[i], script.all_at_once);
        r.push(o);
        assert(full[2 * i + 1] == fade_filter_text(i as nat, reveal_start(script@, i as nat), script@.all_at_once));
        assert(full[2 * i + 2] == overlay_filter_text(i as nat, reveal_start(script@, i as nat), script@.all_at_once));
        i += 1;
    }
    assert(text::views(r@) =~= full);
    r
}


// ---------------------------------------------------------------------------
// The FFmpeg command
// ---------------------------------------------------------------------------

/// The media file of a reel: its own if it names one, otherwise the pool
/// entry at its index (wrapping around), if the pool has any.
pub open spec fn chosen_media(own: Option<Seq<char>>, pool: Seq<Seq<char>>, index: nat) -> Option<Seq<char>> {
    match own {
        Some(p) => Some(p),
        None => if pool.len() > 0 {
            Some(pool[(index % pool.len()) as int])
        } else {
            None
        },
    }
}

pub fn choose_media(own: &Option<String>, pool: &Vec<String>, index: usize) -> (r: Option<String>)
    ensures
        parser::opt_string(r) == chosen_media(parser::opt_string(*own), crate::patterns::strings(pool@), index as nat),
{
    match own {
        Some(p) => Some(p.clone()),
        None => {
            if pool.len() > 0 {
                Some(pool[index % pool.len()].clone())
            } else {
                None
            }
        },
    }
}

/// The length of a reel: its own duration or the default, at least a second.
pub open spec fn reel_duration(own: Option<u64>, default_us: u64) -> u64 {
    let d = match own {
        Some(d) => d,
        None => default_us,
    };
    if d >= 1000000 {
        d
    } else {
        1000000
    }
}

pub fn reel_duration_us(script: &Script, default_us: u64) -> (r: u64)
    ensures
        r == reel_duration(script@.duration_us, default_us),
{
    let d = match script.duration_us {
        Some(d) => d,
        None => default_us,
    };
    if d >= 1000000 {
        d
    } else {
        1000000
    }
}

/// The last reveal plus two seconds, if longer than the requested duration.
pub open spec fn effective_duration(s: parser::ScriptView, n: nat, duration_us: u64) -> nat {
    let last = if n > 0 {
        reveal_start(s, (n - 1) as nat)
    } else {
        0
    };
    if duration_us as nat >= last + 2000000 {
        duration_us as nat
    } else {
        last + 2000000
    }
}

/// The latest start in a music track that leaves at least the reel's length
/// (and never less than fifteen seconds) to play; zero when there is none.
pub open spec fn audio_window(effective_us: nat, track_us: nat) -> nat {
    let tail: nat = if effective_us >= 15000000 {
        effective_us
    } else {
        15000000
    };
    if track_us > tail {
        (track_us - tail) as nat
    } else {
        0
    }
}

pub fn audio_window_us(effective_us: u128, track_us: u128) -> (r: u128)
    ensures
        r as nat == audio_window(effective_us as nat, track_us as nat),
{
    let tail: u128 = if effective_us >= 15000000 {
        effective_us
    } else {
        15000000
    };
    if track_us > tail {
        track_us - tail
    } else {
        0
    }
}

/// The inputs of the text layers: each image looped for the reel's length.
pub open spec fn layer_inputs(overlays: Seq<Seq<char>>, eff: nat) -> Seq<Seq<char>>
    decreases overlays.len(),
{
    if overlays.len() == 0 {
        seq![]
    } else {
        layer_inputs(overlays.drop_last(), eff) + seq![
            "-loop"@,
            "1"@,
            "-t"@,
            seconds_text(eff),
            "-i"@,
            overlays.last(),
        ]
    }
}

/// The first input: the background video looped, or a black canvas of the
/// reel's length.
pub open spec fn background_input(video: Option<Seq<char>>, eff: nat) -> Seq<Seq<char>> {
    match video {
        Some(v) => seq!["-stream_loop"@, "-1"@, "-i"@, v],
        None => seq![
            "-f"@,
            "lavfi"@,
            "-i"@,
            "color=c=black:s="@ + text::decimal(WIDTH as nat) + "x"@ + text::decimal(HEIGHT as nat)
                + ":d="@ + seconds_text(eff),
        ],
    }
}

/// The music input, looped, started at `audio_start` when one was drawn.
pub open spec fn music_input(music: Option<Seq<char>>, audio_start: Option<u128>) -> Seq<Seq<char>> {
    match music {
        Some(m) => (match audio_start {
            Some(a) => seq!["-ss"@, seconds3_text(a as nat)],
            None => seq![],
        }) + seq!["-stream_loop"@, "-1"@, "-i"@, m],
        None => seq![],
    }
}

/// The mapping of the music stream, when there is music.
pub open spec fn music_map(music: Option<Seq<char>>, n: nat) -> Seq<Seq<char>> {
    match music {
        Some(_) => seq!["-map"@, text::decimal(n + 1) + ":a"@, "-c:a"@, "aac"@, "-shortest"@],
        None => seq![],
    }
}

/// The encoder settings and the output.
pub open spec fn output_args(threads: nat, eff: nat, output: Seq<char>) -> Seq<Seq<char>> {
    seq![
        "-threads"@,
        text::decimal(if threads >= 1 { threads } else { 1 }),
        "-c:v"@,
        "libx264"@,
        "-preset"@,
        "veryfast"@,
        "-pix_fmt"@,
        "yuv420p"@,
        "-movflags"@,
        "+faststart"@,
        "-t"@,
        seconds_text(eff),
        output,
    ]
}

/// The arguments of the FFmpeg run that composes a reel.
pub open spec fn render_args_of(
    s: parser::ScriptView,
    index: nat,
    videos: Seq<Seq<char>>,
    music_files: Seq<Seq<char>>,
    overlays: Seq<Seq<char>>,
    duration_us: u64,
    threads: nat,
    t: BackgroundTreatment,
    audio_start: Option<u128>,
    output: Seq<char>,
) -> Seq<Seq<char>> {
    let n = overlays.len();
    let video = chosen_media(s.video, videos, index);
    let music = chosen_media(s.audio, music_files, index);
    let eff = effective_duration(s, n, duration_us);
    seq!["-y"@] + background_input(video, eff) + layer_inputs(overlays, eff) + music_input(
        music,
        audio_start,
    ) + seq![
        "-filter_complex"@,
        text::join_with(filter_list(video is Some, t, s, n), ";"@),
        "-map"@,
        final_label(n),
    ] + music_map(music, n) + output_args(threads, eff, output)
}

fn push_arg(a: &mut Vec<Vec<char>>, v: Vec<char>)
    ensures
        text::views(final(a)@) == text::views(old(a)@).push(v@),
{
    let ghost before = text::views(a@);
    let ghost vv = v@;
    a.push(v);
    assert(text::views(a@) =~= before.push(vv));
}

fn push_lit(a: &mut Vec<Vec<char>>, lit: &str)
    ensures
        text::views(final(a)@) == text::views(old(a)@).push(lit@),
{
    push_arg(a, text::chars_of(lit));
}

fn append_args(a: &mut Vec<Vec<char>>, b: Vec<Vec<char>>)
    ensures
        text::views(final(a)@) == text::views(old(a)@) + text::views(b@),
{
    let ghost a0 = text::views(a@);
    let ghost bv = text::views(b@);
    let mut b = b;
    a.append(&mut b);
    assert(text::views(a@) =~= a0 + bv);
}

fn copy_chars(s: &String) -> (r: Vec<char>)
    ensures
        r@ == s@,
{
    text::chars_of(s.as_str())
}

fn seconds_chars(us: u128) -> (r: Vec<char>)
    ensures
        r@ == seconds_text(us as nat),
{
    let mut v: Vec<char> = Vec::new();
    push_seconds(&mut v, us);
    assert(v@ =~= seconds_text(us as nat));
    v
}

/// Reveal times stay far below `u128::MAX`.
pub proof fn lemma_reveal_start_bound(s: parser::ScriptView, k: nat)
    requires
        k <= 18446744073709551616,
    ensures
        reveal_start(s, k) <= 18446744073709551616 * max_wait(),
{
    lemma_start_bound(s, k);
    assert(k * max_wait() <= 18446744073709551616 * max_wait()) by (nonlinear_arith)
        requires
            k <= 18446744073709551616,
    ;
}

/// The reel's length given `overlay_count` layers.
pub fn effective_duration_us(script: &Script, overlay_count: usize, duration_us: u64) -> (r: u128)
    ensures
        r as nat == effective_duration(script@, overlay_count as nat, duration_us),
{
    let starts = build_reveal_starts(script, overlay_count);
    let last: u128 = if overlay_count > 0 {
        proof {
            lemma_reveal_start_bound(script@, (overlay_count - 1) as nat);
        }
        starts[overlay_count - 1]
    } else {
        0
    };
    if duration_us as u128 >= last + 2000000 {
        duration_us as u128
    } else {
        last + 2000000
    }
}

fn background_input_args(video: &Option<String>, eff: u128) -> (r: Vec<Vec<char>>)
    ensures
        text::views(r@) == background_input(parser::opt_string(*video), eff as nat),
{
    let mut a: Vec<Vec<char>> = Vec::new();
    match video {
        Some(v) => {
            push_lit(&mut a, "-stream_loop");
            push_lit(&mut a, "-1");
            push_lit(&mut a, "-i");
            push_arg(&mut a, copy_chars(v));
        },
        None => {
            push_lit(&mut a, "-f");
            push_lit(&mut a, "lavfi");
            push_lit(&mut a, "-i");
            let mut c = text::chars_of("color=c=black:s=");
            text::push_decimal(&mut c, WIDTH as u128);
            text::push_str(&mut c, "x");
            text::push_decimal(&mut c, HEIGHT as u128);
            text::push_str(&mut c, ":d=");
            push_seconds(&mut c, eff);
            push_arg(&mut a, c);
        },
    }
    assert(text::views(a@) =~= background_input(parser::opt_string(*video), eff as nat));
    a
}

fn layer_input_args(overlay_paths: &Vec<String>, eff: u128) -> (r: Vec<Vec<char>>)
    ensures
        text::views(r@) == layer_inputs(crate::patterns::strings(overlay_paths@), eff as nat),
{
    let n = overlay_paths.len();
    let ghost ov = crate::patterns::strings(overlay_paths@);
    let mut a: Vec<Vec<char>> = Vec::new();
    let mut i: usize = 0;
    assert(ov.take(0) =~= Seq::<Seq<char>>::empty());
    while i < n
        invariant
            i <= n,
            n == overlay_paths.len(),
            ov == crate::patterns::strings(overlay_paths@),
            text::views(a@) == layer_inputs(ov.take(i as int), eff as nat),
        decreases n - i,
    {
        let ghost before = text::views(a@);
        push_lit(&mut a, "-loop");
        push_lit(&mut a, "1");
        push_lit(&mut a, "-t");
        push_arg(&mut a, seconds_chars(eff));
        push_lit(&mut a, "-i");
        push_arg(&mut a, copy_chars(&overlay_paths[i]));
        assert(ov.take(i + 1).drop_last() =~= ov.take(i as int));
        assert(ov.take(i + 1).last() == overlay_paths@[i as int]@);
        assert(text::views(a@) =~= layer_inputs(ov.take(i + 1), eff as nat));
        i += 1;
    }
    assert(ov.take(n as int) =~= ov);
    a
}

fn music_input_args(music: &Option<String>, audio_start_us: Option<u128>) -> (r: Vec<Vec<char>>)
    ensures
        text::views(r@) == music_input(parser::opt_string(*music), audio_start_us),
{
    let mut a: Vec<Vec<char>> = Vec::new();
    match music {
        Some(m) => {
            match audio_start_us {
                Some(st) => {
                    push_lit(&mut a, "-ss");
                    let mut c: Vec<char> = Vec::new();
                    push_seconds3(&mut c, st);
                    assert(c@ =~= seconds3_text(st as nat));
                    push_arg(&mut a, c);
                },
                None => {},
            }
            push_lit(&mut a, "-stream_loop");
            push_lit(&mut a, "-1");
            push_lit(&mut a, "-i");
            push_arg(&mut a, copy_chars(m));
        },
        None => {},
    }
    assert(text::views(a@) =~= music_input(parser::opt_string(*music), audio_start_us));
    a
}

fn graph_args(script: &Script, has_video: bool, treatment: BackgroundTreatment, n: usize) -> (r: Vec<Vec<char>>)
    ensures
        text::views(r@) == seq![
            "-filter_complex"@,
            text::join_with(filter_list(has_video, treatment, script@, n as nat), ";"@),
            "-map"@,
            final_label(n as nat),
        ],
{
    let mut a: Vec<Vec<char>> = Vec::new();
    push_lit(&mut a, "-filter_complex");
    let filters = build_filters(script, has_video, treatment, n);
    push_arg(&mut a, text::join(&filters, ";"));
    push_lit(&mut a, "-map");
    push_arg(&mut a, input_label_exec(n));
    assert(text::views(a@) =~= seq![
        "-filter_complex"@,
        text::join_with(filter_list(has_video, treatment, script@, n as nat), ";"@),
        "-map"@,
        final_label(n as nat),
    ]);
    a
}

fn music_map_args(music: &Option<String>, n: usize) -> (r: Vec<Vec<char>>)
    ensures
        text::views(r@) == music_map(parser::opt_string(*music), n as nat),
{
    let mut a: Vec<Vec<char>> = Vec::new();
    match music {
        Some(_) => {
            push_lit(&mut a, "-map");
            let mut c: Vec<char> = Vec::new();
            text::push_decimal(&mut c, (n as u128) + 1);
            text::push_str(&mut c, ":a");
            push_arg(&mut a, c);
            push_lit(&mut a, "-c:a");
            push_lit(&mut a, "aac");
            push_lit(&mut a, "-shortest");
        },
        None => {},
    }
    assert(text::views(a@) =~= music_map(parser::opt_string(*music), n as nat));
    a
}

fn output_arg_list(ffmpeg_threads: usize, eff: u128, output_path: &str) -> (r: Vec<Vec<char>>)
    ensures
        text::views(r@) == output_args(ffmpeg_threads as nat, eff as nat, output_path@),
{
    let mut a: Vec<Vec<char>> = Vec::new();
    push_lit(&mut a, "-threads");
    let mut tc: Vec<char> = Vec::new();
    text::push_decimal(
        &mut tc,
        if ffmpeg_threads >= 1 {
            ffmpeg_threads as u128
        } else {
            1
        },
    );
    push_arg(&mut a, tc);
    push_lit(&mut a, "-c:v");
    push_lit(&mut a, "libx264");
    push_lit(&mut a, "-preset");
    push_lit(&mut a, "veryfast");
    push_lit(&mut a, "-pix_fmt");
    push_lit(&mut a, "yuv420p");
    push_lit(&mut a, "-movflags");
    push_lit(&mut a, "+faststart");
    push_lit(&mut a, "-t");
    push_arg(&mut a, seconds_chars(eff));
    push_arg(&mut a, text::chars_of(output_path));
    assert(text::views(a@) =~= output_args(ffmpeg_threads as nat, eff as nat, output_path@));
    a
}

/// The arguments of the FFmpeg run for a reel, given the background
/// treatment and the drawn music start.
pub fn render_args(
    script: &Script,
    index: usize,
    videos: &Vec<String>,
    music_files: &Vec<String>,
    overlay_paths: &Vec<String>,
    duration_us: u64,
    ffmpeg_threads: usize,
    treatment: BackgroundTreatment,
    audio_start_us: Option<u128>,
    output_path: &str,
) -> (r: Vec<String>)
    ensures
        crate::patterns::strings(r@) == render_args_of(
            script@,
            index as nat,
            crate::patterns::strings(videos@),
            crate::patterns::strings(music_files@),
            crate::patterns::strings(overlay_paths@),
            duration_us,
            ffmpeg_threads as nat,
            treatment,
            audio_start_us,
            output_path@,
        ),
{
    let n = overlay_paths.len();
    let video = choose_media(&script.video, videos, index);
    let music = choose_media(&script.audio, music_files, index);
    let eff = effective_duration_us(script, n, duration_us);
    let mut a: Vec<Vec<char>> = Vec::new();
    push_lit(&mut a, "-y");
    append_args(&mut a, background_input_args(&video, eff));
    append_args(&mut a, layer_input_args(overlay_paths, eff));
    append_args(&mut a, music_input_args(&music, audio_start_us));
    append_args(&mut a, graph_args(script, video.is_some(), treatment, n));
    append_args(&mut a, music_map_args(&music, n));
    append_args(&mut a, output_arg_list(ffmpeg_threads, eff, output_path));
    crate::parser::strings_of(&a)
}

/// The file name of a reel: the slug of its code, or of its title when it
/// has no code, with `.mp4`.
pub open spec fn output_file_name_of(s: parser::ScriptView) -> Seq<char> {
    parser::slug_of(if s.code.len() > 0 { s.code } else { s.title }) + ".mp4"@
}

pub fn output_file_name(script: &Script) -> (r: String)
    ensures
        r@ == output_file_name_of(script@),
{
    let base = if !script.code.as_str().is_empty() {
        text::chars_of(script.code.as_str())
    } else {
        text::chars_of(script.title.as_str())
    };
    let mut n = parser::slugify_chars(&base);
    text::push_str(&mut n, ".mp4");
    text::string_of(&n)
}

/// Plans the FFmpeg run of a reel: draws the background treatment and, when
/// the music track (of `music_track_us` microseconds, if known) is longer
/// than needed, a start inside it; then builds the arguments.
pub fn plan_render(
    script: &Script,
    index: usize,
    videos: &Vec<String>,
    music_files: &Vec<String>,
    overlay_paths: &Vec<String>,
    duration_us: u64,
    ffmpeg_threads: usize,
    blur_strength: BlurStrength,
    music_track_us: Option<u128>,
    output_path: &str,
) -> (r: Vec<String>)
    ensures
        exists|t: BackgroundTreatment, audio_start: Option<u128>|
            {
                &&& possible_treatment(blur_strength, t)
                &&& match audio_start {
                    Some(a) => music_track_us matches Some(track) && {
                        let w = audio_window(
                            effective_duration(script@, overlay_paths.len() as nat, duration_us),
                            track as nat,
                        );
                        w > 0 && a <= w
                    },
                    None => match music_track_us {
                        Some(track) => audio_window(
                            effective_duration(script@, overlay_paths.len() as nat, duration_us),
                            track as nat,
                        ) == 0,
                        None => true,
                    },
                }
                &&& crate::patterns::strings(r@) == render_args_of(
                    script@,
                    index as nat,
                    crate::patterns::strings(videos@),
                    crate::patterns::strings(music_files@),
                    crate::patterns::strings(overlay_paths@),
                    duration_us,
                    ffmpeg_threads as nat,
                    t,
                    audio_start,
                    output_path@,
                )
            },
{
    let n = overlay_paths.len();
    let eff = effective_duration_us(script, n, duration_us);
    let treatment = choose_background_treatment(blur_strength);
    let audio_start: Option<u128> = match music_track_us {
        Some(track) => {
            let w = audio_window_us(eff, track);
            if w > 0 {
                let mut rng = thread_rng();
                let hi: u64 = if w > u64::MAX as u128 { u64::MAX } else { w as u64 };
                Some(roll(&mut rng, 0, hi) as u128)
            } else {
                None
            }
        },
        None => None,
    };
    render_args(
        script,
        index,
        videos,
        music_files,
        overlay_paths,
        duration_us,
        ffmpeg_threads,
        treatment,
        audio_start,
        output_path,
    )
}

} // verus!
