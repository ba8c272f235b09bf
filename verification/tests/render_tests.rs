use reel_forge::parser::{BlurStrength, Script};
use reel_forge::render::{
    apply_background_treatment, audio_window_us, blur_filter_for_sigma, build_reveal_starts,
    choose_background_treatment, choose_media, effective_duration_us, heavy_band, light_band,
    middle_band, output_file_name, plan_render, reel_duration_us, render_args, seconds_string,
    treatment_from_draws, BackgroundTreatment, BackgroundVariant,
};

fn script(points: &[&str], counts: &[u32], cta_pause: u32, all_at_once: bool) -> Script {
    Script {
        title: "Title".to_string(),
        points: points.iter().map(|p| p.to_string()).collect(),
        point_pause_counts_before: counts.to_vec(),
        cta_pause_count_before: cta_pause,
        cta: "cta".to_string(),
        code: String::new(),
        duration_us: None,
        layout: "center_stack".to_string(),
        all_at_once,
        video: None,
        audio: None,
    }
}

fn strs(v: &[&str]) -> Vec<String> {
    v.iter().map(|s| s.to_string()).collect()
}

#[test]
fn bands() {
    let l = light_band();
    assert_eq!((l.sigma_min, l.sigma_max, l.tint_min, l.tint_max), (3, 5, 18, 25));
    let m = middle_band();
    assert_eq!((m.sigma_min, m.sigma_max, m.tint_min, m.tint_max), (6, 8, 26, 34));
    let h = heavy_band();
    assert_eq!((h.sigma_min, h.sigma_max, h.tint_min, h.tint_max), (9, 12, 35, 42));
}

#[test]
fn blur_filter_steps() {
    assert_eq!(blur_filter_for_sigma(4), "gblur=sigma=4:steps=1");
    assert_eq!(blur_filter_for_sigma(5), "gblur=sigma=5:steps=1");
    assert_eq!(blur_filter_for_sigma(7), "gblur=sigma=7:steps=2");
    assert_eq!(blur_filter_for_sigma(12), "gblur=sigma=12:steps=3");
}

#[test]
fn treatments_from_draws() {
    let t = treatment_from_draws(BlurStrength::Off, 5, 3, 30, 12);
    assert!(t.variant == BackgroundVariant::TintOnly && t.blur_sigma.is_none() && t.tint_percent == 30);
    let t = treatment_from_draws(BlurStrength::Off, 15, 4, 18, 12);
    assert!(t.variant == BackgroundVariant::GradientTint);
    assert_eq!((t.tint_percent, t.secondary_tint_percent), (12, 27));
    let t = treatment_from_draws(BlurStrength::Off, 25, 4, 18, 20);
    assert!(t.variant == BackgroundVariant::CardOverlay);
    assert_eq!((t.tint_percent, t.card_percent), (10, 20));
    let t = treatment_from_draws(BlurStrength::Heavy, 5, 10, 42, 12);
    assert_eq!((t.tint_percent, t.secondary_tint_percent), (37, 48));
    let t = treatment_from_draws(BlurStrength::Light, 50, 4, 20, 12);
    assert!(t.variant == BackgroundVariant::Normal && t.blur_sigma == Some(4) && t.tint_percent == 20);
}

#[test]
fn drawn_treatments_stay_in_range() {
    for blur in [BlurStrength::Off, BlurStrength::Light, BlurStrength::Middle, BlurStrength::Heavy] {
        for _ in 0..300 {
            let t = choose_background_treatment(blur);
            assert!(10 <= t.tint_percent && t.tint_percent <= 48);
            assert!(t.secondary_tint_percent <= 48 && t.card_percent <= 22);
            if let Some(s) = t.blur_sigma {
                assert!((3..=12).contains(&s));
            }
            match blur {
                BlurStrength::Light => assert!(matches!(t.blur_sigma, Some(3..=5))),
                BlurStrength::Middle => assert!(matches!(t.blur_sigma, Some(6..=8))),
                BlurStrength::Heavy => assert!(matches!(t.blur_sigma, Some(9..=12))),
                BlurStrength::Off => {}
            }
        }
    }
}

#[test]
fn background_filters() {
    let normal = BackgroundTreatment {
        variant: BackgroundVariant::Normal,
        blur_sigma: Some(4),
        tint_percent: 25,
        secondary_tint_percent: 0,
        card_percent: 0,
    };
    let mut chain = "[0:v]null".to_string();
    apply_background_treatment(&mut chain, normal);
    assert_eq!(chain, "[0:v]null,gblur=sigma=4:steps=1,drawbox=t=fill:color=black@0.25");
    let gradient = BackgroundTreatment {
        variant: BackgroundVariant::GradientTint,
        blur_sigma: None,
        tint_percent: 12,
        secondary_tint_percent: 30,
        card_percent: 0,
    };
    let mut chain = String::new();
    apply_background_treatment(&mut chain, gradient);
    assert_eq!(
        chain,
        ",drawbox=x=0:y=0:w=1080:h=1056:t=fill:color=black@0.12,drawbox=x=0:y=1056:w=1080:h=864:t=fill:color=black@0.30"
    );
    let card = BackgroundTreatment {
        variant: BackgroundVariant::CardOverlay,
        blur_sigma: Some(9),
        tint_percent: 10,
        secondary_tint_percent: 0,
        card_percent: 22,
    };
    let mut chain = String::new();
    apply_background_treatment(&mut chain, card);
    assert_eq!(
        chain,
        ",gblur=sigma=9:steps=3,drawbox=t=fill:color=black@0.10,drawbox=x=70:y=240:w=940:h=1440:t=fill:color=black@0.22"
    );
}

#[test]
fn reveal_times_follow_pauses() {
    let s = script(&["a", "b"], &[0, 2], 1, false);
    assert_eq!(build_reveal_starts(&s, 4), vec![0, 2_500_000, 5_000_000, 12_500_000]);
    let s = script(&["a"], &[], 0, false);
    assert_eq!(build_reveal_starts(&s, 3), vec![0, 2_500_000, 5_000_000]);
    let s = script(&["a", "b"], &[3, 3], 3, true);
    assert_eq!(build_reveal_starts(&s, 4), vec![0, 0, 0, 0]);
    assert!(build_reveal_starts(&s, 0).is_empty());
}

#[test]
fn seconds_formatting() {
    assert_eq!(seconds_string(12_500_000), "12.5");
    assert_eq!(seconds_string(14_000_000), "14");
    assert_eq!(seconds_string(2_125_000), "2.125");
    assert_eq!(seconds_string(100_000), "0.1");
    assert_eq!(seconds_string(1_050_000), "1.05");
    assert_eq!(seconds_string(0), "0");
    assert_eq!(seconds_string(12_345_600), "12.3456");
    assert_eq!(seconds_string(1_000_001), "1.000001");
}

#[test]
fn durations() {
    let mut s = script(&["a", "b"], &[0, 0], 0, false);
    assert_eq!(reel_duration_us(&s, 12_500_000), 12_500_000);
    s.duration_us = Some(300_000);
    assert_eq!(reel_duration_us(&s, 12_500_000), 1_000_000);
    s.duration_us = Some(5_000_000);
    assert_eq!(reel_duration_us(&s, 12_500_000), 5_000_000);
    assert_eq!(effective_duration_us(&s, 4, 12_500_000), 12_500_000);
    assert_eq!(effective_duration_us(&s, 4, 5_000_000), 9_500_000);
    assert_eq!(audio_window_us(12_500_000, 60_000_000), 45_000_000);
    assert_eq!(audio_window_us(20_000_000, 60_000_000), 40_000_000);
    assert_eq!(audio_window_us(12_500_000, 10_000_000), 0);
}

#[test]
fn media_choice_wraps_around() {
    let pool = strs(&["a.mp4", "b.mp4"]);
    assert_eq!(choose_media(&None, &pool, 3), Some("b.mp4".to_string()));
    assert_eq!(choose_media(&Some("own.mp4".to_string()), &pool, 3), Some("own.mp4".to_string()));
    assert_eq!(choose_media(&None, &Vec::new(), 3), None);
}

#[test]
fn ffmpeg_arguments_on_black_canvas() {
    let s = script(&["a"], &[0], 0, false);
    let t = BackgroundTreatment {
        variant: BackgroundVariant::TintOnly,
        blur_sigma: None,
        tint_percent: 20,
        secondary_tint_percent: 0,
        card_percent: 0,
    };
    let args = render_args(
        &s,
        0,
        &Vec::new(),
        &Vec::new(),
        &strs(&["t.png", "p.png"]),
        12_500_000,
        0,
        t,
        None,
        "out/title.mp4",
    );
    let expected = strs(&[
        "-y", "-f", "lavfi", "-i", "color=c=black:s=1080x1920:d=12.5",
        "-loop", "1", "-t", "12.5", "-i", "t.png",
        "-loop", "1", "-t", "12.5", "-i", "p.png",
        "-filter_complex",
        "[0:v]null,drawbox=t=fill:color=black@0.20[bg];[1:v]null[ovr_faded_0];[bg][ovr_faded_0]overlay=0:0[bg_next_0];[2:v]fade=t=in:st=2.500:d=0.1:alpha=1[ovr_faded_1];[bg_next_0][ovr_faded_1]overlay=0:0:enable='gte(t,2.500)'[bg_next_1]",
        "-map", "[bg_next_1]",
        "-threads", "1", "-c:v", "libx264", "-preset", "veryfast", "-pix_fmt", "yuv420p",
        "-movflags", "+faststart", "-t", "12.5", "out/title.mp4",
    ]);
    assert_eq!(args, expected);
}

#[test]
fn ffmpeg_arguments_with_video_and_music() {
    let mut s = script(&[], &[], 0, true);
    s.video = Some("bg.mp4".to_string());
    let t = BackgroundTreatment {
        variant: BackgroundVariant::Normal,
        blur_sigma: Some(6),
        tint_percent: 30,
        secondary_tint_percent: 0,
        card_percent: 0,
    };
    let args = render_args(
        &s,
        1,
        &strs(&["x.mp4"]),
        &strs(&["m1.mp3", "m2.mp3"]),
        &strs(&["t.png"]),
        12_000_000,
        4,
        t,
        Some(1_500_000),
        "o.mp4",
    );
    let expected = strs(&[
        "-y", "-stream_loop", "-1", "-i", "bg.mp4",
        "-loop", "1", "-t", "12", "-i", "t.png",
        "-ss", "1.500", "-stream_loop", "-1", "-i", "m2.mp3",
        "-filter_complex",
        "[0:v]scale=w=1080:h=1920:force_original_aspect_ratio=increase,crop=1080:1920,gblur=sigma=6:steps=2,drawbox=t=fill:color=black@0.30[bg];[1:v]null[ovr_faded_0];[bg][ovr_faded_0]overlay=0:0[bg_next_0]",
        "-map", "[bg_next_0]",
        "-map", "2:a", "-c:a", "aac", "-shortest",
        "-threads", "4", "-c:v", "libx264", "-preset", "veryfast", "-pix_fmt", "yuv420p",
        "-movflags", "+faststart", "-t", "12", "o.mp4",
    ]);
    assert_eq!(args, expected);
}

#[test]
fn planned_render_draws_within_window() {
    let s = script(&["a"], &[0], 0, false);
    let args = plan_render(
        &s,
        0,
        &Vec::new(),
        &strs(&["m.mp3"]),
        &strs(&["t.png", "p.png"]),
        12_500_000,
        2,
        BlurStrength::Light,
        Some(20_000_000),
        "o.mp4",
    );
    let pos = args.iter().position(|a| a == "-ss").expect("a start is drawn");
    let start: f64 = args[pos + 1].parse().unwrap();
    assert!((0.0..=5.0).contains(&start));
    assert_eq!(args.last().unwrap(), "o.mp4");
    let none = plan_render(&s, 0, &Vec::new(), &strs(&["m.mp3"]), &strs(&["t.png"]), 12_500_000, 2, BlurStrength::Off, Some(10_000_000), "o.mp4");
    assert!(!none.iter().any(|a| a == "-ss"));
}

#[test]
fn reel_file_names() {
    let mut s = script(&[], &[], 0, false);
    assert_eq!(output_file_name(&s), "title.mp4");
    s.code = "AB 12".to_string();
    assert_eq!(output_file_name(&s), "ab-12.mp4");
}

#[test]
fn treatment_from_large_tint_saturates() {
    let t = treatment_from_draws(BlurStrength::Off, 15, 4, u32::MAX, 12);
    assert_eq!((t.tint_percent, t.secondary_tint_percent), (u32::MAX - 6, 48));
    let t = treatment_from_draws(BlurStrength::Middle, 3, 7, 200, 12);
    assert_eq!((t.tint_percent, t.secondary_tint_percent), (195, 48));
}

#[test]
fn fine_durations_reach_ffmpeg() {
    let mut s = script(&[], &[], 0, true);
    s.duration_us = Some(12_345_600);
    let d = reel_duration_us(&s, 12_500_000);
    let t = BackgroundTreatment {
        variant: BackgroundVariant::TintOnly,
        blur_sigma: None,
        tint_percent: 20,
        secondary_tint_percent: 0,
        card_percent: 0,
    };
    let args = render_args(&s, 0, &Vec::new(), &Vec::new(), &strs(&["t.png"]), d, 0, t, None, "o.mp4");
    assert!(args.contains(&"color=c=black:s=1080x1920:d=12.3456".to_string()));
    assert_eq!(&args[args.len() - 2], "12.3456");
}

#[test]
fn music_start_rounds_to_milliseconds() {
    let s = script(&[], &[], 0, true);
    let t = BackgroundTreatment {
        variant: BackgroundVariant::TintOnly,
        blur_sigma: None,
        tint_percent: 20,
        secondary_tint_percent: 0,
        card_percent: 0,
    };
    for (start, text) in [(1_500_600u128, "1.501"), (1_500_500, "1.500"), (1_501_500, "1.502"), (1_999_999, "2.000"), (1_500_499, "1.500")] {
        let args = render_args(&s, 0, &Vec::new(), &strs(&["m.mp3"]), &strs(&["t.png"]), 12_000_000, 0, t, Some(start), "o.mp4");
        let pos = args.iter().position(|a| a == "-ss").unwrap();
        assert_eq!(args[pos + 1], text);
    }
}
