use reel_forge::overlay::{
    first_hook_word, get_layout_spec, overlay_file_name, overlay_layer_count, overlay_text, text_words, wrap_candidate,
    wrap_finish, wrap_step, HEIGHT, WIDTH,
};
use reel_forge::parser::Script;

fn script(layout: &str, title: &str, points: &[&str], cta: &str) -> Script {
    Script {
        title: title.to_string(),
        points: points.iter().map(|p| p.to_string()).collect(),
        point_pause_counts_before: vec![0; points.len()],
        cta_pause_count_before: 0,
        cta: cta.to_string(),
        code: String::new(),
        duration_us: None,
        layout: layout.to_string(),
        all_at_once: false,
        video: None,
        audio: None,
    }
}

#[test]
fn canvas_is_vertical_full_hd() {
    assert_eq!((WIDTH, HEIGHT), (1080, 1920));
}

#[test]
fn layout_table_entries() {
    let s = get_layout_spec("question_answer");
    assert_eq!((s.title.x, s.title.y, s.title.width, s.title.font_size), (105, 500, 870, 76));
    assert_eq!(s.title.align, "center");
    assert_eq!(s.point_offset_y, 118);
    assert_eq!(s.cta.y, 1515);
    assert_eq!(s.marker, "");
    let s = get_layout_spec("left_stack");
    assert_eq!(s.marker, "- ");
    assert_eq!(s.point.align, "left");
    let s = get_layout_spec("progress_reveal");
    assert_eq!(s.point_offset_y, 0);
    assert_eq!(s.point.font_size, 92);
}

#[test]
fn unknown_layout_uses_center_stack() {
    let s = get_layout_spec("grid_layout");
    assert_eq!((s.title.x, s.title.y, s.title.font_size), (90, 520, 84));
    assert_eq!((s.point.x, s.point.y), (150, 790));
    assert_eq!(s.point_offset_y, 112);
}

#[test]
fn hook_word_picks_first_long_word() {
    assert_eq!(first_hook_word("Why do we sleep?"), "WHY?");
    assert_eq!(first_hook_word("3 ways it's done"), "WAYS?");
    assert_eq!(first_hook_word("it's ok"), "IT'S?");
    assert_eq!(first_hook_word("go up"), "GO UP");
}

#[test]
fn title_layer_in_special_layouts() {
    let s = script("one word", "don't stop now", &[], "");
    assert_eq!(overlay_text(&s, 0).unwrap().text, "DON'T?");
    let s = script("quote", "\"Stay hungry\"", &[], "");
    let o = overlay_text(&s, 0).unwrap();
    assert_eq!(o.text, "\"Stay hungry\"");
    assert_eq!((o.alpha, o.shadow_alpha), (255, 180));
}

#[test]
fn point_layers_move_down() {
    let s = script("list", "T", &["a", "b"], "Follow");
    let o1 = overlay_text(&s, 1).unwrap();
    let o2 = overlay_text(&s, 2).unwrap();
    assert_eq!(o1.text, "- a");
    assert_eq!(o2.text, "- b");
    assert_eq!(o1.y, 690);
    assert_eq!(o2.y, 690 + 116);
    assert_eq!((o2.alpha, o2.shadow_alpha), (255, 185));
    let c = overlay_text(&s, 3).unwrap();
    assert_eq!(c.text, "Follow");
    assert_eq!((c.y, c.alpha), (1510, 240));
    assert!(overlay_text(&s, 4).is_none());
}

#[test]
fn progress_layers_are_counted() {
    let s = script("progress", "T", &["alpha", "beta", "gamma"], "");
    assert_eq!(overlay_text(&s, 2).unwrap().text, "2/3  beta");
    assert_eq!(overlay_text(&s, 2).unwrap().y, 770);
    assert!(overlay_text(&s, 4).is_none());
}

#[test]
fn overlay_names() {
    assert_eq!(overlay_file_name("My Reel!", "12345678", 0), "my-reel-12345678-1.png");
    assert_eq!(overlay_file_name("", "7", 9), "reel-7-10.png");
}

fn wrap(words: &[&str], widths_ok: &dyn Fn(&str) -> bool) -> Vec<String> {
    let mut lines = Vec::new();
    let mut current = String::new();
    for w in words {
        let candidate = wrap_candidate(&current, w);
        let too_wide = !widths_ok(&candidate);
        wrap_step(&mut lines, &mut current, w, too_wide);
    }
    wrap_finish(&mut lines, current);
    lines
}

#[test]
fn greedy_wrapping() {
    let words = text_words("  one two   three four ");
    assert_eq!(words, vec!["one", "two", "three", "four"]);
    let refs: Vec<&str> = words.iter().map(|w| w.as_str()).collect();
    let lines = wrap(&refs, &|c: &str| c.chars().count() <= 9);
    assert_eq!(lines, vec!["one two", "three", "four"]);
    assert_eq!(lines.join(" "), words.join(" "));
    let single = wrap(&["enormousword"], &|c: &str| c.len() <= 3);
    assert_eq!(single, vec!["enormousword"]);
    assert!(wrap(&[], &|_c: &str| true).is_empty());
}

#[test]
fn layer_count_matches_layers() {
    let with_cta = script("center_stack", "T", &["a", "b"], "Follow");
    assert_eq!(overlay_layer_count(&with_cta), 4);
    for layer in 0..6 {
        assert_eq!(overlay_text(&with_cta, layer).is_some(), layer < 4);
    }
    let without = script("center_stack", "T", &["a"], "");
    assert_eq!(overlay_layer_count(&without), 2);
    assert!(overlay_text(&without, 2).is_none());
}
