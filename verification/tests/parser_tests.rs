use reel_forge::parser::{
    collapse_duplicate_title_point, loose_text_key, normalize_layout, parse_pipe_row,
    parse_script_block, parse_scripts, slugify, BlurStrength, Script,
};

fn script_with(title: &str, points: &[&str], counts: &[u32]) -> Script {
    Script {
        title: title.to_string(),
        points: points.iter().map(|p| p.to_string()).collect(),
        point_pause_counts_before: counts.to_vec(),
        cta_pause_count_before: 0,
        cta: String::new(),
        code: String::new(),
        duration_us: None,
        layout: "center_stack".to_string(),
        all_at_once: false,
        video: None,
        audio: None,
    }
}

#[test]
fn slugify_replaces_runs_and_lowercases() {
    assert_eq!(slugify("Hello, World!"), "hello-world");
    assert_eq!(slugify("  --Ab__c--  "), "ab-c");
    assert_eq!(slugify("ÄBC déf"), "bc-d-f");
}

#[test]
fn slugify_empty_becomes_reel() {
    assert_eq!(slugify("!!!"), "reel");
    assert_eq!(slugify(""), "reel");
}

#[test]
fn slugify_twice_is_once() {
    for text in ["Top 10 Tips!", "a--b", "ÄÖÜ", "", "x"] {
        let once = slugify(text);
        assert_eq!(slugify(&once), once);
    }
}

#[test]
fn normalize_layout_aliases() {
    assert_eq!(normalize_layout("Question"), "question_answer");
    assert_eq!(normalize_layout("ANSWER"), "question_answer");
    assert_eq!(normalize_layout("List Style!"), "list_style");
    assert_eq!(normalize_layout("advice"), "list_style");
    assert_eq!(normalize_layout("reels"), "center_stack");
    assert_eq!(normalize_layout("  full-text "), "story_block");
    assert_eq!(normalize_layout("All at once"), "story_block");
    assert_eq!(normalize_layout("one word"), "one_word_hook");
    assert_eq!(normalize_layout("Grid Layout"), "grid_layout");
    assert_eq!(normalize_layout("card"), "center_card");
    assert_eq!(normalize_layout("progress"), "progress_reveal");
    assert_eq!(normalize_layout("left"), "left_stack");
    assert_eq!(normalize_layout("Right"), "right_stack");
    assert_eq!(normalize_layout("top bottom"), "top_bottom");
    assert_eq!(normalize_layout("quote"), "quote_style");
}

#[test]
fn normalize_layout_unknown_is_center_stack() {
    assert_eq!(normalize_layout("weird thing"), "center_stack");
    assert_eq!(normalize_layout(""), "center_stack");
}

#[test]
fn normalize_layout_twice_is_once() {
    for text in ["Question", "two column split", "full list", "nope", "Story", "magazine layout"] {
        let once = normalize_layout(text);
        assert_eq!(normalize_layout(&once), once);
    }
}

#[test]
fn blur_strength_from_text() {
    assert_eq!(BlurStrength::from_str(" LIGHT "), BlurStrength::Light);
    assert_eq!(BlurStrength::from_str("medium"), BlurStrength::Middle);
    assert_eq!(BlurStrength::from_str("Middle"), BlurStrength::Middle);
    assert_eq!(BlurStrength::from_str("heavy\n"), BlurStrength::Heavy);
    assert_eq!(BlurStrength::from_str("blurry"), BlurStrength::Off);
    assert_eq!(BlurStrength::from_str(""), BlurStrength::Off);
}

#[test]
fn blur_strength_round_trip() {
    for b in [BlurStrength::Off, BlurStrength::Light, BlurStrength::Middle, BlurStrength::Heavy] {
        assert_eq!(BlurStrength::from_str(b.as_str()), b);
    }
    assert_eq!(BlurStrength::Off.as_str(), "none");
    assert_eq!(BlurStrength::Heavy.as_str(), "heavy");
}

#[test]
fn loose_key_ignores_case_and_punctuation() {
    assert_eq!(loose_text_key("Hello, World!!"), "hello world");
    assert_eq!(loose_text_key("  A--b  "), "a b");
    assert_eq!(loose_text_key("...."), "");
    assert_eq!(loose_text_key("Ünïcode Wörds"), "Ünïcode wörds");
}

#[test]
fn collapse_drops_repeated_title() {
    let s = script_with("Top 3 Tips!", &["top 3 tips", "second"], &[1, 0]);
    let c = collapse_duplicate_title_point(&s);
    assert_eq!(c.points, vec!["second".to_string()]);
    assert_eq!(c.point_pause_counts_before, vec![0]);
    assert_eq!(c.title, "Top 3 Tips!");
}

#[test]
fn collapse_keeps_other_points() {
    let s = script_with("Title", &["Another", "x"], &[0, 2]);
    let c = collapse_duplicate_title_point(&s);
    assert_eq!(c.points, s.points);
    assert_eq!(c.point_pause_counts_before, vec![0, 2]);
    let empty = script_with("Title", &[], &[]);
    assert!(collapse_duplicate_title_point(&empty).points.is_empty());
}

#[test]
fn block_with_header_lines() {
    let block = "\u{feff}TITLE: Morning Habits\nDuration: about 14 seconds\nformat: Full list\nvideo: clips/a.mp4\naudio: \nCODE: mh01\n- Drink water\n(pause)\n[PAUSE]\n2) Stretch\nline_3: Walk outside\nCTA: Follow for more";
    let s = parse_script_block(block, 0);
    assert_eq!(s.title, "Morning Habits");
    assert_eq!(s.duration_us, Some(14_000_000));
    assert_eq!(s.layout, "story_block");
    assert!(s.all_at_once);
    assert_eq!(s.video, Some("clips/a.mp4".to_string()));
    assert_eq!(s.audio, None);
    assert_eq!(s.code, "mh01");
    assert_eq!(
        s.points,
        vec!["Drink water".to_string(), "Stretch".to_string(), "Walk outside".to_string()]
    );
    assert_eq!(s.point_pause_counts_before, vec![0, 2, 0]);
    assert_eq!(s.cta, "Follow for more");
    assert_eq!(s.cta_pause_count_before, 0);
}

#[test]
fn block_durations() {
    assert_eq!(parse_script_block("duration: 12.5", 0).duration_us, Some(12_500_000));
    assert_eq!(parse_script_block("duration: 1.2345s", 0).duration_us, Some(1_234_500));
    assert_eq!(parse_script_block("duration: 7.05", 0).duration_us, Some(7_050_000));
    assert_eq!(parse_script_block("duration: soon", 0).duration_us, None);
    assert_eq!(parse_script_block("duration: 12.3456", 0).duration_us, Some(12_345_600));
    assert_eq!(parse_script_block("duration: 3.1234567", 0).duration_us, Some(3_123_456));
}

#[test]
fn block_text_animation() {
    let s = parse_script_block("text_animation: fade in by line\nx", 0);
    assert_eq!(s.layout, "list_style");
    assert!(!s.all_at_once);
    let s = parse_script_block("text_animation: Question then Answer\nx", 0);
    assert_eq!(s.layout, "question_answer");
    let s = parse_script_block("text_animation: No popping\nx", 0);
    assert!(s.all_at_once);
}

#[test]
fn block_keys_that_are_skipped_or_kept() {
    let s = parse_script_block("Title: T\nstyle: bold\nmood: calm\nWeird Key!: shown\nplain line", 0);
    assert_eq!(s.points, vec!["Weird Key!: shown".to_string(), "plain line".to_string()]);
}

#[test]
fn block_title_falls_back_to_first_point() {
    let s = parse_script_block("First line\n(pause)\nSecond line\n(pause)", 4);
    assert_eq!(s.title, "First line");
    assert_eq!(s.points, vec!["Second line".to_string()]);
    assert_eq!(s.point_pause_counts_before, vec![1]);
    assert_eq!(s.cta_pause_count_before, 1);
}

#[test]
fn block_without_text_is_numbered() {
    let s = parse_script_block("title:\nstyle: x", 2);
    assert_eq!(s.title, "Video 3");
    assert!(s.points.is_empty());
}

#[test]
fn file_split_into_blocks() {
    let scripts = parse_scripts("TITLE: One\nfirst\n---\n\n  -----  \nsecond block\npoint\n---\n");
    assert_eq!(scripts.len(), 2);
    assert_eq!(scripts[0].title, "One");
    assert_eq!(scripts[0].points, vec!["first".to_string()]);
    assert_eq!(scripts[1].title, "second block");
    assert_eq!(scripts[1].points, vec!["point".to_string()]);
}

#[test]
fn empty_file_has_no_scripts() {
    assert!(parse_scripts("").is_empty());
    assert!(parse_scripts("---\n---\n").is_empty());
}

#[test]
fn pipe_row_fields() {
    let s = parse_pipe_row("niche|Title|Line 1|Line 2|Line 3|||Duration:14 seconds|outputcode", 0, 0);
    assert_eq!(s.title, "Title");
    assert_eq!(
        s.points,
        vec!["Line 1".to_string(), "Line 2".to_string(), "Line 3".to_string()]
    );
    assert_eq!(s.point_pause_counts_before, vec![0, 0, 0]);
    assert_eq!(s.duration_us, Some(14_000_000));
    assert_eq!(s.code, "outputcode");
    assert_eq!(s.layout, "question_answer");
    assert!(!s.all_at_once);
}

#[test]
fn pipe_row_layout_follows_turn() {
    assert_eq!(parse_pipe_row("a|T|x|c", 0, 1).layout, "left_stack");
    assert_eq!(parse_pipe_row("a|T|x|c", 0, 10).layout, "center_stack");
    assert_eq!(parse_pipe_row("a|T|x|c", 0, 11).layout, "question_answer");
    assert_eq!(parse_pipe_row("a|T|x|c", 0, 24).layout, "right_stack");
}

#[test]
fn pipe_row_without_title() {
    let s = parse_pipe_row("a| |first|(pause)|second|code", 0, 0);
    assert_eq!(s.title, "first");
    assert_eq!(s.points, vec!["second".to_string()]);
    assert_eq!(s.point_pause_counts_before, vec![1]);
    let s = parse_pipe_row("a||code", 6, 0);
    assert_eq!(s.title, "Video 7");
    assert!(s.points.is_empty());
    assert_eq!(s.code, "code");
}

#[test]
fn pipe_file_rotates_layouts() {
    let mut content = String::new();
    for i in 0..12 {
        content.push_str(&format!("niche|Reel {}|point {}|Duration: 9|code{}\n", i, i, i));
    }
    let scripts = parse_scripts(&content);
    assert_eq!(scripts.len(), 12);
    let expected = [
        "question_answer",
        "left_stack",
        "right_stack",
        "list_style",
        "top_bottom",
        "one_word_hook",
        "quote_style",
        "story_block",
        "progress_reveal",
        "center_card",
        "center_stack",
        "question_answer",
    ];
    for (i, s) in scripts.iter().enumerate() {
        assert_eq!(s.layout, expected[i]);
        assert_eq!(s.title, format!("Reel {}", i));
        assert_eq!(s.points, vec![format!("point {}", i)]);
        assert_eq!(s.duration_us, Some(9_000_000));
        assert_eq!(s.code, format!("code{}", i));
    }
}

#[test]
fn pipe_rows_and_blocks_mix() {
    let content = "a|One|x|c1\nb|Two|y|c2\n---\nTITLE: Plain\npoint\n---\nc|Three|z|c3\n";
    let scripts = parse_scripts(content);
    assert_eq!(scripts.len(), 4);
    assert_eq!(scripts[0].layout, "question_answer");
    assert_eq!(scripts[1].layout, "left_stack");
    assert_eq!(scripts[2].title, "Plain");
    assert_eq!(scripts[2].layout, "center_stack");
    assert_eq!(scripts[3].title, "Three");
    assert_eq!(scripts[3].layout, "right_stack");
}

#[test]
fn block_with_some_bars_is_plain() {
    let scripts = parse_scripts("Title: A|B\nplain line\n");
    assert_eq!(scripts.len(), 1);
    assert_eq!(scripts[0].title, "A|B");
    assert_eq!(scripts[0].points, vec!["plain line".to_string()]);
}

#[test]
fn loose_key_of_key_is_key() {
    for text in ["Hello, World!!", "  A--b  ", "....", "Ünïcode Wörds", "x\u{00a0}y", "Top 3\u{3000}Tips"] {
        let key = loose_text_key(text);
        assert_eq!(loose_text_key(&key), key);
        assert!(!key.starts_with(' ') && !key.ends_with(' ') && !key.contains("  "));
    }
    assert_eq!(loose_text_key("x\u{00a0}y"), "x y");
}

#[test]
fn slug_parts_are_alnum_runs() {
    assert_eq!(slugify("Week 12: Best-Of (Part 2)"), "week-12-best-of-part-2");
    assert_eq!(slugify("éé"), "reel");
    assert_eq!(slugify("--A1b2--C"), "a1b2-c");
}

#[test]
fn parsed_points_are_trimmed_and_layout_normal() {
    let s = parse_script_block("format: Two Column Split\n-   spaced point   \n  3)  third\t", 0);
    assert_eq!(s.title, "spaced point");
    assert_eq!(s.points, vec!["third".to_string()]);
    assert_eq!(s.layout, "two_column_split");
    assert_eq!(normalize_layout(&s.layout), s.layout);
}

#[test]
fn metadata_keys_fold_case() {
    let s = parse_script_block("Title: T\n\u{17f}tyle 2: hidden\nK-\u{212a}_9: hidden\n\u{e4}x: shown\n9lives: shown too", 0);
    assert_eq!(s.points, vec!["\u{e4}x: shown".to_string(), "9lives: shown too".to_string()]);
}
