use text_on_image::layout::{layout_lines, Placement};
use text_on_image::place::{layout_text, wrap_lines};
use text_on_image::render::{min_wrap_width_of, wrap_width_accepted};
use text_on_image::text::{split_lines, split_words, trim_text};
use text_on_image::wrap::wrap_line;
use text_on_image::{TextJustify, TextOnImageError, VerticalAnchor, WrapBehavior};

fn mono(s: &str) -> u32 {
    s.chars().count() as u32 * 10
}

fn strings(v: &[&str]) -> Vec<String> {
    v.iter().map(|s| s.to_string()).collect()
}

fn origins(v: &[Placement]) -> Vec<(String, i32, i32)> {
    v.iter().map(|p| (p.text.clone(), p.x, p.y)).collect()
}

#[test]
fn defaults_and_wrap_constructor() {
    assert_eq!(TextJustify::default(), TextJustify::Center);
    assert_eq!(VerticalAnchor::default(), VerticalAnchor::Center);
    assert_eq!(WrapBehavior::default(), WrapBehavior::NoWrap);
    assert_eq!(WrapBehavior::new(250), WrapBehavior::Wrap(250));
}

#[test]
fn lines_are_split_and_trimmed() {
    let lines = split_lines("This is Line 1\n        Thisislinewithextralong 2");
    assert_eq!(lines, strings(&["This is Line 1", "Thisislinewithextralong 2"]));
}

#[test]
fn blank_lines_are_kept_and_final_newline_ignored() {
    assert_eq!(split_lines("a\n\n  b  \n"), strings(&["a", "", "b"]));
    assert_eq!(split_lines("a\r\nb"), strings(&["a", "b"]));
    assert_eq!(split_lines(""), Vec::<String>::new());
    assert_eq!(split_lines("\n"), strings(&[""]));
    assert_eq!(split_lines("x\n   "), strings(&["x", ""]));
}

#[test]
fn trimming_removes_unicode_white_space() {
    assert_eq!(trim_text("\u{3000}\t hi there \u{a0}\n"), "hi there");
    assert_eq!(trim_text("   "), "");
}

#[test]
fn words_drop_all_white_space() {
    assert_eq!(split_words("  one\ttwo   three "), strings(&["one", "two", "three"]));
    assert_eq!(split_words(" \t "), Vec::<String>::new());
}

#[test]
fn exact_fit_stays_on_one_line() {
    let max = mono("hello world");
    assert_eq!(wrap_line("hello world", max, &mono), strings(&["hello world"]));
}

#[test]
fn one_pixel_less_breaks_between_words() {
    let max = mono("hello world") - 1;
    assert_eq!(wrap_line("hello world", max, &mono), strings(&["hello", "world"]));
}

#[test]
fn long_word_is_broken_with_hyphens() {
    let lines = wrap_line("averylongunbrokenword", 50, &mono);
    assert_eq!(lines, strings(&["avery-", "longu-", "nbrok-", "enwor-", "d"]));
    let joined: String = lines.iter().map(|l| l.trim_end_matches('-')).collect();
    assert_eq!(joined, "averylongunbrokenword");
    assert!(lines.len() > 1);
}

#[test]
fn overflowing_word_moves_to_a_fresh_line_whole() {
    let lines = wrap_line("ab cdef", 50, &mono);
    assert_eq!(lines, strings(&["ab", "cdef"]));
}

#[test]
fn word_after_full_line_is_broken_keeping_every_character() {
    let lines = wrap_line("This Thisislinewithextralong 2", 100, &mono);
    assert_eq!(lines, strings(&["This", "Thisisline-", "withextral-", "ong 2"]));
}

#[test]
fn wrapped_widths_stay_within_budget() {
    let max = 70;
    let text = "the quick brown fox jumps over a remarkably lazy dog";
    for l in wrap_line(text, max, &mono) {
        let core = l.strip_suffix('-').unwrap_or(&l);
        assert!(mono(core) <= max || core.chars().count() <= 1, "{}", l);
    }
}

#[test]
fn wrapped_lines_keep_the_words_in_order() {
    let text = "  several   words, one extraordinarilylongword and more ";
    let lines = wrap_line(text, 60, &mono);
    let joined: String = lines
        .iter()
        .map(|l| l.trim_end_matches('-').replace(' ', ""))
        .collect();
    let words: String = text.split_whitespace().collect();
    assert_eq!(joined, words);
}

#[test]
fn empty_line_wraps_to_one_empty_line() {
    assert_eq!(wrap_line("   ", 100, &mono), strings(&[""]));
}

#[test]
fn wrapping_several_lines_keeps_their_order() {
    let lines = strings(&["aa bb", "", "cc"]);
    assert_eq!(wrap_lines(&lines, 30, &mono), strings(&["aa", "bb", "", "cc"]));
}

#[test]
fn right_justified_origin() {
    let lines = strings(&["0123456789"]);
    let r = layout_lines(&lines, &mono, 20, 400, 0, TextJustify::Right, VerticalAnchor::Top).unwrap();
    assert_eq!(origins(&r), vec![("0123456789".to_string(), 300, 0)]);
}

#[test]
fn centred_and_left_origins() {
    let lines = strings(&["abcdefghijk"]);
    let c = layout_lines(&lines, &mono, 20, 400, 7, TextJustify::Center, VerticalAnchor::Top).unwrap();
    assert_eq!((c[0].x, c[0].y), (345, 7));
    let l = layout_lines(&lines, &mono, 20, 400, 7, TextJustify::Left, VerticalAnchor::Top).unwrap();
    assert_eq!((l[0].x, l[0].y), (400, 7));
}

#[test]
fn top_anchor_offsets() {
    let lines = strings(&["a", "b", "c"]);
    let r = layout_lines(&lines, &mono, 20, 0, 0, TextJustify::Left, VerticalAnchor::Top).unwrap();
    let ys: Vec<i32> = r.iter().map(|p| p.y).collect();
    assert_eq!(ys, vec![0, 20, 40]);
}

#[test]
fn bottom_anchor_offsets() {
    let lines = strings(&["a", "b", "c"]);
    let r = layout_lines(&lines, &mono, 20, 0, 100, TextJustify::Left, VerticalAnchor::Bottom).unwrap();
    let ys: Vec<i32> = r.iter().map(|p| p.y).collect();
    assert_eq!(ys, vec![40, 60, 80]);
    let one = layout_lines(&strings(&["a"]), &mono, 20, 0, 0, TextJustify::Left, VerticalAnchor::Bottom).unwrap();
    assert_eq!(one[0].y, -20);
}

#[test]
fn centre_anchor_offsets_round_toward_zero() {
    let three = strings(&["a", "b", "c"]);
    let r = layout_lines(&three, &mono, 15, 0, 0, TextJustify::Left, VerticalAnchor::Center).unwrap();
    let ys: Vec<i32> = r.iter().map(|p| p.y).collect();
    assert_eq!(ys, vec![-22, -7, 7]);
    let two = strings(&["a", "b"]);
    let r = layout_lines(&two, &mono, 20, 0, 0, TextJustify::Left, VerticalAnchor::Center).unwrap();
    let ys: Vec<i32> = r.iter().map(|p| p.y).collect();
    assert_eq!(ys, vec![-20, 0]);
}

#[test]
fn origin_outside_i32_is_an_error() {
    let lines = strings(&["abc"]);
    let r = layout_lines(&lines, &mono, 20, i32::MIN, 0, TextJustify::Right, VerticalAnchor::Top);
    assert_eq!(r.unwrap_err(), TextOnImageError::PositionOutOfRange);
    let r = layout_lines(&lines, &mono, u32::MAX, 0, i32::MAX, TextJustify::Left, VerticalAnchor::Top);
    assert!(r.is_ok());
    let r = layout_lines(&strings(&["a", "b"]), &mono, u32::MAX, 0, 0, TextJustify::Left, VerticalAnchor::Top);
    assert_eq!(r.unwrap_err(), TextOnImageError::PositionOutOfRange);
}

#[test]
fn narrow_wrap_width_is_rejected_with_the_minimum() {
    let r = layout_text("hello", &mono, 20, 0, 0, TextJustify::Left, VerticalAnchor::Top, WrapBehavior::Wrap(19));
    assert_eq!(r.unwrap_err(), TextOnImageError::WrapWidthTooSmall(20));
    let r = layout_text("hello", &mono, 20, 0, 0, TextJustify::Left, VerticalAnchor::Top, WrapBehavior::Wrap(20));
    assert!(r.is_ok());
}

#[test]
fn no_wrap_draws_the_trimmed_lines() {
    let r = layout_text(
        "  first line is long  \n second ",
        &mono,
        20,
        10,
        10,
        TextJustify::Left,
        VerticalAnchor::Top,
        WrapBehavior::NoWrap,
    )
    .unwrap();
    assert_eq!(
        origins(&r),
        vec![("first line is long".to_string(), 10, 10), ("second".to_string(), 10, 30)]
    );
}

#[test]
fn layout_text_wraps_then_places() {
    let r = layout_text(
        "This is Line 1\n        Thisislinewithextralong 2",
        &mono,
        40,
        400,
        800,
        TextJustify::Center,
        VerticalAnchor::Center,
        WrapBehavior::Wrap(150),
    )
    .unwrap();
    assert_eq!(
        origins(&r),
        vec![
            ("This is Line 1".to_string(), 330, 740),
            ("Thisislinewithe-".to_string(), 320, 780),
            ("xtralong 2".to_string(), 350, 820),
        ]
    );
}

#[test]
fn repeated_layout_is_identical() {
    let run = || {
        origins(
            &layout_text(
                "one two three four five six",
                &mono,
                18,
                200,
                100,
                TextJustify::Right,
                VerticalAnchor::Bottom,
                WrapBehavior::Wrap(90),
            )
            .unwrap(),
        )
    };
    assert_eq!(run(), run());
}

#[test]
fn wrap_width_check_uses_two_ems() {
    assert_eq!(min_wrap_width_of(&mono), 20);
    assert!(!wrap_width_accepted(WrapBehavior::Wrap(19), &mono));
    assert!(wrap_width_accepted(WrapBehavior::Wrap(20), &mono));
    assert!(wrap_width_accepted(WrapBehavior::NoWrap, &mono));
}

#[test]
fn rejoined_lines_give_the_words_back() {
    let text = " one  extraordinarilylongword two\tthree ";
    let lines = wrap_line(text, 60, &mono);
    let mut joined = String::new();
    for (k, l) in lines.iter().enumerate() {
        match l.strip_suffix('-') {
            Some(core) => joined.push_str(core),
            None => {
                joined.push_str(l);
                if k + 1 < lines.len() {
                    joined.push(' ');
                }
            }
        }
    }
    let words: Vec<&str> = text.split_whitespace().collect();
    assert_eq!(joined, words.join(" "));
}
