use wmacro::blob::largest_color_region;
use wmacro::effects::parse_args;
use wmacro::expr::{tokenize, BinOp, Token};
use wmacro::outputs::{collect_outputs, output_info_of, outputs_ready, OutputAccum};
use wmacro::pixels::{channel_offsets, convert_region, is_color_match, luma_word, PixelFormat};
use wmacro::rng::Pcg;
use wmacro::settings::{max_loops, should_stop_playback, wmr_file_name, DelayUnit, MacroRepeatMode};
use wmacro::types::{ClickButton, ClickType, CompareOp, Hotkey, MacroEvent, Modifiers};

#[test]
fn tokenizer_reads_operators_names_and_literals() {
    let toks = tokenize("$n + 1.5 * max(2, 'a b') >= 3 ? x : y").unwrap();
    assert_eq!(
        toks,
        vec![
            Token::Var("n".into()),
            Token::Op(BinOp::Add),
            Token::Number("1.5".into()),
            Token::Op(BinOp::Mul),
            Token::Ident("max".into()),
            Token::LParen,
            Token::Number("2".into()),
            Token::Comma,
            Token::String("a b".into()),
            Token::RParen,
            Token::Op(BinOp::Ge),
            Token::Number("3".into()),
            Token::Question,
            Token::Ident("x".into()),
            Token::Colon,
            Token::Ident("y".into()),
        ]
    );
}

#[test]
fn tokenizer_errors() {
    assert_eq!(tokenize("1 = 2").unwrap_err(), "expected '=' after '=' (use '==' to compare)");
    assert_eq!(tokenize("1 ! 2").unwrap_err(), "expected '=' after '!' (use '!=' to compare)");
    assert_eq!(tokenize("$ + 1").unwrap_err(), "expected a variable name after '$'");
    assert_eq!(tokenize("\"open").unwrap_err(), "unterminated string literal");
    assert_eq!(tokenize("1 # 2").unwrap_err(), "unexpected character '#'");
}

#[test]
fn tokenizer_comparisons_and_concat() {
    let toks = tokenize("a.b<=c!=d==e<f").unwrap();
    assert_eq!(toks[1], Token::Op(BinOp::Concat));
    assert_eq!(toks[3], Token::Op(BinOp::Le));
    assert_eq!(toks[5], Token::Op(BinOp::Ne));
    assert_eq!(toks[7], Token::Op(BinOp::Eq));
    assert_eq!(toks[9], Token::Op(BinOp::Lt));
    assert_eq!(BinOp::Le.to_compare_op(), Some(CompareOp::Le));
    assert_eq!(BinOp::Add.to_compare_op(), None);
}

#[test]
fn args_split_on_blanks_outside_quotes() {
    assert_eq!(parse_args("a  b\t'c d' \"e'f\""), vec!["a", "b", "c d", "e'f"]);
    assert!(parse_args("   ").is_empty());
    assert_eq!(parse_args("x\"y z\"w"), vec!["xy zw"]);
}

#[test]
fn channel_layouts() {
    assert_eq!(channel_offsets(PixelFormat::Bgra), (2, 1, 0));
    assert_eq!(channel_offsets(PixelFormat::Rgbx), (0, 1, 2));
    assert_eq!(channel_offsets(PixelFormat::Argb), (1, 2, 3));
    assert_eq!(channel_offsets(PixelFormat::Abgr), (3, 2, 1));
}

#[test]
fn luma_weights_sum_to_full_scale() {
    assert_eq!(luma_word(0x00ff_ffff, 0, 1, 2), 255);
    assert_eq!(luma_word(0, 0, 1, 2), 0);
    assert_eq!(luma_word(0x0000_00ff, 0, 1, 2), 76);
}

#[test]
fn region_conversion_reads_rows_and_zero_fills() {
    // a 2x2 frame of BGRA pixels, 8 bytes per row
    let src: Vec<u8> = vec![0, 0, 255, 0, 255, 255, 255, 0, 0, 0, 0, 0, 0, 255, 0, 0];
    let mut dst = vec![9u8; 4];
    convert_region(&src, 8, PixelFormat::Bgra, 0, 0, 2, 2, &mut dst);
    assert_eq!(dst, vec![76, 255, 0, 149]);
}

#[test]
fn color_match_uses_the_squared_limit() {
    assert!(is_color_match(10, 10, 10, 10, 10, 10, 0, 0));
    assert!(!is_color_match(11, 10, 10, 10, 10, 10, 0, 1000));
    assert!(is_color_match(13, 14, 10, 10, 10, 10, 5, 25));
    assert!(!is_color_match(13, 15, 10, 10, 10, 10, 5, 25));
}

/// A `w` by `h` RGBA frame, red where `on` says so and black elsewhere.
fn frame(w: usize, h: usize, on: &[(usize, usize)]) -> Vec<u8> {
    let mut v = vec![0u8; w * h * 4];
    for &(x, y) in on {
        v[(y * w + x) * 4] = 255;
    }
    v
}

#[test]
fn largest_region_wins() {
    let buf = frame(6, 4, &[(0, 0), (1, 1), (4, 0), (5, 0), (4, 1), (5, 1), (4, 2)]);
    let r = largest_color_region(&buf, 24, 6, 4, PixelFormat::Rgba, 255, 0, 0, 0, 1, 1).unwrap();
    assert_eq!(r.area, 5);
    assert_eq!((r.x0, r.y0, r.x1, r.y1), (4, 0, 5, 2));
    assert_eq!((r.sum_x, r.sum_y), (22, 4));
    assert_eq!((r.width(), r.height()), (2, 3));
}

#[test]
fn diagonal_neighbours_join_and_size_filters_apply() {
    let buf = frame(4, 4, &[(0, 0), (1, 1), (2, 2), (3, 3)]);
    let r = largest_color_region(&buf, 16, 4, 4, PixelFormat::Rgba, 255, 0, 0, 0, 4, 4).unwrap();
    assert_eq!(r.area, 4);
    assert!(largest_color_region(&buf, 16, 4, 4, PixelFormat::Rgba, 255, 0, 0, 0, 5, 1).is_none());
}

#[test]
fn equal_regions_keep_the_first_in_row_order() {
    let buf = frame(5, 3, &[(4, 0), (0, 2), (1, 2)]);
    let r = largest_color_region(&buf, 20, 5, 3, PixelFormat::Rgba, 255, 0, 0, 0, 1, 1).unwrap();
    assert_eq!(r.area, 2);
    assert_eq!((r.x0, r.y0), (0, 2));
    let two = frame(5, 3, &[(3, 0), (4, 0), (0, 2), (1, 2)]);
    let r = largest_color_region(&two, 20, 5, 3, PixelFormat::Rgba, 255, 0, 0, 0, 1, 1).unwrap();
    assert_eq!((r.x0, r.y0), (3, 0));
}

#[test]
fn no_match_or_empty_frame_finds_nothing() {
    let buf = frame(3, 3, &[]);
    assert!(largest_color_region(&buf, 12, 3, 3, PixelFormat::Rgba, 255, 0, 0, 0, 1, 1).is_none());
    assert!(largest_color_region(&Vec::new(), 0, 0, 0, PixelFormat::Rgba, 255, 0, 0, 0, 1, 1).is_none());
    // rows past the end of a short buffer never match
    let short = vec![255u8, 0, 0, 0];
    let r = largest_color_region(&short, 4, 1, 3, PixelFormat::Rgba, 255, 0, 0, 0, 1, 1).unwrap();
    assert_eq!(r.area, 1);
}

fn accum() -> OutputAccum {
    OutputAccum::new()
}

#[test]
fn logical_geometry_is_taken_as_reported() {
    let mut a = accum();
    a.name = Some("DP-1".into());
    a.log_pos = Some((1920, 0));
    a.log_size = Some((2560, -5));
    let o = output_info_of(&a, true).unwrap();
    assert_eq!((o.name.as_str(), o.pos, o.size), ("DP-1", (1920, 0), (2560, 0)));
    assert!(output_info_of(&accum(), true).is_none());
}

#[test]
fn core_geometry_is_divided_by_the_scale() {
    let mut a = accum();
    a.geom_pos = Some((0, 0));
    a.geom_size = Some((3840, 2161));
    a.scale = Some(2);
    let o = output_info_of(&a, false).unwrap();
    assert_eq!(o.size, (1920, 1081));
    assert_eq!(o.name, "");
    a.scale = Some(0);
    assert_eq!(output_info_of(&a, false).unwrap().size, (3840, 2161));
}

#[test]
fn outputs_are_collected_in_order() {
    let mut a = accum();
    a.log_pos = Some((0, 0));
    a.log_size = Some((100, 100));
    let b = accum();
    assert!(!outputs_ready(&vec![accum()], true));
    let all = collect_outputs(&vec![b, a], true).unwrap();
    assert_eq!(all.len(), 1);
    assert!(collect_outputs(&vec![accum()], true).is_err());
}

#[test]
fn pcg_ranges_stay_inclusive() {
    let mut rng = Pcg::new(42);
    for _ in 0..500 {
        let v = rng.next_range_i64(-3, 3);
        assert!((-3..=3).contains(&v));
    }
    assert_eq!(rng.next_range_i64(5, 5), 5);
    let mut a = Pcg::new(7);
    let mut b = Pcg::new(7);
    assert_eq!(a.next_u32(), b.next_u32());
}

#[test]
fn repeat_modes_bound_the_loops() {
    assert_eq!(max_loops(MacroRepeatMode::Once), Some(1));
    assert_eq!(max_loops(MacroRepeatMode::Count(4)), Some(4));
    assert_eq!(max_loops(MacroRepeatMode::Infinite), None);
    assert!(should_stop_playback(false, Some(3), 3));
    assert!(!should_stop_playback(false, Some(3), 2));
    assert!(!should_stop_playback(false, None, 1_000_000));
    assert!(should_stop_playback(true, None, 0));
}

#[test]
fn labels_and_names() {
    assert_eq!(DelayUnit::Seconds.label(), "s");
    assert_eq!(ClickButton::Middle.label(), "Middle");
    assert_eq!(ClickType::Double.label(), "Double");
    assert_eq!(CompareOp::Contains.symbol(), "contains");
    assert_eq!(wmr_file_name("farm"), "farm.wmr");
}

#[test]
fn modifiers_track_their_keys() {
    let mut m = Modifiers::default();
    assert!(m.apply(29, true));
    assert!(m.ctrl);
    assert!(!m.apply(30, true));
    assert!(m.apply(29, false));
    assert!(!m.ctrl);
    assert!(Modifiers::is_modifier_code(42));
    let hk = Hotkey::plain(59);
    assert!(hk.matches(59, &Modifiers::default()));
    let mut shifted = Modifiers::default();
    shifted.apply(42, true);
    assert!(!hk.matches(59, &shifted));
    assert_eq!(MacroEvent::Delay(12).delay_us(), 12);
    assert_eq!(MacroEvent::Scroll { dx: 1, dy: 1 }.delay_us(), 0);
}

#[test]
fn wide_ranges_reach_past_32_bits() {
    let mut rng = Pcg::new(3);
    let mut high = false;
    for _ in 0..50 {
        let v = rng.next_range_i64(0, 1 << 40);
        assert!((0..=(1i64 << 40)).contains(&v));
        if v >= 1 << 32 {
            high = true;
        }
    }
    assert!(high);
    let mut full = Pcg::new(9);
    let _ = full.next_range_i64(i64::MIN, i64::MAX);
}
