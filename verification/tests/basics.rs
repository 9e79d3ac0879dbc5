use eidos::text::split_lines;
use eidos::{Alignment, Color, EidosError, Easing, RenderMode};

#[test]
fn color_rgb_keeps_components() {
    let c = Color::rgb(100, 149, 237);
    assert_eq!(c.r, 100);
    assert_eq!(c.g, 149);
    assert_eq!(c.b, 237);
}

#[test]
fn color_to_hex_is_lowercase_css() {
    assert_eq!(Color::red().to_hex(), "#ff0000");
    assert_eq!(Color::rgb(100, 149, 237).to_hex(), "#6495ed");
    assert_eq!(Color::rgb(0, 10, 171).to_hex(), "#000aab");
    assert_eq!(Color::black().to_hex(), "#000000");
    assert_eq!(Color::white().to_hex(), "#ffffff");
}

#[test]
fn color_named_values() {
    assert_eq!(Color::red(), Color::rgb(255, 0, 0));
    assert_eq!(Color::green(), Color::rgb(0, 255, 0));
    assert_eq!(Color::blue(), Color::rgb(0, 0, 255));
    assert_eq!(Color::white(), Color::rgb(255, 255, 255));
    assert_eq!(Color::black(), Color::rgb(0, 0, 0));
    assert_eq!(Color::yellow(), Color::rgb(255, 255, 0));
    assert_eq!(Color::cyan(), Color::rgb(0, 255, 255));
    assert_eq!(Color::magenta(), Color::rgb(255, 0, 255));
    assert_eq!(Color::gray(), Color::rgb(128, 128, 128));
    assert_eq!(Color::transparent(), Color::rgb(0, 0, 0));
}

#[test]
fn error_messages_carry_the_kind_and_the_detail() {
    let e = EidosError::InvalidConfig("fps must be greater than zero".to_string());
    assert_eq!(e.message(), "invalid configuration: fps must be greater than zero");
    let e = EidosError::RenderFailed("ffmpeg exited".to_string());
    assert_eq!(e.message(), "render failed: ffmpeg exited");
}

#[test]
fn alignment_maps_to_svg_text_anchor() {
    assert_eq!(Alignment::Left.to_svg_anchor(), "start");
    assert_eq!(Alignment::Center.to_svg_anchor(), "middle");
    assert_eq!(Alignment::Right.to_svg_anchor(), "end");
}

#[test]
fn render_mode_default_value_is_shaded() {
    assert_eq!(RenderMode::default(), RenderMode::Shaded);
    assert_ne!(RenderMode::default(), RenderMode::Wireframe);
}

#[test]
fn easing_variants_are_distinct() {
    assert_ne!(Easing::Linear, Easing::EaseInOut);
    assert_eq!(Easing::EaseIn, Easing::EaseIn);
}

#[test]
fn split_lines_multiline() {
    let lines = split_lines("line1\nline2\nline3");
    assert_eq!(lines.len(), 3);
    assert_eq!(lines[0], "line1");
    assert_eq!(lines[2], "line3");
}

#[test]
fn split_lines_edges() {
    assert_eq!(split_lines(""), vec![String::new()]);
    assert_eq!(split_lines("Hello"), vec!["Hello".to_string()]);
    assert_eq!(
        split_lines("\na\n"),
        vec![String::new(), "a".to_string(), String::new()]
    );
    assert_eq!(split_lines("é\nü"), vec!["é".to_string(), "ü".to_string()]);
    assert_eq!(split_lines("a\nb\nc").join("\n"), "a\nb\nc");
}
