use bwoc_chat::colour::Rgba;
use bwoc_chat::screen::{message_sections, reply_heading};
use eframe::egui;
use std::sync::Arc;

const WHITE: Rgba = Rgba {
    r: 255,
    g: 255,
    b: 255,
    a: 255,
};

/// Lay a message out through egui's text engine. `Context::fonts` needs one `run()` first to
/// construct the font atlas.
fn layout(text: &str, max_width: f32, line_height: f32) -> Arc<egui::Galley> {
    let ctx = egui::Context::default();
    let _ = ctx.run(egui::RawInput::default(), |_| {});
    let (prefix, body) = message_sections("you", text, WHITE, WHITE);
    let mut job = egui::text::LayoutJob::default();
    job.wrap.max_width = max_width;
    for section in [prefix, body] {
        let c = section.color;
        job.append(
            &section.text,
            0.0,
            egui::TextFormat {
                font_id: egui::FontId::proportional(14.0),
                color: egui::Color32::from_rgba_premultiplied(c.r, c.g, c.b, c.a),
                line_height: Some(line_height),
                ..Default::default()
            },
        );
    }
    ctx.fonts(|f| f.layout_job(job))
}

#[test]
fn spaceless_text_wraps_to_width() {
    let long = "x".repeat(400);
    let g = layout(&long, 180.0, 20.0);
    assert!(
        g.rows.len() > 1,
        "space-less text should wrap to multiple rows, got {}",
        g.rows.len()
    );
    assert!(
        g.size().x <= 182.0,
        "galley width {} should not exceed the 180px wrap width",
        g.size().x
    );
}

#[test]
fn line_height_increases_row_spacing() {
    let tight = layout("alpha\nbeta", 1000.0, 14.0);
    let roomy = layout("alpha\nbeta", 1000.0, 28.0);
    assert!(
        roomy.size().y > tight.size().y,
        "a larger line_height should produce a taller galley ({} vs {})",
        roomy.size().y,
        tight.size().y
    );
}

#[test]
fn short_text_stays_one_row() {
    let g = layout("hi", 1000.0, 20.0);
    assert_eq!(g.rows.len(), 1);
}

#[test]
fn a_line_is_tag_and_text() {
    let gray = Rgba {
        r: 1,
        g: 2,
        b: 3,
        a: 4,
    };
    let (prefix, body) = message_sections("you", "hi there", gray, WHITE);
    assert_eq!(prefix.text, "you: ");
    assert_eq!(prefix.color, gray);
    assert_eq!(body.text, "hi there");
    assert_eq!(body.color, WHITE);
    assert_eq!(reply_heading("ada"), "ada:");
}
