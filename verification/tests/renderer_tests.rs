use s6ui::renderer::{
    choose_renderer, pick_renderer, ImagePreviewRenderer, JsonlPreviewRenderer, PreviewRenderer,
    RendererKind, TextPreviewRenderer,
};

#[test]
fn the_first_renderer_that_can_handle_a_key_is_chosen() {
    assert_eq!(choose_renderer("logs/a.jsonl", false), RendererKind::Jsonl);
    assert_eq!(choose_renderer("logs/A.NDJSON.GZ", false), RendererKind::Jsonl);
    assert_eq!(choose_renderer("a.jsonl.zst", false), RendererKind::Jsonl);
    assert_eq!(choose_renderer("a.jsonl.zstd", true), RendererKind::Text);
    assert_eq!(choose_renderer("a.jsonl", true), RendererKind::Text);
    assert_eq!(choose_renderer("pic.PNG", false), RendererKind::Image);
    assert_eq!(choose_renderer("pic.jpeg", true), RendererKind::Image);
    assert_eq!(choose_renderer("notes.txt", false), RendererKind::Text);
    assert_eq!(choose_renderer("a.json", false), RendererKind::Text);
    assert_eq!(choose_renderer("jsonl", false), RendererKind::Text);
    assert_eq!(choose_renderer("", false), RendererKind::Text);
    assert!(JsonlPreviewRenderer::is_jsonl_extension("x.ndjson"));
    assert!(JsonlPreviewRenderer::is_jsonl_extension("x.ndjson.zstd"));
    assert!(!JsonlPreviewRenderer::is_jsonl_extension("x.jsonl.bz2"));
    assert!(ImagePreviewRenderer::is_image_extension("x.GIF"));
    assert!(ImagePreviewRenderer::is_image_extension("x.bmp"));
    assert!(ImagePreviewRenderer::is_image_extension("x.jpg"));
    assert!(!ImagePreviewRenderer::is_image_extension("x.webp"));
}

#[test]
fn the_jsonl_renderer_steps_through_the_lines_of_one_object() {
    let mut r = JsonlPreviewRenderer::new();
    assert_eq!(r.current_line(), 0);
    r.step_back();
    assert_eq!(r.current_line(), 0);
    r.show("a.jsonl");
    r.step_forward(3);
    r.step_forward(3);
    assert_eq!(r.current_line(), 2);
    r.step_forward(3);
    assert_eq!(r.current_line(), 2);
    r.step_forward(0);
    assert_eq!(r.current_line(), 2);
    r.show("a.jsonl");
    assert_eq!(r.current_line(), 2);
    r.step_back();
    assert_eq!(r.current_line(), 1);
    r.show("b.jsonl");
    assert_eq!(r.current_line(), 0);
    r.step_forward(usize::MAX);
    assert_eq!(r.current_line(), 1);
    r.reset();
    assert_eq!(r.current_line(), 0);
}

#[test]
fn a_line_that_is_no_json_sends_the_object_to_the_next_renderer() {
    let mut jsonl = JsonlPreviewRenderer::new();
    let image = ImagePreviewRenderer::new();
    let text = TextPreviewRenderer::new();
    assert!(jsonl.can_handle("logs/A.JSONL"));
    assert!(!jsonl.can_handle("logs/a.json"));
    assert!(image.can_handle("x.Jpeg"));
    assert!(!image.can_handle("x.txt"));
    assert!(text.can_handle("anything"));
    assert!(!image.wants_fallback("b", "x.png"));
    assert!(!text.wants_fallback("b", "x.png"));

    assert!(jsonl.check_line("b", "a.jsonl", "{\"k\": [1, 2.5, null, \"v\"]}"));
    assert!(jsonl.check_line("b", "a.jsonl", " 17 "));
    assert!(!jsonl.wants_fallback("b", "a.jsonl"));
    assert_eq!(pick_renderer(&jsonl, &image, &text, "b", "a.jsonl"), RendererKind::Jsonl);

    assert!(!jsonl.check_line("b", "a.jsonl", "{\"k\": "));
    assert!(!jsonl.check_line("b", "a.jsonl", "plain text"));
    assert!(!jsonl.check_line("b", "a.jsonl", ""));
    assert!(!jsonl.check_line("b", "a.jsonl", "{} {}"));
    assert!(jsonl.wants_fallback("b", "a.jsonl"));
    assert!(!jsonl.wants_fallback("b", "other.jsonl"));
    assert!(!jsonl.wants_fallback("b/a", ".jsonl"));
    assert!(!jsonl.wants_fallback("c", "a.jsonl"));
    assert_eq!(pick_renderer(&jsonl, &image, &text, "b", "a.jsonl"), RendererKind::Text);
    assert_eq!(pick_renderer(&jsonl, &image, &text, "c", "a.jsonl"), RendererKind::Jsonl);
    assert_eq!(pick_renderer(&jsonl, &image, &text, "b", "p.gif"), RendererKind::Image);
    assert_eq!(pick_renderer(&jsonl, &image, &text, "b", "p.bin"), RendererKind::Text);

    jsonl.note_line("b", "pic.jsonl.gz", false);
    jsonl.note_line("b", "ok.jsonl", true);
    jsonl.reset();
    assert!(jsonl.wants_fallback("b", "a.jsonl"));
    assert!(jsonl.wants_fallback("b", "pic.jsonl.gz"));
    assert!(!jsonl.wants_fallback("b", "ok.jsonl"));
}
