//! The footer of the terminal client.

use deepseek_swarm::footer::{
    count_fitting, cut_measured, footer_agents_chip, footer_working_strip_glyph_at,
    footer_working_strip_string, gap_width, left_budget, mode_style, most_fitting, span_width,
    status_layout, truncate_to_width, App, AppMode, Color, FooterProps, FooterToast, FooterWidget,
    Span, StatusLayout, Style,
};
use ratatui::widgets::Widget;

fn make_app() -> App {
    App {
        mode: AppMode::Agent,
        model: "deepseek-v4-flash".to_string(),
    }
}

fn idle_props_for(app: &App) -> FooterProps {
    FooterProps::from_app(
        app,
        None,
        "ready",
        Color::TextMuted,
        Vec::<Span>::new(),
        Vec::<Span>::new(),
        Vec::<Span>::new(),
        Vec::<Span>::new(),
        Vec::<Span>::new(),
    )
}

fn render(widget: &FooterWidget, area: ratatui::layout::Rect, buf: &mut ratatui::buffer::Buffer) {
    let spans: Vec<ratatui::text::Span<'static>> = widget
        .render(area.width, area.height)
        .into_iter()
        .map(|span| ratatui::text::Span::raw(span.content))
        .collect();
    if !spans.is_empty() {
        ratatui::widgets::Paragraph::new(ratatui::text::Line::from(spans)).render(area, buf);
    }
}

fn painted(widget: &FooterWidget, width: u16) -> String {
    let area = ratatui::layout::Rect::new(0, 0, width, 1);
    let mut buf = ratatui::buffer::Buffer::empty(area);
    render(widget, area, &mut buf);
    (0..area.width).map(|x| buf[(x, 0)].symbol()).collect()
}

#[test]
fn from_app_idle_state_carries_ready_label_and_no_chips() {
    let app = make_app();
    let props = idle_props_for(&app);

    assert_eq!(props.state_label, "ready");
    assert_eq!(props.state_color, Color::TextMuted);
    assert_eq!(props.mode_label, "agent");
    assert_eq!(props.mode_color, Color::ModeAgent);
    assert_eq!(props.model, "deepseek-v4-flash");
    assert!(props.coherence.is_empty());
    assert!(props.agents.is_empty());
    assert!(props.cache.is_empty());
    assert!(props.cost.is_empty());
    assert!(props.reasoning_replay.is_empty());
    assert!(props.toast.is_none());
}

#[test]
fn from_app_loading_state_uses_thinking_label_and_warning_color() {
    let app = make_app();
    let props = FooterProps::from_app(
        &app,
        None,
        "thinking \u{238B}",
        Color::StatusWarning,
        Vec::<Span>::new(),
        Vec::<Span>::new(),
        Vec::<Span>::new(),
        Vec::<Span>::new(),
        Vec::<Span>::new(),
    );

    assert!(props.state_label.starts_with("thinking"));
    assert_eq!(props.state_color, Color::StatusWarning);
}

#[test]
fn footer_agents_chip_is_empty_when_no_agents_running() {
    let chip = footer_agents_chip(0);
    assert!(chip.is_empty(), "0 agents in flight → no chip");
}

#[test]
fn footer_agents_chip_uses_singular_for_one() {
    let chip = footer_agents_chip(1);
    assert_eq!(chip.len(), 1);
    assert_eq!(chip[0].content.as_str(), "1 agent");
}

#[test]
fn footer_agents_chip_uses_plural_for_many() {
    let chip = footer_agents_chip(3);
    assert_eq!(chip.len(), 1);
    assert_eq!(chip[0].content.as_str(), "3 agents");
}

#[test]
fn footer_agents_chip_renders_into_widget() {
    let app = make_app();
    let agents = footer_agents_chip(2);
    let props = FooterProps::from_app(
        &app,
        None,
        "ready",
        Color::TextMuted,
        Vec::<Span>::new(),
        agents,
        Vec::<Span>::new(),
        Vec::<Span>::new(),
        Vec::<Span>::new(),
    );
    let widget = FooterWidget::new(props);
    let area = ratatui::layout::Rect::new(0, 0, 60, 1);
    let mut buf = ratatui::buffer::Buffer::empty(area);
    render(&widget, area, &mut buf);
    let rendered: String = (0..area.width).map(|x| buf[(x, 0)].symbol()).collect();
    assert!(
        rendered.contains("2 agents"),
        "expected agents chip in render: {rendered:?}",
    );
}

#[test]
fn from_app_mode_color_matches_mode_for_each_variant() {
    let mut app = make_app();
    let cases = [
        (AppMode::Agent, "agent", Color::ModeAgent),
        (AppMode::Yolo, "yolo", Color::ModeYolo),
        (AppMode::Plan, "plan", Color::ModePlan),
    ];
    for (mode, expected_label, expected_color) in cases {
        app.mode = mode;
        let props = idle_props_for(&app);
        assert_eq!(
            props.mode_label, expected_label,
            "label mismatch for {mode:?}",
        );
        assert_eq!(
            props.mode_color, expected_color,
            "color mismatch for {mode:?}",
        );
        assert_eq!(mode_style(mode), (expected_label, expected_color));
    }
}

#[test]
fn render_emits_mode_and_model_when_idle() {
    let app = make_app();
    let props = idle_props_for(&app);
    let widget = FooterWidget::new(props);

    let area = ratatui::layout::Rect::new(0, 0, 60, 1);
    let mut buf = ratatui::buffer::Buffer::empty(area);
    render(&widget, area, &mut buf);

    let rendered: String = (0..area.width).map(|x| buf[(x, 0)].symbol()).collect();
    assert!(rendered.contains("agent"));
    assert!(rendered.contains("deepseek-v4-flash"));
    assert!(!rendered.contains("ready"));
}

#[test]
fn working_strip_string_width_matches_request() {
    for width in [0usize, 1, 8, 60, 200] {
        let s = footer_working_strip_string(width, 7);
        assert_eq!(s.chars().count(), width, "width {width} mismatch");
    }
}

#[test]
fn working_strip_glyph_is_deterministic_per_frame() {
    let a = footer_working_strip_string(40, 1);
    let b = footer_working_strip_string(40, 1);
    assert_eq!(a, b, "deterministic given the same frame");
    let c = footer_working_strip_string(40, 2);
    assert_ne!(a, c, "advancing the frame must change the strip");
}

#[test]
fn working_strip_renders_glyphs_only_when_frame_is_some() {
    let app = make_app();
    let mut props = idle_props_for(&app);

    let area = ratatui::layout::Rect::new(0, 0, 80, 1);
    let mut buf = ratatui::buffer::Buffer::empty(area);
    render(&FooterWidget::new(props.clone()), area, &mut buf);
    let idle: String = (0..area.width).map(|x| buf[(x, 0)].symbol()).collect();

    props.working_strip_frame = Some(13);
    let mut buf2 = ratatui::buffer::Buffer::empty(area);
    render(&FooterWidget::new(props), area, &mut buf2);
    let active: String = (0..area.width).map(|x| buf2[(x, 0)].symbol()).collect();

    assert_ne!(
        idle, active,
        "active footer must visibly differ from idle one"
    );
    assert!(
        active.contains('\u{257F}') || active.contains('\u{2576}') || active.contains('\u{2500}'),
        "active strip must contain at least one animation glyph: {active:?}",
    );
}

#[test]
fn working_strip_spout_position_advances_with_frame() {
    let width = 16;
    let f0 = footer_working_strip_string(width, 1);
    let f1 = footer_working_strip_string(width, 2);
    let pos = |s: &str| s.chars().position(|c| c == '\u{257F}');
    let p0 = pos(&f0).expect("frame 1 has a spout");
    let p1 = pos(&f1).expect("frame 2 has a spout");
    assert_ne!(p0, p1, "spout column must advance between frames");
}

#[test]
fn render_swaps_toast_for_status_line() {
    let app = make_app();
    let toast = FooterToast {
        text: "session saved".to_string(),
        color: Color::Green,
    };
    let props = FooterProps::from_app(
        &app,
        Some(toast),
        "ready",
        Color::TextMuted,
        Vec::<Span>::new(),
        Vec::<Span>::new(),
        Vec::<Span>::new(),
        Vec::<Span>::new(),
        Vec::<Span>::new(),
    );
    let widget = FooterWidget::new(props);

    let area = ratatui::layout::Rect::new(0, 0, 60, 1);
    let mut buf = ratatui::buffer::Buffer::empty(area);
    render(&widget, area, &mut buf);

    let rendered: String = (0..area.width).map(|x| buf[(x, 0)].symbol()).collect();
    assert!(rendered.contains("session saved"));
    assert!(!rendered.contains("agent"));
    assert!(!rendered.contains("deepseek-v4-flash"));
}

#[test]
fn the_spout_bounces_between_the_ends() {
    let columns: Vec<usize> = (0..12)
        .map(|frame| {
            footer_working_strip_string(3, frame)
                .chars()
                .position(|c| c == '\u{257F}')
                .unwrap()
        })
        .collect();
    assert_eq!(columns, vec![0, 1, 2, 2, 1, 0, 0, 1, 2, 2, 1, 0]);
    assert_eq!(footer_working_strip_string(4, 1), "╶╿╶─");
    assert_eq!(footer_working_strip_glyph_at(0, 0, 5), ' ');
}

#[test]
fn frames_past_the_signed_range_count_from_below() {
    for width in [1usize, 2, 3, 7, 10] {
        for frame in [u64::MAX, u64::MAX - 1, 1 << 63, (1 << 63) + 5, i64::MAX as u64] {
            let w = width as i64;
            let t = (frame as i64).rem_euclid(2 * w);
            let pos = if t < w { t } else { 2 * w - 1 - t };
            let found = footer_working_strip_string(width, frame)
                .chars()
                .position(|c| c == '\u{257F}');
            assert_eq!(found, Some(pos as usize));
        }
    }
    assert_eq!(footer_working_strip_glyph_at(usize::MAX, 5, 0), '\u{2576}');
}

#[test]
fn long_texts_end_in_dots() {
    assert_eq!(truncate_to_width("abcdefgh", 0), "");
    assert_eq!(truncate_to_width("abcdefgh", 3), "abc");
    assert_eq!(truncate_to_width("abcdefgh", 7), "abcd...");
    assert_eq!(truncate_to_width("abcdefgh", 8), "abcdefgh");
    assert_eq!(truncate_to_width("ab", 1), "a");
    // Wide characters take two columns.
    assert_eq!(truncate_to_width("你好世界", 8), "你好世界");
    assert_eq!(truncate_to_width("你好世界", 7), "你好...");
    assert_eq!(truncate_to_width("你好世界", 6), "你...");
    assert_eq!(truncate_to_width("你好世界", 2), "你好");
}

#[test]
fn measured_texts_are_cut_by_their_widths() {
    let widths = vec![2, 1, 2, 1];
    assert_eq!(cut_measured("abcd", 6, &widths, 6), "abcd");
    assert_eq!(cut_measured("abcd", 6, &widths, 5), "a...");
    assert_eq!(cut_measured("abcd", 7, &widths, 6), "ab...");
    assert_eq!(cut_measured("abcd", 9, &widths, 2), "ab");
    assert_eq!(count_fitting(&widths, 0), 0);
    assert_eq!(count_fitting(&widths, 3), 2);
    assert_eq!(count_fitting(&widths, 99), 4);
}

#[test]
fn chips_are_dropped_from_the_end() {
    assert_eq!(most_fitting(&vec![0, 4, 9, 12], 12), 3);
    assert_eq!(most_fitting(&vec![0, 4, 9, 12], 11), 2);
    assert_eq!(most_fitting(&vec![0, 4, 9, 12], 3), 0);
    let mut props = idle_props_for(&make_app());
    props.coherence = vec![Span::raw("one".to_string())];
    props.cache = vec![Span::raw("two".to_string())];
    props.cost = vec![Span::raw("three".to_string())];
    let widget = FooterWidget::new(props);
    assert!(painted(&widget, 60).ends_with("one  two  three"));
    let narrow = painted(&widget, 14);
    assert!(narrow.ends_with("one  two"), "{narrow:?}");
    assert!(painted(&widget, 5).ends_with("one"));
    assert!(!painted(&widget, 2).contains("one"));
}

#[test]
fn the_line_is_laid_out_from_its_widths() {
    assert_eq!(status_layout(0, 5, 3, None), StatusLayout::Blank);
    assert_eq!(status_layout(5, 5, 3, None), StatusLayout::ModeOnly);
    assert_eq!(status_layout(6, 5, 3, None), StatusLayout::Full { model_budget: 1 });
    assert_eq!(status_layout(20, 5, 3, None), StatusLayout::Full { model_budget: 12 });
    assert_eq!(
        status_layout(20, 5, 3, Some(4)),
        StatusLayout::Full { model_budget: 5 }
    );
    assert_eq!(left_budget(20, 0), 20);
    assert_eq!(left_budget(20, 5), 13);
    assert_eq!(left_budget(5, 5), 1);
    assert_eq!(gap_width(20, 7, 5), 8);
    assert_eq!(gap_width(20, 17, 5), 0);
}

#[test]
fn busy_footers_show_the_status() {
    let mut props = idle_props_for(&make_app());
    props.state_label = "working".to_string();
    let spans = FooterWidget::new(props).render(60, 1);
    let parts: Vec<&str> = spans.iter().map(|span| span.content.as_str()).collect();
    assert_eq!(parts[..5], ["agent", " · ", "deepseek-v4-flash", " · ", "working"]);
    assert_eq!(parts[5].len(), 60 - 35);
    assert_eq!(spans[0].style.fg, Some(Color::ModeAgent));
    assert_eq!(spans[1].style.fg, Some(Color::TextDim));
    assert_eq!(spans[2].style.fg, Some(Color::TextHint));
    assert_eq!(spans[4].style.fg, Some(Color::TextMuted));
    assert_eq!(span_width(&spans), 60);
}

#[test]
fn empty_areas_show_nothing() {
    let widget = FooterWidget::new(idle_props_for(&make_app()));
    assert!(widget.render(0, 1).is_empty());
    assert!(widget.render(60, 0).is_empty());
    assert_eq!(widget.desired_height(60), 1);
}

#[test]
fn chips_keep_their_style() {
    let bold = Style {
        fg: Some(Color::Indexed(208)),
        bg: Some(Color::Black),
        underline_color: Some(Color::Red),
        add_modifier: 1,
        sub_modifier: 2,
    };
    let mut props = idle_props_for(&make_app());
    props.cost = vec![Span::styled("$1".to_string(), bold)];
    props.cache = vec![Span::raw("hit".to_string())];
    let spans = FooterWidget::new(props).render(60, 1);
    let n = spans.len();
    assert_eq!(spans[n - 1].content, "$1");
    assert_eq!(spans[n - 1].style, bold);
    assert_eq!(spans[n - 2].style, Style::default());
    assert_eq!(spans[n - 3].content, "hit");
    assert_eq!(Style::default().fg(Color::Green).fg, Some(Color::Green));
    assert_eq!(Style::default().fg(Color::Green).bg, None);
    assert_eq!(bold.fg(Color::Green).bg, Some(Color::Black));
}
