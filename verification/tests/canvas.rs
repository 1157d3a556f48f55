use textgraph::graph_canvas::GraphCanvas;
use textgraph::graph_canvas::GraphPixel;

#[test]
fn blank_canvas_renders_spaces() {
    let c: GraphCanvas = GraphCanvas::new(3, 2);
    assert_eq!(c.to_string(), "   \n   ");
}

#[test]
fn default_pixel_is_blank() {
    let p: GraphPixel = Default::default();
    assert!(matches!(p, GraphPixel::Blank));
}

#[test]
fn custom_background_pixel() {
    let c = GraphCanvas::new_default(GraphPixel::Normal('.'), 4, 2);
    assert_eq!(c.to_string(), "....\n....");
}

#[test]
fn set_writes_absolute_position() {
    let mut c = GraphCanvas::new(3, 2);
    c.set(1, 0, GraphPixel::Normal('a'));
    c.set(2, 1, GraphPixel::Normal('b'));
    assert_eq!(c.to_string(), " a \n  b");
}

#[test]
fn colored_pixels_wrap_in_escapes() {
    let mut c = GraphCanvas::new(1, 1);
    c.set(0, 0, GraphPixel::Green('*'));
    assert_eq!(c.to_string(), "\x1b[32m*\x1b[0m");
    c.set(0, 0, GraphPixel::Red('x'));
    assert_eq!(c.to_string(), "\x1b[31mx\x1b[0m");
    c.set(0, 0, GraphPixel::Blue('x'));
    assert_eq!(c.to_string(), "\x1b[34mx\x1b[0m");
    c.set(0, 0, GraphPixel::Yellow('x'));
    assert_eq!(c.to_string(), "\x1b[33mx\x1b[0m");
    c.set(0, 0, GraphPixel::Magenta('x'));
    assert_eq!(c.to_string(), "\x1b[35mx\x1b[0m");
    c.set(0, 0, GraphPixel::Cyan('x'));
    assert_eq!(c.to_string(), "\x1b[36mx\x1b[0m");
}

#[test]
fn axis_draws_border_box() {
    let mut c = GraphCanvas::new(3, 3);
    c.axis(
        GraphPixel::Normal('|'),
        GraphPixel::Normal('-'),
        GraphPixel::Normal('L'),
        GraphPixel::Normal('F'),
        GraphPixel::Normal('J'),
        GraphPixel::Normal('7'),
    );
    assert_eq!(c.to_string(), "F-7\n| |\nL-J");
    assert_eq!(c.width(), 1);
    assert_eq!(c.height(), 1);
    assert_eq!(c.full_width(), 3);
    assert_eq!(c.full_height(), 3);
}

#[test]
fn axis_on_tiny_canvas_is_noop() {
    let mut c = GraphCanvas::new(1, 1);
    c.axis(
        GraphPixel::Normal('|'),
        GraphPixel::Normal('-'),
        GraphPixel::Normal('L'),
        GraphPixel::Normal('F'),
        GraphPixel::Normal('J'),
        GraphPixel::Normal('7'),
    );
    assert_eq!(c.to_string(), " ");
    assert_eq!(c.width(), 1);
    assert_eq!(c.height(), 1);
}

#[test]
fn element_position_uses_offsets() {
    let mut c = GraphCanvas::new(4, 4);
    c.axis(
        GraphPixel::Normal('|'),
        GraphPixel::Normal('-'),
        GraphPixel::Normal('L'),
        GraphPixel::Normal('F'),
        GraphPixel::Normal('J'),
        GraphPixel::Normal('7'),
    );
    // After the axis the drawable region starts at row 1, column 1.
    assert_eq!(c.element_position(0, 0), 5);
    assert_eq!(c.element_position(1, 1), 10);
}

#[test]
fn render_newline_count_and_line_width() {
    let mut c = GraphCanvas::new(5, 4);
    c.set(2, 1, GraphPixel::Green('*'));
    c.set(4, 3, GraphPixel::Normal('#'));
    let s = c.to_string();
    assert_eq!(s.chars().filter(|&ch| ch == '\n').count(), 3);
    for line in s.split('\n') {
        // Strip the color escapes and count what is shown.
        let mut shown = 0;
        let mut in_esc = false;
        for ch in line.chars() {
            if in_esc {
                if ch == 'm' {
                    in_esc = false;
                }
            } else if ch == '\x1b' {
                in_esc = true;
            } else {
                shown += 1;
            }
        }
        assert_eq!(shown, 5);
    }
}
