use textgraph::graph::brc;
use textgraph::graph::brr;
use textgraph::graph::build_graph;
use textgraph::graph::BrailleType;
use textgraph::graph::GraphBuilder;
use textgraph::graph::GraphType;
use textgraph::parseopts::Opts;

fn opts(width: usize, height: usize, graph_type: GraphType) -> Opts {
    Opts {
        width,
        height,
        graph_type,
        silent: true,
        last_n: None,
        cut: false,
        in_file: None,
        color: false,
    }
}

#[test]
fn brc_zero_is_space() {
    assert_eq!(brc(0), ' ');
}

#[test]
fn brc_maps_into_braille_block() {
    assert_eq!(brc(1), '\u{2801}');
    assert_eq!(brc(12), '\u{280c}');
    assert_eq!(brc(254), '\u{28fe}');
}

#[test]
fn brc_out_of_range_is_space() {
    assert_eq!(brc(255), ' ');
    assert_eq!(brc(1000), ' ');
}

#[test]
fn brr_dot6_is_identity() {
    for i in 0..8 {
        assert_eq!(brr(i, &BrailleType::Dot6), i);
    }
}

#[test]
fn brr_dot8_remaps_third_row() {
    assert_eq!(brr(0, &BrailleType::Dot8), 0);
    assert_eq!(brr(1, &BrailleType::Dot8), 1);
    assert_eq!(brr(2, &BrailleType::Dot8), 2);
    assert_eq!(brr(3, &BrailleType::Dot8), 6);
    assert_eq!(brr(4, &BrailleType::Dot8), 3);
    assert_eq!(brr(5, &BrailleType::Dot8), 4);
    assert_eq!(brr(6, &BrailleType::Dot8), 5);
    assert_eq!(brr(7, &BrailleType::Dot8), 7);
}

#[test]
fn point_style_scenario() {
    // Series [0,1,0,1,0] on a 5x3 canvas: min 0, max 1, scaled to rows 0..2,
    // so the peaks sit in the top row and the zeros in the bottom row.
    let x: Vec<i64> = vec![0, 1, 2, 3, 4];
    let y: Vec<i64> = vec![0, 1, 0, 1, 0];
    let s = build_graph(&x, &y, &opts(5, 3, GraphType::Star));
    assert_eq!(s, " * * \n     \n* * *");
}

#[test]
fn constant_series_draws_middle_row() {
    let x: Vec<i64> = vec![0, 1, 2];
    let y: Vec<i64> = vec![5, 5, 5];
    let s = build_graph(&x, &y, &opts(5, 3, GraphType::Star));
    assert_eq!(s, "     \n***  \n     ");
}

#[test]
fn ascii_line_scenario() {
    let x: Vec<i64> = vec![0, 1, 2];
    let y: Vec<i64> = vec![0, 2, 1];
    let s = build_graph(&x, &y, &opts(3, 3, GraphType::Ascii));
    assert_eq!(s, "\u{256d}\u{256e} \n\u{2502}\u{2570}\u{2500}\n\u{256f}  ");
}

#[test]
fn braille6_packs_two_samples_per_column() {
    // Four samples on a braille 6-dot canvas of display width 2: exactly two
    // display columns, each packing two samples' dots into one character.
    let x: Vec<i64> = vec![0, 1, 2, 3];
    let y: Vec<i64> = vec![0, 2, 1, 2];
    let s = build_graph(&x, &y, &opts(2, 1, GraphType::Braille(BrailleType::Dot6)));
    assert_eq!(s, "\u{280c}\u{280a}");
    assert_eq!(s.chars().count(), 2);
}

#[test]
fn braille8_uses_four_sub_rows() {
    let x: Vec<i64> = vec![0, 1];
    let y: Vec<i64> = vec![0, 3];
    let s = build_graph(&x, &y, &opts(1, 1, GraphType::Braille(BrailleType::Dot8)));
    // First sample at sub-row 3 of the left column (remapped to bit 6),
    // second at sub-row 0 of the right column (bit 3).
    assert_eq!(s, "\u{2848}");
}

#[test]
fn axis_scenario_with_labels() {
    let x: Vec<i64> = vec![0, 1];
    let y: Vec<i64> = vec![0, 2];
    let mut o = opts(7, 3, GraphType::Star);
    o.silent = false;
    let s = build_graph(&x, &y, &o);
    assert_eq!(
        s,
        "2\u{250c}\u{2500}\u{2500}\u{2500}\u{2500}\u{2510}\n\
         1\u{2502}**  \u{2502}\n\
         0\u{2514}\u{2500}\u{2500}\u{2500}\u{2500}\u{2518}"
    );
}

#[test]
fn color_wraps_markers_in_green() {
    let x: Vec<i64> = vec![0];
    let y: Vec<i64> = vec![7];
    let mut o = opts(1, 1, GraphType::Star);
    o.color = true;
    let s = build_graph(&x, &y, &o);
    assert_eq!(s, "\x1b[32m*\x1b[0m");
}

#[test]
fn last_n_window_applies_before_build() {
    // With last-n 2 only the final two samples (8 and 9) survive, so they
    // span the whole value range of the picture.
    let x: Vec<i64> = vec![0, 1, 2, 3, 4];
    let y: Vec<i64> = vec![0, 0, 0, 8, 9];
    let mut o = opts(2, 2, GraphType::Star);
    o.last_n = Some(2);
    let s = build_graph(&x, &y, &o);
    assert_eq!(s, " *\n* ");
}

#[test]
fn cut_overflow_windows_to_drawable_width() {
    let x: Vec<i64> = vec![0, 1, 2, 3, 4, 5, 6, 7, 8, 9];
    let y: Vec<i64> = vec![0, 1, 2, 3, 4, 5, 6, 7, 8, 9];
    let mut o = opts(3, 2, GraphType::Star);
    o.cut = true;
    // Only the last three samples (7, 8, 9) survive; 7 maps to the bottom
    // row, 8 and 9 to the top row.
    let s = build_graph(&x, &y, &o);
    assert_eq!(s, " **\n*  ");
}

#[test]
fn keep_tail_keeps_last_n_of_both_arrays() {
    let x: Vec<i64> = vec![1, 2, 3, 4, 5];
    let y: Vec<i64> = vec![10, 20, 30, 40, 50];
    let mut gb = GraphBuilder::new(&x, &y, 5, 5);
    gb.keep_tail(2);
    assert_eq!(gb.x_values().clone(), vec![4, 5]);
    assert_eq!(gb.y_values().clone(), vec![40, 50]);
}

#[test]
fn keep_tail_twice_equals_once() {
    let x: Vec<i64> = vec![1, 2, 3, 4, 5];
    let y: Vec<i64> = vec![10, 20, 30, 40, 50];
    let mut once = GraphBuilder::new(&x, &y, 5, 5);
    once.keep_tail(3);
    let mut twice = GraphBuilder::new(&x, &y, 5, 5);
    twice.keep_tail(3);
    twice.keep_tail(3);
    assert_eq!(once.x_values().clone(), twice.x_values().clone());
    assert_eq!(once.y_values().clone(), twice.y_values().clone());
}

#[test]
fn keep_tail_larger_than_series_is_noop() {
    let x: Vec<i64> = vec![1, 2];
    let y: Vec<i64> = vec![10, 20];
    let mut gb = GraphBuilder::new(&x, &y, 5, 5);
    gb.keep_tail(10);
    assert_eq!(gb.x_values().clone(), vec![1, 2]);
    assert_eq!(gb.y_values().clone(), vec![10, 20]);
}

#[test]
fn builder_renders_like_build_graph() {
    let x: Vec<i64> = vec![0, 1, 2];
    let y: Vec<i64> = vec![1, 3, 2];
    let mut gb = GraphBuilder::new(&x, &y, 3, 3);
    gb.color(false);
    gb.axis(false);
    gb.graph_type(GraphType::Star);
    let direct = gb.build();
    let via_opts = build_graph(&x, &y, &opts(3, 3, GraphType::Star));
    assert_eq!(direct, via_opts);
}

#[test]
fn downsampling_long_series() {
    // 10 samples on 5 columns: nearest-index selection keeps indices
    // 0, 2, 4, 6, 8, here values 0,2,4,6,8, scaled onto 2 rows.
    let x: Vec<i64> = (0..10).collect();
    let y: Vec<i64> = (0..10).collect();
    let s = build_graph(&x, &y, &opts(5, 2, GraphType::Star));
    // min 0, max 9: values 0..4 round to row 1 (bottom), 5.. to row 0.
    // Selected: 0,2,4 -> bottom; 6,8 -> top.
    assert_eq!(s, "   **\n***  ");
}

#[test]
fn braille6_splits_samples_across_rows() {
    // Two samples far apart on a two-row braille canvas: each sample's dot
    // lands in its own display row's cell.
    let x: Vec<i64> = vec![0, 1];
    let y: Vec<i64> = vec![0, 5];
    let s = build_graph(&x, &y, &opts(1, 2, GraphType::Braille(BrailleType::Dot6)));
    assert_eq!(s, "\u{2808}\n\u{2804}");
}

#[test]
fn ascii_with_axis_anchors_tees() {
    let x: Vec<i64> = vec![0, 1];
    let y: Vec<i64> = vec![0, 2];
    let mut o = opts(7, 3, GraphType::Ascii);
    o.silent = false;
    let s = build_graph(&x, &y, &o);
    assert_eq!(
        s,
        "2\u{250c}\u{2500}\u{2500}\u{2500}\u{2500}\u{2510}\n\
         1\u{251c}\u{2500}\u{2500}  \u{2524}\n\
         0\u{2514}\u{2500}\u{2500}\u{2500}\u{2500}\u{2518}"
    );
}

#[test]
fn axis_labels_negative_values() {
    let x: Vec<i64> = vec![0, 1];
    let y: Vec<i64> = vec![-5, 5];
    let mut o = opts(8, 3, GraphType::Star);
    o.silent = false;
    let s = build_graph(&x, &y, &o);
    assert_eq!(
        s,
        "5 \u{250c}\u{2500}\u{2500}\u{2500}\u{2500}\u{2510}\n\
         0 \u{2502}**  \u{2502}\n\
         -5\u{2514}\u{2500}\u{2500}\u{2500}\u{2500}\u{2518}"
    );
}
