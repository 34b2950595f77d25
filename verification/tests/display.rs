use term3d::display::{is_point_inside_triangle, Cell, Command, Display, Drawer, Rgb};

const BLACK: Rgb = Rgb(0, 0, 0);
const WHITE: Rgb = Rgb(255, 255, 255);
const RED: Rgb = Rgb(255, 0, 0);

fn painted(display: &Display, cell: &Cell) -> Vec<(usize, usize)> {
    let mut found = Vec::new();
    for y in 0..display.height() {
        for x in 0..display.width() {
            if display.get(x, y) == Some(cell) {
                found.push((x, y));
            }
        }
    }
    found
}

#[test]
fn cells_are_built_as_told() {
    assert_eq!(Cell::new(RED, BLACK, 'x'), Cell { bg: RED, fg: BLACK, c: 'x' });
    assert_eq!(Cell::new_bg(RED), Cell { bg: RED, fg: WHITE, c: ' ' });
    assert_eq!(Cell::default(), Cell { bg: BLACK, fg: WHITE, c: ' ' });
}

#[test]
fn surface_is_filled() {
    let fill = Cell::new_bg(Rgb(1, 2, 3));
    let display = Display::init_with_size(&fill, 4, 3);
    assert_eq!(display.width(), 4);
    assert_eq!(display.height(), 3);
    assert_eq!(display.get(3, 2), Some(&fill));
    assert_eq!(display.get(4, 0), None);
    assert_eq!(display.get(0, 3), None);
    assert_eq!(painted(&display, &fill).len(), 12);
}

#[test]
fn empty_surface_has_no_cell() {
    let display = Display::init_with_size(&Cell::default(), 0, 5);
    assert_eq!(display.get(0, 0), None);
    let display = Display::init_with_size(&Cell::default(), 5, 0);
    assert_eq!(display.get(0, 0), None);
}

#[test]
fn cells_are_stored_row_by_row() {
    let mut display = Display::init_with_size(&Cell::default(), 3, 2);
    let mark = Cell::new_bg(RED);
    *display.get_mut(1, 1).unwrap() = mark;
    assert_eq!(display.get_unchecked(1, 1), &mark);
    assert_eq!(display.get_unchecked(4, 0), &mark);
    *display.get_mut_unchecked(2, 0) = mark;
    assert_eq!(painted(&display, &mark), vec![(2, 0), (1, 1)]);
    assert!(display.get_mut(3, 0).is_none());
}

#[test]
fn pixel_outside_is_dropped() {
    let mut display = Display::init_with_size(&Cell::default(), 3, 2);
    let mark = Cell::new_bg(RED);
    {
        let mut drawer = Drawer::new(&mut display);
        assert_eq!(drawer.width(), 3);
        assert_eq!(drawer.height(), 2);
        drawer.pixel(&mark, 2, 1);
        drawer.pixel(&mark, -1, 0);
        drawer.pixel(&mark, 0, -1);
        drawer.pixel(&mark, 3, 0);
        drawer.pixel(&mark, 0, 2);
        drawer.pixel(&mark, isize::MAX, isize::MIN);
        assert!(drawer.get_mut(-1, 0).is_none());
        assert!(drawer.get_mut(0, 0).is_some());
    }
    assert_eq!(painted(&display, &mark), vec![(2, 1)]);
}

#[test]
fn rect_is_clamped_to_the_surface() {
    let mut display = Display::init_with_size(&Cell::default(), 3, 2);
    let drawer = Drawer::new(&mut display);
    assert_eq!(drawer.iter_rect(1, 0, 2, 1), vec![(1, 0), (2, 0), (1, 1), (2, 1)]);
    assert_eq!(
        drawer.iter_rect(-5, 1, 99, 99),
        vec![(0, 1), (1, 1), (2, 1), (3, 1), (0, 2), (1, 2), (2, 2), (3, 2)]
    );
    assert_eq!(drawer.iter_rect(2, 0, 1, 1), vec![]);
    assert_eq!(drawer.iter_rect(0, 1, 1, 0), vec![]);
    assert_eq!(drawer.iter_rect(-9, -9, -1, -1), vec![(0, 0)]);
}

#[test]
fn point_in_triangle_counts_the_border() {
    assert!(is_point_inside_triangle(1, 1, 0, 0, 4, 0, 0, 4));
    assert!(is_point_inside_triangle(0, 0, 0, 0, 4, 0, 0, 4));
    assert!(is_point_inside_triangle(2, 2, 0, 0, 4, 0, 0, 4));
    assert!(!is_point_inside_triangle(3, 2, 0, 0, 4, 0, 0, 4));
    assert!(!is_point_inside_triangle(-1, 0, 0, 0, 4, 0, 0, 4));
    assert!(is_point_inside_triangle(1, 1, 0, 4, 4, 0, 0, 0));
}

#[test]
fn point_in_triangle_survives_the_largest_numbers() {
    let (lo, hi) = (isize::MIN, isize::MAX);
    assert!(is_point_inside_triangle(0, 0, lo, lo, hi, lo, 0, hi));
    assert!(!is_point_inside_triangle(lo, hi, lo, lo, hi, lo, 0, hi));
    assert!(is_point_inside_triangle(hi, lo, lo, lo, hi, lo, 0, hi));
}

#[test]
fn triangle_points_come_row_by_row() {
    let mut display = Display::init_with_size(&Cell::default(), 5, 5);
    let drawer = Drawer::new(&mut display);
    assert_eq!(
        drawer.iter_triangle(0, 0, 2, 0, 0, 2),
        vec![(0, 0), (1, 0), (2, 0), (0, 1), (1, 1), (0, 2)]
    );
}

#[test]
fn triangle_is_filled_with_its_border() {
    let mut display = Display::init_with_size(&Cell::default(), 5, 5);
    let mark = Cell::new_bg(RED);
    {
        let mut drawer = Drawer::new(&mut display);
        drawer.triangle(&mark, 0, 0, 4, 0, 0, 4);
    }
    let found = painted(&display, &mark);
    assert_eq!(found.len(), 15);
    for (x, y) in found {
        assert!(x + y <= 4);
    }
}

#[test]
fn triangle_is_cut_to_the_surface() {
    let mut display = Display::init_with_size(&Cell::default(), 3, 3);
    let mark = Cell::new_bg(RED);
    {
        let mut drawer = Drawer::new(&mut display);
        drawer.triangle(&mark, -10, -10, 20, -10, -10, 20);
    }
    assert_eq!(painted(&display, &mark).len(), 9);
}

#[test]
fn flat_triangle_left_of_the_surface_touches_its_first_column() {
    let mut display = Display::init_with_size(&Cell::default(), 3, 3);
    let mark = Cell::new_bg(RED);
    {
        let mut drawer = Drawer::new(&mut display);
        drawer.triangle(&mark, -5, 1, -5, 1, -5, 1);
    }
    assert_eq!(painted(&display, &mark), vec![(0, 1)]);
}

#[test]
fn shallow_lines_have_one_point_in_each_column() {
    let mut display = Display::init_with_size(&Cell::default(), 1, 1);
    let mut drawer = Drawer::new(&mut display);
    assert_eq!(drawer.iter_line(0, 0, 3, 1), vec![(0, 0), (1, 0), (2, 1), (3, 1)]);
    assert_eq!(drawer.iter_line(3, 1, 0, 0), vec![(0, 0), (1, 0), (2, 1), (3, 1)]);
    assert_eq!(drawer.iter_line(0, 0, 3, -1), vec![(0, 0), (1, 0), (2, -1), (3, -1)]);
    assert_eq!(drawer.iter_line(-2, 5, 2, 5), vec![(-2, 5), (-1, 5), (0, 5), (1, 5), (2, 5)]);
}

#[test]
fn steep_lines_have_one_point_in_each_row() {
    let mut display = Display::init_with_size(&Cell::default(), 1, 1);
    let mut drawer = Drawer::new(&mut display);
    assert_eq!(drawer.iter_line(0, 0, 1, 3), vec![(0, 0), (0, 1), (1, 2), (1, 3)]);
    assert_eq!(drawer.iter_line(1, 3, 0, 0), vec![(0, 0), (0, 1), (1, 2), (1, 3)]);
    assert_eq!(drawer.iter_line(0, 0, 2, 2), vec![(0, 0), (1, 1), (2, 2)]);
    assert_eq!(drawer.iter_line(0, 0, -2, 2), vec![(0, 0), (-1, 1), (-2, 2)]);
    assert_eq!(drawer.iter_line(7, 7, 7, 7), vec![(7, 7)]);
}

#[test]
fn line_ends_at_both_ends() {
    let mut display = Display::init_with_size(&Cell::default(), 1, 1);
    let mut drawer = Drawer::new(&mut display);
    let points = drawer.iter_line(-3, 10, 40, -7);
    assert_eq!(points.len(), 44);
    assert_eq!(points[0], (-3, 10));
    assert_eq!(points[43], (40, -7));
    for pair in points.windows(2) {
        assert_eq!(pair[1].0 - pair[0].0, 1);
        assert!((pair[1].1 - pair[0].1).abs() <= 1);
    }
}

#[test]
fn line_is_drawn_where_it_crosses_the_surface() {
    let mut display = Display::init_with_size(&Cell::default(), 4, 2);
    let mark = Cell::new_bg(RED);
    {
        let mut drawer = Drawer::new(&mut display);
        drawer.line(&mark, -1, 0, 4, 1);
    }
    assert_eq!(painted(&display, &mark), vec![(0, 0), (1, 0), (2, 1), (3, 1)]);
}

fn row(display: &Display, y: usize) -> String {
    (0..display.width()).map(|x| display.get(x, y).unwrap().c).collect()
}

#[test]
fn text_goes_on_in_the_next_row() {
    let mut display = Display::init_with_size(&Cell::new(BLACK, WHITE, '.'), 4, 3);
    {
        let mut drawer = Drawer::new(&mut display);
        drawer.text(0, 0, "abcdef", None, None);
    }
    assert_eq!(row(&display, 0), "abcd");
    assert_eq!(row(&display, 1), "ef..");
    assert_eq!(row(&display, 2), "....");
}

#[test]
fn text_starts_a_row_for_each_line() {
    let mut display = Display::init_with_size(&Cell::new(BLACK, WHITE, '.'), 4, 4);
    {
        let mut drawer = Drawer::new(&mut display);
        drawer.text(1, 0, "ab\r\ncd\n\nxyz", None, None);
    }
    assert_eq!(row(&display, 0), ".ab.");
    assert_eq!(row(&display, 1), ".cd.");
    assert_eq!(row(&display, 2), "....");
    assert_eq!(row(&display, 3), ".xyz");
}

#[test]
fn text_that_fills_a_row_goes_on_right_below() {
    let mut display = Display::init_with_size(&Cell::new(BLACK, WHITE, '.'), 2, 4);
    {
        let mut drawer = Drawer::new(&mut display);
        drawer.text(0, 0, "ab\ncd\r\nefg", None, None);
    }
    assert_eq!(row(&display, 0), "ab");
    assert_eq!(row(&display, 1), "cd");
    assert_eq!(row(&display, 2), "ef");
    assert_eq!(row(&display, 3), "g.");
}

#[test]
fn text_wraps_before_a_lone_carriage_return() {
    let mut display = Display::init_with_size(&Cell::new(BLACK, WHITE, '.'), 2, 2);
    {
        let mut drawer = Drawer::new(&mut display);
        drawer.text(0, 0, "ab\rc", None, None);
    }
    assert_eq!(row(&display, 0), "ab");
    assert_eq!(row(&display, 1), "\rc");
}

#[test]
fn text_keeps_a_lone_carriage_return() {
    let mut display = Display::init_with_size(&Cell::new(BLACK, WHITE, '.'), 3, 1);
    {
        let mut drawer = Drawer::new(&mut display);
        drawer.text(0, 0, "a\rb", None, None);
    }
    assert_eq!(row(&display, 0), "a\rb");
}

#[test]
fn text_sets_the_colours_that_are_given() {
    let mut display = Display::init_with_size(&Cell::new(BLACK, WHITE, '.'), 3, 1);
    {
        let mut drawer = Drawer::new(&mut display);
        drawer.text(1, 0, "x", Some(RED), None);
        drawer.text(2, 0, "y", None, Some(RED));
        drawer.text(-1, 0, "zq", None, None);
        drawer.text(0, 5, "off", Some(RED), Some(RED));
    }
    assert_eq!(display.get(0, 0), Some(&Cell::new(BLACK, WHITE, 'q')));
    assert_eq!(display.get(1, 0), Some(&Cell::new(RED, WHITE, 'x')));
    assert_eq!(display.get(2, 0), Some(&Cell::new(BLACK, RED, 'y')));
}

#[test]
fn display_sets_a_colour_only_where_it_changes() {
    let mut display = Display::init_with_size(&Cell::default(), 2, 2);
    *display.get_mut(1, 0).unwrap() = Cell::new(RED, WHITE, 'a');
    assert_eq!(
        display.display(),
        vec![
            Command::Fg(BLACK),
            Command::Bg(BLACK),
            Command::Goto(1, 1),
            Command::Fg(WHITE),
            Command::Put(' '),
            Command::Bg(RED),
            Command::Put('a'),
            Command::Goto(1, 2),
            Command::Bg(BLACK),
            Command::Put(' '),
            Command::Put(' '),
        ]
    );
}

#[test]
fn display_of_an_empty_surface_sets_the_colours() {
    let display = Display::init_with_size(&Cell::default(), 0, 0);
    assert_eq!(display.display(), vec![Command::Fg(BLACK), Command::Bg(BLACK)]);
    let display = Display::init_with_size(&Cell::default(), 0, 2);
    assert_eq!(
        display.display(),
        vec![Command::Fg(BLACK), Command::Bg(BLACK), Command::Goto(1, 1), Command::Goto(1, 2)]
    );
}

#[test]
fn outline_draws_the_three_edges() {
    let mut display = Display::init_with_size(&Cell::default(), 5, 5);
    let mark = Cell::new_bg(RED);
    {
        let mut drawer = Drawer::new(&mut display);
        drawer.triangle_outline(&mark, 0, 0, 4, 0, 0, 4);
    }
    let found = painted(&display, &mark);
    assert_eq!(found.len(), 12);
    for (x, y) in found {
        assert!(x == 0 || y == 0 || x + y == 4);
    }
}
