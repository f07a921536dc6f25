use pandemic_sim::layout::{arena, graph, key, numbers, Viewport, MARGIN};

fn inside(v: Viewport, size_x: u32, size_y: u32) -> bool {
    v.left as u64 + v.width as u64 <= size_x as u64
        && v.bottom as u64 + v.height as u64 <= size_y as u64
}

#[test]
fn margin_is_ten_pixels() {
    assert_eq!(MARGIN, 10);
}

#[test]
fn wide_window_puts_the_agents_on_the_left() {
    assert_eq!(arena(800, 600), Some(Viewport { left: 10, bottom: 10, width: 580, height: 580 }));
    assert_eq!(numbers(800, 600), Some(Viewport { left: 610, bottom: 0, width: 80, height: 580 }));
    assert_eq!(key(800, 600), Some(Viewport { left: 710, bottom: 0, width: 80, height: 580 }));
    assert_eq!(graph(800, 600), Some(Viewport { left: 610, bottom: 200, width: 180, height: 200 }));
}

#[test]
fn high_window_puts_the_agents_at_the_top() {
    assert_eq!(arena(600, 900), Some(Viewport { left: 10, bottom: 310, width: 580, height: 580 }));
    assert_eq!(numbers(600, 900), Some(Viewport { left: 10, bottom: 0, width: 280, height: 280 }));
    assert_eq!(key(600, 900), Some(Viewport { left: 310, bottom: 0, width: 280, height: 280 }));
    assert_eq!(graph(600, 900), Some(Viewport { left: 10, bottom: 100, width: 580, height: 100 }));
}

#[test]
fn square_window_counts_as_wide_and_has_room_for_the_agents_only() {
    assert_eq!(arena(500, 500), Some(Viewport { left: 10, bottom: 10, width: 480, height: 480 }));
    assert_eq!(numbers(500, 500), None);
    assert_eq!(key(500, 500), None);
    assert_eq!(graph(500, 500), None);
}

#[test]
fn small_windows_have_no_room() {
    assert_eq!(arena(19, 600), None);
    assert_eq!(arena(600, 19), None);
    assert_eq!(arena(20, 600), Some(Viewport { left: 10, bottom: 590, width: 0, height: 0 }));
    assert_eq!(numbers(639, 600), None);
    assert_eq!(numbers(640, 600), Some(Viewport { left: 610, bottom: 0, width: 0, height: 580 }));
    assert_eq!(key(640, 600), Some(Viewport { left: 630, bottom: 0, width: 0, height: 580 }));
    assert_eq!(numbers(39, 600), None);
    assert_eq!(numbers(40, 59), None);
    assert_eq!(numbers(40, 60), Some(Viewport { left: 10, bottom: 0, width: 0, height: 0 }));
    assert_eq!(graph(619, 600), None);
    assert_eq!(graph(620, 600), Some(Viewport { left: 610, bottom: 200, width: 0, height: 200 }));
    assert_eq!(graph(19, 600), None);
    assert_eq!(graph(0, 0), None);
}

#[test]
fn every_part_lies_in_the_window() {
    let sizes = [0u32, 1, 19, 20, 39, 40, 41, 59, 60, 100, 599, 600, 640, 1000, 4096, u32::MAX - 1, u32::MAX];
    for &size_x in sizes.iter() {
        for &size_y in sizes.iter() {
            for part in [arena(size_x, size_y), numbers(size_x, size_y), key(size_x, size_y), graph(size_x, size_y)] {
                if let Some(v) = part {
                    assert!(inside(v, size_x, size_y));
                }
            }
        }
    }
}
