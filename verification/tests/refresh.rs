use termpaper::clock::{Duration, Instant};
use termpaper::refresh::{
    coalesce_dirty_rects, cells_equal, DirtyRect, RefreshPriority, RefreshScheduler, RenderCell,
    RenderSnapshot, TerminalColor,
};

fn cell(text: &str) -> RenderCell {
    RenderCell {
        text: text.to_string(),
        bold: false,
        underline: false,
        inverse: false,
        foreground: TerminalColor::Default,
        background: TerminalColor::Default,
    }
}

fn rect(x: u16, y: u16, width: u16, height: u16) -> DirtyRect {
    DirtyRect { x, y, width, height }
}

fn covered(rects: &[DirtyRect], x: u16, y: u16) -> bool {
    rects
        .iter()
        .any(|r| r.x <= x && x < r.x + r.width && r.y <= y && y < r.y + r.height)
}

#[test]
fn diff_merges_neighboring_dirty_cells_per_row() {
    let previous = RenderSnapshot {
        rows: 1,
        columns: 5,
        cells: vec![cell("a"), cell("b"), cell("c"), cell("d"), cell("e")],
        cursor_row: 0,
        cursor_column: 0,
        cursor_visible: true,
        alternate_screen: false,
    };
    let next = RenderSnapshot {
        rows: 1,
        columns: 5,
        cells: vec![cell("a"), cell("x"), cell("y"), cell("d"), cell("z")],
        ..previous.clone()
    };

    assert_eq!(
        previous.diff(&next),
        vec![
            DirtyRect {
                x: 1,
                y: 0,
                width: 2,
                height: 1
            },
            DirtyRect {
                x: 4,
                y: 0,
                width: 1,
                height: 1
            }
        ]
    );
}

#[test]
fn diff_merges_identical_spans_across_adjacent_rows() {
    let previous = RenderSnapshot {
        rows: 3,
        columns: 4,
        cells: vec![cell("a"); 12],
        cursor_row: 0,
        cursor_column: 0,
        cursor_visible: true,
        alternate_screen: false,
    };
    let mut cells = previous.cells.clone();
    cells[1] = cell("x");
    cells[2] = cell("x");
    cells[5] = cell("x");
    cells[6] = cell("x");
    let next = RenderSnapshot {
        cells,
        ..previous.clone()
    };

    assert_eq!(
        previous.diff(&next),
        vec![DirtyRect {
            x: 1,
            y: 0,
            width: 2,
            height: 2
        }]
    );
}

#[test]
fn coalesces_pending_rects_from_multiple_mutations() {
    let mut rects = vec![
        DirtyRect {
            x: 0,
            y: 1,
            width: 3,
            height: 1,
        },
        DirtyRect {
            x: 0,
            y: 0,
            width: 3,
            height: 1,
        },
        DirtyRect {
            x: 5,
            y: 0,
            width: 1,
            height: 1,
        },
    ];

    coalesce_dirty_rects(&mut rects);

    assert_eq!(
        rects,
        vec![
            DirtyRect {
                x: 0,
                y: 0,
                width: 3,
                height: 2,
            },
            DirtyRect {
                x: 5,
                y: 0,
                width: 1,
                height: 1,
            }
        ]
    );
}

#[test]
fn high_priority_refresh_bypasses_rate_limit() {
    let mut scheduler = RefreshScheduler::new(Duration::from_secs(10));
    let now = Instant::from_nanos(1_000_000_000);
    scheduler.record_mutation(RefreshPriority::Normal);
    assert!(scheduler.should_refresh(now));
    scheduler.record_mutation(RefreshPriority::Normal);
    assert!(!scheduler.should_refresh(now.plus(Duration::from_secs(1))));
    scheduler.record_mutation(RefreshPriority::High);
    assert!(scheduler.should_refresh(now.plus(Duration::from_secs(1))));
}

#[test]
fn high_priority_can_respect_rate_limit_for_slow_displays() {
    let mut scheduler = RefreshScheduler::with_policy(Duration::from_secs(10), false);
    let now = Instant::from_nanos(1_000_000_000);
    scheduler.record_mutation(RefreshPriority::Normal);
    assert!(scheduler.should_refresh(now));
    scheduler.record_mutation(RefreshPriority::High);
    assert!(!scheduler.should_refresh(now.plus(Duration::from_secs(1))));
    assert!(scheduler.should_refresh(now.plus(Duration::from_secs(10))));
}

#[test]
fn nothing_pending_never_refreshes() {
    let mut scheduler = RefreshScheduler::new(Duration::from_millis(0));
    assert!(!scheduler.should_refresh(Instant::from_nanos(5)));
    scheduler.record_mutation(RefreshPriority::Low);
    assert!(scheduler.should_refresh(Instant::from_nanos(5)));
    assert!(!scheduler.should_refresh(Instant::from_nanos(10)));
}

#[test]
fn refresh_exactly_at_interval_is_due_and_clock_going_back_is_not() {
    let mut scheduler = RefreshScheduler::with_policy(Duration::from_millis(250), true);
    let t0 = Instant::from_nanos(10_000_000_000);
    scheduler.record_mutation(RefreshPriority::Normal);
    assert!(scheduler.should_refresh(t0));
    scheduler.record_mutation(RefreshPriority::Low);
    assert!(!scheduler.should_refresh(Instant::from_nanos(9_000_000_000)));
    assert!(!scheduler.should_refresh(t0.plus(Duration::from_nanos(249_999_999))));
    assert!(scheduler.should_refresh(t0.plus(Duration::from_millis(250))));
}

#[test]
fn pending_priority_is_the_highest_recorded() {
    let mut scheduler = RefreshScheduler::new(Duration::from_secs(10));
    let now = Instant::from_nanos(0);
    scheduler.record_mutation(RefreshPriority::Low);
    assert!(scheduler.should_refresh(now));
    scheduler.record_mutation(RefreshPriority::High);
    scheduler.record_mutation(RefreshPriority::Low);
    assert!(scheduler.should_refresh(now.plus(Duration::from_secs(1))));
}

#[test]
fn diff_of_resized_snapshot_is_the_full_grid() {
    let previous = RenderSnapshot {
        rows: 1,
        columns: 2,
        cells: vec![cell("a"); 2],
        cursor_row: 0,
        cursor_column: 0,
        cursor_visible: true,
        alternate_screen: false,
    };
    let next = RenderSnapshot {
        rows: 3,
        columns: 4,
        cells: vec![cell("a"); 12],
        ..previous.clone()
    };
    assert_eq!(previous.diff(&next), vec![DirtyRect::full(4, 3)]);
    assert_eq!(DirtyRect::full(4, 3), rect(0, 0, 4, 3));
}

#[test]
fn diff_covers_exactly_changed_cells() {
    let rows = 4;
    let columns = 5;
    let previous = RenderSnapshot {
        rows,
        columns,
        cells: vec![cell("a"); 20],
        cursor_row: 0,
        cursor_column: 0,
        cursor_visible: true,
        alternate_screen: false,
    };
    let mut cells = previous.cells.clone();
    for idx in [0, 4, 6, 7, 11, 12, 19] {
        cells[idx] = cell("z");
    }
    cells[9].bold = true;
    cells[15].foreground = TerminalColor::Indexed(2);
    let next = RenderSnapshot { cells, ..previous.clone() };
    let rects = previous.diff(&next);
    for y in 0..rows {
        for x in 0..columns {
            let idx = (y * columns + x) as usize;
            let changed = !cells_equal(&previous.cells[idx], &next.cells[idx]);
            assert_eq!(covered(&rects, x, y), changed, "cell ({x}, {y})");
        }
    }
    assert!(previous.diff(&previous).is_empty());
}

#[test]
fn coalescing_drops_empty_rects_and_keeps_coverage() {
    let original = vec![
        rect(2, 3, 1, 1),
        rect(0, 0, 0, 5),
        rect(2, 1, 1, 2),
        rect(7, 7, 2, 0),
        rect(2, 4, 1, 1),
        rect(1, 0, 4, 1),
    ];
    let mut rects = original.clone();
    coalesce_dirty_rects(&mut rects);
    assert_eq!(rects, vec![rect(1, 0, 4, 1), rect(2, 1, 1, 4)]);
    for y in 0..10 {
        for x in 0..10 {
            assert_eq!(covered(&rects, x, y), covered(&original, x, y));
        }
    }
}

#[test]
fn cells_compare_by_text_and_attributes() {
    let a = cell("a");
    assert!(cells_equal(&a, &cell("a")));
    assert!(!cells_equal(&a, &cell("b")));
    let mut b = cell("a");
    b.inverse = true;
    assert!(!cells_equal(&a, &b));
    let mut c = cell("a");
    c.background = TerminalColor::Rgb(1, 2, 3);
    assert!(!cells_equal(&a, &c));
    assert_eq!(TerminalColor::default(), TerminalColor::Default);
}

#[test]
fn coalescing_twice_is_coalescing_once() {
    let mut rects = vec![
        rect(2, 3, 4, 1),
        rect(0, 0, 3, 1),
        rect(0, 1, 3, 1),
        rect(2, 4, 4, 1),
        rect(0, 1, 3, 1),
        rect(9, 9, 0, 1),
    ];
    coalesce_dirty_rects(&mut rects);
    let once = rects.clone();
    coalesce_dirty_rects(&mut rects);
    assert_eq!(rects, once);
    assert_eq!(once, vec![rect(0, 0, 3, 2), rect(0, 1, 3, 1), rect(2, 3, 4, 2)]);
}

#[test]
fn new_behaves_like_with_policy_bypassing() {
    let mut a = RefreshScheduler::new(Duration::from_millis(100));
    let mut b = RefreshScheduler::with_policy(Duration::from_millis(100), true);
    let start = Instant::from_nanos(1_000);
    for step in 0..20_u64 {
        let now = start.plus(Duration::from_millis(step * 30));
        let priority = if step % 7 == 3 { RefreshPriority::High } else { RefreshPriority::Normal };
        if step % 2 == 0 {
            a.record_mutation(priority);
            b.record_mutation(priority);
        }
        assert_eq!(a.should_refresh(now), b.should_refresh(now));
    }
}

#[test]
fn refreshes_stay_apart_across_many_calls() {
    let interval = Duration::from_millis(100);
    let mut scheduler = RefreshScheduler::with_policy(interval, false);
    let start = Instant::from_nanos(0);
    let mut last: Option<u128> = None;
    for step in 0..50_u64 {
        let now = start.plus(Duration::from_millis(step * 15));
        scheduler.record_mutation(RefreshPriority::High);
        if scheduler.should_refresh(now) {
            if let Some(previous) = last {
                assert!(now.nanos - previous >= interval.nanos);
            }
            last = Some(now.nanos);
        }
    }
    assert!(last.is_some());
}
