use wshowkeys::config::{ColorOverride, ModOverride};
use wshowkeys::input::Keypress;
use wshowkeys::render::{buffer_layout, color_channels, strip_extent, strip_fits, Acquire, BufferPool};

fn key(name: &str, utf8: &str, color: ColorOverride, modifier: ModOverride) -> Keypress {
    Keypress { name: name.to_string(), utf8: utf8.to_string(), color, modifier }
}

#[test]
fn color_channels_split_rgba() {
    assert_eq!(color_channels(0x11223344), (0x11, 0x22, 0x33, 0x44));
    assert_eq!(color_channels(0xFFFFFFFF), (255, 255, 255, 255));
    assert_eq!(color_channels(0x000000CC), (0, 0, 0, 0xCC));
}

#[test]
fn label_marks_modifiers() {
    assert_eq!(key("Shift_L", "", ColorOverride::Default, ModOverride::Default).label(), "Shift_L+");
    assert_eq!(key("a", "a", ColorOverride::Default, ModOverride::Default).label(), "a");
    assert_eq!(key("a", "a", ColorOverride::Default, ModOverride::Force).label(), "a+");
    assert_eq!(key("Ctrl", "", ColorOverride::Default, ModOverride::Suppress).label(), "Ctrl");
}

#[test]
fn draw_color_choice() {
    let fg = 0xFFFFFFFF;
    let sp = 0xAAAAAAFF;
    assert_eq!(key("a", "a", ColorOverride::Default, ModOverride::Default).draw_color(fg, sp), fg);
    assert_eq!(key("S", "", ColorOverride::Default, ModOverride::Default).draw_color(fg, sp), sp);
    assert_eq!(key("S", "", ColorOverride::Plain, ModOverride::Default).draw_color(fg, sp), fg);
    assert_eq!(key("S", "", ColorOverride::Custom(5), ModOverride::Default).draw_color(fg, sp), 5);
}

#[test]
fn strip_extent_adds_widths_and_keeps_tallest() {
    assert_eq!(strip_extent(&vec![]), (0, 0));
    assert_eq!(strip_extent(&vec![(10, 20)]), (10, 20));
    assert_eq!(strip_extent(&vec![(10, 20), (5, 7), (1, 30)]), (16, 30));
}

#[test]
fn strip_fits_detects_overflow() {
    assert!(strip_fits(&vec![(10, 20), (5, 7)]));
    assert!(strip_fits(&vec![(i32::MAX, 1), (i32::MAX, 1), (1, 1)]));
    assert!(!strip_fits(&vec![(i32::MAX, 1), (i32::MAX, 1), (2, 1)]));
    assert!(!strip_fits(&vec![(-1, 1), (1, 1)]));
    assert!(strip_fits(&vec![(-1, 1)]));
    assert_eq!(strip_extent(&vec![(-1, 1)]), (u32::MAX, 1));
}

#[test]
fn buffer_layout_argb() {
    assert_eq!(buffer_layout(100, 30), (400, 12000));
    assert_eq!(buffer_layout(0, 30), (0, 0));
}

#[test]
fn pool_creates_reuses_and_releases() {
    let mut pool: BufferPool<&str> = BufferPool::new();
    assert!(pool.buffer(0).is_none());
    assert!(matches!(pool.get_buffer(10, 10), Some(Acquire::Create(0))));
    pool.install(0, "first", 100, 10, 10);
    assert_eq!(pool.buffer(0), Some(&"first"));
    // slot 0 is busy, so slot 1 is made
    assert!(matches!(pool.get_buffer(10, 10), Some(Acquire::Create(1))));
    pool.install(1, "second", 101, 10, 10);
    // both busy
    assert!(pool.get_buffer(10, 10).is_none());
    pool.release(101);
    assert!(matches!(pool.get_buffer(10, 10), Some(Acquire::Reuse(1))));
    assert!(pool.get_buffer(10, 10).is_none());
    pool.release(100);
    // a new size needs a new buffer in the free slot
    assert!(matches!(pool.get_buffer(20, 10), Some(Acquire::Create(0))));
    assert!(pool.buffer(0).is_none());
    // releasing an unknown buffer changes nothing
    pool.release(7);
    assert!(pool.get_buffer(10, 10).is_some());
}

#[test]
fn release_of_handed_out_buffer_frees_its_slot() {
    let mut pool: BufferPool<u32> = BufferPool::new();
    assert!(matches!(pool.get_buffer(4, 4), Some(Acquire::Create(0))));
    pool.install(0, 10, 10, 4, 4);
    assert!(matches!(pool.get_buffer(4, 4), Some(Acquire::Create(1))));
    pool.install(1, 11, 11, 4, 4);
    pool.release(10);
    assert!(matches!(pool.get_buffer(4, 4), Some(Acquire::Reuse(0))));
    assert_eq!(pool.buffer(0), Some(&10));
    assert_eq!(pool.buffer(1), Some(&11));
}
