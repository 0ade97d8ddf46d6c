use std::collections::VecDeque;

use cosmic_bg::events::{classify, EventKind, ModifyKind, RenameMode, SourceChange};
use cosmic_bg::scaler::{centered_crop, centered_offset, scaled_length};
use cosmic_bg::state::{record_source, resume_path};
use cosmic_bg::wallpaper::{
    find_wallpaper, DrawStep, Entry, FilterMethod, Layer, Render, SamplingMethod, Scaling, Source,
    TimerAction, Wallpaper,
};

type Color = [u8; 3];

fn s(x: &str) -> String {
    x.to_string()
}

fn q(items: &[&str]) -> VecDeque<String> {
    items.iter().map(|x| x.to_string()).collect()
}

fn v(items: &[&str]) -> Vec<String> {
    items.iter().map(|x| x.to_string()).collect()
}

fn entry(output: &str, source: Source<Color>, sampling: SamplingMethod, freq: u64) -> Entry<Color> {
    Entry {
        output: s(output),
        source,
        sampling_method: sampling,
        scaling: Scaling::Zoom,
        filter: FilterMethod::Lanczos,
        rotation_frequency: freq,
    }
}

fn idle(e: Entry<Color>) -> Wallpaper<Color> {
    Wallpaper::new(e, Vec::new(), None).0
}

fn dir_wallpaper(sampling: SamplingMethod, freq: u64) -> Wallpaper<Color> {
    idle(entry("DP-1", Source::Path(s("/walls")), sampling, freq))
}

fn layer(name: Option<&str>, scale: Option<u32>, size: Option<(u32, u32)>) -> Layer {
    Layer {
        output_name: name.map(|n| n.to_string()),
        needs_redraw: true,
        has_pool: true,
        fractional_scale: scale,
        size,
    }
}

fn shown_path(w: &Wallpaper<Color>) -> Option<String> {
    match &w.current_source {
        Some(Source::Path(p)) => Some(p.clone()),
        _ => None,
    }
}

#[test]
fn new_wallpaper_is_idle() {
    let w = dir_wallpaper(SamplingMethod::Alphanumeric, 60);
    assert!(w.layers.is_empty());
    assert!(w.image_queue.is_empty());
    assert!(w.current_source.is_none());
    assert!(w.cached_image.is_none());
    assert!(!w.timer_active);
}

#[test]
fn load_sorts_and_shows_first_image() {
    let mut w = dir_wallpaper(SamplingMethod::Alphanumeric, 60);
    w.load_images(v(&["/walls/c.png", "/walls/a.png", "/walls/b.png"]), None);
    assert_eq!(shown_path(&w), Some(s("/walls/a.png")));
    assert_eq!(w.image_queue, q(&["/walls/b.png", "/walls/c.png", "/walls/a.png"]));
}

#[test]
fn load_resumes_from_saved_image() {
    let mut w = dir_wallpaper(SamplingMethod::Alphanumeric, 60);
    w.load_images(
        v(&["/walls/c.png", "/walls/a.png", "/walls/b.png"]),
        Some(s("/walls/b.png")),
    );
    assert_eq!(shown_path(&w), Some(s("/walls/b.png")));
    assert_eq!(w.image_queue, q(&["/walls/c.png", "/walls/a.png", "/walls/b.png"]));
}

#[test]
fn load_ignores_saved_image_that_is_gone() {
    let mut w = dir_wallpaper(SamplingMethod::Alphanumeric, 60);
    w.load_images(v(&["/walls/b.png", "/walls/a.png"]), Some(s("/walls/x.png")));
    assert_eq!(shown_path(&w), Some(s("/walls/a.png")));
    assert_eq!(w.image_queue, q(&["/walls/b.png", "/walls/a.png"]));
}

#[test]
fn load_single_file_and_empty_directory() {
    let mut w = dir_wallpaper(SamplingMethod::Random, 60);
    w.load_images(v(&["/walls/only.png"]), None);
    assert_eq!(shown_path(&w), Some(s("/walls/only.png")));
    assert_eq!(w.image_queue, q(&["/walls/only.png"]));
    w.load_images(Vec::new(), None);
    assert_eq!(shown_path(&w), Some(s("/walls/only.png")));
    assert!(w.image_queue.is_empty());
}

#[test]
fn load_random_keeps_the_images() {
    let found: Vec<String> = (0..20).map(|i| format!("/walls/{:02}.png", i)).collect();
    let mut turned = found.clone();
    turned.rotate_left(1);
    let mut moved = false;
    for _ in 0..3 {
        let mut w = dir_wallpaper(SamplingMethod::Random, 60);
        w.load_images(found.clone(), None);
        let mut queued: Vec<String> = w.image_queue.iter().cloned().collect();
        assert_eq!(queued.len(), 20);
        assert_eq!(shown_path(&w).as_ref(), queued.last());
        let order = queued.clone();
        queued.sort();
        assert_eq!(queued, found);
        moved = moved || order != turned;
    }
    assert!(moved, "three shuffles of 20 images all gave them back in order");
}

#[test]
fn load_color_source() {
    let mut w = idle(entry("all", Source::Color([1, 2, 3]), SamplingMethod::Alphanumeric, 0));
    w.image_queue = q(&["/old.png"]);
    w.layers.push(layer(Some("DP-1"), Some(120), Some((10, 10))));
    w.layers[0].needs_redraw = false;
    w.cached_image = Some(s("/old.png"));
    w.load_images(v(&["/ignored.png"]), None);
    assert!(matches!(w.current_source, Some(Source::Color([1, 2, 3]))));
    assert!(w.image_queue.is_empty());
    assert!(w.cached_image.is_none());
    assert!(!w.layers[0].needs_redraw);
}

#[test]
fn ensure_active_shows_queued_image_and_asks_for_timer() {
    let mut w = dir_wallpaper(SamplingMethod::Alphanumeric, 30);
    w.layers.push(layer(Some("DP-1"), Some(120), Some((10, 10))));
    w.layers[0].needs_redraw = false;
    w.cached_image = Some(s("/walls/old.png"));
    w.image_queue = q(&["/walls/new.png", "/walls/other.png"]);
    let a = w.ensure_active();
    assert!(a.shown);
    assert!(a.start_timer);
    assert_eq!(shown_path(&w), Some(s("/walls/new.png")));
    assert_eq!(w.image_queue, q(&["/walls/other.png", "/walls/new.png"]));
    assert!(w.cached_image.is_none());
    assert!(w.layers[0].needs_redraw);
}

#[test]
fn ensure_active_leaves_a_shown_wallpaper() {
    let mut w = dir_wallpaper(SamplingMethod::Alphanumeric, 0);
    w.current_source = Some(Source::Path(s("/walls/a.png")));
    w.image_queue = q(&["/walls/b.png"]);
    let a = w.ensure_active();
    assert!(!a.shown);
    assert!(!a.start_timer);
    assert_eq!(w.image_queue, q(&["/walls/b.png"]));
    w.timer_active = true;
    w.entry.rotation_frequency = 10;
    assert!(!w.ensure_active().start_timer);
}

#[test]
fn timer_rotates_or_drops() {
    let mut w = dir_wallpaper(SamplingMethod::Alphanumeric, 45);
    w.timer_active = true;
    w.image_queue = q(&["/a", "/b"]);
    assert!(matches!(w.on_timer(), TimerAction::Reschedule(45)));
    assert_eq!(shown_path(&w), Some(s("/a")));
    assert_eq!(w.image_queue, q(&["/b", "/a"]));
    assert!(w.timer_active);
    w.image_queue.clear();
    assert!(matches!(w.on_timer(), TimerAction::Drop));
    assert!(!w.timer_active);
    assert_eq!(shown_path(&w), Some(s("/a")));
}

#[test]
fn find_wallpaper_by_output() {
    let ws = vec![
        dir_wallpaper(SamplingMethod::Alphanumeric, 1),
        idle(entry("HDMI-A-1", Source::Color([0, 0, 0]), SamplingMethod::Random, 0)),
        dir_wallpaper(SamplingMethod::Random, 2),
    ];
    let outputs: Vec<String> = ws.iter().map(|w| w.entry.output.clone()).collect();
    assert_eq!(find_wallpaper(&outputs, &s("DP-1")), Some(0));
    assert_eq!(find_wallpaper(&outputs, &s("HDMI-A-1")), Some(1));
    assert_eq!(find_wallpaper(&outputs, &s("eDP-1")), None);
}

#[test]
fn draw_steps() {
    let mut w = dir_wallpaper(SamplingMethod::Alphanumeric, 0);
    w.layers.push(layer(Some("DP-1"), Some(180), Some((1280, 720))));
    w.layers.push(layer(Some("DP-2"), None, Some((1280, 720))));
    w.layers.push(layer(Some("DP-3"), Some(120), None));
    w.layers.push(layer(Some("DP-4"), Some(120), Some((1920, 1080))));
    w.layers[3].has_pool = false;
    assert!(matches!(w.draw_step(0, None), DrawStep::NoSource));
    w.current_source = Some(Source::Path(s("/a.png")));
    match w.draw_step(0, None) {
        DrawStep::Paint { width, height, render: Render::Image { path, decode, scaling, filter } } => {
            assert_eq!((width, height), (1920, 1080));
            assert_eq!(path, s("/a.png"));
            assert!(decode);
            assert!(matches!(scaling, Scaling::Zoom));
            assert!(matches!(filter, FilterMethod::Lanczos));
        }
        _ => panic!("expected an image to paint"),
    }
    w.image_decoded(&s("/other.png"));
    assert!(w.cached_image.is_none());
    w.image_decoded(&s("/a.png"));
    assert_eq!(w.cached_image, Some(s("/a.png")));
    assert!(matches!(
        w.draw_step(0, Some((1, 1))),
        DrawStep::Paint { render: Render::Image { decode: false, .. }, .. }
    ));
    w.entry.scaling = Scaling::Fit;
    assert!(matches!(
        w.draw_step(0, None),
        DrawStep::Paint { render: Render::Image { scaling: Scaling::Fit, .. }, .. }
    ));
    w.layers[0].size = Some((u32::MAX, 1));
    w.layers[0].needs_redraw = false;
    assert!(matches!(w.draw_step(0, None), DrawStep::Skip));
    w.layers[0].size = Some((1280, 720));
    w.layers[0].needs_redraw = true;
    assert!(matches!(
        w.draw_step(0, Some((1920, 1080))),
        DrawStep::Paint { width: 1920, height: 1080, render: Render::Reuse }
    ));
    assert!(matches!(w.draw_step(1, None), DrawStep::Skip));
    assert!(matches!(w.draw_step(2, None), DrawStep::Skip));
    assert!(matches!(w.draw_step(3, None), DrawStep::Skip));
    w.layers[0].needs_redraw = false;
    assert!(matches!(w.draw_step(0, None), DrawStep::Skip));
    let mut c = idle(entry("all", Source::Color([9, 9, 9]), SamplingMethod::Random, 0));
    c.layers.push(layer(None, Some(240), Some((100, 50))));
    c.load_images(Vec::new(), None);
    assert!(matches!(
        c.draw_step(0, None),
        DrawStep::Paint { width: 200, height: 100, render: Render::Color }
    ));
}

#[test]
fn clear_image_marks_layers() {
    let mut w = dir_wallpaper(SamplingMethod::Alphanumeric, 0);
    w.layers.push(layer(Some("a"), None, None));
    w.layers.push(layer(Some("b"), None, None));
    w.layers[0].needs_redraw = false;
    w.layers[1].needs_redraw = false;
    w.cached_image = Some(s("/x.png"));
    w.clear_image();
    assert!(w.cached_image.is_none());
    assert!(w.layers.iter().all(|l| l.needs_redraw));
    assert_eq!(w.layers[1].output_name, Some(s("b")));
}

fn path_of(x: &Source<Color>) -> Option<&str> {
    match x {
        Source::Path(p) => Some(p.as_str()),
        Source::Color(_) => None,
    }
}

#[test]
fn record_overwrites_first_entry_and_appends_new_outputs() {
    let mut saved: Vec<(String, Source<Color>)> = vec![
        (s("DP-1"), Source::Path(s("/old1"))),
        (s("DP-2"), Source::Color([1, 1, 1])),
        (s("DP-1"), Source::Path(s("/old2"))),
    ];
    record_source(&mut saved, &v(&["DP-1", "eDP-1", "eDP-1", ""]), &Source::Path(s("/new")));
    assert_eq!(saved.len(), 5);
    assert_eq!(saved[0].0, s("DP-1"));
    assert_eq!(path_of(&saved[0].1), Some("/new"));
    assert!(matches!(saved[1].1, Source::Color([1, 1, 1])));
    assert_eq!(path_of(&saved[2].1), Some("/old2"));
    assert_eq!(saved[3].0, s("eDP-1"));
    assert_eq!(path_of(&saved[3].1), Some("/new"));
    assert_eq!(saved[4].0, s(""));
    assert_eq!(path_of(&saved[4].1), Some("/new"));
}

#[test]
fn resume_path_by_output_or_all() {
    let saved: Vec<(String, Source<Color>)> = vec![
        (s("DP-2"), Source::Color([1, 1, 1])),
        (s("DP-1"), Source::Path(s("/one"))),
        (s("DP-1"), Source::Path(s("/two"))),
    ];
    assert_eq!(resume_path(&saved, &s("DP-1")), Some(s("/one")));
    assert_eq!(resume_path(&saved, &s("DP-2")), None);
    assert_eq!(resume_path(&saved, &s("HDMI")), None);
    assert_eq!(resume_path(&saved, &s("all")), None);
    let first_path: Vec<(String, Source<Color>)> = vec![(s("X"), Source::Path(s("/x")))];
    assert_eq!(resume_path(&first_path, &s("all")), Some(s("/x")));
    assert_eq!(resume_path(&Vec::<(String, Source<Color>)>::new(), &s("all")), None);
}

#[test]
fn save_state_records_shown_source_for_layers() {
    let mut w = dir_wallpaper(SamplingMethod::Alphanumeric, 0);
    w.layers.push(layer(Some("DP-1"), None, None));
    w.layers.push(layer(None, None, None));
    assert!(w.save_state(Vec::new()).is_none());
    w.current_source = Some(Source::Path(s("/shown.png")));
    let after = w.save_state(vec![(s("DP-1"), Source::Path(s("/before.png")))]).unwrap();
    assert_eq!(after.len(), 2);
    assert_eq!(path_of(&after[0].1), Some("/shown.png"));
    assert_eq!(after[1].0, s(""));
    assert_eq!(resume_path(&after, &s("DP-1")), Some(s("/shown.png")));
    let again = w.save_state(after.clone()).unwrap();
    assert_eq!(again.len(), after.len());
    for (x, y) in again.iter().zip(after.iter()) {
        assert_eq!(x.0, y.0);
        assert_eq!(path_of(&x.1), path_of(&y.1));
    }
}

#[test]
fn law_loading_a_new_image_drops_the_cache() {
    let mut w = dir_wallpaper(SamplingMethod::Alphanumeric, 0);
    w.layers.push(layer(Some("DP-1"), Some(120), Some((10, 10))));
    w.load_images(v(&["/walls/p0.png"]), None);
    w.image_decoded(&s("/walls/p0.png"));
    w.layers[0].needs_redraw = false;
    assert_eq!(w.cached_image, Some(s("/walls/p0.png")));
    w.load_images(v(&["/walls/p1.png"]), None);
    assert_eq!(shown_path(&w), Some(s("/walls/p1.png")));
    assert!(w.cached_image.is_none());
    assert!(!w.layers[0].needs_redraw);
    w.layers[0].needs_redraw = true;
    assert!(matches!(
        w.draw_step(0, None),
        DrawStep::Paint { render: Render::Image { decode: true, .. }, .. }
    ));
    w.layer_painted(0);
    assert!(!w.layers[0].needs_redraw);
    assert_eq!(w.layers[0].size, Some((10, 10)));
    w.image_decoded(&s("/walls/p1.png"));
    w.load_images(Vec::new(), None);
    assert_eq!(w.cached_image, Some(s("/walls/p1.png")));
}

#[test]
fn new_loads_and_asks_for_timer() {
    let (w, a) = Wallpaper::new(
        entry("DP-1", Source::Path(s("/walls")), SamplingMethod::Alphanumeric, 60),
        v(&["/walls/b.png", "/walls/a.png"]),
        Some(s("/walls/b.png")),
    );
    assert!(!a.shown);
    assert!(a.start_timer);
    assert_eq!(shown_path(&w), Some(s("/walls/b.png")));
    assert_eq!(w.image_queue, q(&["/walls/a.png", "/walls/b.png"]));
    let (c, a) = Wallpaper::new(entry("all", Source::Color([4, 5, 6]), SamplingMethod::Random, 0), Vec::new(), None);
    assert!(!a.shown && !a.start_timer);
    assert!(matches!(c.current_source, Some(Source::Color([4, 5, 6]))));
    let (e, a) = Wallpaper::new(entry("DP-2", Source::Path(s("/empty")), SamplingMethod::Random, 5), Vec::new(), None);
    assert!(!a.shown && a.start_timer);
    assert!(e.current_source.is_none());
}

#[test]
fn law_timer_run_cycles() {
    let mut w = dir_wallpaper(SamplingMethod::Alphanumeric, 7);
    w.timer_active = true;
    let start = q(&["/a", "/b", "/c"]);
    w.image_queue = start.clone();
    let mut shown = Vec::new();
    for _ in 0..start.len() {
        assert!(matches!(w.on_timer(), TimerAction::Reschedule(7)));
        shown.push(shown_path(&w).unwrap());
    }
    assert_eq!(shown, v(&["/a", "/b", "/c"]));
    assert_eq!(w.image_queue, start);
}

#[test]
fn classify_events() {
    assert!(matches!(classify(&EventKind::Create), SourceChange::Added));
    assert!(matches!(
        classify(&EventKind::Modify(ModifyKind::Name(RenameMode::To))),
        SourceChange::Added
    ));
    assert!(matches!(classify(&EventKind::Remove), SourceChange::Removed));
    assert!(matches!(
        classify(&EventKind::Modify(ModifyKind::Name(RenameMode::From))),
        SourceChange::Removed
    ));
    assert!(matches!(
        classify(&EventKind::Modify(ModifyKind::Name(RenameMode::Both))),
        SourceChange::Unrelated
    ));
    assert!(matches!(classify(&EventKind::Modify(ModifyKind::Data)), SourceChange::Unrelated));
    assert!(matches!(classify(&EventKind::Access), SourceChange::Unrelated));
    assert!(matches!(classify(&EventKind::Any), SourceChange::Unrelated));
    assert!(matches!(classify(&EventKind::Other), SourceChange::Unrelated));
}

#[test]
fn source_events_update_the_queue() {
    let mut w = dir_wallpaper(SamplingMethod::Alphanumeric, 10);
    let r = w.on_source_event(&s("DP-1"), SourceChange::Added, &v(&["/walls/a.png"]), &v(&["/walls/a.png", "/walls/dir"]));
    let a = r.unwrap();
    assert!(a.shown);
    assert!(a.start_timer);
    assert_eq!(shown_path(&w), Some(s("/walls/a.png")));
    assert_eq!(w.image_queue, q(&["/walls/a.png"]));
    let r = w.on_source_event(&s("DP-1"), SourceChange::Added, &v(&["/walls/b.png", "/walls/a.png"]), &v(&[]));
    assert!(!r.unwrap().shown);
    assert_eq!(w.image_queue, q(&["/walls/a.png", "/walls/b.png"]));
    assert!(w.on_source_event(&s("DP-2"), SourceChange::Removed, &v(&[]), &v(&["/walls/a.png"])).is_none());
    assert_eq!(w.image_queue, q(&["/walls/a.png", "/walls/b.png"]));
    assert!(w.on_source_event(&s("DP-1"), SourceChange::Removed, &v(&[]), &v(&["/walls/a.png"])).is_none());
    assert_eq!(w.image_queue, q(&["/walls/b.png"]));
    assert!(w.on_source_event(&s("DP-1"), SourceChange::Unrelated, &v(&["/walls/c.png"]), &v(&[])).is_none());
    assert_eq!(w.image_queue, q(&["/walls/b.png"]));
}

#[test]
fn scaled_lengths() {
    assert_eq!(scaled_length(1280, 180), 1920);
    assert_eq!(scaled_length(1920, 120), 1920);
    assert_eq!(scaled_length(101, 150), 126);
    assert_eq!(scaled_length(0, 240), 0);
}

#[test]
fn centered_offsets() {
    assert_eq!(centered_offset(1920, 1080), 420);
    assert_eq!(centered_offset(101, 100), 0);
    assert_eq!(centered_offset(10, 10), 0);
}

#[test]
fn centered_crops() {
    let r = centered_crop(400, 300, 200, 300);
    assert_eq!((r.x, r.y, r.width, r.height), (100, 0, 200, 300));
    let r = centered_crop(400, 300, 1000, 0);
    assert_eq!((r.x, r.y, r.width, r.height), (0, 149, 400, 1));
    let r = centered_crop(0, 5, 3, 2);
    assert_eq!((r.x, r.y, r.width, r.height), (0, 1, 1, 2));
}

#[test]
fn law_timer_restarts_after_drop() {
    let mut w = dir_wallpaper(SamplingMethod::Alphanumeric, 30);
    w.timer_active = true;
    assert!(matches!(w.on_timer(), TimerAction::Drop));
    let a = w.ensure_active();
    assert!(a.start_timer);
    assert!(!a.shown);
    let r = w.on_source_event(&s("DP-1"), SourceChange::Added, &v(&["/walls/n.png"]), &v(&["/walls/n.png"]));
    let a = r.unwrap();
    assert!(a.shown);
    assert!(a.start_timer);
}

#[test]
fn law_crop_lies_inside_image() {
    for (w, h) in [(1u32, 1u32), (7, 3), (640, 480)] {
        for (cw, ch) in [(0u32, 0u32), (1, 1), (5, 9), (1000, 2), (640, 480)] {
            let r = centered_crop(w, h, cw, ch);
            assert!(r.width >= 1 && r.x + r.width <= w);
            assert!(r.height >= 1 && r.y + r.height <= h);
            assert!(w - (r.x + r.width) - r.x <= 1);
            assert!(h - (r.y + r.height) - r.y <= 1);
        }
    }
}
