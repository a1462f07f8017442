use syljs::ast::NumberBits;
use syljs::canvas::{
    CanvasCommand, CanvasContextId, CanvasElementId, CanvasImageData, CanvasMetrics,
    ResearchCanvasHost,
};
use syljs::dom::DomNodeRef;

fn bits(x: f64) -> NumberBits {
    NumberBits(x.to_bits())
}

#[test]
fn new_host_starts_empty() {
    let host = ResearchCanvasHost::default();
    assert_eq!(host.metrics(), CanvasMetrics::default());
    assert!(host.commands().is_empty());
    assert!(host.canvas_snapshot(CanvasElementId(1)).is_none());
}

#[test]
fn create_canvas_has_default_size_and_counts() {
    let mut host = ResearchCanvasHost::new();
    let a = host.create_canvas(None);
    let b = host.create_canvas(Some(DomNodeRef(7)));
    assert_eq!(a, CanvasElementId(1));
    assert_eq!(b, CanvasElementId(2));
    let snap = host.canvas_snapshot(b).unwrap();
    assert_eq!(snap.width, 300);
    assert_eq!(snap.height, 150);
    assert_eq!(snap.dom_node, Some(DomNodeRef(7)));
    assert!(snap.contexts.is_empty());
    assert_eq!(host.canvas_for_dom_node(DomNodeRef(7)), Some(b));
    assert_eq!(host.canvas_for_dom_node(DomNodeRef(8)), None);
    assert_eq!(host.metrics().canvas_elements_created, 2);
}

#[test]
fn bind_dom_node_reuses_existing_canvas() {
    let mut host = ResearchCanvasHost::new();
    let first = host.bind_dom_node(DomNodeRef(3));
    let second = host.bind_dom_node(DomNodeRef(3));
    assert_eq!(first, second);
    assert_eq!(host.metrics().canvas_elements_created, 1);
}

#[test]
fn context_2d_is_created_once_per_canvas() {
    let mut host = ResearchCanvasHost::new();
    let canvas = host.create_canvas(None);
    let c1 = host.context_2d(canvas);
    let c2 = host.context_2d(canvas);
    assert_eq!(c1, CanvasContextId(1));
    assert_eq!(c1, c2);
    let m = host.metrics();
    assert_eq!(m.get_context_calls, 2);
    assert_eq!(m.contexts_created, 1);
    assert_eq!(host.canvas_snapshot(canvas).unwrap().contexts, vec![c1]);
}

#[test]
fn context_for_missing_canvas_is_detached() {
    let mut host = ResearchCanvasHost::new();
    let c1 = host.context_2d(CanvasElementId(99));
    let c2 = host.context_2d(CanvasElementId(99));
    assert_ne!(c1, c2);
    assert_eq!(host.context_snapshot(c1).unwrap().canvas, CanvasElementId(99));
    assert_eq!(host.metrics().contexts_created, 2);
}

#[test]
fn default_state_and_state_updates() {
    let mut host = ResearchCanvasHost::new();
    let canvas = host.create_canvas(None);
    let ctx = host.context_2d(canvas);
    assert_eq!(host.state_get(ctx, "fillStyle"), "#000000");
    assert_eq!(host.state_get(ctx, "font"), "10px sans-serif");
    assert_eq!(host.state_get(ctx, "globalCompositeOperation"), "source-over");
    assert_eq!(host.state_get(ctx, "unknown"), "");
    host.state_set(ctx, "fillStyle", "red".to_owned());
    assert_eq!(host.state_get(ctx, "fillStyle"), "red");
    host.state_set(CanvasContextId(42), "fillStyle", "blue".to_owned());
    assert_eq!(host.state_get(CanvasContextId(42), "fillStyle"), "");
    let snap = host.context_snapshot(ctx).unwrap();
    assert_eq!(snap.state.len(), 11);
    let names: Vec<&str> = snap.state.iter().map(|(k, _)| k.as_str()).collect();
    let mut sorted = names.clone();
    sorted.sort();
    assert_eq!(names, sorted);
    let m = host.metrics();
    assert_eq!(m.state_reads, 6);
    assert_eq!(m.state_writes, 2);
}

#[test]
fn commands_are_recorded_per_context() {
    let mut host = ResearchCanvasHost::new();
    let a = host.create_canvas(None);
    let b = host.create_canvas(None);
    let ca = host.context_2d(a);
    let cb = host.context_2d(b);
    host.record_command(CanvasCommand::BeginPath { context: cb });
    host.record_command(CanvasCommand::FillRect {
        context: ca,
        x: bits(1.0),
        y: bits(2.0),
        width: bits(3.0),
        height: bits(4.0),
        fill_style: "red".to_owned(),
    });
    host.record_command(CanvasCommand::Save { context: CanvasContextId(77) });
    let all = host.commands();
    assert_eq!(all.len(), 2);
    assert!(matches!(all[0], CanvasCommand::FillRect { .. }));
    assert_eq!(all[1], CanvasCommand::BeginPath { context: cb });
    assert_eq!(host.metrics().commands_recorded, 3);
    assert_eq!(host.context_snapshot(ca).unwrap().commands.len(), 1);
}

#[test]
fn data_url_counts_commands_and_resize_clears() {
    let mut host = ResearchCanvasHost::new();
    let canvas = host.create_canvas(None);
    let ctx = host.context_2d(canvas);
    host.record_command(CanvasCommand::MoveTo { context: ctx, x: bits(0.0), y: bits(0.0) });
    host.record_command(CanvasCommand::LineTo { context: ctx, x: bits(5.0), y: bits(5.0) });
    assert_eq!(
        host.to_data_url(canvas, "image/png"),
        "data:image/png;sylphos-canvas,commands=2"
    );
    host.set_canvas_size(canvas, 640, 480);
    let snap = host.canvas_snapshot(canvas).unwrap();
    assert_eq!((snap.width, snap.height), (640, 480));
    assert_eq!(
        host.to_data_url(canvas, "image/png"),
        "data:image/png;sylphos-canvas,commands=0"
    );
    assert_eq!(
        host.to_data_url(CanvasElementId(55), "image/jpeg"),
        "data:image/jpeg;sylphos-canvas,commands=0"
    );
    assert_eq!(host.metrics().data_url_exports, 3);
}

#[test]
fn clear_commands_empties_context() {
    let mut host = ResearchCanvasHost::new();
    let canvas = host.create_canvas(None);
    let ctx = host.context_2d(canvas);
    host.record_command(CanvasCommand::Transform {
        context: ctx,
        kind: "scale".to_owned(),
        values: vec![bits(2.0), bits(2.0)],
    });
    host.clear_commands(ctx);
    host.clear_commands(CanvasContextId(9));
    assert!(host.context_snapshot(ctx).unwrap().commands.is_empty());
    assert_eq!(host.metrics().command_clears, 2);
}

#[test]
fn image_data_byte_length_is_rgba() {
    let mut host = ResearchCanvasHost::new();
    let data = host.create_image_data(4, 3);
    assert_eq!(data, CanvasImageData { width: 4, height: 3, byte_length: 48 });
    assert_eq!(host.metrics().image_data_allocations, 1);
}

#[test]
fn measure_text_font_reads_font_state() {
    let mut host = ResearchCanvasHost::new();
    let canvas = host.create_canvas(None);
    let ctx = host.context_2d(canvas);
    assert_eq!(host.measure_text_font(ctx), "10px sans-serif");
    host.state_set(ctx, "font", "20px serif".to_owned());
    assert_eq!(host.measure_text_font(ctx), "20px serif");
    assert_eq!(host.measure_text_font(CanvasContextId(5)), "10px sans-serif");
    assert_eq!(host.metrics().text_measurements, 3);
}
