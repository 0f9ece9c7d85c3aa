use shiny_session::command::{
    insert_ui, CommandQueue, InsertPosition, Markup, NotifyKind, PlotSource, UICommand,
};
use shiny_session::cursor::ChangeCursor;
use shiny_session::input::{InputPool, Num, Payload};
use shiny_session::server::{
    create_server, render_markdown, update, validate_range, CustomServer, HeartbeatAction,
    SessionState, SD_DEFAULT_BITS,
};

fn started_server(q: &mut CommandQueue) -> CustomServer {
    let mut s = create_server();
    assert!(s.started(0, q));
    q.drain();
    s
}

fn write(key: &str, p: Payload) -> Vec<(String, Payload)> {
    vec![(key.to_string(), p)]
}

fn count_error_notices(cmds: &[UICommand]) -> usize {
    cmds.iter()
        .filter(|c| matches!(c, UICommand::Notify { kind: NotifyKind::Error, .. }))
        .count()
}

#[test]
fn set_bumps_revision_even_for_equal_value() {
    let mut pool = InputPool::new();
    assert_eq!(pool.revision("a"), 0);
    pool.set("a", Payload::UInt(3));
    assert_eq!(pool.revision("a"), 1);
    pool.set("b", Payload::Flag(true));
    pool.set("a", Payload::UInt(3));
    assert_eq!(pool.revision("a"), 3);
    assert_eq!(pool.revision("b"), 2);
    assert_eq!(pool.get_u64("a"), Some(3));
}

#[test]
fn typed_lookup_degrades_to_none() {
    let mut pool = InputPool::new();
    pool.set("t", Payload::Text("hi".to_string()));
    pool.set("x", Payload::Float(1.5f64.to_bits()));
    assert_eq!(pool.get_u64("t"), None);
    assert_eq!(pool.get_string("t"), Some("hi".to_string()));
    assert_eq!(pool.get_string("missing"), None);
    assert_eq!(pool.get_float_bits("x"), Some(1.5f64.to_bits()));
    assert_eq!(pool.get_number("x"), Some(Num::Bits(1.5f64.to_bits())));
    assert_eq!(pool.get_bool("x"), None);
}

#[test]
fn block_fires_once_per_write() {
    let mut pool = InputPool::new();
    let mut c = ChangeCursor::new(vec!["a".to_string(), "b".to_string()]);
    assert!(!c.changed(&pool));
    pool.set("a", Payload::UInt(1));
    assert!(c.changed(&pool));
    assert!(!c.changed(&pool));
    pool.set("z", Payload::UInt(1));
    assert!(!c.changed(&pool));
    pool.set("b", Payload::UInt(7));
    pool.set("a", Payload::UInt(1));
    assert!(c.changed(&pool));
    assert!(!c.changed(&pool));
}

#[test]
fn identical_write_still_fires() {
    let mut pool = InputPool::new();
    let mut c = ChangeCursor::new(vec!["text1".to_string()]);
    pool.set("text1", Payload::Text("same".to_string()));
    assert!(c.changed(&pool));
    pool.set("text1", Payload::Text("same".to_string()));
    assert!(c.changed(&pool));
}

#[test]
fn range_boundaries_are_inclusive() {
    let mut q = CommandQueue::new();
    assert!(!validate_range(&mut q, 0, "e"));
    assert!(validate_range(&mut q, 1, "e"));
    assert!(validate_range(&mut q, 10000, "e"));
    assert!(!validate_range(&mut q, 10001, "e"));
    let cmds = q.drain();
    assert_eq!(cmds.len(), 2);
    assert_eq!(count_error_notices(&cmds), 2);
    match &cmds[0] {
        UICommand::Notify { id, html, closeable, .. } => {
            assert_eq!(id, "e");
            assert_eq!(html, "Number out of range");
            assert!(*closeable);
        }
        _ => panic!("expected a notice"),
    }
}

#[test]
fn out_of_range_size_keeps_sample() {
    for n in [0u64, 10001] {
        let mut q = CommandQueue::new();
        let mut s = started_server(&mut q);
        let before = s.kept_samples();
        assert!(s.handle_input(write("n-1:shiny.number", Payload::UInt(n)), &mut q));
        assert_eq!(s.kept_samples(), before);
        let cmds = q.drain();
        assert_eq!(count_error_notices(&cmds), 1);
        assert_eq!(cmds.len(), 2);
        assert!(matches!(&cmds[1], UICommand::Render { target, .. } if target == "plot1"));
    }
}

#[test]
fn in_range_size_redraws_sample() {
    for n in [1u64, 10000] {
        let mut q = CommandQueue::new();
        let mut s = started_server(&mut q);
        let (d1, d2) = s.kept_samples();
        assert!(s.handle_input(write("n-1:shiny.number", Payload::UInt(n)), &mut q));
        let (e1, e2) = s.kept_samples();
        assert_eq!(e2, d2);
        assert_eq!(e1.params.n, n);
        assert_eq!(e1.params.mean, Num::Bits(0));
        assert_eq!(e1.params.sd, Num::Bits(SD_DEFAULT_BITS));
        assert_ne!(e1.generation, d1.generation);
        let cmds = q.drain();
        assert_eq!(count_error_notices(&cmds), 0);
        assert_eq!(cmds.len(), 1);
        match &cmds[0] {
            UICommand::Render { target, markup: Markup::Plot(a, b) } => {
                assert_eq!(target, "plot1");
                assert_eq!(*a, PlotSource::Kept(e1));
                assert_eq!(*b, PlotSource::Kept(e2));
            }
            _ => panic!("expected the plot"),
        }
    }
}

#[test]
fn long_markdown_warns_and_renders() {
    let mut q = CommandQueue::new();
    let mut s = started_server(&mut q);
    let long = "a".repeat(5001);
    assert!(s.handle_input(write("markdown", Payload::Text(long)), &mut q));
    let cmds = q.drain();
    assert_eq!(cmds.len(), 2);
    match &cmds[0] {
        UICommand::Notify { id, kind, html, .. } => {
            assert_eq!(id, "markdown_warning");
            assert_eq!(*kind, NotifyKind::Error);
            assert_eq!(html, "Exceeded 5,000 characters!");
        }
        _ => panic!("expected the warning"),
    }
    match &cmds[1] {
        UICommand::Render { target, markup: Markup::Html(h) } => {
            assert_eq!(target, "rendered_md");
            assert!(h.contains(&"a".repeat(5001)));
        }
        _ => panic!("expected the rendering"),
    }
}

#[test]
fn markdown_at_limit_only_renders() {
    let mut q = CommandQueue::new();
    let mut s = started_server(&mut q);
    assert!(s.handle_input(write("markdown", Payload::Text("a".repeat(5000))), &mut q));
    let cmds = q.drain();
    assert_eq!(cmds.len(), 1);
    assert!(matches!(&cmds[0], UICommand::Render { target, .. } if target == "rendered_md"));
}

#[test]
fn markdown_is_converted_to_html() {
    let mut q = CommandQueue::new();
    let mut s = started_server(&mut q);
    assert!(s.handle_input(write("markdown", Payload::Text("# Title".to_string())), &mut q));
    let cmds = q.drain();
    match &cmds[0] {
        UICommand::Render { markup: Markup::Html(h), .. } => {
            assert!(h.contains("<h1>"));
            assert!(h.contains("Title"));
        }
        _ => panic!("expected the rendering"),
    }
}

#[test]
fn render_markdown_queues_given_html() {
    let mut q = CommandQueue::new();
    render_markdown(&mut q, &"b".repeat(5001), "<p>x</p>".to_string());
    render_markdown(&mut q, "short", "<p>y</p>".to_string());
    let cmds = q.drain();
    assert_eq!(cmds.len(), 3);
    assert!(matches!(&cmds[0], UICommand::Notify { id, .. } if id == "markdown_warning"));
    assert!(matches!(&cmds[1], UICommand::Render { markup: Markup::Html(h), .. } if h == "<p>x</p>"));
    assert!(matches!(&cmds[2], UICommand::Render { markup: Markup::Html(h), .. } if h == "<p>y</p>"));
}

#[test]
fn resubmission_without_write_does_not_refire() {
    let mut q = CommandQueue::new();
    let mut s = started_server(&mut q);
    assert!(s.handle_input(write("text1", Payload::Text("v".to_string())), &mut q));
    assert_eq!(q.drain().len(), 1);
    assert!(s.handle_input(Vec::new(), &mut q));
    assert_eq!(q.len(), 0);
    assert!(s.handle_input(write("text1", Payload::Text("v".to_string())), &mut q));
    let cmds = q.drain();
    assert_eq!(cmds.len(), 1);
    match &cmds[0] {
        UICommand::UpdateInput { target, props } => {
            assert_eq!(target, "text2");
            assert_eq!(props, &vec![("label".to_string(), "v".to_string())]);
        }
        _ => panic!("expected a label update"),
    }
}

#[test]
fn blocks_run_in_declaration_order() {
    let mut q = CommandQueue::new();
    let mut s = started_server(&mut q);
    let batch = vec![
        ("text2".to_string(), Payload::Text("two".to_string())),
        ("remove_ui:shiny.action".to_string(), Payload::UInt(1)),
        ("insert_ui:shiny.action".to_string(), Payload::UInt(1)),
    ];
    assert!(s.handle_input(batch, &mut q));
    let cmds = q.drain();
    assert_eq!(cmds.len(), 3);
    match &cmds[0] {
        UICommand::InsertUI { selector, position, markup: Markup::Plot(a, b) } => {
            assert_eq!(selector, "#insert_section");
            assert_eq!(*position, InsertPosition::AfterBegin);
            assert_eq!(a, b);
            assert!(matches!(a, PlotSource::Fresh(p) if p.n == 50));
        }
        _ => panic!("expected an insertion"),
    }
    assert!(matches!(&cmds[1], UICommand::RemoveUI { selector } if selector == "#insert_section div"));
    assert!(matches!(&cmds[2], UICommand::UpdateInput { target, .. } if target == "text1"));
}

#[test]
fn inserts_keep_call_order() {
    let mut q = CommandQueue::new();
    insert_ui(&mut q, "#c", InsertPosition::AfterBegin, Markup::Html("A".to_string()));
    insert_ui(&mut q, "#c", InsertPosition::AfterBegin, Markup::Html("B".to_string()));
    let cmds = q.drain();
    assert_eq!(cmds.len(), 2);
    assert!(matches!(&cmds[0], UICommand::InsertUI { position: InsertPosition::AfterBegin, markup: Markup::Html(h), .. } if h == "A"));
    assert!(matches!(&cmds[1], UICommand::InsertUI { position: InsertPosition::AfterBegin, markup: Markup::Html(h), .. } if h == "B"));
}

#[test]
fn initialize_plots_seeded_inputs() {
    let mut q = CommandQueue::new();
    let mut s = create_server();
    s.input.set("n-2:shiny.number", Payload::UInt(20));
    s.input.set("mean-2:shiny.number", Payload::Float(2.5f64.to_bits()));
    assert!(s.started(0, &mut q));
    assert!(!s.started(1, &mut q));
    let (d1, d2) = s.kept_samples();
    assert_eq!(d1.params.n, 0);
    assert_eq!(d2.params.n, 20);
    assert_eq!(d2.params.mean, Num::Bits(2.5f64.to_bits()));
    assert_ne!(d1.generation, d2.generation);
    let cmds = q.drain();
    assert_eq!(cmds.len(), 1);
    assert!(matches!(&cmds[0], UICommand::Render { target, markup: Markup::Plot(..) } if target == "plot1"));
}

#[test]
fn heartbeat_timeout_closes_session() {
    let mut q = CommandQueue::new();
    let mut s = CustomServer::with_timing(5000, 10000);
    assert_eq!(s.heartbeat(0, &mut q), HeartbeatAction::Idle);
    assert!(s.started(1000, &mut q));
    assert_eq!(s.heartbeat(6000, &mut q), HeartbeatAction::Ping);
    assert!(s.acknowledge(6000));
    assert_eq!(s.heartbeat(16000, &mut q), HeartbeatAction::Ping);
    assert_eq!(s.heartbeat(16001, &mut q), HeartbeatAction::Stop);
    assert_eq!(s.session_state(), SessionState::Closed);
    assert_eq!(q.len(), 0);
    assert!(!s.handle_input(write("text1", Payload::Text("x".to_string())), &mut q));
    assert!(!s.acknowledge(17000));
    assert!(!s.on_tick(&mut q));
    assert!(!s.close(&mut q));
    assert_eq!(s.heartbeat(20000, &mut q), HeartbeatAction::Idle);
    assert_eq!(q.len(), 0);
}

#[test]
fn close_discards_queued_commands() {
    let mut q = CommandQueue::new();
    let mut s = create_server();
    assert!(s.started(0, &mut q));
    assert_eq!(q.len(), 1);
    assert!(s.close(&mut q));
    assert_eq!(q.len(), 0);
    assert_eq!(s.session_state(), SessionState::Closed);
    assert_eq!(s.input.revision("n-1:shiny.number"), 0);
}

#[test]
fn update_without_writes_queues_nothing() {
    let mut q = CommandQueue::new();
    let mut s = started_server(&mut q);
    update(&mut s, &mut q);
    assert_eq!(q.len(), 0);
}

#[test]
fn create_server_defaults() {
    let s = create_server();
    assert_eq!(s.event, "Init");
    assert_eq!(s.hb, 0);
    assert_eq!(s.heartbeat_interval(), 5000);
    assert_eq!(s.client_timeout, 10000);
    assert_eq!(s.session_state(), SessionState::Initializing);
    assert_eq!(s.input.last_revision(), 0);
}

#[test]
fn timely_acknowledgments_keep_session_active() {
    let mut q = CommandQueue::new();
    let mut s = create_server();
    assert!(s.started(0, &mut q));
    let mut t = 0u64;
    for _ in 0..10 {
        t += 5000;
        assert_eq!(s.heartbeat(t, &mut q), HeartbeatAction::Ping);
        assert!(s.acknowledge(t));
        assert_eq!(s.session_state(), SessionState::Active);
    }
    assert_eq!(s.event, "Init");
}
