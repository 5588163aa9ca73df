use klinke::arena::{Node, NodeArena, NodeId};
use klinke::base_modules::{AnyModule, Level, Mixer, Vca};
use klinke::cables::Input;
use klinke::engine::{AudioEngine, AudioGraph, ControlError, EngineCommand, EngineResponse};
use klinke::Module;

type Engine = AudioEngine<AnyModule>;

fn setup() -> (
    Engine,
    crossbeam_channel::Sender<EngineCommand<AnyModule>>,
    crossbeam_channel::Receiver<EngineResponse<AnyModule>>,
) {
    let (ctx, crx) = crossbeam_channel::bounded(128);
    let (rtx, rrx) = crossbeam_channel::bounded(128);
    let engine = AudioEngine::with_capacity(1024, crx, rtx);
    (engine, ctx, rrx)
}

fn add(
    engine: &mut Engine,
    ctx: &crossbeam_channel::Sender<EngineCommand<AnyModule>>,
    rrx: &crossbeam_channel::Receiver<EngineResponse<AnyModule>>,
    module: AnyModule,
) -> NodeId {
    ctx.send(EngineCommand::AddNode(Node::from_module(module)))
        .unwrap();
    engine.run();
    match rrx.recv().unwrap() {
        EngineResponse::NodeAdded(id) => id,
        _ => panic!("unexpected response"),
    }
}

fn set_schedule(
    engine: &mut Engine,
    ctx: &crossbeam_channel::Sender<EngineCommand<AnyModule>>,
    sched: Vec<NodeId>,
) {
    ctx.send(EngineCommand::NewSchedule(sched)).unwrap();
    engine.run();
}

#[test]
fn removed_id_never_resolves_again() {
    let (mut engine, ctx, rrx) = setup();
    let id1 = add(&mut engine, &ctx, &rrx, AnyModule::Level(Level::new(7)));
    ctx.send(EngineCommand::RemoveNode(id1)).unwrap();
    engine.run();
    match rrx.recv().unwrap() {
        EngineResponse::NodeRemoved(Some(_)) => {}
        _ => panic!("expected the removed module back"),
    }
    // The slot is reused, but under a fresh generation: the stale id stays dead.
    let id2 = add(&mut engine, &ctx, &rrx, AnyModule::Level(Level::new(9)));
    assert_eq!(id1.index, id2.index);
    assert_ne!(id1.generation, id2.generation);
    assert_ne!(id1, id2);
    // Operating on the stale id is refused as a protocol violation.
    let before = engine.violations();
    ctx.send(EngineCommand::DesignateOutput { node: id1, port: 0 })
        .unwrap();
    engine.run();
    assert_eq!(engine.violations(), before + 1);
    // Removing the stale id removes nothing.
    ctx.send(EngineCommand::RemoveNode(id1)).unwrap();
    engine.run();
    match rrx.recv().unwrap() {
        EngineResponse::NodeRemoved(None) => {}
        _ => panic!("a stale id must not remove anything"),
    }
}

#[test]
fn disconnected_input_reads_zero() {
    let arena: NodeArena<AnyModule> = NodeArena::new();
    let input = Input::default();
    assert!(!input.is_connected());
    assert_eq!(input.get(&arena), 0);
}

#[test]
fn output_is_silent_without_designation() {
    let (mut engine, _ctx, _rrx) = setup();
    engine.run();
    assert_eq!(engine.output(), 0);
}

#[test]
fn removing_sole_source_silences_input() {
    let (mut engine, ctx, rrx) = setup();
    let level = add(&mut engine, &ctx, &rrx, AnyModule::Level(Level::new(7)));
    let mixer = add(&mut engine, &ctx, &rrx, AnyModule::Mixer(Mixer));
    set_schedule(&mut engine, &ctx, vec![level, mixer]);
    ctx.send(EngineCommand::Connect {
        out_node: level,
        out_port: 0,
        in_node: mixer,
        in_port: 0,
    })
    .unwrap();
    engine.run();
    ctx.send(EngineCommand::DesignateOutput {
        node: mixer,
        port: 0,
    })
    .unwrap();
    engine.run();
    engine.run();
    assert_eq!(engine.output(), 7);
    // Remove the only source: the mixer's input is severed and reads 0.
    ctx.send(EngineCommand::RemoveNode(level)).unwrap();
    engine.run();
    rrx.recv().unwrap();
    engine.run();
    assert_eq!(engine.output(), 0);
}

#[test]
fn self_loop_reads_previous_tick() {
    let (mut engine, ctx, rrx) = setup();
    let level = add(&mut engine, &ctx, &rrx, AnyModule::Level(Level::new(10)));
    let mixer = add(&mut engine, &ctx, &rrx, AnyModule::Mixer(Mixer));
    set_schedule(&mut engine, &ctx, vec![level, mixer]);
    // The mixer feeds itself (self-loop, accepted) and also hears the level.
    ctx.send(EngineCommand::Connect {
        out_node: mixer,
        out_port: 0,
        in_node: mixer,
        in_port: 0,
    })
    .unwrap();
    engine.run();
    ctx.send(EngineCommand::Connect {
        out_node: level,
        out_port: 0,
        in_node: mixer,
        in_port: 1,
    })
    .unwrap();
    engine.run();
    ctx.send(EngineCommand::DesignateOutput {
        node: mixer,
        port: 0,
    })
    .unwrap();
    engine.run();
    // Each tick mixes the previous tick's own output with the level's 10,
    // so the loop carries a one-tick delay: 0, 5, 7, 8, 9, 9, ... The three
    // wiring ticks above already ran the schedule (a tick computes first,
    // then applies its command), leaving the mixer at 5; sampling picks up
    // from there.
    let mut got = Vec::new();
    for _ in 0..5 {
        engine.run();
        got.push(engine.output());
    }
    assert_eq!(got, vec![7, 8, 9, 9, 9]);
}

#[test]
fn mixer_averages_connected_inputs() {
    let (mut engine, ctx, rrx) = setup();
    let a = add(&mut engine, &ctx, &rrx, AnyModule::Level(Level::new(3)));
    let b = add(&mut engine, &ctx, &rrx, AnyModule::Level(Level::new(5)));
    let c = add(&mut engine, &ctx, &rrx, AnyModule::Level(Level::new(10)));
    let mixer = add(&mut engine, &ctx, &rrx, AnyModule::Mixer(Mixer));
    set_schedule(&mut engine, &ctx, vec![a, b, c, mixer]);
    for (i, src) in [a, b, c].iter().enumerate() {
        ctx.send(EngineCommand::Connect {
            out_node: *src,
            out_port: 0,
            in_node: mixer,
            in_port: i as u8,
        })
        .unwrap();
        engine.run();
    }
    ctx.send(EngineCommand::DesignateOutput {
        node: mixer,
        port: 0,
    })
    .unwrap();
    engine.run();
    engine.run();
    // Exactly the three connected inputs count: (3+5+10)/3 = 6.
    assert_eq!(engine.output(), 6);
}

#[test]
fn mixer_with_no_connection_outputs_zero() {
    let mut m = Mixer;
    let inputs = vec![None; 8];
    let mut outputs = vec![123i64];
    m.run(&inputs, &mut outputs);
    assert_eq!(outputs[0], 0);
}

#[test]
fn mixer_mean_truncates_toward_zero() {
    let mut m = Mixer;
    let inputs = vec![Some(-3i64), Some(-4), None, None, None, None, None, None];
    let mut outputs = vec![0i64];
    m.run(&inputs, &mut outputs);
    assert_eq!(outputs[0], -3); // -7 / 2, rounded toward zero
}

#[test]
fn vca_multiplies_and_saturates() {
    let mut v = Vca::default();
    let mut outputs = vec![0i64];
    v.run(&vec![Some(6i64), Some(7)], &mut outputs);
    assert_eq!(outputs[0], 42);
    v.run(&vec![Some(i64::MAX), Some(2)], &mut outputs);
    assert_eq!(outputs[0], i64::MAX);
    v.run(&vec![Some(i64::MAX), Some(-2)], &mut outputs);
    assert_eq!(outputs[0], i64::MIN);
    v.run(&vec![Some(5i64), None], &mut outputs);
    assert_eq!(outputs[0], 0);
}

#[test]
fn silent_module_yields_n_zeros() {
    let (mut engine, ctx, rrx) = setup();
    let silence = add(&mut engine, &ctx, &rrx, AnyModule::Level(Level::new(0)));
    set_schedule(&mut engine, &ctx, vec![silence]);
    ctx.send(EngineCommand::DesignateOutput {
        node: silence,
        port: 0,
    })
    .unwrap();
    engine.run();
    let mut samples = Vec::new();
    for _ in 0..50 {
        engine.run();
        samples.push(engine.output());
    }
    assert_eq!(samples, vec![0i64; 50]);
}

#[test]
fn protocol_violations_are_tallied() {
    let (mut engine, ctx, rrx) = setup();
    let id = add(&mut engine, &ctx, &rrx, AnyModule::Level(Level::new(1)));
    assert_eq!(engine.violations(), 0);
    // Out-of-range input port (a Level has no inputs).
    ctx.send(EngineCommand::Disconnect { node: id, port: 0 }).unwrap();
    engine.run();
    assert_eq!(engine.violations(), 1);
    // Dead node.
    let stale = NodeId {
        index: 99,
        generation: 0,
    };
    ctx.send(EngineCommand::Connect {
        out_node: stale,
        out_port: 0,
        in_node: id,
        in_port: 0,
    })
    .unwrap();
    engine.run();
    assert_eq!(engine.violations(), 2);
    // Out-of-range output port.
    ctx.send(EngineCommand::DesignateOutput { node: id, port: 3 }).unwrap();
    engine.run();
    assert_eq!(engine.violations(), 3);
}

#[test]
fn control_handle_reports_disconnection() {
    let (ctx, crx) = crossbeam_channel::bounded::<EngineCommand<AnyModule>>(128);
    let (_rtx, rrx) = crossbeam_channel::bounded::<EngineResponse<AnyModule>>(128);
    let mut graph = AudioGraph::new(ctx, rrx);
    drop(crx); // the engine side is gone
    let r = graph.add_module(AnyModule::Mixer(Mixer));
    assert_eq!(r, Err(ControlError::Disconnected));
}

#[test]
fn control_handle_rejects_wrong_reply_kind() {
    let (ctx, _crx) = crossbeam_channel::bounded::<EngineCommand<AnyModule>>(128);
    let (rtx, rrx) = crossbeam_channel::bounded::<EngineResponse<AnyModule>>(128);
    let mut graph = AudioGraph::new(ctx, rrx);
    // A reply of the wrong kind is a protocol violation, not a normal error.
    rtx.send(EngineResponse::NodeRemoved(None)).unwrap();
    let r = graph.add_module(AnyModule::Mixer(Mixer));
    assert_eq!(r, Err(ControlError::UnexpectedResponse));
    rtx.send(EngineResponse::NodeAdded(NodeId {
        index: 0,
        generation: 0,
    }))
    .unwrap();
    let r2 = graph.remove_module(NodeId {
        index: 0,
        generation: 0,
    });
    match r2 {
        Err(ControlError::UnexpectedResponse) => {}
        _ => panic!("expected a protocol violation"),
    }
}

#[test]
fn control_handle_commands_reach_engine() {
    let (ctx, crx) = crossbeam_channel::bounded(128);
    let (rtx, rrx) = crossbeam_channel::bounded(128);
    let mut engine: Engine = AudioEngine::with_capacity(1024, crx, rtx);
    let mut graph = AudioGraph::new(ctx.clone(), rrx.clone());
    // Identity-affecting commands are driven directly so that nothing blocks;
    // the fire-and-forget commands go through the control handle.
    let level = add(&mut engine, &ctx, &rrx, AnyModule::Level(Level::new(4)));
    set_schedule(&mut engine, &ctx, vec![level]);
    graph.designate_output(level, 0);
    engine.run();
    engine.run();
    assert_eq!(engine.output(), 4);
    graph.disconnect(level, 0); // a Level has no inputs: tallied, not fatal
    engine.run();
    assert_eq!(engine.violations(), 1);
}

#[test]
fn schedule_sent_after_add_names_the_registry() {
    let (ctx, crx) = crossbeam_channel::bounded::<EngineCommand<AnyModule>>(128);
    let (rtx, rrx) = crossbeam_channel::bounded::<EngineResponse<AnyModule>>(128);
    let mut graph = AudioGraph::new(ctx, rrx);
    // Answer the add before it blocks, with a known identifier.
    let id = NodeId {
        index: 3,
        generation: 7,
    };
    rtx.send(EngineResponse::NodeAdded(id)).unwrap();
    let got = graph.add_module(AnyModule::Mixer(Mixer)).unwrap();
    assert_eq!(got, id);
    assert_eq!(graph.schedule_of(), vec![id]);
    // The command channel holds the add followed by a schedule that
    // enumerates the registry: exactly the one new identifier.
    match crx.recv().unwrap() {
        EngineCommand::AddNode(_) => {}
        _ => panic!("expected the node first"),
    }
    match crx.recv().unwrap() {
        EngineCommand::NewSchedule(s) => assert_eq!(s, vec![id]),
        _ => panic!("expected a fresh schedule"),
    }
}

#[test]
fn removal_returns_the_module_the_reply_carried() {
    let (ctx, _crx) = crossbeam_channel::bounded::<EngineCommand<AnyModule>>(128);
    let (rtx, rrx) = crossbeam_channel::bounded::<EngineResponse<AnyModule>>(128);
    let mut graph = AudioGraph::new(ctx, rrx);
    let id = NodeId {
        index: 0,
        generation: 0,
    };
    // Answer the remove before it blocks, with a known module in the reply.
    let node = Node::from_module(AnyModule::Level(Level::new(42)));
    rtx.send(EngineResponse::NodeRemoved(Some(node))).unwrap();
    match graph.remove_module(id) {
        Ok(Some(AnyModule::Level(l))) => assert_eq!(l.level, 42),
        _ => panic!("expected the reply's module back"),
    }
    // A reply carrying nothing means the id was already stale: Ok(None).
    rtx.send(EngineResponse::NodeRemoved(None)).unwrap();
    match graph.remove_module(id) {
        Ok(None) => {}
        _ => panic!("expected nothing back for a stale id"),
    }
}
