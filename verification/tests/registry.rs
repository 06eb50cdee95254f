use up4::catalog::{Backend, Program, Selection};
use up4::engine::{Engine, Pipeline, PipelineParams, Verdict};
use up4::frame::FrameCtx;
use up4::ops::TableOps;
use up4::registry::{build, build_selection, names, registry};

#[test]
fn every_registered_pipeline_builds_and_names_itself() {
    let params = PipelineParams::new(vec![0, 1]);
    for spec in registry() {
        let p = build(spec.name, &params).expect("registered names build");
        assert_eq!(p.name(), spec.name);
        assert_eq!(p.engine().name(), spec.name);
        assert!(!spec.summary.is_empty());
    }
}

#[test]
fn registry_names_are_unique() {
    let mut names = names();
    let before = names.len();
    names.sort_unstable();
    names.dedup();
    assert_eq!(names.len(), before);
}

#[test]
fn an_unregistered_name_does_not_load() {
    assert!(build("nope", &PipelineParams::new(vec![0])).is_none());
}

#[test]
fn the_oracle_builds_without_tables() {
    let oracle = build_selection(Selection::Oracle, &PipelineParams::new(vec![0, 1]))
        .expect("built in");
    assert_eq!(oracle.name(), "null");
    assert_eq!(oracle.engine().name(), "null");
    assert!(oracle.schemas().is_empty());
}

#[test]
fn a_compiled_selection_needs_its_object() {
    let params = PipelineParams::new(vec![0, 1]);
    for program in Program::all() {
        for backend in [Backend::X4c, Backend::Ubpf] {
            assert!(build_selection(Selection::P4 { program, backend }, &params).is_none());
        }
    }
}

#[test]
fn the_oracle_rings_the_vports_it_was_given() {
    let params = PipelineParams::new(vec![3, 5, 9]);
    let mut oracle = build_selection(Selection::Oracle, &params).expect("built in");
    let mut engine = oracle.engine();
    // A refused command leaves the ring alone.
    assert!(oracle.table_clear("ipv4_lpm").is_err());
    for (ingress, egress) in [(3, 5), (5, 9), (9, 3)] {
        let mut buf = [0u8; 60];
        let mut f = FrameCtx::new(&mut buf, 0, 60, ingress, 0).expect("fits");
        assert_eq!(engine.process(&oracle, &mut f), Verdict::Forward(egress));
    }
    let mut buf = [0u8; 60];
    let mut f = FrameCtx::new(&mut buf, 0, 60, 4, 0).expect("fits");
    assert_eq!(engine.process(&oracle, &mut f), Verdict::Drop);
}

#[test]
fn a_loaded_engine_sees_a_later_write() {
    let params = PipelineParams::new(vec![0, 1]);
    let mut p = build("l2fwd", &params).expect("registered");
    let mut engine = p.engine();
    let mut buf = [0u8; 60];
    let mut f = FrameCtx::new(&mut buf, 0, 60, 0, 0).expect("fits");
    assert_eq!(engine.process(&p, &mut f), Verdict::Broadcast);
    p.table_set_default("mac_dst", "drop", &[]).expect("set");
    assert_eq!(engine.process(&p, &mut f), Verdict::Drop);
}
