use up4::engine::{Engine, Pipeline, PipelineParams, Verdict};
use up4::frame::FrameCtx;
use up4::ops::TableOps;
use up4::programs::null::NullPipeline;

fn verdict(p: &NullPipeline, ingress: u16) -> Verdict {
    let mut e = p.engine();
    let mut buf = [0u8; 128];
    let mut ctx = FrameCtx::new(&mut buf, 64, 60, ingress, 0).expect("fits");
    e.process(p, &mut ctx)
}

#[test]
fn two_ports_echo_to_the_other_one() {
    let p = NullPipeline::new(&PipelineParams::new(vec![0, 1]));
    assert_eq!(verdict(&p, 0), Verdict::Forward(1));
    assert_eq!(verdict(&p, 1), Verdict::Forward(0));
}

#[test]
fn other_topologies_get_the_cyclic_successor() {
    let p = NullPipeline::new(&PipelineParams::new(vec![3, 7, 9]));
    assert_eq!(verdict(&p, 3), Verdict::Forward(7));
    assert_eq!(verdict(&p, 7), Verdict::Forward(9));
    assert_eq!(verdict(&p, 9), Verdict::Forward(3));
    assert_eq!(verdict(&p, 4), Verdict::Drop, "an id the topology lacks");
}

#[test]
fn it_parses_nothing_and_has_no_tables() {
    let p = NullPipeline::new(&PipelineParams::new(vec![0, 1]));
    let mut e = p.engine();
    let mut buf = [0u8; 64];
    let mut ctx = FrameCtx::new(&mut buf, 64, 0, 0, 0).expect("fits");
    assert_eq!(
        e.process(&p, &mut ctx),
        Verdict::Forward(1),
        "an empty frame is still forwarded"
    );
    assert!(p.table_dump("x").is_err());
}
