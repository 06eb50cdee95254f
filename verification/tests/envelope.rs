use up4::catalog::Program;
use up4::engine::{Engine, Pipeline, PipelineParams, Verdict};
use up4::envelope::{Admission, Scrub};
use up4::frame::FrameCtx;
use up4::headers::{
    Ipv4, ETHERTYPE_IPV4, ETH_HDR_LEN, IPV4_MIN_HDR_LEN, IP_PROTO_UDP,
};
use up4::ops::TableOps;
use up4::programs::l3fwd::L3Fwd;
use up4::programs::null::NullPipeline;
use up4::value::{MacAddr, TypedVal};
use up4::shim::{KeyKind, TypedKey};
use up4::value::ValKind;

/// eth(ipv4) + a 20-byte IPv4 header + 8 bytes of payload.
fn frame() -> Vec<u8> {
    let mut f = vec![0u8; ETH_HDR_LEN + IPV4_MIN_HDR_LEN + 8];
    f[12..14].copy_from_slice(&ETHERTYPE_IPV4.to_be_bytes());
    f[14] = 0x45;
    f[22] = 64;
    f[23] = IP_PROTO_UDP;
    f
}

/// What lets the native backend go unwrapped: over the entire domain the check inspects — all 256 values
/// of the version/IHL byte — admission and the native parser agree
/// exactly. Fusion is therefore not an approximation.
#[test]
fn fusion_is_sound_for_every_version_and_ihl() {
    let mut f = frame();
    for byte in 0..=u8::MAX {
        f[ETH_HDR_LEN] = byte;
        assert_eq!(
            Admission::CoherentIpv4.admits(&f),
            Ipv4::parse(&f, ETH_HDR_LEN).is_some(),
            "version/ihl byte {byte:#04x}"
        );
    }
}

/// The check is about IPv4 and only IPv4: a bridge's traffic goes through.
#[test]
fn non_ipv4_frames_are_never_refused_here() {
    let mut f = frame();
    f[12..14].copy_from_slice(&0x0806u16.to_be_bytes()); // ARP
    f[ETH_HDR_LEN] = 0xff; // nonsense, were this IPv4
    assert!(Admission::CoherentIpv4.admits(&f));
    assert!(Admission::CoherentIpv4.admits(&[]), "not even Ethernet");
    assert!(
        Admission::CoherentIpv4.admits(&f[..8]),
        "truncated Ethernet"
    );
}

/// A truncated IPv4 header is refused for the reason the program would
/// have refused it anyway — the check never *admits* what P4 rejects.
#[test]
fn a_truncated_ipv4_header_is_refused() {
    let f = frame();
    assert!(!Admission::CoherentIpv4.admits(&f[..ETH_HDR_LEN + IPV4_MIN_HDR_LEN - 1]));
}

#[test]
fn everything_admits_everything() {
    assert!(Admission::Everything.admits(&[]));
    assert!(Admission::Everything.admits(&[0xff; 64]));
}

#[test]
fn scrubbing_is_what_it_says() {
    let mut f = frame();
    f[24] = 0xde;
    f[40] = 0xbe;
    let before = f.clone();
    Scrub::Nothing.apply(&mut f);
    assert_eq!(f, before);
    Scrub::InnerChecksums.apply(&mut f);
    assert_eq!((f[24], f[40]), (0, 0));
}

#[test]
fn wrapping_composes_both_ends() {
    let wrapped = Program::L3Fwd
        .envelope()
        .wrap(NullPipeline::new(&PipelineParams::new(vec![0, 1])));
    let mut e = wrapped.engine();
    let mut good = frame();
    good[24] = 0xde;
    let mut buf = vec![0u8; 64];
    buf.extend_from_slice(&good);
    let mut ctx = FrameCtx::new(&mut buf, 64, good.len(), 0, 0).expect("fits");
    assert_eq!(e.process(&wrapped, &mut ctx), Verdict::Forward(1));
    assert_eq!(ctx.frame()[24], 0, "scrubbed on its way out");
    ctx.frame_mut()[14] = 0x65;
    ctx.frame_mut()[24] = 0xde;
    assert_eq!(e.process(&wrapped, &mut ctx), Verdict::Drop);
    assert_eq!(ctx.frame()[24], 0xde, "a refused frame is not touched");
    assert_eq!(wrapped.name(), "null");
    assert_eq!(e.name(), "null");
}

#[test]
fn wrapping_the_native_router_changes_nothing() {
    let key = TypedKey::parse(KeyKind::Lpm(ValKind::Ipv4), "0.0.0.0/0").expect("valid");
    let params = [
        TypedVal::U16(1),
        TypedVal::Mac(MacAddr::new([1, 2, 3, 4, 5, 6])),
    ];
    let mut bare = L3Fwd::new(&PipelineParams::new(vec![0, 1]));
    bare.table_add("ipv4_lpm", key, "forward", &params).expect("install");
    let mut wrapped = Program::L3Fwd
        .envelope()
        .wrap(L3Fwd::new(&PipelineParams::new(vec![0, 1])));
    wrapped.table_add("ipv4_lpm", key, "forward", &params).expect("install");
    let mut e1 = bare.engine();
    let mut e2 = wrapped.engine();
    for byte in 0..=u8::MAX {
        let mut f = frame();
        f[ETH_HDR_LEN] = byte;
        let mut b1 = f.clone();
        let mut b2 = f.clone();
        let len = f.len();
        let mut c1 = FrameCtx::new(&mut b1, 0, len, 0, 0).expect("fits");
        let mut c2 = FrameCtx::new(&mut b2, 0, len, 0, 0).expect("fits");
        assert_eq!(e1.process(&bare, &mut c1), e2.process(&wrapped, &mut c2));
        assert_eq!(b1, b2);
    }
}

/// Whatever a program's admission refuses, the program refuses too, bare or
/// wrapped: over all 256 values of the IPv4 version/IHL byte, on a frame that
/// would otherwise be routed.
#[test]
fn admission_binds_every_backend_of_a_program() {
    let key = TypedKey::parse(KeyKind::Lpm(ValKind::Ipv4), "10.0.2.0/24").expect("valid");
    let params = [TypedVal::U16(1), TypedVal::Mac(MacAddr::new([2, 0, 0, 0, 0, 9]))];
    let mut bare = L3Fwd::new(&PipelineParams::new(vec![0, 1, 2, 3]));
    bare.table_add("ipv4_lpm", key, "forward", &params).expect("install");
    let mut engine = bare.engine();
    let admission = Program::L3Fwd.envelope().admission;
    let mut routed = 0;
    for byte in 0..=u8::MAX {
        let mut f = frame();
        f[0..6].copy_from_slice(&[0x02, 0, 0, 0, 0, 0x02]);
        f[ETH_HDR_LEN] = byte;
        f[ETH_HDR_LEN + 16..ETH_HDR_LEN + 20].copy_from_slice(&[10, 0, 2, 9]);
        let admitted = admission.admits(&f);
        let len = f.len();
        let mut ctx = FrameCtx::new(&mut f, 0, len, 0, 0).expect("fits");
        let verdict = engine.process(&bare, &mut ctx);
        if admitted {
            routed += 1;
            assert_eq!(verdict, Verdict::Forward(1));
        } else {
            assert_eq!(verdict, Verdict::Drop, "version/ihl byte {byte:#04x}");
        }
    }
    assert!(routed > 0);
}

#[test]
fn an_envelope_does_not_show_in_the_tables() {
    let params = PipelineParams::new(vec![0, 1]);
    let bare = L3Fwd::new(&params);
    let wrapped = Program::L3Fwd.envelope().wrap(L3Fwd::new(&params));
    assert_eq!(bare.schemas(), wrapped.schemas());
    assert_eq!(bare.name(), wrapped.name());
    assert_eq!(bare.table_default("ipv4_lpm"), wrapped.table_default("ipv4_lpm"));
}

#[test]
fn a_write_reaches_a_wrapped_engine_and_keeps_the_envelope() {
    let envelope = Program::L3Fwd.envelope();
    let mut p = envelope.wrap(L3Fwd::new(&PipelineParams::new(vec![0, 1])));
    let mut engine = p.engine();
    let mut buf = frame();
    let len = buf.len();
    let mut f = FrameCtx::new(&mut buf, 0, len, 0, 0).expect("fits");
    assert_eq!(engine.process(&p, &mut f), Verdict::Drop);
    let key = TypedKey::parse(KeyKind::Lpm(ValKind::Ipv4), "0.0.0.0/0").expect("valid");
    p.table_add("ipv4_lpm", key, "punt", &[]).expect("install");
    assert_eq!(engine.process(&p, &mut f), Verdict::Punt);
    assert_eq!(p.envelope, envelope);
}
