use up4::catalog::{AllocProfile, Arch, Backend, ExecMode, Program, SelectError, Selection};
use up4::envelope::Envelope;

#[test]
fn selection_names_are_unique() {
    let mut names: Vec<_> = Selection::all().into_iter().map(Selection::name).collect();
    let n = names.len();
    names.sort_unstable();
    names.dedup();
    assert_eq!(names.len(), n, "two selections share a name");
}

#[test]
fn the_product_is_total() {
    // Six pairs, all loadable. If a backend ever cannot run a program,
    // this fails rather than the combination silently not existing.
    let pairs = Program::all().len() * Backend::all().len();
    let p4 = Selection::all()
        .into_iter()
        .filter(|s| matches!(s, Selection::P4 { .. }))
        .count();
    assert_eq!(p4, pairs);
}

#[test]
fn parsing_defaults_to_the_native_backend() {
    assert_eq!(
        Selection::parse("l3fwd", None),
        Ok(Selection::P4 {
            program: Program::L3Fwd,
            backend: Backend::Native
        })
    );
}

#[test]
fn parsing_names_the_alternatives_it_knows() {
    let e = Selection::parse("l4fwd", None).unwrap_err();
    assert_eq!(
        e,
        SelectError::UnknownProgram {
            got: "l4fwd".to_owned()
        }
    );
    assert!(e.message().contains("l3fwd"));

    let e = Selection::parse("l3fwd", Some("wasm")).unwrap_err();
    assert!(e.message().contains("ubpf"));
}

#[test]
fn every_program_has_a_source_for_every_architecture() {
    let mut seen: Vec<&str> = Vec::new();
    for program in Program::all() {
        for arch in [Arch::SoftNpu, Arch::Ubpf] {
            let path = program.source(arch);
            assert!(path.starts_with("p4/programs/") && path.ends_with(".p4"), "{path}");
            assert!(path.contains(program.name()), "{path}");
            assert!(!seen.contains(&path), "two sources share {path}");
            seen.push(path);
        }
    }
    assert_eq!(seen.len(), 4);
}

#[test]
fn a_backend_that_allocates_says_so() {
    // The anti-overclaiming property: the binary reports what it is, and
    // the docs quote it. If x4c ever stops allocating, this test is what
    // notices that the facts went stale.
    assert_eq!(Backend::Native.facts().alloc, AllocProfile::NoHeap);
    assert_eq!(Backend::Ubpf.facts().alloc, AllocProfile::NoHeap);
    assert!(matches!(
        Backend::X4c.facts().alloc,
        AllocProfile::PerFrame { .. }
    ));
}

#[test]
fn the_jit_exists_only_where_the_target_can_run_it() {
    assert_eq!(ExecMode::preferred(), ExecMode::Jit);
    assert!(ExecMode::all().contains(&ExecMode::Interpreted));
}

#[test]
fn selections_are_refused_by_name() {
    assert_eq!(
        Selection::parse("l4fwd", None).unwrap_err().message(),
        "unknown pipeline `l4fwd`; known: l2fwd, l3fwd"
    );
    assert_eq!(
        Selection::parse("l3fwd", Some("wasm")).unwrap_err().message(),
        "unknown backend `wasm`; known: native, x4c, ubpf"
    );
    assert_eq!(
        SelectError::BackendNotApplicable { pipeline: "null" }.message(),
        "pipeline `null` takes no backend"
    );
    assert_eq!(
        Selection::parse("null", None),
        Err(SelectError::UnknownProgram { got: "null".to_owned() })
    );
}

#[test]
fn names_parse_back() {
    for program in Program::all() {
        assert_eq!(Program::parse(program.name()), Some(program));
        for backend in Backend::all() {
            assert_eq!(Backend::parse(backend.name()), Some(backend));
            let selection = Selection::parse(program.name(), Some(backend.name())).expect("known");
            assert_eq!(selection, Selection::P4 { program, backend });
            assert_eq!(selection.name(), format!("{}/{}", program.name(), backend.name()));
            assert_eq!(selection.facts(), backend.facts());
        }
    }
    assert_eq!(Program::L2Fwd.envelope(), Envelope::identity());
    assert_ne!(Program::L3Fwd.envelope(), Envelope::identity());
    assert_eq!(Backend::Ubpf.arch(), Arch::Ubpf);
    assert_eq!(Backend::Native.arch(), Arch::SoftNpu);
    assert_eq!(ExecMode::Jit.name(), "jit");
    assert!(Program::L3Fwd.summary().starts_with("IPv4 router"));
}
