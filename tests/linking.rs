use alloy_primitives::Address;
use forgery::link::{check_links, dependency_closure, find_override, link_program, patch, LibraryOverride};
use forgery::target::{resolve_target, Artifact, BuildError, LinkRef, TargetSpec};

fn art(source: &str, name: &str, code: Vec<u8>, links: Vec<(usize, usize)>) -> Artifact {
    Artifact {
        source: source.to_string(),
        name: name.to_string(),
        bytecode: code,
        links: links.into_iter().map(|(library, offset)| LinkRef { library, offset }).collect(),
    }
}

fn file(f: &str) -> TargetSpec {
    TargetSpec::File(f.to_string())
}

fn zero() -> Vec<u8> {
    vec![0u8; 20]
}

fn created(nonce: u64) -> Vec<u8> {
    Address::ZERO.create(nonce).to_vec()
}

#[test]
fn resolve_single_match_ignores_interfaces() {
    let arts = vec![
        art("src/Index.sol", "IIndex", vec![], vec![]),
        art("src/Index.sol", "Index", vec![1, 2], vec![]),
        art("src/Other.sol", "Other", vec![3], vec![]),
    ];
    assert_eq!(resolve_target(&arts, &file("src/Index.sol")), Ok(1));
}

#[test]
fn resolve_two_matches_is_ambiguous() {
    let arts = vec![
        art("src/Index.sol", "A", vec![1], vec![]),
        art("src/Index.sol", "B", vec![2], vec![]),
    ];
    assert_eq!(resolve_target(&arts, &file("src/Index.sol")), Err(BuildError::AmbiguousTarget));
}

#[test]
fn resolve_no_match_is_not_found() {
    let arts = vec![
        art("src/Index.sol", "IIndex", vec![], vec![]),
        art("src/Other.sol", "Other", vec![3], vec![]),
    ];
    assert_eq!(resolve_target(&arts, &file("src/Index.sol")), Err(BuildError::TargetNotFound));
    assert_eq!(resolve_target(&vec![], &file("src/Index.sol")), Err(BuildError::TargetNotFound));
}

#[test]
fn resolve_named_target() {
    let arts = vec![
        art("src/Index.sol", "A", vec![1], vec![]),
        art("src/Index.sol", "B", vec![2], vec![]),
        art("src/Index.sol", "I", vec![], vec![]),
    ];
    let t = TargetSpec::parse_named("src/Index.sol:B").unwrap();
    assert_eq!(resolve_target(&arts, &t), Ok(1));
    let t = TargetSpec::parse_named("src/Index.sol:I").unwrap();
    assert_eq!(resolve_target(&arts, &t), Err(BuildError::MissingBytecode));
    let t = TargetSpec::parse_named("src/Index.sol:C").unwrap();
    assert_eq!(resolve_target(&arts, &t), Err(BuildError::TargetNotFound));
}

#[test]
fn parse_named_splits_at_last_colon() {
    match TargetSpec::parse_named("C:/x/Index.sol:Index").unwrap() {
        TargetSpec::Named(p, n) => {
            assert_eq!(p, "C:/x/Index.sol");
            assert_eq!(n, "Index");
        }
        TargetSpec::File(_) => panic!("expected a named target"),
    }
    assert!(matches!(TargetSpec::parse_named("src/Index.sol"), Err(BuildError::MalformedTarget)));
    assert!(matches!(TargetSpec::parse_named(""), Err(BuildError::MalformedTarget)));
}

#[test]
fn check_links_rejects_overlap_and_range() {
    let ok = vec![art("a.sol", "A", vec![0; 40], vec![(0, 0), (0, 20)])];
    assert!(check_links(&ok));
    let overlap = vec![art("a.sol", "A", vec![0; 40], vec![(0, 0), (0, 19)])];
    assert!(!check_links(&overlap));
    let past_end = vec![art("a.sol", "A", vec![0; 30], vec![(0, 11)])];
    assert!(!check_links(&past_end));
    let no_library = vec![art("a.sol", "A", vec![0; 30], vec![(1, 0)])];
    assert!(!check_links(&no_library));
}

#[test]
fn link_error_reported() {
    let arts = vec![art("src/Index.sol", "Index", vec![1; 10], vec![(0, 0)])];
    assert!(matches!(
        link_program(&arts, &file("src/Index.sol"), &vec![], "/p", &zero(), 0),
        Err(BuildError::LinkError)
    ));
}

#[test]
fn patch_writes_address_at_each_offset() {
    let table = vec![vec![7u8; 20]];
    let links = vec![LinkRef { library: 0, offset: 2 }, LinkRef { library: 0, offset: 30 }];
    let out = patch(&vec![1u8; 52], &links, &table);
    assert_eq!(&out[..2], &[1, 1]);
    assert_eq!(&out[2..22], &[7u8; 20]);
    assert_eq!(&out[22..30], &[1u8; 8]);
    assert_eq!(&out[30..50], &[7u8; 20]);
    assert_eq!(&out[50..], &[1, 1]);
}

fn library_set() -> Vec<Artifact> {
    // 0: target uses library 1 twice and library 2 once; 1 uses library 3.
    vec![
        art("src/Index.sol", "Index", vec![0xaa; 70], vec![(1, 0), (2, 25), (1, 50)]),
        art("src/Lib.sol", "Lib", vec![0xbb; 30], vec![(3, 5)]),
        art("src/Math.sol", "Math", vec![0xcc; 10], vec![]),
        art("src/Deep.sol", "Deep", vec![0xdd; 4], vec![]),
    ]
}

#[test]
fn closure_is_breadth_first_and_unique() {
    assert_eq!(dependency_closure(&library_set(), 0), vec![1, 2, 3]);
}

#[test]
fn link_without_overrides_uses_computed_addresses() {
    let arts = library_set();
    let plan = link_program(&arts, &file("src/Index.sol"), &vec![], "/p", &zero(), 0).unwrap();
    assert_eq!(plan.target, 0);
    assert_eq!(plan.libraries, vec![1, 2, 3]);
    let (a1, a2, a3) = (created(0), created(1), created(2));
    assert_ne!(a1, zero());
    assert_eq!(plan.addresses, vec![a1.clone(), a2.clone(), a3.clone()]);
    assert_eq!(&plan.bytecode[0..20], &a1[..]);
    assert_eq!(&plan.bytecode[50..70], &a1[..]);
    assert_eq!(&plan.bytecode[25..45], &a2[..]);
    assert_eq!(&plan.bytecode[20..25], &[0xaa; 5]);
    assert_eq!(plan.predeploy.len(), 3);
    assert_eq!(&plan.predeploy[0][5..25], &a3[..]);
    assert_eq!(plan.predeploy[1], vec![0xcc; 10]);
    assert_eq!(plan.predeploy[2], vec![0xdd; 4]);
}

#[test]
fn link_override_wins_everywhere() {
    let arts = library_set();
    let fixed = vec![0x11u8; 20];
    let ovs = vec![LibraryOverride {
        path: "/p/src/Lib.sol".to_string(),
        name: "Lib".to_string(),
        address: fixed.clone(),
    }];
    let plan = link_program(&arts, &file("src/Index.sol"), &ovs, "/p", &zero(), 0).unwrap();
    assert_eq!(&plan.bytecode[0..20], &fixed[..]);
    assert_eq!(&plan.bytecode[50..70], &fixed[..]);
    // The overridden library is not deployed, so the others take the first nonces.
    assert_eq!(&plan.bytecode[25..45], &created(0)[..]);
    assert_eq!(plan.addresses, vec![fixed.clone(), created(0), created(1)]);
    assert_eq!(plan.predeploy, vec![vec![0xcc; 10], vec![0xdd; 4]]);
}

#[test]
fn override_relative_path_is_made_absolute() {
    let arts = library_set();
    let ovs = vec![
        LibraryOverride { path: "src/Other.sol".to_string(), name: "Lib".to_string(), address: vec![1; 20] },
        LibraryOverride { path: "src/Lib.sol".to_string(), name: "Lib".to_string(), address: vec![2; 20] },
        LibraryOverride { path: "/p/src/Lib.sol".to_string(), name: "Lib".to_string(), address: vec![3; 20] },
    ];
    assert_eq!(find_override(&ovs, "/p", &arts[1]), Some(1));
    assert_eq!(find_override(&ovs, "/p", &arts[2]), None);
}

#[test]
fn link_reports_resolution_errors() {
    let arts = library_set();
    assert!(matches!(
        link_program(&arts, &file("src/None.sol"), &vec![], "/p", &zero(), 0),
        Err(BuildError::TargetNotFound)
    ));
    let two = vec![art("src/Index.sol", "A", vec![1], vec![]), art("src/Index.sol", "B", vec![1], vec![])];
    assert!(matches!(
        link_program(&two, &file("src/Index.sol"), &vec![], "/p", &zero(), 0),
        Err(BuildError::AmbiguousTarget)
    ));
}

#[test]
fn closure_keeps_first_occurrence_order() {
    // target refers to 2, then 1, then 2 again; 2 refers to 3 and 1.
    let arts = vec![
        art("src/Index.sol", "Index", vec![0; 60], vec![(2, 0), (1, 20), (2, 40)]),
        art("src/A.sol", "A", vec![0; 1], vec![]),
        art("src/B.sol", "B", vec![0; 40], vec![(3, 0), (1, 20)]),
        art("src/C.sol", "C", vec![0; 1], vec![]),
    ];
    assert_eq!(dependency_closure(&arts, 0), vec![2, 1, 3]);
    let plan = link_program(&arts, &file("src/Index.sol"), &vec![], "/p", &zero(), 0).unwrap();
    assert_eq!(plan.predeploy.len(), 3);
    assert_eq!(&plan.bytecode[0..20], &created(0)[..]);
    assert_eq!(&plan.bytecode[20..40], &created(1)[..]);
    assert_eq!(&plan.predeploy[0][0..20], &created(2)[..]);
}

#[test]
fn link_twice_gives_same_plan() {
    let arts = library_set();
    let a = link_program(&arts, &file("src/Index.sol"), &vec![], "/p", &zero(), 3).unwrap();
    let b = link_program(&arts, &file("src/Index.sol"), &vec![], "/p", &zero(), 3).unwrap();
    assert_eq!(a.bytecode, b.bytecode);
    assert_eq!(a.predeploy, b.predeploy);
    assert_eq!(a.addresses[0], created(3));
}

#[test]
fn build_error_messages() {
    assert!(BuildError::AmbiguousTarget.message().contains("--tc ContractName"));
    assert_eq!(BuildError::MalformedTarget.message(), "The target specifier is malformed.");
    assert_eq!(BuildError::TargetNotFound.message(), "Could not find target contract");
}
