use depgraph::dep_info::{BuildFlag, DepInfoInner, DepKind, RawDepKind};

fn all_flags() -> Vec<BuildFlag> {
    vec![BuildFlag::Always, BuildFlag::Test, BuildFlag::Never]
}

#[test]
fn and_or_tables() {
    let always = BuildFlag::Always;
    let test = BuildFlag::Test;
    let never = BuildFlag::Never;
    assert_eq!(always.bitand(always), always);
    assert_eq!(always.bitand(test), test);
    assert_eq!(test.bitand(always), test);
    assert_eq!(test.bitand(test), test);
    assert_eq!(always.bitand(never), never);
    assert_eq!(never.bitand(test), never);
    assert_eq!(never.bitand(never), never);

    assert_eq!(never.bitor(never), never);
    assert_eq!(never.bitor(test), test);
    assert_eq!(test.bitor(never), test);
    assert_eq!(test.bitor(test), test);
    assert_eq!(always.bitor(test), always);
    assert_eq!(never.bitor(always), always);
    assert_eq!(always.bitor(always), always);
}

#[test]
fn and_or_commutative_associative_idempotent() {
    for a in all_flags() {
        assert_eq!(a.bitand(a), a);
        assert_eq!(a.bitor(a), a);
        for b in all_flags() {
            assert_eq!(a.bitand(b), b.bitand(a));
            assert_eq!(a.bitor(b), b.bitor(a));
            for c in all_flags() {
                assert_eq!(a.bitand(b).bitand(c), a.bitand(b.bitand(c)));
                assert_eq!(a.bitor(b).bitor(c), a.bitor(b.bitor(c)));
            }
        }
    }
}

#[test]
fn never_and_always_units() {
    for a in all_flags() {
        assert_eq!(BuildFlag::Never.bitor(a), a);
        assert_eq!(a.bitor(BuildFlag::Never), a);
        assert_eq!(BuildFlag::Never.bitand(a), BuildFlag::Never);
        assert_eq!(a.bitand(BuildFlag::Never), BuildFlag::Never);
        assert_eq!(BuildFlag::Always.bitand(a), a);
        assert_eq!(a.bitand(BuildFlag::Always), a);
        assert_eq!(BuildFlag::Always.bitor(a), BuildFlag::Always);
        assert_eq!(a.bitor(BuildFlag::Always), BuildFlag::Always);
    }
}

#[test]
fn assign_forms_match() {
    let mut x = BuildFlag::Test;
    x.bitand_assign(BuildFlag::Always);
    assert_eq!(x, BuildFlag::Test);
    x.bitor_assign(BuildFlag::Always);
    assert_eq!(x, BuildFlag::Always);
}

#[test]
fn named_kinds() {
    assert_eq!(DepKind::normal(), DepKind { host: BuildFlag::Never, target: BuildFlag::Always });
    assert_eq!(DepKind::build(), DepKind { host: BuildFlag::Always, target: BuildFlag::Never });
    assert_eq!(DepKind::dev(), DepKind { host: BuildFlag::Never, target: BuildFlag::Test });
    assert_eq!(DepKind::unknown(), DepKind { host: BuildFlag::Never, target: BuildFlag::Never });
    assert_eq!(DepKind::default(), DepKind::normal());
}

#[test]
fn from_raw_maps_resolver_kinds() {
    assert_eq!(DepKind::from_raw(RawDepKind::Normal), DepKind::normal());
    assert_eq!(DepKind::from_raw(RawDepKind::Build), DepKind::build());
    assert_eq!(DepKind::from_raw(RawDepKind::Development), DepKind::dev());
    assert_eq!(DepKind::from_raw(RawDepKind::Unknown), DepKind::unknown());
}

#[test]
fn new_swaps_for_proc_macros() {
    // A proc-macro target forces the target component to Never and moves
    // the base target requirement onto the host.
    let k = DepKind::new(RawDepKind::Normal, true);
    assert_eq!(k, DepKind { host: BuildFlag::Always, target: BuildFlag::Never });
    let k = DepKind::new(RawDepKind::Development, true);
    assert_eq!(k, DepKind { host: BuildFlag::Test, target: BuildFlag::Never });
    let k = DepKind::new(RawDepKind::Build, true);
    assert_eq!(k, DepKind { host: BuildFlag::Never, target: BuildFlag::Never });
    // Without the proc-macro flag the base kind is kept.
    assert_eq!(DepKind::new(RawDepKind::Development, false), DepKind::dev());
}

#[test]
fn combine_incoming_joins_componentwise() {
    let mut k = DepKind::dev();
    k.combine_incoming(DepKind::normal());
    assert_eq!(k, DepKind { host: BuildFlag::Never, target: BuildFlag::Always });
    let mut k = DepKind::build();
    k.combine_incoming(DepKind::dev());
    assert_eq!(k, DepKind { host: BuildFlag::Always, target: BuildFlag::Test });
}

#[test]
fn combine_incoming_unknown_is_sticky() {
    let mut k = DepKind::unknown();
    k.combine_incoming(DepKind::normal());
    assert_eq!(k, DepKind::unknown());
    let mut k = DepKind::normal();
    k.combine_incoming(DepKind::unknown());
    assert_eq!(k, DepKind::unknown());
}

#[test]
fn is_dev_only_checks_both_components() {
    assert!(DepKind::dev().is_dev_only());
    assert!(DepKind::unknown().is_dev_only());
    assert!(DepKind::build_of_dev().is_dev_only());
    assert!(DepKind::dev_and_build_of_dev().is_dev_only());
    assert!(!DepKind::normal().is_dev_only());
    assert!(!DepKind::build().is_dev_only());
    assert!(!DepKind::dev_and_build().is_dev_only());
}

#[test]
fn inner_combine_ors_category_flags() {
    let mut a = DepInfoInner::default();
    let mut b = DepInfoInner::default();
    b.is_dev = true;
    b.is_target_dep = true;
    a.combine_incoming(b);
    assert!(a.is_dev);
    assert!(!a.is_build);
    assert!(!a.is_normal);
    // Only the three category flags are gathered.
    assert!(!a.is_target_dep);
}
