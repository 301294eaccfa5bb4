use ethos_protocol::template_inheritance::{TemplateError, TemplateRegistry, MAX_INHERITANCE_DEPTH};

#[test]
fn test_max_inheritance_depth() {
    assert_eq!(MAX_INHERITANCE_DEPTH, 16);
}

fn registry_with_root_and_child() -> TemplateRegistry {
    let mut reg = TemplateRegistry::new();
    // Template 0 is a root; template 0 cannot serve as a parent, since
    // parent ID 0 means "no parent".
    assert_eq!(reg.create_template(b"root".to_vec(), b"base".to_vec(), 0, vec![], 10), Ok(0));
    assert_eq!(reg.create_template(b"one".to_vec(), b"data-1".to_vec(), 0, vec![], 11), Ok(1));
    assert_eq!(reg.create_template(b"two".to_vec(), b"data-2".to_vec(), 1, b"x=1".to_vec(), 12), Ok(2));
    reg
}

#[test]
fn templates_get_sequential_ids_and_parent_links() {
    let reg = registry_with_root_and_child();
    assert_eq!(reg.get_parent_template_id(2), 1);
    assert_eq!(reg.get_parent_template_id(1), 0);
    assert_eq!(reg.get_parent_template_id(99), 0);
    assert_eq!(reg.get_template_overrides(2), b"x=1".to_vec());
    assert_eq!(reg.get_template_overrides(1), Vec::<u8>::new());
    let t = reg.get_template(2).unwrap();
    assert_eq!(t.template_id, 2);
    assert_eq!(t.name, b"two".to_vec());
    assert_eq!(t.created_at, 12);
    assert!(reg.get_template(3).is_none());
}

#[test]
fn inheritance_depth_counts_parent_links() {
    let reg = registry_with_root_and_child();
    assert_eq!(reg.get_inheritance_depth(0), 0);
    assert_eq!(reg.get_inheritance_depth(1), 0);
    assert_eq!(reg.get_inheritance_depth(2), 1);
}

#[test]
fn first_template_with_a_parent_is_refused_as_a_cycle() {
    let mut reg = TemplateRegistry::new();
    assert_eq!(
        reg.create_template(b"t".to_vec(), b"d".to_vec(), 5, vec![], 1),
        Err(TemplateError::InheritanceCycleDetected)
    );
    assert!(reg.get_template(0).is_none());
}

#[test]
fn forward_reference_that_would_close_a_cycle_is_refused() {
    let mut reg = TemplateRegistry::new();
    reg.create_template(b"root".to_vec(), vec![], 0, vec![], 1).unwrap();
    // Template 1 names a parent (3) that does not exist yet.
    assert_eq!(reg.create_template(b"a".to_vec(), vec![], 3, vec![], 2), Ok(1));
    assert_eq!(reg.create_template(b"b".to_vec(), vec![], 0, vec![], 3), Ok(2));
    let check = reg.check_inheritance_cycle(1, 3);
    assert!(check.has_cycle);
    assert_eq!(check.cycle_path, vec![1, 3]);
    // Making template 3 inherit from 1 would close 3 -> 1 -> 3.
    assert_eq!(
        reg.create_template(b"c".to_vec(), vec![], 1, vec![], 4),
        Err(TemplateError::InheritanceCycleDetected)
    );
}

#[test]
fn cycle_check_without_cycle_has_an_empty_path() {
    let reg = registry_with_root_and_child();
    let check = reg.check_inheritance_cycle(2, 3);
    assert!(!check.has_cycle);
    assert!(check.cycle_path.is_empty());
}

#[test]
fn chains_deeper_than_the_limit_are_refused() {
    let mut reg = TemplateRegistry::new();
    reg.create_template(b"root".to_vec(), vec![], 0, vec![], 0).unwrap();
    reg.create_template(b"t1".to_vec(), vec![], 0, vec![], 0).unwrap();
    let mut last = 1u64;
    for _ in 0..16 {
        last = reg.create_template(b"t".to_vec(), vec![], last, vec![], 0).unwrap();
    }
    assert_eq!(last, 17);
    assert_eq!(reg.get_inheritance_depth(16), 15);
    assert_eq!(reg.get_inheritance_depth(17), 16);
    // Resolving walks at most the limit: template 17 is too deep.
    assert!(reg.resolve_template(17, 1).is_none());
    assert_eq!(reg.resolve_template(16, 1).unwrap().depth, 15);
    // One more link makes the walk from the parent exceed the limit.
    assert_eq!(
        reg.create_template(b"t".to_vec(), vec![], 17, vec![], 0),
        Err(TemplateError::InheritanceCycleDetected)
    );
}

#[test]
fn inherited_template_copies_the_parents_name_and_data() {
    let mut reg = registry_with_root_and_child();
    assert_eq!(reg.create_inherited_template(2, b"y=2".to_vec(), 20), Ok(3));
    let t = reg.get_template(3).unwrap();
    assert_eq!(t.name, b"two".to_vec());
    assert_eq!(t.data, b"data-2".to_vec());
    assert_eq!(t.parent_template_id, 2);
    assert_eq!(reg.create_inherited_template(42, vec![], 20), Err(TemplateError::TemplateNotFound));
}

#[test]
fn resolution_is_cached_until_invalidated() {
    let mut reg = registry_with_root_and_child();
    let first = reg.resolve_template(2, 100).unwrap();
    assert_eq!(first.template_id, 2);
    // Template 2's data, followed by its own overrides.
    assert_eq!(first.resolved_data, b"data-2x=1".to_vec());
    assert_eq!(first.depth, 1);
    assert_eq!(first.resolved_at, 100);
    let second = reg.resolve_template(2, 200).unwrap();
    assert_eq!(second.resolved_at, 100);
    reg.invalidate_template_cache(2);
    let third = reg.resolve_template(2, 300).unwrap();
    assert_eq!(third.resolved_at, 300);
    assert!(reg.resolve_template(7, 1).is_none());
}

#[test]
fn resolution_fails_when_an_ancestor_is_missing() {
    let mut reg = TemplateRegistry::new();
    reg.create_template(b"root".to_vec(), vec![], 0, vec![], 0).unwrap();
    reg.create_template(b"orphan".to_vec(), vec![], 9, vec![], 0).unwrap();
    assert!(reg.resolve_template(1, 5).is_none());
}

#[test]
fn overrides_are_applied_parent_to_child() {
    let mut reg = registry_with_root_and_child();
    assert_eq!(reg.create_inherited_template(2, b";y=2".to_vec(), 20), Ok(3));
    assert_eq!(reg.create_template(b"four".to_vec(), b"d4".to_vec(), 3, b";z=3".to_vec(), 21), Ok(4));
    let r = reg.resolve_template(4, 30).unwrap();
    assert_eq!(r.depth, 3);
    assert_eq!(r.resolved_data, b"d4x=1;y=2;z=3".to_vec());
    // A root template keeps its data as it is.
    assert_eq!(reg.resolve_template(1, 30).unwrap().resolved_data, b"data-1".to_vec());
}
