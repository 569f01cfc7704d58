use klang::exec::env::Environment;

#[test]
fn a_new_tree_has_its_root() {
    let env = Environment::new_root();
    assert_eq!(env.last(), 0);
    assert_eq!(env.len(), (1, 0));
    assert!(env.contains(0));
    assert!(!env.contains(1));
    assert_eq!(env.get(1, 0), None);
}

#[test]
fn lookup_walks_up_to_the_root() {
    let mut env = Environment::new_root();
    env.define(0, 7, 100);
    let child = env.new_child(0);
    let grandchild = env.new_child(child);
    assert_eq!(child, 1);
    assert_eq!(grandchild, 2);
    assert_eq!(env.last(), 2);
    assert_eq!(env.get(7, grandchild), Some((100, 0)));
    env.define(child, 7, 200);
    assert_eq!(env.get(7, grandchild), Some((200, 1)));
    assert_eq!(env.get(7, 0), Some((100, 0)));
    assert_eq!(env.get(8, grandchild), None);
    assert_eq!(env.get(7, 99), None);
}

#[test]
fn a_newer_binding_hides_the_older() {
    let mut env = Environment::new_root();
    env.define(0, 1, 10);
    env.define(0, 2, 20);
    env.define(0, 1, 30);
    assert_eq!(env.get(1, 0), Some((30, 0)));
    assert_eq!(env.get(2, 0), Some((20, 0)));
    assert_eq!(env.len(), (1, 3));
}

#[test]
fn a_sibling_does_not_see_a_binding() {
    let mut env = Environment::new_root();
    let a = env.new_child(0);
    let b = env.new_child(0);
    env.define(a, 5, 50);
    assert_eq!(env.get(5, a), Some((50, a)));
    assert_eq!(env.get(5, b), None);
}

#[test]
fn define_in_a_scope_that_is_not_there_changes_nothing() {
    let mut env = Environment::new_root();
    env.define(4, 1, 10);
    assert_eq!(env.len(), (1, 0));
}

#[test]
fn clean_keeps_the_way_up_from_the_last_scope() {
    let mut env = Environment::new_root();
    env.define(0, 1, 10);
    let a = env.new_child(0);
    env.define(a, 2, 20);
    let b = env.new_child(0);
    env.define(b, 3, 30);
    let c = env.new_child(b);
    env.define(c, 4, 40);
    assert_eq!(env.last(), c);
    let seen: Vec<_> = (1..5).map(|k| env.get(k, c).map(|x| x.0)).collect();
    assert_eq!(env.clean(), 1);
    assert_eq!(env.len(), (3, 3));
    assert_eq!(env.last(), 2);
    let after: Vec<_> = (1..5).map(|k| env.get(k, 2).map(|x| x.0)).collect();
    assert_eq!(seen, after);
    assert_eq!(after, vec![Some(10), None, Some(30), Some(40)]);
    assert_eq!(env.get(3, 1), Some((30, 1)));
    assert_eq!(env.clean(), 0);
}

#[test]
fn dump_writes_a_line_for_each_scope() {
    let mut env = Environment::new_root();
    env.define(0, 1, 10);
    env.define(0, 2, 20);
    let a = env.new_child(0);
    env.define(a, 3, 30);
    assert_eq!(env.dump(), b"0: 1=10 2=20\n1^0: 3=30\n".to_vec());
    assert_eq!(Environment::new_root().dump(), b"0:\n".to_vec());
}
