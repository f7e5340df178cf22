use esotereel::registry::ClientRegistry;

#[test]
fn each_connection_gets_a_new_id() {
    let mut reg = ClientRegistry::new();
    assert_eq!(reg.accept(), 0);
    assert_eq!(reg.accept(), 1);
    reg.disconnect(0);
    assert_eq!(reg.accept(), 2);
    let mut all = reg.all();
    all.sort();
    assert_eq!(all, vec![1, 2]);
}

#[test]
fn messages_go_only_to_connected_clients() {
    let mut reg = ClientRegistry::new();
    reg.accept();
    reg.accept();
    reg.accept();
    reg.disconnect(1);
    assert!(!reg.is_connected(1));
    assert!(reg.is_connected(2));
    assert_eq!(reg.recipients(&vec![2, 1, 7, 0]), vec![2, 0]);
}
