use cf_manager::config::Config;

#[test]
fn new_registry_is_empty() {
    let c = Config::new();
    assert_eq!(c.list_tunnels().len(), 0);
}

#[test]
fn added_tunnels_are_listed_in_insertion_order() {
    let mut c = Config::new();
    c.add_tunnel("db", "db.internal.example.com", 15432);
    c.add_tunnel("web", "web.example.com", 8080);
    let ts = c.list_tunnels();
    assert_eq!(ts.len(), 2);
    assert_eq!(ts[0].alias, "db");
    assert_eq!(ts[0].source, "db.internal.example.com");
    assert_eq!(ts[0].port, 15432);
    assert_eq!(ts[1].alias, "web");
}

#[test]
fn adding_an_existing_alias_replaces_the_record() {
    let mut c = Config::new();
    c.add_tunnel("db", "old.example.com", 1111);
    c.add_tunnel("web", "web.example.com", 8080);
    c.add_tunnel("db", "new.example.com", 2222);
    let ts = c.list_tunnels();
    assert_eq!(ts.len(), 2);
    assert_eq!(ts[0].alias, "db");
    assert_eq!(ts[0].source, "new.example.com");
    assert_eq!(ts[0].port, 2222);
}

#[test]
fn find_tunnel_locates_by_alias() {
    let mut c = Config::new();
    c.add_tunnel("db", "db.example.com", 1111);
    c.add_tunnel("web", "web.example.com", 8080);
    assert_eq!(c.find_tunnel("web"), Some(1));
    assert_eq!(c.find_tunnel("db"), Some(0));
    assert_eq!(c.find_tunnel("none"), None);
}

#[test]
fn update_changes_only_the_given_attributes() {
    let mut c = Config::new();
    c.add_tunnel("db", "db.example.com", 1111);
    c.update_tunnel("db", Some("db2.example.com"), None);
    assert_eq!(c.list_tunnels()[0].source, "db2.example.com");
    assert_eq!(c.list_tunnels()[0].port, 1111);
    c.update_tunnel("db", None, Some(2222));
    assert_eq!(c.list_tunnels()[0].source, "db2.example.com");
    assert_eq!(c.list_tunnels()[0].port, 2222);
}

#[test]
fn update_of_unknown_alias_changes_nothing() {
    let mut c = Config::new();
    c.add_tunnel("db", "db.example.com", 1111);
    c.update_tunnel("nope", Some("x"), Some(9));
    assert_eq!(c.list_tunnels().len(), 1);
    assert_eq!(c.list_tunnels()[0].source, "db.example.com");
    assert_eq!(c.list_tunnels()[0].port, 1111);
}

#[test]
fn remove_drops_the_record_and_keeps_order() {
    let mut c = Config::new();
    c.add_tunnel("a", "a.example.com", 1);
    c.add_tunnel("b", "b.example.com", 2);
    c.add_tunnel("c", "c.example.com", 3);
    c.remove_tunnel("b");
    let ts = c.list_tunnels();
    assert_eq!(ts.len(), 2);
    assert_eq!(ts[0].alias, "a");
    assert_eq!(ts[1].alias, "c");
    c.remove_tunnel("missing");
    assert_eq!(c.list_tunnels().len(), 2);
}

#[test]
fn running_selection_keeps_order_of_flagged_tunnels() {
    let mut c = Config::new();
    c.add_tunnel("a", "a.example.com", 1);
    c.add_tunnel("b", "b.example.com", 2);
    c.add_tunnel("c", "c.example.com", 3);
    let running = vec![true, false, true];
    assert_eq!(c.list_running_tunnels(&running), vec![0, 2]);
    assert_eq!(c.list_running_tunnels(&vec![false, false, false]), Vec::<usize>::new());
}
