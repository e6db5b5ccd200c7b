use localtunnel::state::{Client, ClientManager};
use localtunnel::CLEANUP_TIMEOUT_MS;

#[test]
fn pool_never_exceeds_max_sockets() {
    let mut tenant = Client::new(2, 0);
    assert!(tenant.offer_socket(11));
    assert!(tenant.offer_socket(12));
    assert!(!tenant.offer_socket(13));
    assert_eq!(tenant.available_sockets, vec![11, 12]);
}

#[test]
fn zero_max_sockets_discards_everything() {
    let mut tenant = Client::new(0, 0);
    assert!(!tenant.offer_socket(11));
    assert!(!tenant.offer_socket(12));
    assert!(tenant.available_sockets.is_empty());
    assert_eq!(tenant.take(&vec![], 5), None);
}

#[test]
fn take_is_lifo() {
    let mut tenant = Client::new(3, 0);
    tenant.offer_socket(1);
    tenant.offer_socket(2);
    tenant.offer_socket(3);
    assert_eq!(tenant.take(&vec![true, true, true], 10), Some(3));
    assert_eq!(tenant.available_sockets, vec![1, 2]);
    assert_eq!(tenant.take(&vec![true, true], 11), Some(2));
    assert_eq!(tenant.available_sockets, vec![1]);
}

#[test]
fn take_skips_dead_sockets() {
    let mut tenant = Client::new(3, 0);
    tenant.offer_socket(1);
    tenant.offer_socket(2);
    tenant.offer_socket(3);
    // The newest socket is dead: it is discarded, the next live one is handed
    // out, and the one below it stays.
    assert_eq!(tenant.take(&vec![true, true, false], 10), Some(2));
    assert_eq!(tenant.available_sockets, vec![1]);
}

#[test]
fn take_on_all_dead_empties_the_pool() {
    let mut tenant = Client::new(2, 0);
    tenant.offer_socket(1);
    tenant.offer_socket(2);
    assert_eq!(tenant.take(&vec![false, false], 10), None);
    assert!(tenant.available_sockets.is_empty());
}

#[test]
fn single_socket_tenant_is_drained_by_one_take() {
    let mut tenant = Client::new(1, 0);
    assert!(tenant.offer_socket(7));
    assert!(!tenant.offer_socket(8));
    assert_eq!(tenant.take(&vec![true], 10), Some(7));
    assert!(tenant.available_sockets.is_empty());
    assert_eq!(tenant.take(&vec![], 11), None);
    // Another tunnel socket arrives: the next take succeeds again.
    assert!(tenant.offer_socket(9));
    assert_eq!(tenant.take(&vec![true], 12), Some(9));
}

#[test]
fn sweep_keeps_only_live_sockets() {
    let mut tenant = Client::new(3, 0);
    tenant.offer_socket(1);
    tenant.offer_socket(2);
    tenant.offer_socket(3);
    tenant.sweep(&vec![false, true, true]);
    // Survivors come back in pop order: newest first.
    assert_eq!(tenant.available_sockets, vec![3, 2]);
}

#[test]
fn take_records_the_borrow_time() {
    let mut tenant = Client::new(1, 0);
    tenant.take(&vec![], 42);
    assert_eq!(tenant.last_connection_time, 42);
}

#[test]
fn cleanup_is_due_only_after_the_timeout_with_an_empty_pool() {
    let mut tenant = Client::new(2, 0);
    assert!(!tenant.should_cleanup(CLEANUP_TIMEOUT_MS));
    assert!(tenant.should_cleanup(CLEANUP_TIMEOUT_MS + 1));
    tenant.offer_socket(5);
    assert!(!tenant.should_cleanup(CLEANUP_TIMEOUT_MS + 1));
}

#[test]
fn registry_put_then_find() {
    let mut manager = ClientManager::new(10);
    manager.put("demo".to_string(), 35000, 0);
    let i = manager.find("demo").unwrap();
    assert_eq!(manager.clients[i].client.port, Some(35000));
    assert_eq!(manager.clients[i].client.max_sockets, 10);
    assert!(manager.find("other").is_none());
}

#[test]
fn registry_put_replaces_an_existing_tenant() {
    let mut manager = ClientManager::new(10);
    manager.put("demo".to_string(), 35000, 0);
    let i = manager.find("demo").unwrap();
    manager.clients[i].client.offer_socket(4);
    manager.put("demo".to_string(), 36000, 1);
    assert_eq!(manager.clients.len(), 1);
    let j = manager.find("demo").unwrap();
    assert_eq!(manager.clients[j].client.port, Some(36000));
    assert!(manager.clients[j].client.available_sockets.is_empty());
}

#[test]
fn registry_take_socket_reaches_the_right_tenant() {
    let mut manager = ClientManager::new(10);
    manager.put("demo".to_string(), 35000, 0);
    manager.put("other".to_string(), 35001, 0);
    let i = manager.find("demo").unwrap();
    manager.clients[i].client.offer_socket(21);
    let taken = manager.take_socket(i, &vec![true], 7);
    assert_eq!(taken, Some(21));
    let j = manager.find("other").unwrap();
    assert!(manager.clients[j].client.available_sockets.is_empty());
    assert_eq!(manager.clients[j].client.last_connection_time, 0);
}

#[test]
fn tenant_eviction_and_reregistration() {
    let mut manager = ClientManager::new(2);
    manager.put("demo".to_string(), 35000, 0);

    // Not yet ripe: exactly the timeout is not over it.
    manager.cleanup(CLEANUP_TIMEOUT_MS);
    assert!(manager.find("demo").is_some());

    // Over an hour with an empty pool: the tenant goes.
    manager.cleanup(CLEANUP_TIMEOUT_MS + 1);
    assert!(manager.find("demo").is_none());

    // The subdomain can be claimed again and gets the new ingress port.
    manager.put("demo".to_string(), 36000, CLEANUP_TIMEOUT_MS + 2);
    let i = manager.find("demo").unwrap();
    assert_eq!(manager.clients[i].client.port, Some(36000));
}

#[test]
fn cleanup_spares_a_tenant_with_sockets_or_recent_use() {
    let mut manager = ClientManager::new(2);
    manager.put("busy".to_string(), 35000, 0);
    manager.put("fresh".to_string(), 35001, 0);
    manager.put("stale".to_string(), 35002, 0);

    let busy = manager.find("busy").unwrap();
    manager.clients[busy].client.offer_socket(3);
    let fresh = manager.find("fresh").unwrap();
    // A borrow attempt refreshes the tenant even when it comes up empty.
    manager.take_socket(fresh, &vec![], CLEANUP_TIMEOUT_MS);

    manager.cleanup(CLEANUP_TIMEOUT_MS + 1);
    assert!(manager.find("busy").is_some());
    assert!(manager.find("fresh").is_some());
    assert!(manager.find("stale").is_none());
}
