use std::collections::HashMap;

use kalavara::master::{
    admin_action, route, AdminAction, IndexError, Master, ResponseKind, Route, DUPLICATE_VOLUME,
    VOLUME_ADDED,
};
use kalavara::service::{store_action, Method, StoreAction};

/// The index answer for `key`, from an in-memory stand-in for the durable index.
fn lookup(index: &HashMap<String, String>, key: &str) -> Result<Option<String>, IndexError> {
    Ok(index.get(key).cloned())
}

/// A write of `key` through the directory, with the index held in `index`.
fn put(master: &mut Master, index: &mut HashMap<String, String>, key: &str) -> ResponseKind {
    match master.key_to_volume() {
        Err(resp) => resp,
        Ok(backend) => {
            index.insert(key.to_owned(), backend.clone());
            master.save(key, &backend, Ok(()))
        }
    }
}

/// A delete of `key` through the directory, with the index held in `index`.
fn delete(master: &mut Master, index: &mut HashMap<String, String>, key: &str) -> ResponseKind {
    match Master::delete_target(lookup(index, key)) {
        Err(resp) => resp,
        Ok(backend) => {
            index.remove(key);
            master.delete(key, &backend, Ok(()))
        }
    }
}

fn total(master: &Master, ids: &[&str]) -> u32 {
    ids.iter().map(|id| master.volumes().count_of(id).unwrap()).sum()
}

#[test]
fn test_master_crud() {
    let mut master = Master::new(vec![
        "server1".to_owned(),
        "server2".to_owned(),
        "server3".to_owned(),
        "server4".to_owned(),
        "server5".to_owned(),
    ]);
    let mut index: HashMap<String, String> = HashMap::new();
    let key = "key".to_owned();
    let _val = "val".to_owned();

    assert!(match Master::get(&key, lookup(&index, &key)) {
        ResponseKind::NotFound => true,
        _ => false,
    });

    let mut url = String::new();

    assert!(match put(&mut master, &mut index, &key) {
        ResponseKind::Redirect(to) => {
            url = to;
            true
        }
        _ => false,
    });

    // should redirect to the same volume server
    // in which the key got stored
    assert!(match Master::get(&key, lookup(&index, &key)) {
        ResponseKind::Redirect(to) => to == url,
        _ => false,
    });

    assert_eq!(master.volumes().count_of(&url[..7]), Some(1));

    assert!(match delete(&mut master, &mut index, &key) {
        ResponseKind::Redirect(to) => to == url,
        _ => false,
    });

    assert_eq!(master.volumes().count_of(&url[..7]), Some(0));
}

#[test]
fn test_master_admin() {
    let mut master = Master::new(vec!["server1".to_owned(), "server2".to_owned()]);

    assert!(match master.add_volume("server3".to_owned()) {
        ResponseKind::Success(resp) => resp == "Volume added".to_string(),
        _ => false,
    });

    assert_eq!(master.volumes().len(), 3);

    assert!(match master.add_volume("server3".to_owned()) {
        ResponseKind::Success(resp) => resp == "Skipping duplicate volume server".to_string(),
        _ => false,
    });

    assert_eq!(master.volumes().len(), 3);
}

#[test]
fn new_registers_each_backend_once_in_canonical_form() {
    let master = Master::new(vec![
        "http://a/".to_owned(),
        "http://a".to_owned(),
        "http://b//".to_owned(),
    ]);
    assert_eq!(master.volumes().len(), 2);
    assert_eq!(master.volumes().count_of("http://a"), Some(0));
    assert_eq!(master.volumes().count_of("http://b"), Some(0));
    assert_eq!(master.volumes().count_of("http://b/"), None);
}

#[test]
fn add_volume_strips_trailing_slash_before_dedup() {
    let mut master = Master::new(vec![]);
    assert_eq!(
        master.add_volume("http://localhost:7001/".to_owned()),
        ResponseKind::Success(VOLUME_ADDED.to_owned())
    );
    assert_eq!(
        master.add_volume("http://localhost:7001".to_owned()),
        ResponseKind::Success(DUPLICATE_VOLUME.to_owned())
    );
    assert_eq!(master.volumes().len(), 1);
    assert_eq!(master.volumes().count_of("http://localhost:7001"), Some(0));
}

#[test]
fn writes_without_backends_are_unavailable() {
    let mut master = Master::new(vec![]);
    let mut index: HashMap<String, String> = HashMap::new();
    let resp = put(&mut master, &mut index, "key1");
    assert_eq!(resp, ResponseKind::Unavailable);
    assert_eq!(resp.status(), 503);
    assert_eq!(resp.body(), "Service unavailable");
    assert_eq!(master.place(0), Err(ResponseKind::Unavailable));
    assert!(index.is_empty());
}

#[test]
fn add_volume_scenario_then_crud() {
    let mut master = Master::new(vec![]);
    let mut index: HashMap<String, String> = HashMap::new();

    assert_eq!(put(&mut master, &mut index, "key1").status(), 503);

    let added = master.add_volume("http://localhost:7001".to_owned());
    assert_eq!(added.status(), 200);
    assert_eq!(added.body(), "Volume added");
    let again = master.add_volume("http://localhost:7001".to_owned());
    assert_eq!(again.status(), 200);
    assert_eq!(again.body(), "Skipping duplicate volume server");

    let written = put(&mut master, &mut index, "key1");
    assert_eq!(written.status(), 307);
    assert_eq!(written.location(), Some("http://localhost:7001/key1".to_owned()));
    let read = Master::get("key1", lookup(&index, "key1"));
    assert_eq!(read.location(), Some("http://localhost:7001/key1".to_owned()));
    let removed = delete(&mut master, &mut index, "key1");
    assert_eq!(removed.location(), Some("http://localhost:7001/key1".to_owned()));
    assert_eq!(Master::get("key1", lookup(&index, "key1")).status(), 404);
}

#[test]
fn delete_twice_answers_not_found() {
    let mut master = Master::new(vec!["http://localhost:7000".to_owned()]);
    let mut index: HashMap<String, String> = HashMap::new();
    put(&mut master, &mut index, "k");
    assert_eq!(delete(&mut master, &mut index, "k").status(), 307);
    let read = Master::get("k", lookup(&index, "k"));
    assert_eq!(read, ResponseKind::NotFound);
    assert_eq!(read.body(), "Key not found");
    assert_eq!(delete(&mut master, &mut index, "k").status(), 404);
    assert_eq!(master.volumes().count_of("http://localhost:7000"), Some(0));
}

#[test]
fn single_backend_takes_every_write() {
    let master = Master::new(vec!["http://localhost:7000/".to_owned()]);
    for draw in [0u32, 1, 2, 1 << 31, u32::MAX] {
        assert_eq!(master.place(draw), Ok("http://localhost:7000".to_owned()));
    }
    let mut master = master;
    let mut index: HashMap<String, String> = HashMap::new();
    for key in ["a", "b", "c/d", ""] {
        let resp = put(&mut master, &mut index, key);
        assert_eq!(resp.location(), Some(format!("http://localhost:7000/{}", key)));
    }
}

#[test]
fn five_backends_count_one_write_then_none() {
    let names = ["server1", "server2", "server3", "server4", "server5"];
    let mut master = Master::new(names.iter().map(|s| s.to_string()).collect());
    let mut index: HashMap<String, String> = HashMap::new();
    let resp = put(&mut master, &mut index, "k");
    let to = resp.location().unwrap();
    let backend = names.iter().find(|n| to == format!("{}/k", n)).unwrap();
    assert_eq!(master.volumes().count_of(backend), Some(1));
    assert_eq!(total(&master, &names), 1);
    delete(&mut master, &mut index, "k");
    assert_eq!(master.volumes().count_of(backend), Some(0));
    assert_eq!(total(&master, &names), 0);
}

#[test]
fn hundred_writes_are_all_counted() {
    let names = ["http://b1", "http://b2", "http://b3"];
    let mut master = Master::new(names.iter().map(|s| s.to_string()).collect());
    let mut index: HashMap<String, String> = HashMap::new();
    for i in 0..100 {
        assert_eq!(put(&mut master, &mut index, &format!("key{}", i)).status(), 307);
    }
    assert_eq!(total(&master, &names), 100);
    for n in names.iter() {
        assert!(master.volumes().count_of(n).unwrap() <= 100);
    }
    for i in 0..40 {
        assert_eq!(delete(&mut master, &mut index, &format!("key{}", i)).status(), 307);
    }
    assert_eq!(total(&master, &names), 60);
}

#[test]
fn failed_index_write_is_a_server_error_and_counts_nothing() {
    let mut master = Master::new(vec!["server1".to_owned()]);
    let resp = master.save("k", "server1", Err(IndexError));
    assert_eq!(resp, ResponseKind::ServerError);
    assert_eq!(resp.status(), 500);
    assert_eq!(resp.body(), "Server error");
    assert_eq!(master.volumes().count_of("server1"), Some(0));
    assert_eq!(Master::get("k", Err(IndexError)).status(), 500);
    assert_eq!(Master::delete_target(Err(IndexError)), Err(ResponseKind::ServerError));
    let resp = master.delete("k", "server1", Err(IndexError));
    assert_eq!(resp.status(), 500);
}

#[test]
fn counters_stay_at_zero_on_extra_deletes() {
    let mut master = Master::new(vec!["server1".to_owned()]);
    let resp = master.delete("k", "server1", Ok(()));
    assert_eq!(resp.location(), Some("server1/k".to_owned()));
    assert_eq!(master.volumes().count_of("server1"), Some(0));
}

#[test]
fn counters_of_unknown_backends_are_not_kept() {
    let mut master = Master::new(vec!["server1".to_owned()]);
    let resp = master.save("k", "gone", Ok(()));
    assert_eq!(resp.location(), Some("gone/k".to_owned()));
    assert_eq!(master.volumes().count_of("gone"), None);
    assert_eq!(master.volumes().count_of("server1"), Some(0));
}

#[test]
fn routes_follow_the_prefix() {
    assert_eq!(route("/store/key2?query=value"), Route::Store("key2".to_owned()));
    assert_eq!(route("/store/key2?que=valu"), Route::Store("key2".to_owned()));
    assert_eq!(route("/store/key2"), Route::Store("key2".to_owned()));
    assert_eq!(route("/admin/add-volume"), Route::Admin("add-volume".to_owned()));
    assert_eq!(route("/key2?query=value"), Route::Unknown);
    assert_eq!(route("/foo"), Route::Unknown);
}

#[test]
fn unknown_route_is_path_not_found() {
    assert_eq!(route("/foo"), Route::Unknown);
    let resp = ResponseKind::PathNotFound;
    assert_eq!(resp.status(), 404);
    assert_eq!(resp.body(), "Path not found");
}

#[test]
fn admin_actions() {
    assert_eq!(admin_action("add-volume", Method::Post), AdminAction::AddVolume);
    assert_eq!(admin_action("add-volume", Method::Get), AdminAction::NotAllowed);
    assert_eq!(admin_action("add-volume", Method::Put), AdminAction::NotAllowed);
    assert_eq!(admin_action("remove-volume", Method::Post), AdminAction::NotFound);
    assert_eq!(admin_action("", Method::Post), AdminAction::NotFound);
}

#[test]
fn store_actions() {
    assert_eq!(store_action(Method::Get), StoreAction::Get);
    assert_eq!(store_action(Method::Put), StoreAction::Save);
    assert_eq!(store_action(Method::Post), StoreAction::Save);
    assert_eq!(store_action(Method::Delete), StoreAction::Delete);
    assert_eq!(store_action(Method::Other), StoreAction::NotAllowed);
}

#[test]
fn directory_statuses_and_bodies() {
    let redirect = ResponseKind::Redirect("http://b/k".to_owned());
    assert_eq!(redirect.status(), 307);
    assert_eq!(redirect.body(), "");
    assert_eq!(redirect.location(), Some("http://b/k".to_owned()));
    assert_eq!(ResponseKind::NotAllowed.status(), 405);
    assert_eq!(ResponseKind::NotAllowed.body(), "Method not allowed");
    assert_eq!(ResponseKind::NotFound.status(), 404);
    assert_eq!(ResponseKind::NotFound.location(), None);
    assert_eq!(ResponseKind::default(), ResponseKind::NotAllowed);
}
