use kalavara::volume::{registration, Registration, ResponseKind, StorageError, Volume};

#[test]
fn path_fans_out_by_md5_hex() {
    let v = Volume::new("/tmp/kalavarastore".to_owned());
    // md5("key1") = c2add694bf942dc77b376592d9c862cd
    assert_eq!(
        v.key_to_path("key1"),
        "/tmp/kalavarastore/c/2/add694bf942dc77b376592d9c862cd"
    );
    // md5("") = d41d8cd98f00b204e9800998ecf8427e
    assert_eq!(v.key_to_path(""), "/tmp/kalavarastore/d/4/1d8cd98f00b204e9800998ecf8427e");
}

#[test]
fn same_key_same_path() {
    let v = Volume::new("/data".to_owned());
    assert_eq!(v.key_to_path("originalkey"), v.key_to_path("originalkey"));
    assert_eq!(
        v.key_to_path("originalkey"),
        "/data/e/e/50ae1bb291d8875a872aee6dc9b47d"
    );
    assert_ne!(v.key_to_path("k"), v.key_to_path("key1"));
}

#[test]
fn get_serves_the_blob_path() {
    let v = Volume::new("/data".to_owned());
    let resp = v.get("k");
    assert_eq!(
        resp,
        ResponseKind::FilePath("/data/8/c/e4b16b22b58894aa86c421e8759df3".to_owned())
    );
    assert_eq!(resp.status(), 200);
}

#[test]
fn save_plans_an_atomic_publish() {
    let v = Volume::new("/data".to_owned());
    let plan = v.save("key1");
    assert_eq!(plan.tmp_dir, "/data/tmp");
    assert_eq!(plan.dir, "/data/c/2");
    assert_eq!(plan.path, "/data/c/2/add694bf942dc77b376592d9c862cd");
    assert_eq!(v.tmp_dir(), "/data/tmp");
    assert_eq!(v.delete("key1"), plan.path);
}

#[test]
fn blob_responses() {
    assert_eq!(Volume::saved(Ok(())), ResponseKind::Created);
    assert_eq!(Volume::saved(Err(StorageError)), ResponseKind::ServerError);
    assert_eq!(Volume::deleted(Ok(())), ResponseKind::Deleted);
    assert_eq!(Volume::deleted(Err(StorageError)), ResponseKind::ServerError);
    assert_eq!(ResponseKind::Created.status(), 201);
    assert_eq!(ResponseKind::Created.body(), "Created");
    assert_eq!(ResponseKind::Deleted.status(), 204);
    assert_eq!(ResponseKind::ServerError.status(), 500);
    assert_eq!(ResponseKind::NotAllowed.status(), 405);
    assert_eq!(ResponseKind::default(), ResponseKind::NotAllowed);
}

#[test]
fn registration_posts_base_url_to_directory() {
    assert_eq!(
        registration(Some("http://localhost:6002"), Some("http://localhost:7002")),
        Registration::Register {
            url: "http://localhost:6002/admin/add-volume".to_owned(),
            body: "http://localhost:7002".to_owned(),
        }
    );
    assert_eq!(
        registration(Some("http://localhost:6002/"), Some("http://localhost:7002/")),
        Registration::Register {
            url: "http://localhost:6002/admin/add-volume".to_owned(),
            body: "http://localhost:7002".to_owned(),
        }
    );
    assert_eq!(registration(Some("http://localhost:6002"), None), Registration::MissingBaseUrl);
    assert_eq!(registration(None, Some("http://localhost:7002")), Registration::Skip);
    assert_eq!(registration(None, None), Registration::Skip);
}
