use data_registry::{Contract, RegistryError, Request, Response};

fn s(text: &str) -> String {
    text.to_string()
}

fn request(id: &str, uri: &str, json_path: &str, period: Option<u64>) -> Request {
    Request { request_id: s(id), json_path: s(json_path), uri: s(uri), period }
}

fn registry_with(owner: &str, requesters: &[&str], providers: &[&str]) -> Contract {
    let mut c = Contract::new(false, s(owner)).unwrap();
    c.add_new_requesters(&s(owner), requesters.iter().map(|x| s(x)).collect()).unwrap();
    c.add_new_providers(&s(owner), providers.iter().map(|x| s(x)).collect()).unwrap();
    c
}

#[test]
fn it_works() {
    let result = 2 + 2;
    assert_eq!(result, 4);
}

#[test]
fn new_fails_when_state_exists() {
    assert_eq!(Contract::new(true, s("owner")).err(), Some(RegistryError::AlreadyInitialized));
}

#[test]
fn second_construction_leaves_registry_unchanged() {
    let mut c = registry_with("owner", &["alice"], &[]);
    c.create_request(&s("alice"), &s("r1"), &request("r1", "u", "$.a", None)).unwrap();
    assert_eq!(Contract::new(true, s("mallory")).err(), Some(RegistryError::AlreadyInitialized));
    assert_eq!(c.get_all_requests().len(), 1);
    assert_eq!(c.add_new_requesters(&s("mallory"), vec![s("m")]), Err(RegistryError::Unauthorized));
    assert_eq!(c.add_new_requesters(&s("owner"), vec![]), Ok(()));
}

#[test]
fn fresh_registry_is_empty() {
    let c = Contract::new(false, s("owner")).unwrap();
    assert!(c.get_all_requests().is_empty());
    assert_eq!(c.get_data_response(&s("r1")), None);
}

#[test]
fn only_owner_manages_membership() {
    let mut c = Contract::new(false, s("owner")).unwrap();
    assert_eq!(c.add_new_requesters(&s("alice"), vec![s("alice")]), Err(RegistryError::Unauthorized));
    assert_eq!(c.add_new_providers(&s("bob"), vec![s("bob")]), Err(RegistryError::Unauthorized));
    assert_eq!(
        c.create_request(&s("alice"), &s("r1"), &request("r1", "u", "$", None)),
        Err(RegistryError::Unauthorized)
    );
    assert_eq!(c.provide_data(&s("bob"), &s("r1"), &s("v"), 5), Err(RegistryError::Unauthorized));
}

#[test]
fn requester_authorization_grows_with_membership() {
    let mut c = Contract::new(false, s("owner")).unwrap();
    let req = request("r1", "https://x", "$.a", Some(60));
    assert_eq!(c.create_request(&s("x"), &s("r1"), &req), Err(RegistryError::Unauthorized));
    assert!(c.get_all_requests().is_empty());
    c.add_new_requesters(&s("owner"), vec![s("x")]).unwrap();
    assert_eq!(c.create_request(&s("x"), &s("r1"), &req), Ok(()));
    assert_eq!(c.get_all_requests(), vec![req]);
}

#[test]
fn provider_authorization_grows_with_membership() {
    let mut c = Contract::new(false, s("owner")).unwrap();
    assert_eq!(c.provide_data(&s("x"), &s("r1"), &s("v"), 7), Err(RegistryError::Unauthorized));
    assert_eq!(c.get_data_response(&s("r1")), None);
    c.add_new_providers(&s("owner"), vec![s("x")]).unwrap();
    assert_eq!(c.provide_data(&s("x"), &s("r1"), &s("v"), 7), Ok(()));
    assert_eq!(c.get_data_response(&s("r1")), Some(Response { result: s("v"), timestamp: 7 }));
}

#[test]
fn roles_are_separate() {
    let mut c = registry_with("owner", &["alice"], &["bob"]);
    assert_eq!(c.provide_data(&s("alice"), &s("r1"), &s("v"), 1), Err(RegistryError::Unauthorized));
    assert_eq!(
        c.create_request(&s("bob"), &s("r1"), &request("r1", "u", "$", None)),
        Err(RegistryError::Unauthorized)
    );
    assert_eq!(
        c.create_request(&s("owner"), &s("r1"), &request("r1", "u", "$", None)),
        Err(RegistryError::Unauthorized)
    );
}

#[test]
fn last_request_wins() {
    let mut c = registry_with("owner", &["alice"], &[]);
    let a = request("r1", "https://a", "$.a", None);
    let b = request("r1", "https://b", "$.b", Some(30));
    c.create_request(&s("alice"), &s("r1"), &a).unwrap();
    c.create_request(&s("alice"), &s("r1"), &b).unwrap();
    assert_eq!(c.get_all_requests(), vec![b]);
}

#[test]
fn last_response_wins() {
    let mut c = registry_with("owner", &[], &["bob"]);
    c.provide_data(&s("bob"), &s("r1"), &s("first"), 10).unwrap();
    c.provide_data(&s("bob"), &s("r1"), &s("second"), 20).unwrap();
    assert_eq!(c.get_data_response(&s("r1")), Some(Response { result: s("second"), timestamp: 20 }));
}

#[test]
fn read_after_write() {
    let mut c = registry_with("owner", &[], &["bob"]);
    c.provide_data(&s("bob"), &s("r1"), &s("v"), 12345).unwrap();
    let got = c.get_data_response(&s("r1")).unwrap();
    assert_eq!(got.result, "v");
    assert_eq!(got.timestamp, 12345);
}

#[test]
fn response_for_unknown_request_is_kept() {
    let mut c = registry_with("owner", &[], &["bob"]);
    c.provide_data(&s("bob"), &s("nobody-asked"), &s("v"), 3).unwrap();
    assert!(c.get_all_requests().is_empty());
    assert_eq!(c.get_data_response(&s("nobody-asked")), Some(Response { result: s("v"), timestamp: 3 }));
}

#[test]
fn unknown_key_reads_empty() {
    let mut c = registry_with("owner", &[], &["bob"]);
    c.provide_data(&s("bob"), &s("r1"), &s("v"), 1).unwrap();
    assert_eq!(c.get_data_response(&s("does-not-exist")), None);
}

#[test]
fn listing_is_complete() {
    let mut c = registry_with("owner", &["alice"], &[]);
    let reqs = vec![
        request("r1", "https://1", "$.one", None),
        request("r2", "https://2", "$.two", Some(5)),
        request("r3", "https://3", "$.three", Some(u64::MAX)),
    ];
    for r in &reqs {
        c.create_request(&s("alice"), &r.request_id, r).unwrap();
    }
    let mut listed = c.get_all_requests();
    assert_eq!(listed.len(), 3);
    listed.sort_by(|x, y| x.request_id.cmp(&y.request_id));
    assert_eq!(listed, reqs);
}

#[test]
fn membership_only_grows() {
    let mut c = Contract::new(false, s("owner")).unwrap();
    c.add_new_requesters(&s("owner"), vec![s("A"), s("B")]).unwrap();
    c.add_new_requesters(&s("owner"), vec![]).unwrap();
    c.add_new_requesters(&s("owner"), vec![s("A"), s("A")]).unwrap();
    for who in ["A", "B"] {
        assert_eq!(c.create_request(&s(who), &s(who), &request(who, "u", "$", None)), Ok(()));
    }
    assert_eq!(c.get_all_requests().len(), 2);
}

#[test]
fn owner_scenario() {
    let mut c = Contract::new(false, s("owner")).unwrap();
    c.add_new_requesters(&s("owner"), vec![s("alice")]).unwrap();
    c.add_new_providers(&s("owner"), vec![s("bob")]).unwrap();
    let req = request("req-1", "https://x", "$.a", None);
    assert_eq!(c.create_request(&s("alice"), &s("req-1"), &req), Ok(()));
    assert_eq!(c.provide_data(&s("bob"), &s("req-1"), &s("42"), 1000), Ok(()));
    assert_eq!(c.get_data_response(&s("req-1")), Some(Response { result: s("42"), timestamp: 1000 }));
    let other = request("req-2", "https://y", "$.b", None);
    assert_eq!(c.create_request(&s("eve"), &s("req-2"), &other), Err(RegistryError::Unauthorized));
    assert_eq!(c.get_all_requests(), vec![req]);
}

#[test]
fn error_messages() {
    assert_eq!(RegistryError::AlreadyInitialized.message(), "Already initialized");
    assert!(!RegistryError::Unauthorized.message().is_empty());
}

#[test]
fn duplicates_copy_fields() {
    let r = request("r9", "https://z", "$.z", Some(9));
    assert_eq!(r.duplicate(), r);
    let resp = Response { result: s("x"), timestamp: 4 };
    assert_eq!(resp.duplicate(), resp);
}

#[test]
fn rebuild_from_exported_state() {
    let mut c = registry_with("owner", &["alice", "carol"], &["bob"]);
    c.create_request(&s("alice"), &s("r1"), &request("r1", "u1", "$.a", None)).unwrap();
    c.create_request(&s("carol"), &s("r2"), &request("r2", "u2", "$.b", Some(3))).unwrap();
    c.provide_data(&s("bob"), &s("r1"), &s("v"), 77).unwrap();
    let mut d = Contract::from_parts(
        c.owner().clone(),
        c.requester_ids(),
        c.provider_ids(),
        c.request_entries(),
        c.response_entries(),
    );
    assert_eq!(d.owner(), "owner");
    let mut ids = d.requester_ids();
    ids.sort();
    assert_eq!(ids, vec![s("alice"), s("carol")]);
    assert_eq!(d.provider_ids(), vec![s("bob")]);
    assert_eq!(d.get_all_requests(), c.get_all_requests());
    assert_eq!(d.get_data_response(&s("r1")), Some(Response { result: s("v"), timestamp: 77 }));
    assert_eq!(d.provide_data(&s("bob"), &s("r2"), &s("w"), 78), Ok(()));
    assert_eq!(d.add_new_requesters(&s("alice"), vec![s("x")]), Err(RegistryError::Unauthorized));
}

#[test]
fn from_parts_collapses_repeats() {
    let c = Contract::from_parts(
        s("o"),
        vec![s("a"), s("a"), s("b")],
        vec![],
        vec![(s("r1"), request("r1", "old", "$", None)), (s("r1"), request("r1", "new", "$", None))],
        vec![(s("r1"), Response { result: s("x"), timestamp: 1 }), (s("r1"), Response { result: s("y"), timestamp: 2 })],
    );
    assert_eq!(c.requester_ids().len(), 2);
    assert_eq!(c.get_all_requests(), vec![request("r1", "new", "$", None)]);
    assert_eq!(c.get_data_response(&s("r1")), Some(Response { result: s("y"), timestamp: 2 }));
}
