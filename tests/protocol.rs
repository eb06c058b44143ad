use kvs::{
    check_meta, get_outcome, remove_outcome, set_outcome, GetResponse, KvsEngine, KvsError,
    KvsServer, Outcome, RemoveResponse, Reply, Req, SetResponse, KVS_IDENTITY, SLED_IDENTITY,
};

struct MemEngine {
    pairs: Vec<(String, String)>,
}

impl KvsEngine for MemEngine {
    fn set(&mut self, k: String, v: String) -> Result<(), KvsError> {
        self.pairs.retain(|(a, _)| *a != k);
        self.pairs.push((k, v));
        Ok(())
    }

    fn get(&mut self, k: String) -> Result<Option<String>, KvsError> {
        Ok(self.pairs.iter().find(|(a, _)| *a == k).map(|(_, v)| v.clone()))
    }

    fn remove(&mut self, k: String) -> Result<(), KvsError> {
        let n = self.pairs.len();
        self.pairs.retain(|(a, _)| *a != k);
        if self.pairs.len() == n {
            Err(KvsError::KeyNotFound)
        } else {
            Ok(())
        }
    }
}

fn outcome(reply: Reply) -> Outcome {
    match reply {
        Reply::Get(r) => get_outcome(r),
        Reply::Put(r) => set_outcome(r),
        Reply::Remove(r) => remove_outcome(r),
    }
}

#[test]
fn meta_matching_or_missing_is_accepted() {
    assert!(check_meta(None, KVS_IDENTITY).is_ok());
    assert!(check_meta(Some("kvs"), KVS_IDENTITY).is_ok());
    assert!(check_meta(Some("sled"), SLED_IDENTITY).is_ok());
}

#[test]
fn meta_of_other_engine_is_wrong_meta() {
    assert!(matches!(check_meta(Some("sled"), KVS_IDENTITY), Err(KvsError::WrongMeta)));
    assert!(matches!(check_meta(Some("kvs"), SLED_IDENTITY), Err(KvsError::WrongMeta)));
    assert!(matches!(check_meta(Some(""), KVS_IDENTITY), Err(KvsError::WrongMeta)));
}

#[test]
fn error_messages() {
    assert_eq!(KvsError::KeyNotFound.message(), "Key not found");
    assert_eq!(KvsError::WrongMeta.message(), "wrong meta");
    assert_eq!(KvsError::Io("disk".to_string()).message(), "disk");
}

#[test]
fn set_get_rm_rm_scenario() {
    let mut server = KvsServer::new(MemEngine { pairs: Vec::new() });
    let r = server.dispatch(Req::Put { key: "a".to_string(), value: "1".to_string() });
    assert!(matches!(r, Reply::Put(SetResponse::Success)));
    let r = server.dispatch(Req::Get { key: "a".to_string() });
    match outcome(r) {
        Outcome::Print(s) => assert_eq!(s, "1"),
        _ => panic!("get should print the value"),
    }
    let r = server.dispatch(Req::Remove { key: "a".to_string() });
    assert!(matches!(outcome(r), Outcome::Quiet));
    let r = server.dispatch(Req::Remove { key: "a".to_string() });
    match outcome(r) {
        Outcome::Fail(s) => assert_eq!(s, "Key not found"),
        _ => panic!("second rm should fail"),
    }
}

#[test]
fn get_of_missing_key_prints_not_found() {
    let mut server = KvsServer::new(MemEngine { pairs: Vec::new() });
    let r = server.dispatch(Req::Get { key: "zz".to_string() });
    assert!(matches!(r, Reply::Get(GetResponse::Success(None))));
    match outcome(r) {
        Outcome::Print(s) => assert_eq!(s, "Key not found"),
        _ => panic!("missing key is not a failure"),
    }
}

#[test]
fn engine_errors_become_failure_responses() {
    assert!(matches!(
        kvs::server::remove_response(Err(KvsError::KeyNotFound)),
        RemoveResponse::Failure(m) if m == "Key not found"
    ));
    assert!(matches!(
        kvs::server::get_response(Err(KvsError::Serde("bad".to_string()))),
        GetResponse::Failure(m) if m == "bad"
    ));
    assert!(matches!(
        kvs::server::set_response(Err(KvsError::WrongMeta)),
        SetResponse::Failure(m) if m == "wrong meta"
    ));
    assert!(matches!(set_outcome(SetResponse::Failure("x".to_string())), Outcome::Fail(m) if m == "x"));
    assert!(matches!(get_outcome(GetResponse::Failure("y".to_string())), Outcome::Fail(m) if m == "y"));
}
