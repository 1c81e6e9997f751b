use lcu::auth::{Os, Process};
use lcu::client::{Lcu, Method};
use lcu::error::ApiError;

fn running(port: &str, key: &str) -> Vec<Process> {
    vec![Process {
        name: "LeagueClientUx.exe".to_string(),
        cmd: vec![
            "C:/Riot Games/League of Legends/LeagueClientUx.exe".to_string(),
            format!("--remoting-auth-token={}", key),
            format!("--app-port={}", port),
        ],
    }]
}

#[test]
fn lcu_raw_api_get() {
    let lcu = Lcu::new(Os::Windows, &running("52437", "abc")).unwrap();
    let request = lcu.get("/lol-summoner/v1/current-summoner");
    assert_eq!(request.method, Method::Get);
    assert_eq!(request.url, "https://127.0.0.1:52437/lol-summoner/v1/current-summoner");
    assert_eq!(request.body, None);
}

#[test]
fn new_session_carries_port_and_authorization() {
    let lcu = Lcu::new(Os::Windows, &running("1", "abc")).unwrap();
    assert_eq!(lcu.authorization(), "Basic cmlvdDphYmM=");
    assert_eq!(lcu.make_url(""), "https://127.0.0.1:1/");
}

#[test]
fn new_session_without_the_client_is_not_running() {
    assert_eq!(Lcu::new(Os::Macos, &running("1", "abc")).err(), Some(ApiError::NotRunning));
    assert_eq!(Lcu::new(Os::Windows, &Vec::new()).err(), Some(ApiError::NotRunning));
}

#[test]
fn new_session_without_credentials_fails() {
    let bare = vec![Process { name: "LeagueClientUx".to_string(), cmd: Vec::new() }];
    assert_eq!(Lcu::new(Os::Macos, &bare).err(), Some(ApiError::MissingPort));
}

#[test]
fn make_url_drops_the_leading_slashes_of_the_endpoint() {
    let lcu = Lcu::new(Os::Windows, &running("8080", "t")).unwrap();
    assert_eq!(lcu.make_url("/lol-chat/v1/friends"), "https://127.0.0.1:8080/lol-chat/v1/friends");
    assert_eq!(lcu.make_url("lol-chat/v1/friends"), "https://127.0.0.1:8080/lol-chat/v1/friends");
    assert_eq!(lcu.make_url("//a//b/"), "https://127.0.0.1:8080/a//b/");
    assert_eq!(lcu.make_url("/"), "https://127.0.0.1:8080/");
}

#[test]
fn verbs_build_requests() {
    let lcu = Lcu::new(Os::Windows, &running("9", "t")).unwrap();
    let delete = lcu.delete("/x");
    assert_eq!(delete.method, Method::Delete);
    assert_eq!(delete.url, "https://127.0.0.1:9/x");
    assert_eq!(delete.body, None);
    let post = lcu.post("/lol-lobby/v2/lobby/invitations", "[{\"toSummonerId\":2}]");
    assert_eq!(post.method, Method::Post);
    assert_eq!(post.url, "https://127.0.0.1:9/lol-lobby/v2/lobby/invitations");
    assert_eq!(post.body, Some("[{\"toSummonerId\":2}]".to_string()));
    let put = lcu.put("y", "{}");
    assert_eq!(put.method, Method::Put);
    assert_eq!(put.url, "https://127.0.0.1:9/y");
    assert_eq!(put.body, Some("{}".to_string()));
    let patch = lcu.patch("/z", "null");
    assert_eq!(patch.method, Method::Patch);
    assert_eq!(patch.url, "https://127.0.0.1:9/z");
    assert_eq!(patch.body, Some("null".to_string()));
}
