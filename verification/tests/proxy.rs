//! Decisions about connections and requests.

use rfbproxy::auth::RfbAuthentication;
use rfbproxy::messages::{server, Error};
use rfbproxy::proxy::{
    audio_enabled, clean_target, decode_pubkeys, forward_client_frame, forward_server_read,
    negotiate, relay_client_frame, relay_server_message, route, select_authentication, serve, ClientFrame,
    Relay, Route, SetupError,
};

#[test]
fn plain_forwarding() {
    assert!(matches!(
        forward_client_frame(ClientFrame::Binary(vec![1])),
        Relay::Write(data) if data == [1]
    ));
    for frame in [ClientFrame::Close, ClientFrame::Other, ClientFrame::Failed] {
        assert!(matches!(forward_client_frame(frame), Relay::Skip));
    }
    assert!(matches!(
        forward_client_frame(ClientFrame::Ended),
        Relay::Stop
    ));
    assert!(matches!(
        forward_server_read(Some(vec![1, 2])),
        Relay::Write(data) if data == [1, 2]
    ));
    assert!(matches!(forward_server_read(Some(vec![])), Relay::Stop));
    assert!(matches!(forward_server_read(None), Relay::Stop));
}

#[test]
fn interpreted_relaying() {
    assert!(matches!(
        relay_client_frame(ClientFrame::Binary(vec![1])),
        Relay::Write(data) if data == [1]
    ));
    assert!(matches!(
        relay_client_frame(ClientFrame::Close),
        Relay::Stop
    ));
    assert!(matches!(
        relay_client_frame(ClientFrame::Other),
        Relay::Skip
    ));
    assert!(matches!(
        relay_client_frame(ClientFrame::Failed),
        Relay::Fail
    ));
    assert!(matches!(
        relay_client_frame(ClientFrame::Ended),
        Relay::Skip
    ));
    assert!(matches!(
        relay_server_message(Ok(Some(server::Message::Bell(vec![2])))),
        Relay::Write(data) if data == [2]
    ));
    assert!(matches!(relay_server_message(Ok(None)), Relay::Stop));
    assert!(matches!(
        relay_server_message(Err(Error::Incomplete)),
        Relay::Fail
    ));
}

#[test]
fn paths_are_clean() {
    for (path, cleaned) in [
        ("/", "/"),
        ("/index.html", "/index.html"),
        ("/a//b/./c/", "/a/b/c"),
        ("/a/../ws", "/ws"),
        ("/../../etc/passwd", "/etc/passwd"),
        ("/a/../../b", "/b"),
        ("/..", "/"),
    ] {
        assert_eq!(
            clean_target(path, None),
            (cleaned.to_string(), cleaned.to_string())
        );
    }
    assert_eq!(
        clean_target("/x/../ws", Some("a=b/../c")),
        ("/ws".to_string(), "/ws?a=b/../c".to_string())
    );
    assert_eq!(
        clean_target("/ws", Some("")),
        ("/ws".to_string(), "/ws?".to_string())
    );
}

#[test]
fn routes() {
    assert_eq!(route("/ws", true), Route::WebSocket);
    assert_eq!(route("/ws", false), Route::NotFound);
    assert_eq!(route("/", true), Route::File);
    assert_eq!(route("/ws/", false), Route::File);
    assert_eq!(route("/vnc.html", false), Route::File);
}

#[test]
fn requests_are_served_by_their_clean_path() {
    for (path, query, upgrade, route, target) in [
        ("/ws", None, true, Route::WebSocket, "/ws"),
        ("/a/../ws", None, true, Route::WebSocket, "/ws"),
        ("/./ws/", Some("x=1"), false, Route::NotFound, "/ws?x=1"),
        ("/../index.html", None, false, Route::File, "/index.html"),
        ("/ws/../vnc", Some("/ws"), true, Route::File, "/vnc?/ws"),
    ] {
        assert_eq!(serve(path, query, upgrade), (route, target.to_string()));
    }
}

#[test]
fn protocols_are_echoed() {
    assert_eq!(negotiate(Some(b"binary".to_vec())), Ok(b"binary".to_vec()));
    assert_eq!(negotiate(Some(vec![])), Ok(vec![]));
    assert_eq!(
        negotiate(None),
        Err("This is a WebSocket server".to_string())
    );
}

#[test]
fn audio_flag_and_variable() {
    assert!(audio_enabled(true, ""));
    assert!(audio_enabled(false, "1"));
    assert!(audio_enabled(false, " "));
    assert!(!audio_enabled(false, ""));
}

#[test]
fn authentication_follows_from_the_arguments() {
    assert!(matches!(
        select_authentication(None, None, false),
        Ok(RfbAuthentication::Null)
    ));
    assert!(matches!(
        select_authentication(None, None, true),
        Ok(RfbAuthentication::Passthrough)
    ));
    for audio in [false, true] {
        let text = "{\"one\":\"AQI=\",\"two\":\"AA==\",\"one\":\"/w==\"}";
        match select_authentication(Some("repl"), Some(text), audio) {
            Ok(RfbAuthentication::Replit { replid, pubkeys }) => {
                assert_eq!(replid, "repl");
                assert_eq!(pubkeys.get("one"), Some(&vec![0xff]));
                assert_eq!(pubkeys.get("two"), Some(&vec![0]));
                assert!(pubkeys.get("three").is_none());
            }
            _ => panic!("no Replit authentication"),
        }
    }
}

#[test]
fn setup_errors() {
    let error = |replid: Option<&str>, pubkeys: Option<&str>| {
        match select_authentication(replid, pubkeys, true) {
            Err(e) => e,
            Ok(_) => panic!("no error"),
        }
    };
    assert!(matches!(error(Some("repl"), None), SetupError::Incomplete));
    assert!(matches!(error(None, Some("{}")), SetupError::Incomplete));
    assert_eq!(
        error(None, Some("{}")).to_string(),
        "--replid and --pubkeys must be passed together"
    );
    for text in ["[]", "{\"a\":1}", ""] {
        let e = error(Some("repl"), Some(text));
        assert!(matches!(e, SetupError::PubkeysFormat(_)));
        let reason = serde_json::from_str::<std::collections::HashMap<String, String>>(text)
            .unwrap_err();
        assert_eq!(e.to_string(), reason.to_string());
    }
    let e = error(Some("repl"), Some("{\"a\":\"AA==\",\"b\":\"!\"}"));
    assert!(matches!(e, SetupError::PubkeyEncoding(_)));
    assert_eq!(e.to_string(), base64::decode("!").unwrap_err().to_string());
}

#[test]
fn public_keys_are_decoded() {
    let keys = decode_pubkeys(vec![("k".to_string(), "AQID".to_string())]);
    match keys {
        Ok(keys) => assert_eq!(keys.get("k"), Some(&vec![1, 2, 3])),
        Err(_) => panic!("not decoded"),
    }
}
