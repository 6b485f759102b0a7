use mx_replay_uploader::mx_client::client_error::ClientError;
use mx_replay_uploader::mx_client::upload_response::{Replay, UploadResponse, UploadedMap};
use mx_replay_uploader::mx_client::{
    check_upload, extract_hidden_fields, extract_next_action, map_id_of, map_lookup_url,
    upload_referer, upload_token, ConnectFlow, HttpRequest, MapFromUid, MapId,
};
use mx_replay_uploader::string_map::StringMap;

const LOGIN_PAGE: &str = r#"<html><body>
<form method="post" action="/login">
  <input type="hidden" name="ReturnUrl" value="/home"/>
  <input type="hidden" name="__RequestVerificationToken" value="tok1"/>
  <input type="text" name="Username" value=""/>
  <input type="hidden" name="novalue"/>
</form></body></html>"#;

const REDIRECT_PAGE: &str = r#"<html><body>
<form method="post" action="https://tm.mania.exchange/signin-oidc">
  <input type="hidden" name="code" value="abc"/>
  <input type="hidden" name="state" value="xyz"/>
</form></body></html>"#;

const PLAIN_PAGE: &str = "<html><body><p>Welcome</p></body></html>";

fn pairs(m: &StringMap) -> Vec<(String, String)> {
    m.pairs().clone()
}

fn s(x: &str) -> String {
    String::from(x)
}

fn response(success: bool, error: Option<&str>, position: usize) -> UploadResponse {
    UploadResponse {
        success,
        error: error.map(String::from),
        map: UploadedMap { map_id: 41496, name: s("TheseRoadS") },
        replay: Replay { replay_time: 43825, replay_points: 26, position, score: 935 },
    }
}

#[test]
fn next_action_of_post_form() {
    assert_eq!(extract_next_action(LOGIN_PAGE).unwrap(), Some(s("/login")));
    assert_eq!(extract_next_action(PLAIN_PAGE).unwrap(), None);
    let no_action = r#"<form method="post"><input type="hidden" name="a" value="b"/></form>"#;
    assert_eq!(extract_next_action(no_action).unwrap(), None);
    let get_form = r#"<form method="get" action="/search"></form>"#;
    assert_eq!(extract_next_action(get_form).unwrap(), None);
}

#[test]
fn hidden_fields_in_document_order() {
    let fields = extract_hidden_fields(LOGIN_PAGE).unwrap();
    assert_eq!(
        pairs(&fields),
        vec![(s("ReturnUrl"), s("/home")), (s("__RequestVerificationToken"), s("tok1"))]
    );
    assert_eq!(fields.get("ReturnUrl"), Some(&s("/home")));
    assert_eq!(fields.get("Username"), None);
    assert_eq!(extract_hidden_fields(PLAIN_PAGE).unwrap().len(), 0);
}

#[test]
fn hidden_fields_later_value_wins() {
    let page = r#"<form><input type="hidden" name="k" value="1"/><input type="hidden" name="k" value="2"/></form>"#;
    let fields = extract_hidden_fields(page).unwrap();
    assert_eq!(pairs(&fields), vec![(s("k"), s("2"))]);
}

#[test]
fn connect_flow_sequence() {
    let (mut flow, first) = ConnectFlow::start("me", "secret");
    match first {
        HttpRequest::Get { url } => assert_eq!(url, "https://account.mania.exchange/login"),
        other => panic!("unexpected {other:?}"),
    }

    match flow.on_page(LOGIN_PAGE).unwrap() {
        Some(HttpRequest::Post { url, fields, origin }) => {
            assert_eq!(url, "https://account.mania.exchange/login");
            assert_eq!(origin, Some(s("null")));
            assert_eq!(
                pairs(&fields),
                vec![
                    (s("ReturnUrl"), s("/home")),
                    (s("__RequestVerificationToken"), s("tok1")),
                    (s("Username"), s("me")),
                    (s("Password"), s("secret")),
                    (s("button"), s("login")),
                ]
            );
        }
        other => panic!("unexpected {other:?}"),
    }

    match flow.on_page(REDIRECT_PAGE).unwrap() {
        Some(HttpRequest::Post { url, fields, origin }) => {
            assert_eq!(url, "https://tm.mania.exchange/signin-oidc");
            assert_eq!(origin, Some(s("https://account.mania.exchange/login")));
            assert_eq!(pairs(&fields), vec![(s("code"), s("abc")), (s("state"), s("xyz"))]);
        }
        other => panic!("unexpected {other:?}"),
    }

    match flow.on_page(PLAIN_PAGE).unwrap() {
        Some(HttpRequest::Get { url }) => assert_eq!(url, "https://tm.mania.exchange/login"),
        other => panic!("unexpected {other:?}"),
    }

    match flow.on_page(REDIRECT_PAGE).unwrap() {
        Some(HttpRequest::Post { url, origin, .. }) => {
            assert_eq!(url, "https://tm.mania.exchange/signin-oidc");
            assert_eq!(origin, None);
        }
        other => panic!("unexpected {other:?}"),
    }

    assert!(flow.on_page(PLAIN_PAGE).unwrap().is_none());
    assert!(flow.on_page(REDIRECT_PAGE).unwrap().is_none());
}

#[test]
fn connect_flow_origin_follows_chain() {
    let (mut flow, _) = ConnectFlow::start("u", "p");
    let _ = flow.on_page(PLAIN_PAGE).unwrap();
    let second = r#"<form method="post" action="https://b.example/next"><input type="hidden" name="t" value="1"/></form>"#;
    let _ = flow.on_page(REDIRECT_PAGE).unwrap();
    match flow.on_page(second).unwrap() {
        Some(HttpRequest::Post { url, origin, .. }) => {
            assert_eq!(url, "https://b.example/next");
            assert_eq!(origin, Some(s("https://tm.mania.exchange/signin-oidc")));
        }
        other => panic!("unexpected {other:?}"),
    }
}

#[test]
fn connect_flow_without_account_form_finishes() {
    let (mut flow, _) = ConnectFlow::start("u", "p");
    let _ = flow.on_page(LOGIN_PAGE).unwrap();
    assert!(matches!(flow.on_page(PLAIN_PAGE).unwrap(), Some(HttpRequest::Get { .. })));
    assert!(flow.on_page(PLAIN_PAGE).unwrap().is_none());
}

#[test]
fn map_lookup_address() {
    assert_eq!(
        map_lookup_url("46jinRt4pKMhhaspKAwc7F2_Ek").unwrap(),
        "https://tm.mania.exchange/api/maps?fields=MapId&uid=46jinRt4pKMhhaspKAwc7F2_Ek"
    );
    assert_eq!(
        map_lookup_url("a b&c").unwrap(),
        "https://tm.mania.exchange/api/maps?fields=MapId&uid=a+b%26c"
    );
}

#[test]
fn map_id_from_search() {
    let found = MapFromUid { more: false, results: vec![MapId { map_id: 41496 }, MapId { map_id: 7 }] };
    assert_eq!(found.id(), Some(41496));
    assert_eq!(map_id_of(&found).unwrap(), 41496);
    let none = MapFromUid { more: false, results: vec![] };
    assert_eq!(none.id(), None);
    assert!(matches!(map_id_of(&none), Err(ClientError::NoMapId)));
}

#[test]
fn referer_and_token() {
    assert_eq!(upload_referer(41496), "https://tm.mania.exchange/replayupload/41496");
    assert_eq!(upload_referer(0), "https://tm.mania.exchange/replayupload/0");
    let mut fields = StringMap::new();
    match upload_token(&fields, "https://x/1") {
        Err(ClientError::Error(m)) => assert_eq!(m, "No hidden fields found in https://x/1 response"),
        other => panic!("unexpected {other:?}"),
    }
    fields.insert(s("token"), s("v1"));
    fields.insert(s("other"), s("v2"));
    assert_eq!(upload_token(&fields, "r").unwrap(), (s("token"), s("v1")));
}

#[test]
fn upload_judgement() {
    let ok = check_upload(response(true, None, 1)).unwrap();
    assert_eq!(ok.position(), 2);
    match check_upload(response(false, Some("This replay already exists."), 0)) {
        Err(ClientError::Upload(m)) => assert_eq!(m, "This replay already exists."),
        other => panic!("unexpected {other:?}"),
    }
    match check_upload(response(false, None, 0)) {
        Err(ClientError::Upload(m)) => assert_eq!(m, "No error message"),
        other => panic!("unexpected {other:?}"),
    }
}

#[test]
fn client_error_messages() {
    assert_eq!(ClientError::Error(s("x")).message(), "Client error: x");
    assert_eq!(ClientError::Upload(s("y")).message(), "Upload error: y");
    assert_eq!(ClientError::HtmlParse(s("z")).message(), "Html parse error: z");
    assert_eq!(ClientError::NoMapId.message(), "Map does not exist on Mania Exchange");
}
