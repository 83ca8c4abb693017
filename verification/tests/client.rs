use jellyswarrm::client::{
    check_status, ApiError, ApiRequest, ClientInfo, IdentityStep, JellyfinClient, Method,
    SearchStep,
};
use jellyswarrm::json::Json;
use jellyswarrm::match_key::{ItemUserData, MatchKey};

fn client(base: &str) -> JellyfinClient {
    JellyfinClient::new(base, ClientInfo::default()).unwrap()
}

fn text(s: &str) -> Json {
    Json::Text(s.to_string())
}

fn object(entries: Vec<(&str, Json)>) -> Json {
    Json::Object(entries.into_iter().map(|(k, v)| (k.to_string(), v)).collect())
}

fn item(id: &str, imdb: &str) -> Json {
    object(vec![("Id", text(id)), ("ProviderIds", object(vec![("Imdb", text(imdb))]))])
}

fn items(list: Vec<Json>) -> Json {
    object(vec![("Items", Json::List(list))])
}

fn body_text(r: &ApiRequest, key: &str) -> Option<String> {
    r.body.as_ref().unwrap().get_text(key)
}

#[test]
fn test_authenticate_success() {
    let mut client = client("http://127.0.0.1:8096");

    let request = client.authenticate_by_name("test_user", "password").unwrap();
    assert_eq!(request.method, Method::Post);
    assert_eq!(request.url, "http://127.0.0.1:8096/Users/AuthenticateByName");
    assert_eq!(body_text(&request, "Username").as_deref(), Some("test_user"));
    assert_eq!(body_text(&request, "Pw").as_deref(), Some("password"));

    assert!(check_status(200, "200 OK", "").is_ok());
    let answer = object(vec![
        ("AccessToken", text("test_token")),
        (
            "User",
            object(vec![
                ("Id", text("user_id")),
                ("Name", text("test_user")),
                ("ServerId", text("server_id")),
            ]),
        ),
    ]);
    client.authenticated(answer.get_text("AccessToken").unwrap());

    assert_eq!(answer.get("User").unwrap().get_text("Name").unwrap(), "test_user");
    assert_eq!(client.get_token().as_deref(), Some("test_token"));
}

#[test]
fn media_folders_are_asked_for() {
    let mut client = client("http://127.0.0.1:8096");
    client.with_token("test_token".to_string());

    let request = client.get_media_folders(None).unwrap();
    assert_eq!(request.method, Method::Get);
    assert_eq!(request.url, "http://127.0.0.1:8096/Library/MediaFolders");
    assert_eq!(
        request.authorization,
        "MediaBrowser Client=\"Jellyfin API Client\", Device=\"Unknown\", DeviceId=\"unknown-device-id\", Version=\"0.0.0\", Token=\"test_token\""
    );
    assert_eq!(
        client.get_media_folders(Some("u1")).unwrap().url,
        "http://127.0.0.1:8096/Users/u1/Views"
    );
}

#[test]
fn branding_configuration_is_asked_for() {
    let client = client("http://127.0.0.1:8096");
    let request = client.get_branding_configuration().unwrap();
    assert_eq!(request.method, Method::Get);
    assert_eq!(request.url, "http://127.0.0.1:8096/Branding/Configuration");
    assert!(request.body.is_none());
}

#[test]
fn header_without_token() {
    assert_eq!(
        client("http://h").build_auth_header(),
        "MediaBrowser Client=\"Jellyfin API Client\", Device=\"Unknown\", DeviceId=\"unknown-device-id\", Version=\"0.0.0\""
    );
}

#[test]
fn base_path_gets_a_trailing_slash() {
    assert_eq!(client("http://h/jelly").get_users().unwrap().url, "http://h/jelly/Users");
    assert_eq!(client("http://h/jelly/").get_users().unwrap().url, "http://h/jelly/Users");
    assert_eq!(client("http://h").get_users().unwrap().url, "http://h/Users");
}

#[test]
fn bad_addresses_are_refused() {
    match JellyfinClient::new("not a url", ClientInfo::default()) {
        Err(ApiError::UrlParse(e)) => assert_eq!(e, "relative URL without a base"),
        other => panic!("{:?}", other),
    }
    match JellyfinClient::new("mailto:someone", ClientInfo::default()) {
        Err(ApiError::UrlParse(e)) => assert_eq!(e, "empty host"),
        other => panic!("{:?}", other),
    }
}

#[test]
fn unjoinable_paths_are_refused() {
    let c = client("http://h/");
    match c.request(Method::Get, "http://[", vec![], None) {
        Err(ApiError::UrlParse(_)) => {}
        other => panic!("{:?}", other),
    }
}

#[test]
fn clients_are_the_same_whoever_is_signed_in() {
    let a = client("http://h/x");
    let mut b = client("http://h/x/");
    b.with_token("t".to_string());
    assert!(a == b);
    assert!(a != client("http://h/y"));
    let other = ClientInfo { device: "d".to_string(), ..ClientInfo::default() };
    assert!(a != JellyfinClient::new("http://h/x", other).unwrap());
}

#[test]
fn statuses_become_errors() {
    assert!(check_status(204, "204 No Content", "").is_ok());
    assert!(matches!(check_status(401, "", ""), Err(ApiError::Unauthorized)));
    assert!(matches!(check_status(403, "", ""), Err(ApiError::Forbidden)));
    assert!(matches!(check_status(404, "", ""), Err(ApiError::NotFound)));
    match check_status(500, "500 Internal Server Error", "boom") {
        Err(ApiError::ServerError(m)) => assert_eq!(m, "500 Internal Server Error - boom"),
        other => panic!("{:?}", other),
    }
    assert!(matches!(check_status(302, "302 Found", ""), Err(ApiError::ServerError(_))));
}

#[test]
fn unauthorized_sign_in_is_a_failed_authentication() {
    match JellyfinClient::sign_in_error(ApiError::Unauthorized) {
        ApiError::AuthenticationFailed(m) => assert_eq!(m, "Invalid credentials"),
        other => panic!("{:?}", other),
    }
    assert!(matches!(JellyfinClient::sign_in_error(ApiError::NotFound), ApiError::NotFound));
}

#[test]
fn signing_out_forgets_the_token() {
    let mut c = client("http://h");
    c.with_token("t".to_string());
    assert_eq!(c.logout().unwrap().url, "http://h/Sessions/Logout");
    c.logged_out();
    assert_eq!(c.get_token(), None);
}

#[test]
fn admin_requests() {
    let c = client("http://h");
    let create = c.create_user("bob", Some("pw")).unwrap();
    assert_eq!(create.url, "http://h/Users/New");
    assert_eq!(body_text(&create, "Name").as_deref(), Some("bob"));
    assert_eq!(body_text(&create, "Password").as_deref(), Some("pw"));
    let open = c.create_user("bob", None).unwrap();
    assert!(matches!(open.body.as_ref().unwrap().get("Password"), Some(Json::Null)));
    let delete = c.delete_user("u1").unwrap();
    assert_eq!((delete.method, delete.url.as_str()), (Method::Delete, "http://h/Users/u1"));
    let reset = c.set_user_password("u1", "new").unwrap();
    assert_eq!(reset.url, "http://h/Users/u1/Password");
    assert_eq!(body_text(&reset, "CurrentPw").as_deref(), Some(""));
    assert_eq!(body_text(&reset, "NewPw").as_deref(), Some("new"));
    assert_eq!(reset.body.unwrap().get_truth("ResetPassword"), Some(false));
}

#[test]
fn playing_marks() {
    let c = client("http://h");
    let on = c.set_played("u", "i", true).unwrap();
    assert_eq!((on.method, on.url.as_str()), (Method::Post, "http://h/Users/u/PlayedItems/i"));
    assert_eq!(c.set_played("u", "i", false).unwrap().method, Method::Delete);
    assert_eq!(c.get_me().unwrap().url, "http://h/Users/Me");
    assert_eq!(c.get_public_system_info().unwrap().url, "http://h/System/Info/Public");
    assert_eq!(
        c.get_item_media_sources("u", "i").unwrap().url,
        "http://h/Users/u/Items/i?Fields=MediaSources"
    );
}

#[test]
fn applied_user_data_reads_back() {
    let ud = ItemUserData {
        played: true,
        playback_position_ticks: 123,
        play_count: 4,
        is_favorite: true,
        last_played_date: Some("2024-05-01".to_string()),
    };
    let r = client("http://h").apply_user_data("u", "i", &ud).unwrap();
    assert_eq!(r.url, "http://h/Users/u/Items/i/UserData");
    assert_eq!(ItemUserData::from_value(r.body.as_ref()), ud);
    let none = ItemUserData::default();
    let r = client("http://h").apply_user_data("u", "i", &none).unwrap();
    assert_eq!(ItemUserData::from_value(r.body.as_ref()), none);
    assert!(r.body.unwrap().get("LastPlayedDate").is_none());
}

#[test]
fn listing_query_holds_what_is_given() {
    let c = client("http://h");
    let bare = c
        .get_items("u", None, false, None, None, None, None, None, None)
        .unwrap();
    assert_eq!(bare.url, "http://h/Users/u/Items");
    assert_eq!(bare.query, vec![("Recursive".to_string(), "false".to_string())]);
    let full = c
        .get_items(
            "u",
            Some("p".to_string()),
            true,
            Some(vec!["Movie".to_string(), "Series".to_string()]),
            Some(10),
            Some(-2),
            Some("Name".to_string()),
            Some("Ascending".to_string()),
            Some(vec!["Path".to_string()]),
        )
        .unwrap();
    let got: Vec<(&str, &str)> =
        full.query.iter().map(|(k, v)| (k.as_str(), v.as_str())).collect();
    assert_eq!(
        got,
        vec![
            ("Recursive", "true"),
            ("Fields", "Path"),
            ("ParentId", "p"),
            ("IncludeItemTypes", "Movie,Series"),
            ("Limit", "10"),
            ("StartIndex", "-2"),
            ("SortBy", "Name"),
            ("SortOrder", "Ascending"),
        ]
    );
}

fn movie_key(imdb: &str) -> MatchKey {
    MatchKey::Provider(vec![("Imdb".to_string(), imdb.to_string())])
}

fn found(s: SearchStep) -> Option<String> {
    match s {
        SearchStep::Found(id) => id,
        other => panic!("{:?}", other),
    }
}

fn asked(s: SearchStep) -> String {
    match s {
        SearchStep::Ask(p) => p,
        other => panic!("{:?}", other),
    }
}

#[test]
fn movies_are_found_by_provider_id() {
    let key = movie_key("tt1");
    assert_eq!(
        asked(JellyfinClient::find_item_by_match("u", &key)),
        "Users/u/Items?Recursive=true&IncludeItemTypes=Movie,Series&Fields=ProviderIds&EnableImages=false&EnableUserData=false"
    );
    let answer = items(vec![item("a", "tt2"), item("b", "tt1")]);
    assert_eq!(found(JellyfinClient::after_titles("u", &key, &answer)).as_deref(), Some("b"));
    assert_eq!(found(JellyfinClient::after_titles("u", &key, &Json::Null)), None);
}

#[test]
fn episodes_are_found_through_their_series() {
    let key = MatchKey::Episode {
        series: vec![("Imdb".to_string(), "tt1".to_string())],
        season: 2,
        episode: 3,
    };
    assert_eq!(
        asked(JellyfinClient::find_item_by_match("u", &key)),
        "Users/u/Items?Recursive=true&IncludeItemTypes=Series&Fields=ProviderIds&EnableImages=false&EnableUserData=false"
    );
    let series = items(vec![item("s1", "tt1")]);
    assert_eq!(
        asked(JellyfinClient::after_titles("u", &key, &series)),
        "Users/u/Items?ParentId=s1&Recursive=true&IncludeItemTypes=Episode&EnableImages=false&EnableUserData=false"
    );
    let episodes = items(vec![object(vec![
        ("Id", text("e")),
        ("ParentIndexNumber", Json::Number(Some(2))),
        ("IndexNumber", Json::Number(Some(3))),
    ])]);
    assert_eq!(JellyfinClient::after_episodes(&key, &episodes).as_deref(), Some("e"));
    assert_eq!(JellyfinClient::after_episodes(&key, &items(vec![])), None);
    assert_eq!(found(JellyfinClient::after_titles("u", &key, &items(vec![]))), None);
}

#[test]
fn unmatchable_keys_are_not_searched() {
    let key = MatchKey::Provider(vec![("TmdbCollection".to_string(), "1".to_string())]);
    assert_eq!(found(JellyfinClient::find_item_by_match("u", &key)), None);
    assert_eq!(found(JellyfinClient::find_item_id_by_provider_ids("u", &vec![])), None);
}

#[test]
fn movies_only_are_listed_for_provider_ids() {
    let ids = vec![("Imdb".to_string(), "tt1".to_string())];
    assert_eq!(
        asked(JellyfinClient::find_item_id_by_provider_ids("u", &ids)),
        "Users/u/Items?Recursive=true&IncludeItemTypes=Movie&Fields=ProviderIds&EnableImages=false&EnableUserData=false"
    );
    let answer = items(vec![item("m", "tt1")]);
    assert_eq!(JellyfinClient::movie_in(&answer, &ids).as_deref(), Some("m"));
}

#[test]
fn identity_of_movies_and_episodes() {
    let movie = object(vec![
        ("Type", text("Movie")),
        ("ProviderIds", object(vec![("Imdb", text("tt1"))])),
        ("UserData", object(vec![("Played", Json::Bool(true))])),
    ]);
    match JellyfinClient::sync_info("u", &movie) {
        (IdentityStep::Known(k), ud) => {
            assert_eq!(k, movie_key("tt1"));
            assert!(ud.played);
        }
        other => panic!("{:?}", other),
    }
    assert_eq!(
        JellyfinClient::match_info(&movie),
        (vec![("Imdb".to_string(), "tt1".to_string())], Some(true))
    );
    let episode = object(vec![
        ("Type", text("Episode")),
        ("ParentIndexNumber", Json::Number(Some(1))),
        ("IndexNumber", Json::Number(Some(9))),
        ("SeriesId", text("s7")),
    ]);
    match JellyfinClient::sync_info("u", &episode) {
        (IdentityStep::AskSeries { path, season, episode }, _) => {
            assert_eq!(path, "Users/u/Items/s7?Fields=ProviderIds");
            assert_eq!((season, episode), (1, 9));
            let series = object(vec![("ProviderIds", object(vec![("Tvdb", text("5"))]))]);
            assert_eq!(
                JellyfinClient::episode_key(&series, season, episode).cache_key(),
                "tvdb.5|s1e9"
            );
        }
        other => panic!("{:?}", other),
    }
    // an episode without its numbers is known by its own ids
    let bare = object(vec![("Type", text("Episode")), ("SeriesId", text("s7"))]);
    assert!(matches!(
        JellyfinClient::sync_info("u", &bare).0,
        IdentityStep::Known(MatchKey::Provider(ids)) if ids.is_empty()
    ));
}
