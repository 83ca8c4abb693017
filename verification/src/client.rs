//! Requests to one Jellyfin backend, and what its answers mean.
//!
//! The client says what is to be sent; sending it and reading the answer is
//! left to the caller.
use vstd::prelude::*;
use vstd::string::*;
use vstd::utf8::*;

use crate::json;
use crate::json::{Json, JsonView};
use crate::match_key;
use crate::match_key::{ItemUserData, MatchKey, MatchKeyView, UserDataView};
use crate::text;
use crate::urls;

verus! {

/// How the client introduces itself.
#[derive(Debug, Clone, PartialEq, Eq, Hash)]
pub struct ClientInfo {
    pub client: String,
    pub device: String,
    pub device_id: String,
    pub version: String,
}

/// The data in a [`ClientInfo`].
pub struct ClientInfoView {
    pub client: Seq<char>,
    pub device: Seq<char>,
    pub device_id: Seq<char>,
    pub version: Seq<char>,
}

impl View for ClientInfo {
    type V = ClientInfoView;

    open spec fn view(&self) -> ClientInfoView {
        ClientInfoView {
            client: self.client@,
            device: self.device@,
            device_id: self.device_id@,
            version: self.version@,
        }
    }
}

impl Default for ClientInfo {
    fn default() -> (r: Self)
        ensures
            r@ == (ClientInfoView {
                client: "Jellyfin API Client"@,
                device: "Unknown"@,
                device_id: "unknown-device-id"@,
                version: "0.0.0"@,
            }),
    {
        ClientInfo {
            client: "Jellyfin API Client".to_owned(),
            device: "Unknown".to_owned(),
            device_id: "unknown-device-id".to_owned(),
            version: "0.0.0".to_owned(),
        }
    }
}

/// Why a request could not be made or was turned down.
#[derive(Debug)]
pub enum ApiError {
    UrlParse(String),
    Unauthorized,
    Forbidden,
    NotFound,
    AuthenticationFailed(String),
    ServerError(String),
}

/// The data in an [`ApiError`].
pub enum ApiErrorView {
    UrlParse(Seq<char>),
    Unauthorized,
    Forbidden,
    NotFound,
    AuthenticationFailed(Seq<char>),
    ServerError(Seq<char>),
}

impl View for ApiError {
    type V = ApiErrorView;

    open spec fn view(&self) -> ApiErrorView {
        match self {
            ApiError::UrlParse(e) => ApiErrorView::UrlParse(e@),
            ApiError::Unauthorized => ApiErrorView::Unauthorized,
            ApiError::Forbidden => ApiErrorView::Forbidden,
            ApiError::NotFound => ApiErrorView::NotFound,
            ApiError::AuthenticationFailed(m) => ApiErrorView::AuthenticationFailed(m@),
            ApiError::ServerError(m) => ApiErrorView::ServerError(m@),
        }
    }
}

/// The method of a request.
#[derive(Debug, Clone, Copy, PartialEq, Eq, Structural)]
pub enum Method {
    Get,
    Post,
    Delete,
}

/// A request to send: with the given `Authorization` header, the pairs added
/// to the query and the body as JSON.
#[derive(Debug)]
pub struct ApiRequest {
    pub method: Method,
    pub url: String,
    pub authorization: String,
    pub query: Vec<(String, String)>,
    pub body: Option<Json>,
}

/// The data in an [`ApiRequest`].
pub struct RequestView {
    pub method: Method,
    pub url: Seq<char>,
    pub authorization: Seq<char>,
    pub query: Seq<(Seq<char>, Seq<char>)>,
    pub body: Option<JsonView>,
}

/// The data in an optional body.
pub open spec fn body_view(body: Option<Json>) -> Option<JsonView> {
    match body {
        Some(b) => Some(json::contents(b)),
        None => None,
    }
}

impl View for ApiRequest {
    type V = RequestView;

    open spec fn view(&self) -> RequestView {
        RequestView {
            method: self.method,
            url: self.url@,
            authorization: self.authorization@,
            query: match_key::pair_texts(self.query@),
            body: body_view(self.body),
        }
    }
}

/// The data in the result of making a request.
pub open spec fn result_view(r: Result<ApiRequest, ApiError>) -> Result<RequestView, ApiErrorView> {
    match r {
        Ok(q) => Ok(q@),
        Err(e) => Err(e@),
    }
}

/// A client of one backend.
#[derive(Debug)]
pub struct JellyfinClient {
    base_url: String,
    client_info: ClientInfo,
    auth_token: Option<String>,
}

/// The data in a [`JellyfinClient`].
pub struct ClientView {
    pub base_url: Seq<char>,
    pub client_info: ClientInfoView,
    pub auth_token: Option<Seq<char>>,
}

impl View for JellyfinClient {
    type V = ClientView;

    closed spec fn view(&self) -> ClientView {
        ClientView {
            base_url: self.base_url@,
            client_info: self.client_info@,
            auth_token: json::opt_text(self.auth_token),
        }
    }
}

/// The base address of a client and its path: an address whose path does not
/// end with a slash gets an empty segment more, where there is room for it.
pub open spec fn base_of(address: Seq<char>) -> Result<(Seq<char>, Seq<char>), ApiErrorView> {
    match urls::url_parsed(address) {
        Err(e) => Err(ApiErrorView::UrlParse(e)),
        Ok((url, path)) => if path.len() > 0 && path.last() == '/' {
            Ok((url, path))
        } else if !urls::can_grow(address, 1) {
            Err(ApiErrorView::UrlParse(urls::too_long()))
        } else {
            match urls::url_with_segment(address, Seq::empty()) {
                Some(p) => Ok(p),
                None => Err(ApiErrorView::UrlParse("empty host"@)),
            }
        },
    }
}

/// The `Authorization` header of a client.
pub open spec fn auth_header(c: ClientView) -> Seq<char> {
    let head = "MediaBrowser Client=\""@ + c.client_info.client + "\", Device=\""@
        + c.client_info.device + "\", DeviceId=\""@ + c.client_info.device_id + "\", Version=\""@
        + c.client_info.version + "\""@;
    match c.auth_token {
        Some(token) => head + ", Token=\""@ + token + "\""@,
        None => head,
    }
}

/// The request for a path of the backend.
pub open spec fn requested(
    c: ClientView,
    method: Method,
    path: Seq<char>,
    query: Seq<(Seq<char>, Seq<char>)>,
    body: Option<JsonView>,
) -> Result<RequestView, ApiErrorView> {
    match urls::resolved(c.base_url, path) {
        Ok(url) => Ok(RequestView { method, url, authorization: auth_header(c), query, body }),
        Err(e) => Err(ApiErrorView::UrlParse(e)),
    }
}

/// The request for a path without query pairs of its own.
pub open spec fn plainly_requested(
    c: ClientView,
    method: Method,
    path: Seq<char>,
    body: Option<JsonView>,
) -> Result<RequestView, ApiErrorView> {
    requested(c, method, path, Seq::empty(), body)
}

/// What the status of an answer means: nothing for success.
pub open spec fn status_error(
    status: u16,
    status_line: Seq<char>,
    body: Seq<char>,
) -> Option<ApiErrorView> {
    if 200 <= status <= 299 {
        None
    } else if status == 401 {
        Some(ApiErrorView::Unauthorized)
    } else if status == 403 {
        Some(ApiErrorView::Forbidden)
    } else if status == 404 {
        Some(ApiErrorView::NotFound)
    } else {
        Some(ApiErrorView::ServerError(status_line + " - "@ + body))
    }
}

/// Reads the status of an answer. `status_line` is the status as words, such
/// as `500 Internal Server Error`.
pub fn check_status(status: u16, status_line: &str, body: &str) -> (r: Result<(), ApiError>)
    ensures
        match r {
            Ok(()) => status_error(status, status_line@, body@) is None,
            Err(e) => status_error(status, status_line@, body@) == Some(e@),
        },
{
    if 200 <= status && status <= 299 {
        Ok(())
    } else if status == 401 {
        Err(ApiError::Unauthorized)
    } else if status == 403 {
        Err(ApiError::Forbidden)
    } else if status == 404 {
        Err(ApiError::NotFound)
    } else {
        Err(ApiError::ServerError(status_line.to_owned().concat(" - ").concat(body)))
    }
}

/// The body of a sign-in.
pub open spec fn sign_in_body(username: Seq<char>, password: Seq<char>) -> JsonView {
    JsonView::Object(
        seq![("Username"@, JsonView::Text(username)), ("Pw"@, JsonView::Text(password))],
    )
}

/// The body that creates a user.
pub open spec fn new_user_body(username: Seq<char>, password: Option<Seq<char>>) -> JsonView {
    JsonView::Object(
        seq![
            ("Name"@, JsonView::Text(username)),
            (
                "Password"@,
                match password {
                    Some(p) => JsonView::Text(p),
                    None => JsonView::Null,
                },
            ),
        ],
    )
}

/// The body that sets a password.
pub open spec fn new_password_body(password: Seq<char>) -> JsonView {
    JsonView::Object(
        seq![
            ("CurrentPw"@, JsonView::Text(""@)),
            ("NewPw"@, JsonView::Text(password)),
            ("ResetPassword"@, JsonView::Bool(false)),
        ],
    )
}

/// The body that writes a user's state of an item.
pub open spec fn user_data_body(ud: UserDataView) -> JsonView {
    let base = seq![
        ("Played"@, JsonView::Bool(ud.played)),
        ("PlaybackPositionTicks"@, JsonView::Number(Some(ud.playback_position_ticks))),
        ("PlayCount"@, JsonView::Number(Some(ud.play_count))),
        ("IsFavorite"@, JsonView::Bool(ud.is_favorite)),
    ];
    match ud.last_played_date {
        Some(d) => JsonView::Object(base.push(("LastPlayedDate"@, JsonView::Text(d)))),
        None => JsonView::Object(base),
    }
}

/// A query pair, where there is a value.
pub open spec fn opt_pair(key: Seq<char>, value: Option<Seq<char>>) -> Seq<(Seq<char>, Seq<char>)> {
    match value {
        Some(v) => seq![(key, v)],
        None => Seq::empty(),
    }
}

/// The names of a list with commas between.
pub open spec fn comma_list(names: Option<Vec<String>>) -> Option<Seq<char>> {
    match names {
        Some(v) => Some(text::join(text::texts(v@), ","@)),
        None => None,
    }
}

/// A number in digits.
pub open spec fn opt_number(n: Option<i32>) -> Option<Seq<char>> {
    match n {
        Some(n) => Some(text::decimal_int(n as int)),
        None => None,
    }
}

/// The query of a listing: each criterion that is given, in a fixed order.
pub open spec fn items_query(
    parent_id: Option<Seq<char>>,
    recursive: bool,
    include_item_types: Option<Seq<char>>,
    limit: Option<Seq<char>>,
    start_index: Option<Seq<char>>,
    sort_by: Option<Seq<char>>,
    sort_order: Option<Seq<char>>,
    include_fields: Option<Seq<char>>,
) -> Seq<(Seq<char>, Seq<char>)> {
    opt_pair(
        "Recursive"@,
        Some(
            if recursive {
                "true"@
            } else {
                "false"@
            },
        ),
    ) + opt_pair("Fields"@, include_fields) + opt_pair("ParentId"@, parent_id) + opt_pair(
        "IncludeItemTypes"@,
        include_item_types,
    ) + opt_pair("Limit"@, limit) + opt_pair("StartIndex"@, start_index) + opt_pair(
        "SortBy"@,
        sort_by,
    ) + opt_pair("SortOrder"@, sort_order)
}

fn add_pair(query: &mut Vec<(String, String)>, key: &str, value: Option<String>)
    ensures
        match_key::pair_texts(final(query)@) == match_key::pair_texts(old(query)@) + opt_pair(
            key@,
            json::opt_text(value),
        ),
{
    let ghost before = match_key::pair_texts(query@);
    let ghost v = json::opt_text(value);
    if let Some(value) = value {
        query.push((key.to_owned(), value));
    }
    assert(match_key::pair_texts(query@) =~= before + opt_pair(key@, v));
}

fn with_commas(names: &Option<Vec<String>>) -> (r: Option<String>)
    ensures
        json::opt_text(r) == comma_list(*names),
{
    match names {
        Some(v) => Some(text::join_strings(v, ",")),
        None => None,
    }
}

fn in_digits(n: Option<i32>) -> (r: Option<String>)
    ensures
        json::opt_text(r) == opt_number(n),
{
    match n {
        Some(n) => Some(text::decimal_i64(n as i64)),
        None => None,
    }
}

/// The path of an item with its provider ids.
pub open spec fn item_path(user_id: Seq<char>, item_id: Seq<char>) -> Seq<char> {
    "Users/"@ + user_id + "/Items/"@ + item_id + "?Fields=ProviderIds"@
}

/// The path that lists all items of some kinds with their provider ids.
pub open spec fn titles_path(user_id: Seq<char>, kinds: Seq<char>) -> Seq<char> {
    "Users/"@ + user_id + "/Items?Recursive=true&IncludeItemTypes="@ + kinds
        + "&Fields=ProviderIds&EnableImages=false&EnableUserData=false"@
}

/// The path that lists the episodes of a series.
pub open spec fn episodes_path(user_id: Seq<char>, series_id: Seq<char>) -> Seq<char> {
    "Users/"@ + user_id + "/Items?ParentId="@ + series_id
        + "&Recursive=true&IncludeItemTypes=Episode&EnableImages=false&EnableUserData=false"@
}

fn item_path_of(user_id: &str, item_id: &str) -> (r: String)
    ensures
        r@ == item_path(user_id@, item_id@),
{
    "Users/".to_owned().concat(user_id).concat("/Items/").concat(item_id).concat(
        "?Fields=ProviderIds",
    )
}

fn titles_path_of(user_id: &str, kinds: &str) -> (r: String)
    ensures
        r@ == titles_path(user_id@, kinds@),
{
    "Users/".to_owned().concat(user_id).concat("/Items?Recursive=true&IncludeItemTypes=").concat(
        kinds,
    ).concat("&Fields=ProviderIds&EnableImages=false&EnableUserData=false")
}

/// A step of looking a title up: a path to ask the backend for, or the item
/// that was found.
#[derive(Debug)]
pub enum SearchStep {
    Ask(String),
    Found(Option<String>),
}

/// The data in a [`SearchStep`].
pub enum SearchView {
    Ask(Seq<char>),
    Found(Option<Seq<char>>),
}

impl View for SearchStep {
    type V = SearchView;

    open spec fn view(&self) -> SearchView {
        match self {
            SearchStep::Ask(p) => SearchView::Ask(p@),
            SearchStep::Found(id) => SearchView::Found(json::opt_text(*id)),
        }
    }
}

/// The first step of a search for some kinds of items by provider ids: no
/// identifying id, no search.
pub open spec fn search_start(
    user_id: Seq<char>,
    ids: Seq<(Seq<char>, Seq<char>)>,
    kinds: Seq<char>,
) -> SearchView {
    if match_key::identifying_pairs(ids).len() == 0 {
        SearchView::Found(None)
    } else {
        SearchView::Ask(titles_path(user_id, kinds))
    }
}

/// The kinds of items that a key can stand for.
pub open spec fn kinds_of(key: MatchKeyView) -> Seq<char> {
    match key {
        MatchKeyView::Provider(_) => "Movie,Series"@,
        MatchKeyView::Episode { .. } => "Series"@,
    }
}

/// The title among the listed items.
pub open spec fn title_in(
    answer: JsonView,
    ids: Seq<(Seq<char>, Seq<char>)>,
) -> Option<Seq<char>> {
    match json::list_field(answer, "Items"@) {
        Some(items) => match_key::first_sharing(items, match_key::identifying_pairs(ids)),
        None => None,
    }
}

/// Where the listed titles lead: to the item, or on to the series' episodes.
pub open spec fn search_after_titles(
    user_id: Seq<char>,
    key: MatchKeyView,
    answer: JsonView,
) -> SearchView {
    match key {
        MatchKeyView::Provider(ids) => SearchView::Found(title_in(answer, ids)),
        MatchKeyView::Episode { series, .. } => match title_in(answer, series) {
            Some(id) => SearchView::Ask(episodes_path(user_id, id)),
            None => SearchView::Found(None),
        },
    }
}

/// The episode among the listed ones.
pub open spec fn episode_in(key: MatchKeyView, answer: JsonView) -> Option<Seq<char>> {
    match key {
        MatchKeyView::Provider(_) => None,
        MatchKeyView::Episode { season, episode, .. } => match json::list_field(
            answer,
            "Items"@,
        ) {
            Some(items) => match_key::first_episode(items, season, episode),
            None => None,
        },
    }
}

/// What an item's answer tells of its identity: a key, or the series to ask
/// for.
#[derive(Debug)]
pub enum IdentityStep {
    Known(MatchKey),
    AskSeries { path: String, season: i64, episode: i64 },
}

/// The data in an [`IdentityStep`].
pub enum IdentityView {
    Known(MatchKeyView),
    AskSeries { path: Seq<char>, season: i64, episode: i64 },
}

impl View for IdentityStep {
    type V = IdentityView;

    open spec fn view(&self) -> IdentityView {
        match self {
            IdentityStep::Known(k) => IdentityView::Known(k@),
            IdentityStep::AskSeries { path, season, episode } => IdentityView::AskSeries {
                path: path@,
                season: *season,
                episode: *episode,
            },
        }
    }
}

/// The identity of an item: an episode with its numbers and its series is
/// known by the series, everything else by its own provider ids.
pub open spec fn identity_of(user_id: Seq<char>, item: JsonView) -> IdentityView {
    let own = IdentityView::Known(
        MatchKeyView::Provider(match_key::provider_ids(json::field(item, "ProviderIds"@))),
    );
    if json::text_field(item, "Type"@) == Some("Episode"@) {
        match (
            json::int_field(item, "ParentIndexNumber"@),
            json::int_field(item, "IndexNumber"@),
            json::text_field(item, "SeriesId"@),
        ) {
            (Some(season), Some(episode), Some(series)) => IdentityView::AskSeries {
                path: item_path(user_id, series),
                season,
                episode,
            },
            _ => own,
        }
    } else {
        own
    }
}

impl JellyfinClient {
    /// A client of the backend at the address. The base path always ends with
    /// a slash, so that paths are joined below it.
    pub fn new(base_url: &str, client_info: ClientInfo) -> (r: Result<Self, ApiError>)
        ensures
            match (r, base_of(base_url@)) {
                (Ok(c), Ok((url, _))) => c@ == (ClientView {
                    base_url: url,
                    client_info: client_info@,
                    auth_token: None,
                }),
                (Err(e), Err(f)) => e@ == f,
                _ => false,
            },
            base_of(base_url@) matches Ok((_, path)) ==> path.len() > 0 && path.last() == '/',
    {
        let (url, path) = match urls::parse_url(base_url) {
            Ok(p) => p,
            Err(e) => {
                return Err(ApiError::UrlParse(e));
            },
        };
        let chars = text::chars_of(path.as_str());
        if chars.len() > 0 && chars[chars.len() - 1] == '/' {
            return Ok(JellyfinClient { base_url: url, client_info, auth_token: None });
        }
        if !urls::room_to_grow(base_url, 1) {
            return Err(ApiError::UrlParse(urls::too_long_text()));
        }
        proof {
            reveal_strlit("");
            assert(""@ =~= Seq::<char>::empty());
            assert(encode_utf8(""@).len() == 0);
        }
        match urls::push_segment(base_url, "") {
            Some((with_slash, _)) => Ok(
                JellyfinClient { base_url: with_slash, client_info, auth_token: None },
            ),
            None => Err(ApiError::UrlParse("empty host".to_owned())),
        }
    }

    /// Sets the access token.
    pub fn with_token(&mut self, token: String)
        ensures
            final(self)@ == (ClientView { auth_token: Some(token@), ..old(self)@ }),
    {
        self.auth_token = Some(token);
    }

    /// The access token.
    pub fn get_token(&self) -> (r: Option<String>)
        ensures
            json::opt_text(r) == self@.auth_token,
    {
        match &self.auth_token {
            Some(t) => Some(t.clone()),
            None => None,
        }
    }

    /// The `Authorization` header.
    pub fn build_auth_header(&self) -> (r: String)
        ensures
            r@ == auth_header(self@),
    {
        let head = "MediaBrowser Client=\"".to_owned().concat(
            self.client_info.client.as_str(),
        ).concat("\", Device=\"").concat(self.client_info.device.as_str()).concat(
            "\", DeviceId=\"",
        ).concat(self.client_info.device_id.as_str()).concat("\", Version=\"").concat(
            self.client_info.version.as_str(),
        ).concat("\"");
        match &self.auth_token {
            Some(token) => head.concat(", Token=\"").concat(token.as_str()).concat("\""),
            None => head,
        }
    }

    /// The request for a path of the backend.
    pub fn request(
        &self,
        method: Method,
        path: &str,
        query: Vec<(String, String)>,
        body: Option<Json>,
    ) -> (r: Result<ApiRequest, ApiError>)
        ensures
            result_view(r) == requested(
                self@,
                method,
                path@,
                match_key::pair_texts(query@),
                body_view(body),
            ),
    {
        match urls::resolve(self.base_url.as_str(), path) {
            Ok(url) => Ok(
                ApiRequest { method, url, authorization: self.build_auth_header(), query, body },
            ),
            Err(e) => Err(ApiError::UrlParse(e)),
        }
    }

    fn plain_request(&self, method: Method, path: &str, body: Option<Json>) -> (r: Result<
        ApiRequest,
        ApiError,
    >)
        ensures
            result_view(r) == plainly_requested(self@, method, path@, body_view(body)),
    {
        let query: Vec<(String, String)> = Vec::new();
        assert(match_key::pair_texts(query@) =~= Seq::<(Seq<char>, Seq<char>)>::empty());
        self.request(method, path, query, body)
    }

    /// Asks to sign in by name.
    pub fn authenticate_by_name_typed(&self, username: &str, password: &str) -> (r: Result<
        ApiRequest,
        ApiError,
    >)
        ensures
            result_view(r) == plainly_requested(
                self@,
                Method::Post,
                "Users/AuthenticateByName"@,
                Some(sign_in_body(username@, password@)),
            ),
    {
        let mut entries: Vec<(String, Json)> = Vec::new();
        entries.push(("Username".to_owned(), Json::text(username)));
        entries.push(("Pw".to_owned(), Json::text(password)));
        assert(json::entry_contents(entries@) =~= sign_in_body(username@, password@)->Object_0);
        self.plain_request(Method::Post, "Users/AuthenticateByName", Some(Json::object(entries)))
    }

    /// Asks to sign in by name, so as to keep the token.
    pub fn authenticate_by_name(&self, username: &str, password: &str) -> (r: Result<
        ApiRequest,
        ApiError,
    >)
        ensures
            result_view(r) == plainly_requested(
                self@,
                Method::Post,
                "Users/AuthenticateByName"@,
                Some(sign_in_body(username@, password@)),
            ),
    {
        self.authenticate_by_name_typed(username, password)
    }

    /// What an error means where it is the answer to a sign-in.
    pub fn sign_in_error(e: ApiError) -> (r: ApiError)
        ensures
            r@ == (if e is Unauthorized {
                ApiErrorView::AuthenticationFailed("Invalid credentials"@)
            } else {
                e@
            }),
    {
        match e {
            ApiError::Unauthorized => ApiError::AuthenticationFailed(
                "Invalid credentials".to_owned(),
            ),
            e => e,
        }
    }

    /// Keeps the access token that a sign-in gave.
    pub fn authenticated(&mut self, access_token: String)
        ensures
            final(self)@ == (ClientView { auth_token: Some(access_token@), ..old(self)@ }),
    {
        self.auth_token = Some(access_token);
    }

    /// Asks to sign out.
    pub fn logout(&self) -> (r: Result<ApiRequest, ApiError>)
        ensures
            result_view(r) == plainly_requested(self@, Method::Post, "Sessions/Logout"@, None),
    {
        self.plain_request(Method::Post, "Sessions/Logout", None)
    }

    /// Forgets the token, once the backend has confirmed the sign-out.
    pub fn logged_out(&mut self)
        ensures
            final(self)@ == (ClientView { auth_token: None, ..old(self)@ }),
    {
        self.auth_token = None;
    }

    /// Asks for the signed-in user.
    pub fn get_me(&self) -> (r: Result<ApiRequest, ApiError>)
        ensures
            result_view(r) == plainly_requested(self@, Method::Get, "Users/Me"@, None),
    {
        self.plain_request(Method::Get, "Users/Me", None)
    }

    /// Asks for an item with its provider ids and the user's state of it.
    pub fn get_item_match_info(&self, user_id: &str, item_id: &str) -> (r: Result<
        ApiRequest,
        ApiError,
    >)
        ensures
            result_view(r) == plainly_requested(
                self@,
                Method::Get,
                item_path(user_id@, item_id@),
                None,
            ),
    {
        self.plain_request(Method::Get, item_path_of(user_id, item_id).as_str(), None)
    }

    /// Reads the provider ids and the played mark out of an item.
    pub fn match_info(item: &Json) -> (r: (Vec<(String, String)>, Option<bool>))
        ensures
            match_key::pair_texts(r.0@) == match_key::provider_ids(
                json::field(json::contents(*item), "ProviderIds"@),
            ),
            r.1 == (match json::field(json::contents(*item), "UserData"@) {
                Some(u) => json::truth_field(u, "Played"@),
                None => None,
            }),
    {
        let played = match item.get("UserData") {
            Some(u) => u.get_truth("Played"),
            None => None,
        };
        (match_key::providers_from(item.get("ProviderIds")), played)
    }

    /// Starts the search for a movie that shares any of the identifying ids.
    pub fn find_item_id_by_provider_ids(
        user_id: &str,
        provider_ids: &Vec<(String, String)>,
    ) -> (r: SearchStep)
        ensures
            r@ == search_start(user_id@, match_key::pair_texts(provider_ids@), "Movie"@),
    {
        let want = match_key::identifying_want(provider_ids);
        assert(match_key::pair_texts(want@).len() == want.len());
        if want.len() == 0 {
            SearchStep::Found(None)
        } else {
            SearchStep::Ask(titles_path_of(user_id, "Movie"))
        }
    }

    /// The movie among the listed ones.
    pub fn movie_in(answer: &Json, provider_ids: &Vec<(String, String)>) -> (r: Option<String>)
        ensures
            json::opt_text(r) == title_in(
                json::contents(*answer),
                match_key::pair_texts(provider_ids@),
            ),
    {
        match answer.get_list("Items") {
            Some(items) => match_key::first_provider_match(
                items,
                &match_key::identifying_want(provider_ids),
            ),
            None => None,
        }
    }

    /// Asks for an item's identity and the user's state of it.
    pub fn get_item_sync_info(&self, user_id: &str, item_id: &str) -> (r: Result<
        ApiRequest,
        ApiError,
    >)
        ensures
            result_view(r) == plainly_requested(
                self@,
                Method::Get,
                item_path(user_id@, item_id@),
                None,
            ),
    {
        self.plain_request(Method::Get, item_path_of(user_id, item_id).as_str(), None)
    }

    /// Reads an item: its identity, as far as it is known, and the user's
    /// state of it.
    pub fn sync_info(user_id: &str, item: &Json) -> (r: (IdentityStep, ItemUserData))
        ensures
            r.0@ == identity_of(user_id@, json::contents(*item)),
            r.1@ == match_key::user_data_in(json::field(json::contents(*item), "UserData"@)),
    {
        let user_data = ItemUserData::from_value(item.get("UserData"));
        let is_episode = match item.get_text("Type") {
            Some(t) => text::str_eq(t.as_str(), "Episode"),
            None => false,
        };
        if is_episode {
            let season = item.get_int("ParentIndexNumber");
            let episode = item.get_int("IndexNumber");
            let series_id = item.get_text("SeriesId");
            if let (Some(season), Some(episode), Some(series_id)) = (season, episode, series_id) {
                let path = item_path_of(user_id, series_id.as_str());
                return (IdentityStep::AskSeries { path, season, episode }, user_data);
            }
        }
        (
            IdentityStep::Known(
                MatchKey::Provider(match_key::providers_from(item.get("ProviderIds"))),
            ),
            user_data,
        )
    }

    /// The key of an episode, from the answer about its series.
    pub fn episode_key(series: &Json, season: i64, episode: i64) -> (r: MatchKey)
        ensures
            r@ == (MatchKeyView::Episode {
                series: match_key::provider_ids(
                    json::field(json::contents(*series), "ProviderIds"@),
                ),
                season,
                episode,
            }),
    {
        MatchKey::Episode {
            series: match_key::providers_from(series.get("ProviderIds")),
            season,
            episode,
        }
    }

    /// Starts the search for "the same title" on a backend.
    pub fn find_item_by_match(user_id: &str, key: &MatchKey) -> (r: SearchStep)
        ensures
            r@ == search_start(user_id@, match_key::ids_of(key@), kinds_of(key@)),
    {
        let (ids, kinds) = match key {
            MatchKey::Provider(p) => (p, "Movie,Series"),
            MatchKey::Episode { series, .. } => (series, "Series"),
        };
        let want = match_key::identifying_want(ids);
        assert(match_key::pair_texts(want@).len() == want.len());
        if want.len() == 0 {
            SearchStep::Found(None)
        } else {
            SearchStep::Ask(titles_path_of(user_id, kinds))
        }
    }

    /// Reads the listed titles: movies and series are found there; for an
    /// episode the series is, and its episodes are asked for next.
    pub fn after_titles(user_id: &str, key: &MatchKey, answer: &Json) -> (r: SearchStep)
        ensures
            r@ == search_after_titles(user_id@, key@, json::contents(*answer)),
    {
        match key {
            MatchKey::Provider(ids) => SearchStep::Found(Self::movie_in(answer, ids)),
            MatchKey::Episode { series, .. } => match Self::movie_in(answer, series) {
                Some(id) => SearchStep::Ask(
                    "Users/".to_owned().concat(user_id).concat("/Items?ParentId=").concat(
                        id.as_str(),
                    ).concat(
                        "&Recursive=true&IncludeItemTypes=Episode&EnableImages=false&EnableUserData=false",
                    ),
                ),
                None => SearchStep::Found(None),
            },
        }
    }

    /// Reads the listed episodes.
    pub fn after_episodes(key: &MatchKey, answer: &Json) -> (r: Option<String>)
        ensures
            json::opt_text(r) == episode_in(key@, json::contents(*answer)),
    {
        match key {
            MatchKey::Provider(_) => None,
            MatchKey::Episode { season, episode, .. } => match answer.get_list("Items") {
                Some(items) => match_key::first_episode_match(items, *season, *episode),
                None => None,
            },
        }
    }

    /// Asks to write a user's state of an item.
    pub fn apply_user_data(&self, user_id: &str, item_id: &str, ud: &ItemUserData) -> (r: Result<
        ApiRequest,
        ApiError,
    >)
        ensures
            result_view(r) == plainly_requested(
                self@,
                Method::Post,
                "Users/"@ + user_id@ + "/Items/"@ + item_id@ + "/UserData"@,
                Some(user_data_body(ud@)),
            ),
    {
        let mut entries: Vec<(String, Json)> = Vec::new();
        entries.push(("Played".to_owned(), Json::Bool(ud.played)));
        entries.push(
            (
                "PlaybackPositionTicks".to_owned(),
                Json::Number(Some(ud.playback_position_ticks)),
            ),
        );
        entries.push(("PlayCount".to_owned(), Json::Number(Some(ud.play_count))));
        entries.push(("IsFavorite".to_owned(), Json::Bool(ud.is_favorite)));
        if let Some(d) = &ud.last_played_date {
            entries.push(("LastPlayedDate".to_owned(), Json::text(d.as_str())));
        }
        assert(json::entry_contents(entries@) =~= user_data_body(ud@)->Object_0);
        let path = "Users/".to_owned().concat(user_id).concat("/Items/").concat(item_id).concat(
            "/UserData",
        );
        self.plain_request(Method::Post, path.as_str(), Some(Json::object(entries)))
    }

    /// Asks for the media sources of an item.
    pub fn get_item_media_sources(&self, user_id: &str, item_id: &str) -> (r: Result<
        ApiRequest,
        ApiError,
    >)
        ensures
            result_view(r) == plainly_requested(
                self@,
                Method::Get,
                "Users/"@ + user_id@ + "/Items/"@ + item_id@ + "?Fields=MediaSources"@,
                None,
            ),
    {
        let path = "Users/".to_owned().concat(user_id).concat("/Items/").concat(item_id).concat(
            "?Fields=MediaSources",
        );
        self.plain_request(Method::Get, path.as_str(), None)
    }

    /// Asks to mark an item played or unplayed.
    pub fn set_played(&self, user_id: &str, item_id: &str, played: bool) -> (r: Result<
        ApiRequest,
        ApiError,
    >)
        ensures
            result_view(r) == plainly_requested(
                self@,
                if played {
                    Method::Post
                } else {
                    Method::Delete
                },
                "Users/"@ + user_id@ + "/PlayedItems/"@ + item_id@,
                None,
            ),
    {
        let method = if played {
            Method::Post
        } else {
            Method::Delete
        };
        let path = "Users/".to_owned().concat(user_id).concat("/PlayedItems/").concat(item_id);
        self.plain_request(method, path.as_str(), None)
    }

    /// Asks for the media folders: those of a user, or all.
    pub fn get_media_folders(&self, user_id: Option<&str>) -> (r: Result<ApiRequest, ApiError>)
        ensures
            result_view(r) == plainly_requested(
                self@,
                Method::Get,
                match user_id {
                    Some(id) => "Users/"@ + id@ + "/Views"@,
                    None => "Library/MediaFolders"@,
                },
                None,
            ),
    {
        match user_id {
            Some(id) => self.plain_request(
                Method::Get,
                "Users/".to_owned().concat(id).concat("/Views").as_str(),
                None,
            ),
            None => self.plain_request(Method::Get, "Library/MediaFolders", None),
        }
    }

    /// Asks for the public system info.
    pub fn get_public_system_info(&self) -> (r: Result<ApiRequest, ApiError>)
        ensures
            result_view(r) == plainly_requested(self@, Method::Get, "System/Info/Public"@, None),
    {
        self.plain_request(Method::Get, "System/Info/Public", None)
    }

    /// Asks for the branding configuration.
    pub fn get_branding_configuration(&self) -> (r: Result<ApiRequest, ApiError>)
        ensures
            result_view(r) == plainly_requested(
                self@,
                Method::Get,
                "Branding/Configuration"@,
                None,
            ),
    {
        self.plain_request(Method::Get, "Branding/Configuration", None)
    }

    /// Asks for the users, as an admin.
    pub fn get_users(&self) -> (r: Result<ApiRequest, ApiError>)
        ensures
            result_view(r) == plainly_requested(self@, Method::Get, "Users"@, None),
    {
        self.plain_request(Method::Get, "Users", None)
    }

    /// Asks to create a user, as an admin.
    pub fn create_user(&self, username: &str, password: Option<&str>) -> (r: Result<
        ApiRequest,
        ApiError,
    >)
        ensures
            result_view(r) == plainly_requested(
                self@,
                Method::Post,
                "Users/New"@,
                Some(
                    new_user_body(
                        username@,
                        match password {
                            Some(p) => Some(p@),
                            None => None,
                        },
                    ),
                ),
            ),
    {
        let mut entries: Vec<(String, Json)> = Vec::new();
        entries.push(("Name".to_owned(), Json::text(username)));
        let ghost secret = match password {
            Some(p) => Some(p@),
            None => None,
        };
        let value = match password {
            Some(p) => Json::text(p),
            None => Json::Null,
        };
        entries.push(("Password".to_owned(), value));
        assert(json::entry_contents(entries@) =~= new_user_body(username@, secret)->Object_0);
        self.plain_request(Method::Post, "Users/New", Some(Json::object(entries)))
    }

    /// Asks to delete a user, as an admin.
    pub fn delete_user(&self, user_id: &str) -> (r: Result<ApiRequest, ApiError>)
        ensures
            result_view(r) == plainly_requested(
                self@,
                Method::Delete,
                "Users/"@ + user_id@,
                None,
            ),
    {
        self.plain_request(Method::Delete, "Users/".to_owned().concat(user_id).as_str(), None)
    }

    /// Asks to set a user's password, as an admin.
    pub fn set_user_password(&self, user_id: &str, new_password: &str) -> (r: Result<
        ApiRequest,
        ApiError,
    >)
        ensures
            result_view(r) == plainly_requested(
                self@,
                Method::Post,
                "Users/"@ + user_id@ + "/Password"@,
                Some(new_password_body(new_password@)),
            ),
    {
        let mut entries: Vec<(String, Json)> = Vec::new();
        entries.push(("CurrentPw".to_owned(), Json::text("")));
        entries.push(("NewPw".to_owned(), Json::text(new_password)));
        entries.push(("ResetPassword".to_owned(), Json::Bool(false)));
        assert(json::entry_contents(entries@) =~= new_password_body(new_password@)->Object_0);
        self.plain_request(
            Method::Post,
            "Users/".to_owned().concat(user_id).concat("/Password").as_str(),
            Some(Json::object(entries)),
        )
    }
}

impl JellyfinClient {
    /// Asks for a user's items by the criteria that are given. Kinds and
    /// fields are given by their names.
    pub fn get_items(
        &self,
        user_id: &str,
        parent_id: Option<String>,
        recursive: bool,
        include_item_types: Option<Vec<String>>,
        limit: Option<i32>,
        start_index: Option<i32>,
        sort_by: Option<String>,
        sort_order: Option<String>,
        include_fields: Option<Vec<String>>,
    ) -> (r: Result<ApiRequest, ApiError>)
        ensures
            result_view(r) == requested(
                self@,
                Method::Get,
                "Users/"@ + user_id@ + "/Items"@,
                items_query(
                    json::opt_text(parent_id),
                    recursive,
                    comma_list(include_item_types),
                    opt_number(limit),
                    opt_number(start_index),
                    json::opt_text(sort_by),
                    json::opt_text(sort_order),
                    comma_list(include_fields),
                ),
                None,
            ),
    {
        let mut query: Vec<(String, String)> = Vec::new();
        assert(match_key::pair_texts(query@) =~= Seq::<(Seq<char>, Seq<char>)>::empty());
        let recursive_text = if recursive {
            "true".to_owned()
        } else {
            "false".to_owned()
        };
        add_pair(&mut query, "Recursive", Some(recursive_text));
        assert(match_key::pair_texts(query@) =~= opt_pair("Recursive"@, Some(recursive_text@)));
        add_pair(&mut query, "Fields", with_commas(&include_fields));
        add_pair(&mut query, "ParentId", parent_id);
        add_pair(&mut query, "IncludeItemTypes", with_commas(&include_item_types));
        add_pair(&mut query, "Limit", in_digits(limit));
        add_pair(&mut query, "StartIndex", in_digits(start_index));
        add_pair(&mut query, "SortBy", sort_by);
        add_pair(&mut query, "SortOrder", sort_order);
        let path = "Users/".to_owned().concat(user_id).concat("/Items");
        self.request(Method::Get, path.as_str(), query, None)
    }
}

impl PartialEq for JellyfinClient {
    fn eq(&self, other: &Self) -> (r: bool) {
        self.base_url == other.base_url && self.client_info.client == other.client_info.client
            && self.client_info.device == other.client_info.device && self.client_info.device_id
            == other.client_info.device_id && self.client_info.version == other.client_info.version
    }
}

/// Two clients are the same if they ask the same backend in the same name,
/// whoever is signed in.
impl vstd::std_specs::cmp::PartialEqSpecImpl for JellyfinClient {
    open spec fn obeys_eq_spec() -> bool {
        true
    }

    open spec fn eq_spec(&self, other: &Self) -> bool {
        self@.base_url == other@.base_url && self@.client_info == other@.client_info
    }
}

/// What is written as a user's state of an item reads back as that state.
pub proof fn written_user_data_reads_back(ud: UserDataView)
    ensures
        match_key::user_data_in(Some(user_data_body(ud))) == ud,
{
    reveal_strlit("Played");
    reveal_strlit("PlaybackPositionTicks");
    reveal_strlit("PlayCount");
    reveal_strlit("IsFavorite");
    reveal_strlit("LastPlayedDate");
    let entries = user_data_body(ud)->Object_0;
    json::lookup_in_prefix(entries, "Played"@, 1);
    reveal_with_fuel(json::lookup, 6);
    assert("Played"@.len() == 6 && "PlaybackPositionTicks"@.len() == 21 && "PlayCount"@.len() == 9
        && "IsFavorite"@.len() == 10 && "LastPlayedDate"@.len() == 14);
}

/// A key without identifying ids is never looked up: the search ends at once
/// without an item.
pub proof fn unmatchable_keys_are_not_searched(user_id: Seq<char>, key: MatchKeyView)
    requires
        match_key::unmatchable(key),
    ensures
        search_start(user_id, match_key::ids_of(key), kinds_of(key)) == SearchView::Found(None),
{
    match_key::empty_key_finds_nothing(key, Seq::empty());
}

/// A name and its value in quotation marks.
pub open spec fn quoted(name: Seq<char>, value: Seq<char>) -> Seq<char> {
    name + seq!['=', '"'] + value + seq!['"']
}

/// The `Authorization` header lists the client, the device, its id and the
/// version in this order, and then the token where there is one, each in
/// quotation marks and with a comma and a space between two.
pub proof fn headers_list_what_the_client_is(c: ClientView)
    ensures
        ({
            let info = seq![
                quoted("Client"@, c.client_info.client),
                quoted("Device"@, c.client_info.device),
                quoted("DeviceId"@, c.client_info.device_id),
                quoted("Version"@, c.client_info.version),
            ];
            auth_header(c) == "MediaBrowser "@ + text::join(
                match c.auth_token {
                    Some(token) => info.push(quoted("Token"@, token)),
                    None => info,
                },
                seq![',', ' '],
            )
        }),
{
    reveal_strlit("Client");
    reveal_strlit("Device");
    reveal_strlit("DeviceId");
    reveal_strlit("Version");
    reveal_strlit("Token");
    reveal_strlit("MediaBrowser ");
    reveal_strlit("MediaBrowser Client=\"");
    reveal_strlit("\", Device=\"");
    reveal_strlit("\", DeviceId=\"");
    reveal_strlit("\", Version=\"");
    reveal_strlit("\"");
    reveal_strlit(", Token=\"");
    let sep = seq![',', ' '];
    let a = quoted("Client"@, c.client_info.client);
    let b = quoted("Device"@, c.client_info.device);
    let d = quoted("DeviceId"@, c.client_info.device_id);
    let e = quoted("Version"@, c.client_info.version);
    let info = seq![a, b, d, e];
    assert(info.drop_last() =~= seq![a, b, d]);
    assert(seq![a, b, d].drop_last() =~= seq![a, b]);
    assert(seq![a, b].drop_last() =~= seq![a]);
    assert(text::join(seq![a], sep) == a);
    assert(text::join(seq![a, b], sep) == a + sep + b);
    assert(text::join(seq![a, b, d], sep) == a + sep + b + sep + d);
    assert(text::join(info, sep) == a + sep + b + sep + d + sep + e);
    let plain = ClientView { auth_token: None, ..c };
    assert(auth_header(plain) =~= "MediaBrowser "@ + (a + sep + b + sep + d + sep + e));
    if let Some(token) = c.auth_token {
        let t = quoted("Token"@, token);
        assert(info.push(t).drop_last() =~= info);
        assert(text::join(info.push(t), sep) == text::join(info, sep) + sep + t);
        assert(auth_header(c) == auth_header(plain) + ", Token=\""@ + token + "\""@);
        assert(auth_header(c) =~= "MediaBrowser "@ + (text::join(info, sep) + sep + t));
    }
}

/// An answer is a success exactly where its status is of the two hundreds; 401,
/// 403 and 404 have errors of their own, and any other status gives the status
/// line and the body as the words of a server error.
pub proof fn statuses_have_one_meaning(status: u16, line: Seq<char>, body: Seq<char>)
    ensures
        status_error(status, line, body) is None <==> status / 100 == 2,
        status_error(status, line, body) == Some(ApiErrorView::Unauthorized) <==> status == 401,
        status_error(status, line, body) == Some(ApiErrorView::Forbidden) <==> status == 403,
        status_error(status, line, body) == Some(ApiErrorView::NotFound) <==> status == 404,
        status / 100 != 2 && status != 401 && status != 403 && status != 404 ==> status_error(
            status,
            line,
            body,
        ) == Some(ApiErrorView::ServerError(line + seq![' ', '-', ' '] + body)),
{
    reveal_strlit(" - ");
    assert(" - "@ =~= seq![' ', '-', ' ']);
}

/// What is sent to sign in, to create a user or to set a password can be read
/// off the body: the name and the secret as they were given, no secret as null,
/// and a new password without the current one and without a reset.
pub proof fn bodies_hold_what_was_given(name: Seq<char>, secret: Seq<char>)
    ensures
        json::field(sign_in_body(name, secret), "Username"@) == Some(JsonView::Text(name)),
        json::field(sign_in_body(name, secret), "Pw"@) == Some(JsonView::Text(secret)),
        json::field(new_user_body(name, Some(secret)), "Name"@) == Some(JsonView::Text(name)),
        json::field(new_user_body(name, Some(secret)), "Password"@) == Some(
            JsonView::Text(secret),
        ),
        json::field(new_user_body(name, None), "Name"@) == Some(JsonView::Text(name)),
        json::field(new_user_body(name, None), "Password"@) == Some(JsonView::Null),
        json::field(new_password_body(secret), "NewPw"@) == Some(JsonView::Text(secret)),
        json::field(new_password_body(secret), "CurrentPw"@) == Some(
            JsonView::Text(Seq::empty()),
        ),
        json::field(new_password_body(secret), "ResetPassword"@) == Some(JsonView::Bool(false)),
{
    reveal_strlit("Username");
    reveal_strlit("Pw");
    reveal_strlit("Name");
    reveal_strlit("Password");
    reveal_strlit("NewPw");
    reveal_strlit("CurrentPw");
    reveal_strlit("ResetPassword");
    reveal_strlit("");
    assert(""@ =~= Seq::<char>::empty());
    assert("Username"@.len() == 8 && "Pw"@.len() == 2 && "Name"@.len() == 4 && "Password"@.len()
        == 8 && "NewPw"@.len() == 5 && "CurrentPw"@.len() == 9 && "ResetPassword"@.len() == 13);
    reveal_with_fuel(json::lookup, 4);
}

proof fn opt_pair_is_there(key: Seq<char>, value: Option<Seq<char>>, pair: (Seq<char>, Seq<char>))
    ensures
        opt_pair(key, value).contains(pair) <==> value is Some && pair == (key, value->0),
        opt_pair(key, value).len() == if value is Some {
            1nat
        } else {
            0
        },
{
    if let Some(v) = value {
        assert(opt_pair(key, value)[0] == (key, v));
    }
}

proof fn contained_in_a_sum(
    a: Seq<(Seq<char>, Seq<char>)>,
    b: Seq<(Seq<char>, Seq<char>)>,
    pair: (Seq<char>, Seq<char>),
)
    ensures
        (a + b).contains(pair) <==> a.contains(pair) || b.contains(pair),
{
    if a.contains(pair) {
        let i = choose|i: int| 0 <= i < a.len() && a[i] == pair;
        assert((a + b)[i] == pair);
    }
    if b.contains(pair) {
        let i = choose|i: int| 0 <= i < b.len() && b[i] == pair;
        assert((a + b)[a.len() + i] == pair);
    }
}

/// A listing is asked for by the criteria that are given, each under its own
/// name and with its own value, and by no others; whether it is recursive is
/// always said.
pub proof fn listings_are_asked_for_by_what_is_given(
    parent_id: Option<Seq<char>>,
    recursive: bool,
    include_item_types: Option<Seq<char>>,
    limit: Option<Seq<char>>,
    start_index: Option<Seq<char>>,
    sort_by: Option<Seq<char>>,
    sort_order: Option<Seq<char>>,
    include_fields: Option<Seq<char>>,
    pair: (Seq<char>, Seq<char>),
)
    ensures
        ({
            let query = items_query(
                parent_id,
                recursive,
                include_item_types,
                limit,
                start_index,
                sort_by,
                sort_order,
                include_fields,
            );
            &&& query.contains(pair) <==> {
                ||| pair == ("Recursive"@, if recursive {
                    "true"@
                } else {
                    "false"@
                })
                ||| pair.0 == "Fields"@ && include_fields == Some(pair.1)
                ||| pair.0 == "ParentId"@ && parent_id == Some(pair.1)
                ||| pair.0 == "IncludeItemTypes"@ && include_item_types == Some(pair.1)
                ||| pair.0 == "Limit"@ && limit == Some(pair.1)
                ||| pair.0 == "StartIndex"@ && start_index == Some(pair.1)
                ||| pair.0 == "SortBy"@ && sort_by == Some(pair.1)
                ||| pair.0 == "SortOrder"@ && sort_order == Some(pair.1)
            }
            &&& query.len() > 0 && query[0].0 == "Recursive"@
        }),
{
    let said = Some(
        if recursive {
            "true"@
        } else {
            "false"@
        },
    );
    let a = opt_pair("Recursive"@, said);
    let b = a + opt_pair("Fields"@, include_fields);
    let c = b + opt_pair("ParentId"@, parent_id);
    let d = c + opt_pair("IncludeItemTypes"@, include_item_types);
    let e = d + opt_pair("Limit"@, limit);
    let f = e + opt_pair("StartIndex"@, start_index);
    let g = f + opt_pair("SortBy"@, sort_by);
    contained_in_a_sum(a, opt_pair("Fields"@, include_fields), pair);
    contained_in_a_sum(b, opt_pair("ParentId"@, parent_id), pair);
    contained_in_a_sum(c, opt_pair("IncludeItemTypes"@, include_item_types), pair);
    contained_in_a_sum(d, opt_pair("Limit"@, limit), pair);
    contained_in_a_sum(e, opt_pair("StartIndex"@, start_index), pair);
    contained_in_a_sum(f, opt_pair("SortBy"@, sort_by), pair);
    contained_in_a_sum(g, opt_pair("SortOrder"@, sort_order), pair);
    opt_pair_is_there("Recursive"@, said, pair);
    opt_pair_is_there("Fields"@, include_fields, pair);
    opt_pair_is_there("ParentId"@, parent_id, pair);
    opt_pair_is_there("IncludeItemTypes"@, include_item_types, pair);
    opt_pair_is_there("Limit"@, limit, pair);
    opt_pair_is_there("StartIndex"@, start_index, pair);
    opt_pair_is_there("SortBy"@, sort_by, pair);
    opt_pair_is_there("SortOrder"@, sort_order, pair);
    assert(a[0].0 == "Recursive"@);
}

/// A title is looked for exactly where it has a provider id whose key does not
/// have the word "collection" in it, and then by a listing of the given kinds.
pub proof fn titles_without_identifying_ids_are_not_looked_for(
    user_id: Seq<char>,
    ids: Seq<(Seq<char>, Seq<char>)>,
    kinds: Seq<char>,
)
    ensures
        ({
            let known = exists|i: int|
                0 <= i < ids.len() && !text::contains_text(
                    text::lowercased((#[trigger] ids[i]).0),
                    "collection"@,
                );
            &&& known ==> search_start(user_id, ids, kinds) == SearchView::Ask(
                titles_path(user_id, kinds),
            )
            &&& !known ==> search_start(user_id, ids, kinds) == SearchView::Found(None)
        }),
{
    match_key::every_identifying_pair_is_wanted(ids);
    let want = match_key::identifying_pairs(ids);
    if exists|i: int|
        0 <= i < ids.len() && !text::contains_text(
            text::lowercased((#[trigger] ids[i]).0),
            "collection"@,
        ) {
        let i = choose|i: int|
            0 <= i < ids.len() && !text::contains_text(
                text::lowercased((#[trigger] ids[i]).0),
                "collection"@,
            );
        assert(!text::contains_text(text::lowercased(ids[i].0), "collection"@));
        assert(want.contains((text::lowercased(ids[i].0), ids[i].1)));
    } else if want.len() > 0 {
        assert(match_key::stems_from(ids, want[0]));
        let i = choose|i: int| #[trigger] match_key::is_lowered_pair(ids, i, want[0]);
        assert(!text::contains_text(text::lowercased(ids[i].0), "collection"@));
    }
}

/// The steps of a search: the movie or series is what the listed titles give;
/// an episode's series is looked for first, and its episodes are asked for
/// exactly where it is found; only episodes are found by their numbers.
pub proof fn searches_go_through_the_series(
    user_id: Seq<char>,
    key: MatchKeyView,
    answer: JsonView,
)
    ensures
        key is Provider ==> search_after_titles(user_id, key, answer) == SearchView::Found(
            title_in(answer, match_key::ids_of(key)),
        ) && episode_in(key, answer) is None,
        key is Episode ==> match title_in(answer, match_key::ids_of(key)) {
            Some(id) => search_after_titles(user_id, key, answer) == SearchView::Ask(
                episodes_path(user_id, id),
            ),
            None => search_after_titles(user_id, key, answer) == SearchView::Found(None),
        },
        !(json::field(answer, "Items"@) matches Some(l) && l is List) ==> title_in(
            answer,
            match_key::ids_of(key),
        ) is None && episode_in(key, answer) is None,
        json::field(answer, "Items"@) matches Some(JsonView::List(items)) ==> key is Episode
            ==> episode_in(key, answer) == match_key::first_episode(
            items,
            key->season,
            key->episode,
        ),
{
}

/// A listed title that has an id and carries any one of the wanted ids, the
/// letter case of its key aside and no collection id, is found.
pub proof fn listed_titles_are_found(
    answer: JsonView,
    items: Seq<JsonView>,
    wanted: Seq<(Seq<char>, Seq<char>)>,
    m: int,
    i: int,
    ids: Seq<(Seq<char>, JsonView)>,
    k: int,
)
    requires
        json::field(answer, "Items"@) == Some(JsonView::List(items)),
        0 <= m < wanted.len(),
        0 <= i < items.len(),
        json::field(items[i], "Id"@) matches Some(id) && id is Text,
        json::field(items[i], "ProviderIds"@) == Some(JsonView::Object(ids)),
        0 <= k < ids.len(),
        !text::contains_text(text::lowercased(wanted[m].0), "collection"@),
        text::lowercased(ids[k].0) == text::lowercased(wanted[m].0),
        ids[k].1 == JsonView::Text(wanted[m].1),
    ensures
        title_in(answer, wanted) is Some,
{
    match_key::same_titles_are_found(wanted, m, items, i, ids, k);
}

/// An item is known by its series exactly where it is an episode with both
/// numbers and a series, and the series is then asked for under its own id;
/// every other item is known by its own provider ids.
pub proof fn only_whole_episodes_are_known_by_their_series(user_id: Seq<char>, item: JsonView)
    ensures
        ({
            let r = identity_of(user_id, item);
            let whole = json::field(item, "Type"@) == Some(
                JsonView::Text(seq!['E', 'p', 'i', 's', 'o', 'd', 'e']),
            ) && json::int_field(item, "ParentIndexNumber"@) is Some && json::int_field(
                item,
                "IndexNumber"@,
            ) is Some && json::text_field(item, "SeriesId"@) is Some;
            &&& whole ==> (r matches IdentityView::AskSeries { path, season, episode } && Some(
                season,
            ) == json::int_field(item, "ParentIndexNumber"@) && Some(episode) == json::int_field(
                item,
                "IndexNumber"@,
            ) && path == item_path(user_id, json::text_field(item, "SeriesId"@)->0))
            &&& !whole ==> r == IdentityView::Known(
                MatchKeyView::Provider(match_key::provider_ids(json::field(item, "ProviderIds"@))),
            )
        }),
{
    reveal_strlit("Episode");
    assert("Episode"@ =~= seq!['E', 'p', 'i', 's', 'o', 'd', 'e']);
}

/// Movies and series are looked for by their own ids, and series alone by those
/// of an episode.
pub proof fn episodes_are_looked_for_among_series(key: MatchKeyView)
    ensures
        text::split_on(kinds_of(key), ',') == if key is Provider {
            seq!["Movie"@, "Series"@]
        } else {
            seq!["Series"@]
        },
{
    reveal_strlit("Movie,Series");
    reveal_strlit("Movie");
    reveal_strlit("Series");
    let parts = if key is Provider {
        seq!["Movie"@, "Series"@]
    } else {
        seq!["Series"@]
    };
    assert(parts.drop_last() =~= if key is Provider {
        seq!["Movie"@]
    } else {
        Seq::empty()
    });
    assert(key is Provider ==> text::join(seq!["Movie"@], seq![',']) == "Movie"@);
    assert(text::join(parts, seq![',']) =~= kinds_of(key));
    text::split_of_join(parts, ',');
}

/// A path for an item has four segments: the users, the user, the items, and
/// the item with the fields that are asked for.
pub proof fn item_paths_name_user_and_item(user_id: Seq<char>, item_id: Seq<char>)
    requires
        !user_id.contains('/'),
        !item_id.contains('/'),
    ensures
        text::split_on(item_path(user_id, item_id), '/') == seq![
            "Users"@,
            user_id,
            "Items"@,
            item_id + "?Fields=ProviderIds"@,
        ],
{
    reveal_strlit("Users/");
    reveal_strlit("Users");
    reveal_strlit("/Items/");
    reveal_strlit("Items");
    reveal_strlit("?Fields=ProviderIds");
    let last = item_id + "?Fields=ProviderIds"@;
    assert(!last.contains('/')) by {
        if last.contains('/') {
            let i = choose|i: int| 0 <= i < last.len() && last[i] == '/';
            if i < item_id.len() {
                assert(item_id[i] == '/');
            } else {
                assert("?Fields=ProviderIds"@[i - item_id.len()] == '/');
            }
        }
    }
    let sep = seq!['/'];
    let parts = seq!["Users"@, user_id, "Items"@, last];
    assert(parts.drop_last() =~= seq!["Users"@, user_id, "Items"@]);
    assert(seq!["Users"@, user_id, "Items"@].drop_last() =~= seq!["Users"@, user_id]);
    assert(seq!["Users"@, user_id].drop_last() =~= seq!["Users"@]);
    assert(text::join(seq!["Users"@], sep) == "Users"@);
    assert(text::join(seq!["Users"@, user_id], sep) == "Users"@ + sep + user_id);
    assert(text::join(seq!["Users"@, user_id, "Items"@], sep) == "Users"@ + sep + user_id + sep
        + "Items"@);
    assert(text::join(parts, sep) =~= item_path(user_id, item_id));
    text::split_of_join(parts, '/');
}

/// A base address whose path ends with a slash stays as it is; any other gets
/// one more segment, which is empty, or an error where that cannot be had.
pub proof fn bases_get_at_most_a_slash(address: Seq<char>, url: Seq<char>, path: Seq<char>)
    requires
        urls::url_parsed(address) == Ok::<(Seq<char>, Seq<char>), Seq<char>>((url, path)),
    ensures
        path.len() > 0 && path.last() == '/' ==> base_of(address) == Ok::<
            (Seq<char>, Seq<char>),
            ApiErrorView,
        >((url, path)),
        !(path.len() > 0 && path.last() == '/') ==> match base_of(address) {
            Ok(p) => urls::can_grow(address, 1) && urls::url_with_segment(address, Seq::empty())
                == Some(p),
            Err(e) => e is UrlParse && (!urls::can_grow(address, 1) || urls::url_with_segment(
                address,
                Seq::empty(),
            ) is None),
        },
{
}

/// A request goes to the path resolved against the client's own address, in the
/// client's name, with the method, the query and the body that were given; it
/// fails exactly where the path cannot be resolved.
pub proof fn requests_hold_what_was_given(
    c: ClientView,
    method: Method,
    path: Seq<char>,
    query: Seq<(Seq<char>, Seq<char>)>,
    body: Option<JsonView>,
)
    ensures
        match requested(c, method, path, query, body) {
            Ok(r) => r.method == method && r.query == query && r.body == body && r.authorization
                == auth_header(c) && urls::resolved(c.base_url, path) == Ok::<
                Seq<char>,
                Seq<char>,
            >(r.url),
            Err(e) => e matches ApiErrorView::UrlParse(words) && urls::resolved(c.base_url, path)
                == Err::<Seq<char>, Seq<char>>(words),
        },
        plainly_requested(c, method, path, body) matches Ok(r) ==> r.query.len() == 0,
        plainly_requested(c, method, path, body) == requested(
            c,
            method,
            path,
            Seq::empty(),
            body,
        ),
{
}

}
