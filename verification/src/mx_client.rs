//! The decisions of the ManiaExchange client: what to read out of the
//! login pages, which request comes next while logging in, how a map is
//! looked up and how an upload is prepared and judged. The requests
//! themselves are sent by the application.
pub mod client_error;
pub mod upload_response;

use vstd::prelude::*;
use vstd::string::*;

use crate::mx_client::client_error::ClientError;
use crate::mx_client::upload_response::UploadResponse;
use crate::string_map::{
    keys_distinct, lemma_insert_keeps_keys_distinct, lemma_lookup_after_insert, lookup, map_insert, Entries, StringMap,
};
use crate::text::{decimal, push_decimal};

verus! {

/// For each element of the HTML `document` that the CSS `selector`
/// matches, in the order scraper's `select` yields them (the order in
/// which its parser created the nodes), the values of the attributes `names`
/// (`None` where absent); or the selector's parse error message. This is
/// what `scraper` computes; the library names it and does not describe it.
pub uninterp spec fn html_select_attributes(document: Seq<char>, selector: Seq<char>, names: Seq<Seq<char>>) -> Result<Seq<Seq<Option<Seq<char>>>>, Seq<char>>;

/// Parses `document` with `scraper::Html::parse_document`, parses
/// `selector` with `scraper::Selector::parse` (its error becomes its
/// message), and reads the attributes `names` of each matching element
/// with `Element::attr`. Claimed: the result is the named selection, with
/// one value per requested name in each row.
#[verifier::external_body]
fn select_attributes(document: &str, selector: &str, names: &[&str]) -> (res: Result<Vec<Vec<Option<String>>>, String>)
    ensures
        match res {
            Ok(rows) => html_select_attributes(document@, selector@, names.deep_view())
                == Ok::<Seq<Seq<Option<Seq<char>>>>, Seq<char>>(rows.deep_view())
                && forall|i: int| 0 <= i < rows@.len() ==> #[trigger] rows@[i].len() == names@.len(),
            Err(m) => html_select_attributes(document@, selector@, names.deep_view())
                == Err::<Seq<Seq<Option<Seq<char>>>>, Seq<char>>(m@),
        },
{
    let html = scraper::Html::parse_document(document);
    let selector = scraper::Selector::parse(selector).map_err(|e| e.to_string())?;
    let mut rows = Vec::new();
    for element in html.select(&selector) {
        let mut row = Vec::new();
        for name in names {
            row.push(element.value().attr(name).map(|v| v.to_string()));
        }
        rows.push(row);
    }
    Ok(rows)
}

/// The selector of forms sent by POST.
pub open spec fn post_form_selector() -> Seq<char> {
    "form[method=\"post\"]"@
}

/// The selector of hidden inputs inside forms.
pub open spec fn hidden_input_selector() -> Seq<char> {
    "form input[type=\"hidden\"]"@
}

/// The `action` of the first POST form of a page, if it has one.
pub open spec fn next_action_of(document: Seq<char>) -> Result<Option<Seq<char>>, Seq<char>> {
    match html_select_attributes(document, post_form_selector(), seq!["action"@]) {
        Err(m) => Err(m),
        Ok(rows) => if rows.len() > 0 { Ok(rows[0][0]) } else { Ok(None) },
    }
}

/// The hidden inputs that have both a name and a value, inserted in
/// the order the selection yields them (a later input replaces an earlier
/// one of the same name).
pub open spec fn fields_of_rows(rows: Seq<Seq<Option<Seq<char>>>>) -> Entries
    decreases rows.len(),
{
    if rows.len() == 0 {
        Seq::empty()
    } else {
        let prev = fields_of_rows(rows.drop_last());
        let row = rows.last();
        if row.len() >= 2 && row[0] is Some && row[1] is Some {
            map_insert(prev, row[0].unwrap(), row[1].unwrap())
        } else {
            prev
        }
    }
}

/// The hidden form fields of a page.
pub open spec fn hidden_fields_of(document: Seq<char>) -> Result<Entries, Seq<char>> {
    match html_select_attributes(document, hidden_input_selector(), seq!["name"@, "value"@]) {
        Err(m) => Err(m),
        Ok(rows) => Ok(fields_of_rows(rows)),
    }
}

/// Whether row `j` is a hidden input with both a name and a value.
pub open spec fn named_row(rows: Seq<Seq<Option<Seq<char>>>>, j: int) -> bool {
    rows[j].len() >= 2 && rows[j][0] is Some && rows[j][1] is Some
}

/// The fields read from the rows give, under the name of row `i`, the
/// value of row `i`, when no later row carries that name.
proof fn lemma_fields_of_rows_last(rows: Seq<Seq<Option<Seq<char>>>>, i: int)
    requires
        0 <= i < rows.len(),
        named_row(rows, i),
        forall|j: int| i < j < rows.len() && named_row(rows, j) ==> rows[j][0] != rows[i][0],
    ensures
        lookup(fields_of_rows(rows), rows[i][0]->Some_0) == rows[i][1],
    decreases rows.len(),
{
    let prev = fields_of_rows(rows.drop_last());
    let last = rows.last();
    let n = rows[i][0]->Some_0;
    if i == rows.len() - 1 {
        lemma_lookup_after_insert(prev, n, last[1]->Some_0, n);
    } else {
        let d = rows.drop_last();
        assert(d[i] == rows[i]);
        assert forall|j: int| i < j < d.len() && named_row(d, j) implies d[j][0] != d[i][0] by {
            assert(d[j] == rows[j]);
            assert(named_row(rows, j));
        }
        lemma_fields_of_rows_last(d, i);
        if named_row(rows, rows.len() - 1) {
            lemma_lookup_after_insert(prev, last[0]->Some_0, last[1]->Some_0, n);
        }
    }
}

/// A name that no row with a name and a value carries gives nothing, and
/// no name is read twice.
proof fn lemma_fields_of_rows_absent(rows: Seq<Seq<Option<Seq<char>>>>, name: Seq<char>)
    ensures
        (forall|j: int| 0 <= j < rows.len() && named_row(rows, j) ==> rows[j][0] != Some(name))
            ==> lookup(fields_of_rows(rows), name) is None,
        keys_distinct(fields_of_rows(rows)),
    decreases rows.len(),
{
    if rows.len() > 0 {
        let prev = fields_of_rows(rows.drop_last());
        let last = rows.last();
        lemma_fields_of_rows_absent(rows.drop_last(), name);
        if forall|j: int| 0 <= j < rows.len() && named_row(rows, j) ==> rows[j][0] != Some(name) {
            assert forall|j: int| 0 <= j < rows.drop_last().len() && named_row(rows.drop_last(), j) implies rows.drop_last()[j][0] != Some(name) by {
                assert(rows.drop_last()[j] == rows[j]);
                assert(named_row(rows, j));
            }
        }
        if named_row(rows, rows.len() - 1) {
            lemma_lookup_after_insert(prev, last[0]->Some_0, last[1]->Some_0, name);
            lemma_insert_keeps_keys_distinct(prev, last[0]->Some_0, last[1]->Some_0);
        }
    }
}

/// Every hidden input of a page that has a name and a value (the empty
/// text included) is a field under that name, with the value of the last
/// such input of that name.
pub proof fn lemma_hidden_input_read(document: Seq<char>, rows: Seq<Seq<Option<Seq<char>>>>, i: int)
    requires
        html_select_attributes(document, hidden_input_selector(), seq!["name"@, "value"@])
            == Ok::<Seq<Seq<Option<Seq<char>>>>, Seq<char>>(rows),
        0 <= i < rows.len(),
        named_row(rows, i),
        forall|j: int| i < j < rows.len() && named_row(rows, j) ==> rows[j][0] != rows[i][0],
    ensures
        hidden_fields_of(document) matches Ok(f) && lookup(f, rows[i][0]->Some_0) == rows[i][1],
{
    lemma_fields_of_rows_last(rows, i);
}

/// A name that no hidden input with a value carries is no field of the
/// page, and no field occurs twice.
pub proof fn lemma_hidden_field_absent(document: Seq<char>, rows: Seq<Seq<Option<Seq<char>>>>, name: Seq<char>)
    requires
        html_select_attributes(document, hidden_input_selector(), seq!["name"@, "value"@])
            == Ok::<Seq<Seq<Option<Seq<char>>>>, Seq<char>>(rows),
    ensures
        hidden_fields_of(document) matches Ok(f) && keys_distinct(f)
            && ((forall|j: int| 0 <= j < rows.len() && named_row(rows, j) ==> rows[j][0] != Some(name))
                ==> lookup(f, name) is None),
{
    lemma_fields_of_rows_absent(rows, name);
}

/// The `action` of the first form sent by POST in `html`.
pub fn extract_next_action(html: &str) -> (res: Result<Option<String>, ClientError>)
    ensures
        match next_action_of(html@) {
            Ok(a) => res matches Ok(r) && r.deep_view() == a,
            Err(m) => res matches Err(ClientError::HtmlParse(e)) && e@ == m,
        },
{
    let names = vec!["action"];
    let names = names.as_slice();
    assert(names.deep_view() =~= seq!["action"@]);
    match select_attributes(html, "form[method=\"post\"]", names) {
        Err(m) => Err(ClientError::HtmlParse(m)),
        Ok(rows) => {
            if rows.len() > 0 {
                assert(rows@[0].len() == 1);
                let first = &rows[0];
                match &first[0] {
                    Some(a) => Ok(Some(a.clone())),
                    None => Ok(None),
                }
            } else {
                Ok(None)
            }
        },
    }
}

/// All hidden input fields of the forms in `html`.
pub fn extract_hidden_fields(html: &str) -> (res: Result<StringMap, ClientError>)
    ensures
        match hidden_fields_of(html@) {
            Ok(f) => res matches Ok(m) && m@ == f,
            Err(e) => res matches Err(ClientError::HtmlParse(x)) && x@ == e,
        },
{
    let names = vec!["name", "value"];
    let names = names.as_slice();
    assert(names.deep_view() =~= seq!["name"@, "value"@]);
    match select_attributes(html, "form input[type=\"hidden\"]", names) {
        Err(m) => Err(ClientError::HtmlParse(m)),
        Ok(rows) => {
            let ghost rows_v = rows.deep_view();
            let mut fields = StringMap::new();
            let mut i: usize = 0;
            assert(rows_v.take(0) =~= Seq::<Seq<Option<Seq<char>>>>::empty());
            while i < rows.len()
                invariant
                    i <= rows.len(),
                    rows_v == rows.deep_view(),
                    rows_v.len() == rows.len(),
                    forall|k: int| 0 <= k < rows@.len() ==> #[trigger] rows@[k].len() == 2,
                    fields@ == fields_of_rows(rows_v.take(i as int)),
                decreases rows.len() - i,
            {
                let row = &rows[i];
                proof {
                    assert(rows_v.take(i + 1).drop_last() =~= rows_v.take(i as int));
                    assert(rows_v.take(i + 1).last() == row.deep_view());
                    assert(row.len() == 2);
                }
                match (&row[0], &row[1]) {
                    (Some(name), Some(value)) => {
                        fields.insert(name.clone(), value.clone());
                    },
                    _ => {},
                }
                i = i + 1;
            }
            assert(rows_v.take(i as int) =~= rows_v);
            Ok(fields)
        },
    }
}

/// The login page of the account service.
pub open spec fn login_url() -> Seq<char> {
    "https://account.mania.exchange/login"@
}

/// The login page of the Trackmania exchange, which binds the account.
pub open spec fn account_login_url() -> Seq<char> {
    "https://tm.mania.exchange/login"@
}

/// A request the client is to send.
#[derive(Debug, Clone)]
pub enum HttpRequest {
    Get { url: String },
    /// A form sent by POST, with the `Origin` header when one is given.
    Post { url: String, fields: StringMap, origin: Option<String> },
}

/// The plain content of an [`HttpRequest`].
pub enum RequestView {
    Get(Seq<char>),
    Post(Seq<char>, Entries, Option<Seq<char>>),
}

impl View for HttpRequest {
    type V = RequestView;

    open spec fn view(&self) -> RequestView {
        match self {
            HttpRequest::Get { url } => RequestView::Get(url@),
            HttpRequest::Post { url, fields, origin } => RequestView::Post(url@, fields@, origin.deep_view()),
        }
    }
}

/// Which page the login sequence waits for.
#[derive(Debug, Clone)]
pub enum ConnectStep {
    /// The login form of the account service.
    AwaitLoginPage,
    /// The answer to the last form posted while logging in; `previous` is
    /// the address that form was posted to.
    AwaitLoginReply { previous: String },
    /// The exchange's login page.
    AwaitAccountPage,
    /// The answer to the form that binds the account.
    AwaitAccountReply,
    Finished,
}

/// The plain content of a [`ConnectStep`].
pub enum StepView {
    AwaitLoginPage,
    AwaitLoginReply(Seq<char>),
    AwaitAccountPage,
    AwaitAccountReply,
    Finished,
}

impl View for ConnectStep {
    type V = StepView;

    open spec fn view(&self) -> StepView {
        match self {
            ConnectStep::AwaitLoginPage => StepView::AwaitLoginPage,
            ConnectStep::AwaitLoginReply { previous } => StepView::AwaitLoginReply(previous@),
            ConnectStep::AwaitAccountPage => StepView::AwaitAccountPage,
            ConnectStep::AwaitAccountReply => StepView::AwaitAccountReply,
            ConnectStep::Finished => StepView::Finished,
        }
    }
}

/// The login form: the page's hidden fields with the user name, the
/// password and the login button added.
pub open spec fn credentials_form(fields: Entries, user: Seq<char>, password: Seq<char>) -> Entries {
    map_insert(map_insert(map_insert(fields, "Username"@, user), "Password"@, password), "button"@, "login"@)
}

/// What the login sequence does with the page it waited for: the next
/// request (none when the sequence is over) or the error message of a page
/// that could not be read, and the step after it.
pub open spec fn connect_transition(step: StepView, user: Seq<char>, password: Seq<char>, page: Seq<char>) -> (Result<Option<RequestView>, Seq<char>>, StepView) {
    match step {
        StepView::AwaitLoginPage => match hidden_fields_of(page) {
            Err(m) => (Err(m), StepView::Finished),
            Ok(f) => (
                Ok(Some(RequestView::Post(login_url(), credentials_form(f, user, password), Some("null"@)))),
                StepView::AwaitLoginReply(login_url()),
            ),
        },
        StepView::AwaitLoginReply(previous) => match next_action_of(page) {
            Ok(Some(action)) => match hidden_fields_of(page) {
                Err(m) => (Err(m), StepView::Finished),
                Ok(f) => (Ok(Some(RequestView::Post(action, f, Some(previous)))), StepView::AwaitLoginReply(action)),
            },
            _ => (Ok(Some(RequestView::Get(account_login_url()))), StepView::AwaitAccountPage),
        },
        StepView::AwaitAccountPage => match next_action_of(page) {
            Ok(Some(action)) => match hidden_fields_of(page) {
                Err(m) => (Err(m), StepView::Finished),
                Ok(f) => (Ok(Some(RequestView::Post(action, f, None))), StepView::AwaitAccountReply),
            },
            _ => (Ok(None), StepView::Finished),
        },
        StepView::AwaitAccountReply => (Ok(None), StepView::Finished),
        StepView::Finished => (Ok(None), StepView::Finished),
    }
}

/// A page that carries a POST form while the login chain is followed or
/// the account is bound is answered by posting that form: to its action,
/// with exactly the page's hidden fields, and with the previous address of
/// the chain as `Origin` (none when binding the account).
pub proof fn lemma_followed_form_posted(step: StepView, user: Seq<char>, password: Seq<char>, page: Seq<char>)
    requires
        step is AwaitLoginReply || step is AwaitAccountPage,
        next_action_of(page) matches Ok(Some(_)),
        hidden_fields_of(page) is Ok,
    ensures
        connect_transition(step, user, password, page).0 matches Ok(Some(RequestView::Post(url, fields, origin)))
            && next_action_of(page) == Ok::<Option<Seq<char>>, Seq<char>>(Some(url))
            && hidden_fields_of(page) == Ok::<Entries, Seq<char>>(fields)
            && origin == (if step is AwaitLoginReply { Some(step->AwaitLoginReply_0) } else { None::<Seq<char>> }),
        step is AwaitLoginReply ==> connect_transition(step, user, password, page).1
            == StepView::AwaitLoginReply(next_action_of(page)->Ok_0->Some_0),
        step is AwaitAccountPage ==> connect_transition(step, user, password, page).1 == StepView::AwaitAccountReply,
{
}

/// The login form is posted to the login page with the `Origin` `null`,
/// and carries the page's hidden fields with the user name, the password
/// and `button=login` set: each of these three reads back as given, and
/// every other field as the page has it.
pub proof fn lemma_login_form_fields(user: Seq<char>, password: Seq<char>, page: Seq<char>, key: Seq<char>)
    requires
        hidden_fields_of(page) is Ok,
    ensures
        connect_transition(StepView::AwaitLoginPage, user, password, page).0
            matches Ok(Some(RequestView::Post(url, fields, origin)))
            && url == login_url()
            && origin == Some("null"@)
            && lookup(fields, "Username"@) == Some(user)
            && lookup(fields, "Password"@) == Some(password)
            && lookup(fields, "button"@) == Some("login"@)
            && (key != "Username"@ && key != "Password"@ && key != "button"@
                ==> lookup(fields, key) == lookup(hidden_fields_of(page)->Ok_0, key)),
{
    let f = hidden_fields_of(page)->Ok_0;
    let f1 = map_insert(f, "Username"@, user);
    let f2 = map_insert(f1, "Password"@, password);
    reveal_strlit("Username");
    reveal_strlit("Password");
    reveal_strlit("button");
    assert("Username"@[0] != "Password"@[0]);
    assert("Username"@.len() != "button"@.len());
    assert("Password"@.len() != "button"@.len());
    lemma_lookup_after_insert(f2, "button"@, "login"@, "Username"@);
    lemma_lookup_after_insert(f2, "button"@, "login"@, "Password"@);
    lemma_lookup_after_insert(f2, "button"@, "login"@, "button"@);
    lemma_lookup_after_insert(f2, "button"@, "login"@, key);
    lemma_lookup_after_insert(f1, "Password"@, password, "Username"@);
    lemma_lookup_after_insert(f1, "Password"@, password, "Password"@);
    lemma_lookup_after_insert(f1, "Password"@, password, key);
    lemma_lookup_after_insert(f, "Username"@, user, "Username"@);
    lemma_lookup_after_insert(f, "Username"@, user, key);
}

/// The login sequence: log in to the account service, following the
/// chain of forms it answers with, then bind the account on the exchange.
#[derive(Debug, Clone)]
pub struct ConnectFlow {
    user: String,
    password: String,
    step: ConnectStep,
}

impl ConnectFlow {
    pub closed spec fn user(&self) -> Seq<char> {
        self.user@
    }

    pub closed spec fn password(&self) -> Seq<char> {
        self.password@
    }

    pub closed spec fn step(&self) -> StepView {
        self.step@
    }

    /// Starts logging in as `user`: the first request fetches the login page.
    pub fn start(user: &str, password: &str) -> (r: (ConnectFlow, HttpRequest))
        ensures
            r.0.user() == user@,
            r.0.password() == password@,
            r.0.step() == StepView::AwaitLoginPage,
            r.1@ == RequestView::Get(login_url()),
    {
        let flow = ConnectFlow {
            user: String::from_str(user),
            password: String::from_str(password),
            step: ConnectStep::AwaitLoginPage,
        };
        (flow, HttpRequest::Get { url: String::from_str("https://account.mania.exchange/login") })
    }

    /// Takes the page that the last request returned and gives the next
    /// request, none when the sequence is over, or the error of a page
    /// whose forms could not be read (which ends the sequence).
    pub fn on_page(&mut self, page: &str) -> (res: Result<Option<HttpRequest>, ClientError>)
        ensures
            final(self).user() == old(self).user(),
            final(self).password() == old(self).password(),
            final(self).step() == connect_transition(old(self).step(), old(self).user(), old(self).password(), page@).1,
            match connect_transition(old(self).step(), old(self).user(), old(self).password(), page@).0 {
                Ok(None) => res matches Ok(None),
                Ok(Some(r)) => res matches Ok(Some(q)) && q@ == r,
                Err(m) => res matches Err(ClientError::HtmlParse(e)) && e@ == m,
            },
            old(self).step() == StepView::AwaitAccountPage && next_action_of(page@) is Ok
                && next_action_of(page@)->Ok_0 is Some && hidden_fields_of(page@) is Ok
                ==> (res matches Ok(Some(q))
                    && q@ == RequestView::Post(next_action_of(page@)->Ok_0->Some_0, hidden_fields_of(page@)->Ok_0, None)
                    && final(self).step() == StepView::AwaitAccountReply),
    {
        match &self.step {
            ConnectStep::AwaitLoginPage => {
                match extract_hidden_fields(page) {
                    Err(e) => {
                        self.step = ConnectStep::Finished;
                        Err(e)
                    },
                    Ok(mut fields) => {
                        fields.insert(String::from_str("Username"), self.user.clone());
                        fields.insert(String::from_str("Password"), self.password.clone());
                        fields.insert(String::from_str("button"), String::from_str("login"));
                        let url = String::from_str("https://account.mania.exchange/login");
                        self.step = ConnectStep::AwaitLoginReply { previous: url.clone() };
                        Ok(Some(HttpRequest::Post { url, fields, origin: Some(String::from_str("null")) }))
                    },
                }
            },
            ConnectStep::AwaitLoginReply { previous } => {
                let previous = previous.clone();
                match extract_next_action(page) {
                    Ok(Some(action)) => match extract_hidden_fields(page) {
                        Err(e) => {
                            self.step = ConnectStep::Finished;
                            Err(e)
                        },
                        Ok(fields) => {
                            self.step = ConnectStep::AwaitLoginReply { previous: action.clone() };
                            Ok(Some(HttpRequest::Post { url: action, fields, origin: Some(previous) }))
                        },
                    },
                    _ => {
                        self.step = ConnectStep::AwaitAccountPage;
                        Ok(Some(HttpRequest::Get { url: String::from_str("https://tm.mania.exchange/login") }))
                    },
                }
            },
            ConnectStep::AwaitAccountPage => {
                match extract_next_action(page) {
                    Ok(Some(action)) => match extract_hidden_fields(page) {
                        Err(e) => {
                            self.step = ConnectStep::Finished;
                            Err(e)
                        },
                        Ok(fields) => {
                            self.step = ConnectStep::AwaitAccountReply;
                            Ok(Some(HttpRequest::Post { url: action, fields, origin: None }))
                        },
                    },
                    _ => {
                        self.step = ConnectStep::Finished;
                        Ok(None)
                    },
                }
            },
            ConnectStep::AwaitAccountReply => {
                self.step = ConnectStep::Finished;
                Ok(None)
            },
            ConnectStep::Finished => Ok(None),
        }
    }
}

/// The address `base` with the query pairs appended in order, as
/// `url::Url::parse_with_params` builds and prints it, or the message of
/// its parse error. The library names it and does not describe it.
pub uninterp spec fn url_with_query(base: Seq<char>, pairs: Seq<(Seq<char>, Seq<char>)>) -> Result<Seq<char>, Seq<char>>;

/// `reqwest::Url::parse_with_params(base, pairs)`, printed with
/// `to_string`; its error becomes its message. Claimed: the result is the
/// named address.
#[verifier::external_body]
fn url_with_params(base: &str, pairs: &[(&str, &str)]) -> (res: Result<String, String>)
    ensures
        match res {
            Ok(u) => url_with_query(base@, pairs.deep_view()) == Ok::<Seq<char>, Seq<char>>(u@),
            Err(m) => url_with_query(base@, pairs.deep_view()) == Err::<Seq<char>, Seq<char>>(m@),
        },
{
    match reqwest::Url::parse_with_params(base, pairs) {
        Ok(url) => Ok(url.to_string()),
        Err(e) => Err(e.to_string()),
    }
}

/// The map search of the exchange's API.
pub open spec fn maps_api_url() -> Seq<char> {
    "https://tm.mania.exchange/api/maps"@
}

/// The query that asks the API for the id of the map with uid `uid`.
pub open spec fn map_lookup_query(uid: Seq<char>) -> Seq<(Seq<char>, Seq<char>)> {
    seq![("fields"@, "MapId"@), ("uid"@, uid)]
}

/// The address that asks the exchange for the id of the map `uid`.
pub fn map_lookup_url(uid: &str) -> (res: Result<String, ClientError>)
    ensures
        match url_with_query(maps_api_url(), map_lookup_query(uid@)) {
            Ok(u) => res matches Ok(s) && s@ == u,
            Err(m) => res matches Err(ClientError::Error(e)) && e@ == m,
        },
{
    let pairs = vec![("fields", "MapId"), ("uid", uid)];
    let pairs = pairs.as_slice();
    assert(pairs.deep_view() =~= map_lookup_query(uid@));
    match url_with_params("https://tm.mania.exchange/api/maps", pairs) {
        Ok(u) => Ok(u),
        Err(m) => Err(ClientError::Error(m)),
    }
}

/// One map of a search result.
#[derive(Debug, Clone, Copy)]
pub struct MapId {
    pub map_id: usize,
}

/// The answer to a map search.
#[derive(Debug, Clone)]
pub struct MapFromUid {
    pub more: bool,
    pub results: Vec<MapId>,
}

impl MapFromUid {
    /// The id of the first map found.
    pub fn id(&self) -> (r: Option<usize>)
        ensures
            r == if self.results@.len() > 0 { Some(self.results@[0].map_id) } else { None::<usize> },
    {
        if self.results.len() > 0 {
            Some(self.results[0].map_id)
        } else {
            None
        }
    }
}

/// The id of the searched map, or `NoMapId` when the search found none.
pub fn map_id_of(found: &MapFromUid) -> (res: Result<usize, ClientError>)
    ensures
        found.results@.len() > 0 ==> res == Ok::<usize, ClientError>(found.results@[0].map_id),
        found.results@.len() == 0 ==> res matches Err(ClientError::NoMapId),
{
    match found.id() {
        Some(id) => Ok(id),
        None => Err(ClientError::NoMapId),
    }
}

/// The upload page of the map with id `id`, which is also the referer of
/// the upload.
pub open spec fn replay_upload_page(id: nat) -> Seq<char> {
    "https://tm.mania.exchange/replayupload/"@ + decimal(id)
}

/// The upload page of the map with id `id`.
pub fn upload_referer(id: usize) -> (r: String)
    ensures
        r@ == replay_upload_page(id as nat),
{
    let mut r = String::from_str("https://tm.mania.exchange/replayupload/");
    push_decimal(&mut r, id as u64);
    r
}

/// The message when the upload page carries no hidden field.
pub open spec fn no_hidden_fields_message(referer: Seq<char>) -> Seq<char> {
    "No hidden fields found in "@ + referer + " response"@
}

/// The hidden field of the upload page that goes with the upload form:
/// the first one.
pub fn upload_token(fields: &StringMap, referer: &str) -> (res: Result<(String, String), ClientError>)
    ensures
        fields@.len() > 0 ==> (res matches Ok(p) && p.deep_view() == fields@[0]),
        fields@.len() == 0 ==> (res matches Err(ClientError::Error(m)) && m@ == no_hidden_fields_message(referer@)),
{
    match fields.first() {
        Some(p) => Ok((p.0.clone(), p.1.clone())),
        None => {
            let mut m = String::from_str("No hidden fields found in ");
            m.append(referer);
            m.append(" response");
            Err(ClientError::Error(m))
        },
    }
}

/// The message of a refused upload that gives no reason.
pub open spec fn no_error_message() -> Seq<char> {
    "No error message"@
}

/// Judges the answer to an upload: accepted answers pass, refused ones
/// become an upload error with the reason given (or a default text).
pub fn check_upload(r: UploadResponse) -> (res: Result<UploadResponse, ClientError>)
    ensures
        r.success ==> res == Ok::<UploadResponse, ClientError>(r),
        !r.success ==> (res matches Err(ClientError::Upload(m)) && m@ == match r.error {
            Some(e) => e@,
            None => no_error_message(),
        }),
{
    if r.success {
        Ok(r)
    } else {
        let m = match r.error {
            Some(e) => e,
            None => String::from_str("No error message"),
        };
        Err(ClientError::Upload(m))
    }
}

} // verus!
