//! The HTTP surface, as far as it decides: which route a request takes
//! and what is answered on it. Listening and sending is the caller's.

use vstd::prelude::*;
use vstd::string::*;
use prometheus::proto::MetricFamily;
use prometheus::Registry;
use crate::cache::{Reading, TemperatureCache};
use crate::clock::{stamp_text, utc_stamp};
use crate::html::{page_text, render_temperature_page};
use crate::metrics::{exposition, exposition_of};
use crate::text::{placement, text_of, Placement};

verus! {

/// The routes of the surface.
#[derive(Clone, Copy, Debug, PartialEq, Eq, Structural)]
pub enum Route {
    /// `/metrics`: the metrics in the text exposition format.
    Metrics,
    /// `/`: the dashboard.
    Dashboard,
    /// `/health`: a sign of life.
    Health,
    /// Anything else.
    NotFound,
}

/// The route of a request, by the exact text of its URL.
pub open spec fn route_of(url: Seq<char>) -> Route {
    if url == "/metrics"@ {
        Route::Metrics
    } else if url == "/"@ {
        Route::Dashboard
    } else if url == "/health"@ {
        Route::Health
    } else {
        Route::NotFound
    }
}

/// Tells whether two strings hold the same text.
fn same_text(a: &str, b: &str) -> (same: bool)
    ensures
        same == (a@ == b@),
{
    match placement(a, b) {
        Placement::Same => true,
        _ => false,
    }
}

/// The route of a request.
pub fn route(url: &str) -> (route: Route)
    ensures
        route == route_of(url@),
{
    if same_text(url, "/metrics") {
        Route::Metrics
    } else if same_text(url, "/") {
        Route::Dashboard
    } else if same_text(url, "/health") {
        Route::Health
    } else {
        Route::NotFound
    }
}

/// An answer, ready to be sent.
#[derive(Debug)]
pub struct HttpResponse {
    pub status: u16,
    /// The `Content-Type` to send; where there is none the server's own
    /// default for text applies.
    pub content_type: Option<String>,
    pub body: String,
}

/// An answer as plain values.
pub struct ResponseView {
    pub status: u16,
    pub content_type: Option<Seq<char>>,
    pub body: Seq<char>,
}

impl View for HttpResponse {
    type V = ResponseView;

    open spec fn view(&self) -> ResponseView {
        ResponseView {
            status: self.status,
            content_type: text_of(self.content_type),
            body: self.body@,
        }
    }
}

/// The answer on `/metrics`: the exposition under its content type, or an
/// internal error where there is none.
pub open spec fn metrics_reply(exposition: Option<Seq<char>>) -> ResponseView {
    match exposition {
        Some(text) => ResponseView {
            status: 200,
            content_type: Some("text/plain; version=0.0.4"@),
            body: text,
        },
        None => ResponseView {
            status: 500,
            content_type: None,
            body: "500 Internal Server Error"@,
        },
    }
}

/// The answer on `/`: the dashboard for the given rows, rendered at the
/// given time.
pub open spec fn dashboard_reply(rows: Seq<(Seq<char>, Reading)>, stamp: Seq<char>) -> ResponseView {
    ResponseView {
        status: 200,
        content_type: Some("text/html; charset=utf-8"@),
        body: page_text(rows, stamp),
    }
}

/// The answer on `/health`.
pub open spec fn health_reply() -> ResponseView {
    ResponseView { status: 200, content_type: None, body: "OK"@ }
}

/// The answer on any other URL.
pub open spec fn not_found_reply() -> ResponseView {
    ResponseView { status: 404, content_type: None, body: "404 Not Found"@ }
}

/// Answers `/metrics` with the given exposition.
pub fn metrics_response(exposition: Option<String>) -> (response: HttpResponse)
    ensures
        response@ == metrics_reply(text_of(exposition)),
{
    match exposition {
        Some(text) => HttpResponse {
            status: 200,
            content_type: Some(String::from_str("text/plain; version=0.0.4")),
            body: text,
        },
        None => HttpResponse {
            status: 500,
            content_type: None,
            body: String::from_str("500 Internal Server Error"),
        },
    }
}

/// Answers `/` with the dashboard for the cache as it stands.
pub fn dashboard_response(temps: &TemperatureCache, stamp: &str) -> (response: HttpResponse)
    ensures
        response@ == dashboard_reply(temps.listing(), stamp@),
{
    HttpResponse {
        status: 200,
        content_type: Some(String::from_str("text/html; charset=utf-8")),
        body: render_temperature_page(temps, stamp),
    }
}

/// Answers `/health`. The answer depends on nothing.
pub fn health_response() -> (response: HttpResponse)
    ensures
        response@ == health_reply(),
{
    HttpResponse { status: 200, content_type: None, body: String::from_str("OK") }
}

/// Answers a URL that is no route.
pub fn not_found_response() -> (response: HttpResponse)
    ensures
        response@ == not_found_reply(),
{
    HttpResponse { status: 404, content_type: None, body: String::from_str("404 Not Found") }
}

/// `reply` is an answer to a request on `route`, given the cache as it
/// stands. On the metrics the exposition is that of the metric families,
/// whichever the registry holds, and on the dashboard the stamp is that of
/// the second that the clock gives.
pub open spec fn answers(route: Route, rows: Seq<(Seq<char>, Reading)>, reply: ResponseView) -> bool {
    match route {
        Route::Metrics => exists|families: Seq<MetricFamily>|
            reply == metrics_reply(exposition_of(families)),
        Route::Dashboard => exists|seconds: i64|
            reply == dashboard_reply(rows, stamp_text(seconds)),
        Route::Health => reply == health_reply(),
        Route::NotFound => reply == not_found_reply(),
    }
}

/// Answers a request for `url`. Every URL gets an answer.
pub fn handle_request(url: &str, temps: &TemperatureCache, registry: &Registry) -> (response:
    HttpResponse)
    ensures
        answers(route_of(url@), temps.listing(), response@),
{
    match route(url) {
        Route::Metrics => {
            let text = exposition(registry);
            let ghost families = choose|families: Seq<MetricFamily>|
                text_of(text) == exposition_of(families);
            let response = metrics_response(text);
            assert(response@ == metrics_reply(exposition_of(families)));
            response
        },
        Route::Dashboard => {
            let stamp = utc_stamp();
            let ghost seconds = choose|seconds: i64| stamp@ == stamp_text(seconds);
            let response = dashboard_response(temps, stamp.as_str());
            assert(response@ == dashboard_reply(temps.listing(), stamp_text(seconds)));
            response
        },
        Route::Health => health_response(),
        Route::NotFound => not_found_response(),
    }
}

} // verus!
