//! What each HTTP request is answered with.
//!
//! A request is looked at by method and path only. The page and the refusals
//! are answered at once; a subscription first needs a queue for the new
//! client, handed to the broker's intake, and is answered when the intake has
//! taken it or refused it.

use vstd::prelude::*;

verus! {

/// Status of an answer that carries the page or the stream.
pub const STATUS_OK: u16 = 200;

/// Status of an answer to a request that no route takes.
pub const STATUS_NOT_FOUND: u16 = 404;

/// Status of an answer to a subscription that the intake refused.
pub const STATUS_NOT_ACCEPTABLE: u16 = 406;

/// Frames that one client's queue holds before a send to it fails.
pub const CLIENT_QUEUE_CAPACITY: usize = 10;

/// New clients that the intake holds before the broker has taken them.
pub const INTAKE_CAPACITY: usize = 10;

/// Where the server listens.
pub const LISTEN_ADDRESS: &'static str = "0.0.0.0:8182";

/// The page served at `/`: it subscribes to `/events`, listens for `uptime`
/// events, and shows what follows `event:` in the `time` field of each.
pub const HTML: &'static str = "<!DOCTYPE html>
<html>
  <head>
    <meta charset=\"UTF-8\">
    <title>TJ in Rust</title>
    <style>
      .counterDiv {
        text-align: left;
        font-size: 50px;
        color: SlateBlue;
      }
    </style>
  </head>
  <body>
    <h1>TJ in Rust</h1>
    <div id=\"sse-msg\">
    <img class=\"v-mid ml0-l\" alt=\"Rust Logo\" src=\"https://www.rust-lang.org/static/images/rust-logo-blk.svg\">
    </div>
    <script type=\"text/javascript\">
      var evtSource = new EventSource(\"http://127.0.0.1:8182/events\");
      evtSource.addEventListener(\"uptime\", function(e) {
          var sseMsgDiv = document.getElementById('tjcounter');
          const obj = JSON.parse(e.data);
          const tjcnt = obj.time.split(\"event:\");
          sseMsgDiv.innerHTML = tjcnt[1];
      }, false);
    </script>
    <form id=\"tjcounter\" class=\"counterDiv\">
      <div>
      </div>
    </form>
  </body>
</html>
";

/// The three things a request can be for.
#[derive(Clone, Copy, Debug, PartialEq, Eq, Structural)]
pub enum Route {
    /// `GET /`: the page.
    Page,
    /// `GET /events`: a subscription to the stream.
    Events,
    /// Anything else.
    NotFound,
}

/// The `Content-Type` of an answer.
#[derive(Clone, Copy, Debug, PartialEq, Eq, Structural)]
pub enum ContentType {
    /// No such header.
    Unset,
    /// `text/html`.
    Html,
    /// `text/event-stream`.
    EventStream,
}

/// What an answer carries.
#[derive(Clone, Copy, Debug, PartialEq, Eq, Structural)]
pub enum Body {
    /// Nothing.
    Empty,
    /// The text of [`HTML`].
    Page,
    /// The frames that arrive on the client's queue, in the order of arrival.
    Stream,
}

/// An answer, as far as this server decides it.
#[derive(Clone, Copy, Debug, PartialEq, Eq, Structural)]
pub struct Reply {
    pub status: u16,
    pub content_type: ContentType,
    /// Whether `Access-Control-Allow-Origin: *` is set.
    pub allow_any_origin: bool,
    /// Whether `Connection: keep-alive` is set.
    pub keep_alive: bool,
    pub body: Body,
}

/// What to do with a request.
#[derive(Clone, Copy, Debug, PartialEq, Eq, Structural)]
pub enum Dispatch {
    /// Answer at once.
    Answer(Reply),
    /// Make a queue of `capacity` frames for the client, offer its sending end
    /// to the intake, and answer with [`subscribed`] once the intake has
    /// taken or refused it.
    Subscribe { capacity: usize },
}

/// The route of a request, by method and path.
pub open spec fn route_of(method: Seq<char>, path: Seq<char>) -> Route {
    if method == "GET"@ && path == "/events"@ {
        Route::Events
    } else if method == "GET"@ && path == "/"@ {
        Route::Page
    } else {
        Route::NotFound
    }
}

/// The answer that carries the page.
pub open spec fn page_reply() -> Reply {
    Reply {
        status: STATUS_OK,
        content_type: ContentType::Html,
        allow_any_origin: false,
        keep_alive: false,
        body: Body::Page,
    }
}

/// The answer to a request that no route takes.
pub open spec fn not_found_reply() -> Reply {
    Reply {
        status: STATUS_NOT_FOUND,
        content_type: ContentType::Unset,
        allow_any_origin: false,
        keep_alive: false,
        body: Body::Empty,
    }
}

/// The answer that opens the stream.
pub open spec fn stream_reply() -> Reply {
    Reply {
        status: STATUS_OK,
        content_type: ContentType::EventStream,
        allow_any_origin: true,
        keep_alive: true,
        body: Body::Stream,
    }
}

/// The answer to a subscription that the intake refused.
pub open spec fn refusal_reply() -> Reply {
    Reply {
        status: STATUS_NOT_ACCEPTABLE,
        content_type: ContentType::Unset,
        allow_any_origin: false,
        keep_alive: false,
        body: Body::Empty,
    }
}

/// What to do with a request on a given route.
pub open spec fn dispatch_of(route: Route) -> Dispatch {
    match route {
        Route::Page => Dispatch::Answer(page_reply()),
        Route::Events => Dispatch::Subscribe { capacity: CLIENT_QUEUE_CAPACITY },
        Route::NotFound => Dispatch::Answer(not_found_reply()),
    }
}

/// The answer to a subscription, by what the intake did with the new queue.
pub open spec fn subscribed_reply(accepted: bool) -> Reply {
    if accepted {
        stream_reply()
    } else {
        refusal_reply()
    }
}

/// `str`'s `==`, which holds exactly when both hold the same characters.
#[verifier::external_body]
fn str_eq(a: &str, b: &str) -> (same: bool)
    ensures
        same == (a@ == b@),
{
    a == b
}

/// Finds the route of a request.
pub fn route(method: &str, path: &str) -> (found: Route)
    ensures
        found == route_of(method@, path@),
{
    if !str_eq(method, "GET") {
        Route::NotFound
    } else if str_eq(path, "/events") {
        Route::Events
    } else if str_eq(path, "/") {
        Route::Page
    } else {
        Route::NotFound
    }
}

/// Decides what to do with a request.
pub fn call(method: &str, path: &str) -> (dispatch: Dispatch)
    ensures
        dispatch == dispatch_of(route_of(method@, path@)),
{
    match route(method, path) {
        Route::Page => Dispatch::Answer(
            Reply {
                status: STATUS_OK,
                content_type: ContentType::Html,
                allow_any_origin: false,
                keep_alive: false,
                body: Body::Page,
            },
        ),
        Route::Events => Dispatch::Subscribe { capacity: CLIENT_QUEUE_CAPACITY },
        Route::NotFound => Dispatch::Answer(
            Reply {
                status: STATUS_NOT_FOUND,
                content_type: ContentType::Unset,
                allow_any_origin: false,
                keep_alive: false,
                body: Body::Empty,
            },
        ),
    }
}

/// Answers a subscription once the intake has taken (`accepted`) or refused
/// the client's queue.
pub fn subscribed(accepted: bool) -> (reply: Reply)
    ensures
        reply == subscribed_reply(accepted),
{
    if accepted {
        Reply {
            status: STATUS_OK,
            content_type: ContentType::EventStream,
            allow_any_origin: true,
            keep_alive: true,
            body: Body::Stream,
        }
    } else {
        Reply {
            status: STATUS_NOT_ACCEPTABLE,
            content_type: ContentType::Unset,
            allow_any_origin: false,
            keep_alive: false,
            body: Body::Empty,
        }
    }
}

/// The text that an answer with the given body starts from: the page for
/// [`Body::Page`], nothing for the others (a stream grows frame by frame).
pub fn body_text(body: Body) -> (text: &'static str)
    ensures
        text@ == (if body == Body::Page { HTML@ } else { Seq::<char>::empty() }),
{
    match body {
        Body::Page => HTML,
        _ => {
            proof {
                reveal_strlit("");
            }
            ""
        },
    }
}

/// Routing: `GET /` is answered at once with status 200 and the page;
/// `GET /events` asks for a queue of ten frames; every other request, and so
/// every request to `/events` with a method other than `GET`, is answered at
/// once with status 404 and no body.
pub proof fn routing(method: Seq<char>, path: Seq<char>)
    ensures
        method == "GET"@ && path == "/"@ ==> dispatch_of(route_of(method, path))
            == Dispatch::Answer(page_reply()),
        method == "GET"@ && path == "/events"@ ==> dispatch_of(route_of(method, path))
            == (Dispatch::Subscribe { capacity: 10 }),
        !(method == "GET"@ && (path == "/"@ || path == "/events"@)) ==> dispatch_of(
            route_of(method, path),
        ) == Dispatch::Answer(not_found_reply()),
        method != "GET"@ ==> dispatch_of(route_of(method, "/events"@)) == Dispatch::Answer(
            not_found_reply(),
        ),
        page_reply().status == 200 && page_reply().body == Body::Page,
        not_found_reply().status == 404 && not_found_reply().body == Body::Empty,
{
    reveal_strlit("/");
    reveal_strlit("/events");
    assert("/"@.len() == 1);
}

} // verus!
