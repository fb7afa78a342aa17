use tj_counter::service::{
    body_text, call, route, subscribed, Body, ContentType, Dispatch, Reply, Route,
    CLIENT_QUEUE_CAPACITY, HTML, INTAKE_CAPACITY, LISTEN_ADDRESS, STATUS_NOT_ACCEPTABLE,
    STATUS_NOT_FOUND, STATUS_OK,
};

fn not_found() -> Dispatch {
    Dispatch::Answer(Reply {
        status: 404,
        content_type: ContentType::Unset,
        allow_any_origin: false,
        keep_alive: false,
        body: Body::Empty,
    })
}

#[test]
fn statuses_are_the_http_ones() {
    assert_eq!(STATUS_OK, 200);
    assert_eq!(STATUS_NOT_FOUND, 404);
    assert_eq!(STATUS_NOT_ACCEPTABLE, 406);
}

#[test]
fn queues_hold_ten() {
    assert_eq!(CLIENT_QUEUE_CAPACITY, 10);
    assert_eq!(INTAKE_CAPACITY, 10);
}

#[test]
fn listens_on_every_interface() {
    assert_eq!(LISTEN_ADDRESS, "0.0.0.0:8182");
}

#[test]
fn get_root_is_the_page() {
    assert_eq!(route("GET", "/"), Route::Page);
    assert_eq!(
        call("GET", "/"),
        Dispatch::Answer(Reply {
            status: 200,
            content_type: ContentType::Html,
            allow_any_origin: false,
            keep_alive: false,
            body: Body::Page,
        })
    );
}

#[test]
fn get_events_asks_for_a_queue_of_ten() {
    assert_eq!(route("GET", "/events"), Route::Events);
    assert_eq!(call("GET", "/events"), Dispatch::Subscribe { capacity: 10 });
}

#[test]
fn get_unknown_is_not_found_and_empty() {
    assert_eq!(route("GET", "/unknown"), Route::NotFound);
    assert_eq!(call("GET", "/unknown"), not_found());
    match call("GET", "/unknown") {
        Dispatch::Answer(reply) => {
            assert_eq!(reply.status, 404);
            assert_eq!(body_text(reply.body), "");
        }
        other => panic!("{:?}", other),
    }
}

#[test]
fn other_methods_on_events_are_not_found() {
    for method in ["POST", "PUT", "DELETE", "HEAD", "OPTIONS", "PATCH", "get", ""] {
        assert_eq!(call(method, "/events"), not_found());
    }
}

#[test]
fn other_methods_on_root_are_not_found() {
    for method in ["POST", "PUT", "DELETE", "HEAD", "Get"] {
        assert_eq!(call(method, "/"), not_found());
    }
}

#[test]
fn paths_are_taken_to_the_letter() {
    for path in ["", "/events/", "/Events", "/event", "//", "/index.html", "events", "/events?x=1"] {
        assert_eq!(call("GET", path), not_found());
    }
}

#[test]
fn accepted_subscription_opens_the_stream() {
    assert_eq!(
        subscribed(true),
        Reply {
            status: 200,
            content_type: ContentType::EventStream,
            allow_any_origin: true,
            keep_alive: true,
            body: Body::Stream,
        }
    );
}

#[test]
fn refused_subscription_is_not_acceptable() {
    assert_eq!(
        subscribed(false),
        Reply {
            status: 406,
            content_type: ContentType::Unset,
            allow_any_origin: false,
            keep_alive: false,
            body: Body::Empty,
        }
    );
}

#[test]
fn page_body_is_the_page() {
    assert_eq!(body_text(Body::Page), HTML);
    assert_eq!(body_text(Body::Empty), "");
    assert_eq!(body_text(Body::Stream), "");
}

#[test]
fn page_listens_for_uptime_events() {
    assert!(HTML.starts_with("<!DOCTYPE html>"));
    assert!(HTML.contains("new EventSource(\"http://127.0.0.1:8182/events\")"));
    assert!(HTML.contains("addEventListener(\"uptime\""));
    assert!(HTML.contains("JSON.parse(e.data)"));
    assert!(HTML.contains("obj.time.split(\"event:\")"));
    assert!(HTML.contains("getElementById('tjcounter')"));
    assert!(HTML.contains("id=\"tjcounter\""));
}
