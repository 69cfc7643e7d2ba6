use harbor::route::{route, Route};

#[test]
fn root_path_gets_the_greeting() {
    let page = route("GET / HTTP/1.1");
    assert_eq!(page, Route::Hello);
    assert_eq!(page.status_line(), "HTTP/1.1 200 OK");
    assert_eq!(page.file_name(), "hello.html");
    assert_eq!(page.delay_seconds(), 0);
}

#[test]
fn sleep_path_gets_the_greeting_after_a_pause() {
    let page = route("GET /sleep HTTP/1.1");
    assert_eq!(page, Route::SlowHello);
    assert_eq!(page.status_line(), "HTTP/1.1 200 OK");
    assert_eq!(page.file_name(), "hello.html");
    assert_eq!(page.delay_seconds(), 5);
}

#[test]
fn any_other_request_is_not_found() {
    for line in ["GET /nonexistent HTTP/1.1", "", "GET / HTTP/1.0", "POST / HTTP/1.1", "GET /sleep"] {
        let page = route(line);
        assert_eq!(page, Route::NotFound);
        assert_eq!(page.status_line(), "HTTP/1.1 404 NOT FOUND");
        assert_eq!(page.file_name(), "notFound.html");
        assert_eq!(page.delay_seconds(), 0);
    }
}
