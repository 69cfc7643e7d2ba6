//! Routing for the small web server that feeds the pool: which page
//! answers a request line.

use vstd::prelude::*;

verus! {

/// The page that answers a request.
#[derive(Clone, Copy, Debug, PartialEq, Eq, Structural)]
pub enum Route {
    /// The greeting page.
    Hello,
    /// The greeting page, served after a pause.
    SlowHello,
    /// The page for every other request.
    NotFound,
}

/// The page that answers the request line `line`.
pub open spec fn route_of(line: Seq<char>) -> Route {
    if line == "GET / HTTP/1.1"@ {
        Route::Hello
    } else if line == "GET /sleep HTTP/1.1"@ {
        Route::SlowHello
    } else {
        Route::NotFound
    }
}

/// Whether two strings hold the same text.
fn same_text(a: &str, b: &str) -> (same: bool)
    ensures
        same == (a@ == b@),
{
    let left = a.to_owned();
    let right = b.to_owned();
    left == right
}

/// Picks the page for a request line: the root path gets the greeting, the
/// path `/sleep` gets it after a pause, and anything else is not found.
pub fn route(request_line: &str) -> (page: Route)
    ensures
        page == route_of(request_line@),
{
    if same_text(request_line, "GET / HTTP/1.1") {
        Route::Hello
    } else if same_text(request_line, "GET /sleep HTTP/1.1") {
        Route::SlowHello
    } else {
        Route::NotFound
    }
}

impl Route {
    /// The status line of the response.
    pub fn status_line(self) -> (line: &'static str)
        ensures
            line@ == (if self is NotFound {
                "HTTP/1.1 404 NOT FOUND"@
            } else {
                "HTTP/1.1 200 OK"@
            }),
    {
        match self {
            Route::Hello => "HTTP/1.1 200 OK",
            Route::SlowHello => "HTTP/1.1 200 OK",
            Route::NotFound => "HTTP/1.1 404 NOT FOUND",
        }
    }

    /// The file whose contents are the body of the response.
    pub fn file_name(self) -> (name: &'static str)
        ensures
            name@ == (if self is NotFound {
                "notFound.html"@
            } else {
                "hello.html"@
            }),
    {
        match self {
            Route::Hello => "hello.html",
            Route::SlowHello => "hello.html",
            Route::NotFound => "notFound.html",
        }
    }

    /// How many seconds to pause before answering.
    pub fn delay_seconds(self) -> (seconds: u64)
        ensures
            seconds == (if self is SlowHello {
                5u64
            } else {
                0u64
            }),
    {
        match self {
            Route::SlowHello => 5,
            _ => 0,
        }
    }
}

} // verus!
