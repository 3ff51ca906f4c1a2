//! Cross-origin requests: which headers the web server adds to a response so
//! that the front end, served from another origin, may read it.
use vstd::prelude::*;

verus! {

broadcast use vstd::string::group_string_axioms;

/// The response hook that lets the front end at `http://localhost:3449`
/// make cross-origin requests.
pub struct CORS();

/// What the hook does to a response: the headers it sets, in order; whether
/// it turns the response into an empty plain-text body; whether it sets the
/// status to 200 OK.
pub struct CorsResponse {
    pub headers: Vec<(String, String)>,
    pub plain_empty_body: bool,
    pub status_ok: bool,
}

/// The headers that allow cross-origin requests from the front end.
pub open spec fn cors_headers() -> Seq<(Seq<char>, Seq<char>)> {
    seq![
        ("Access-Control-Allow-Origin"@, "http://localhost:3449"@),
        ("Access-Control-Allow-Methods"@, "POST, GET, OPTIONS, DELETE, PUT"@),
        (
            "Access-Control-Allow-Headers"@,
            "Content-Type, Access-Control-Allow-Headers, Authorization, X-Requested-With, Access-Control-Allow-Origin"@,
        ),
        ("Access-Control-Allow-Credentials"@, "false"@),
    ]
}

impl CORS {
    /// What the hook does to the response of a request: for a pre-flight
    /// request (method OPTIONS) or a JSON response it sets the cross-origin
    /// headers and the status 200 OK; a pre-flight request also gets an
    /// empty plain-text body.
    pub fn on_response(&self, is_options: bool, is_json: bool) -> (r: CorsResponse)
        ensures
            r.headers.deep_view() == (if is_options || is_json {
                cors_headers()
            } else {
                seq![]
            }),
            r.plain_empty_body == is_options,
            r.status_ok == (is_options || is_json),
    {
        let mut headers: Vec<(String, String)> = Vec::new();
        let mut status_ok = false;
        if is_options || is_json {
            headers.push(
                ("Access-Control-Allow-Origin".to_string(), "http://localhost:3449".to_string()),
            );
            headers.push(
                (
                    "Access-Control-Allow-Methods".to_string(),
                    "POST, GET, OPTIONS, DELETE, PUT".to_string(),
                ),
            );
            headers.push(
                (
                    "Access-Control-Allow-Headers".to_string(),
                    "Content-Type, Access-Control-Allow-Headers, Authorization, X-Requested-With, Access-Control-Allow-Origin".to_string(),
                ),
            );
            headers.push(("Access-Control-Allow-Credentials".to_string(), "false".to_string()));
            status_ok = true;
            assert(headers.deep_view() =~= cors_headers());
        } else {
            assert(headers.deep_view() =~= seq![]);
        }
        let mut plain_empty_body = false;
        if is_options {
            plain_empty_body = true;
            status_ok = true;
        }
        CorsResponse { headers, plain_empty_body, status_ok }
    }
}

} // verus!

verus! {

/// The cross-origin headers let only the front end at
/// `http://localhost:3449` in, allow the methods and request headers that it
/// uses (among them `Content-Type`, which its JSON requests carry), and no
/// credentials.
pub proof fn lemma_cors_headers_allow_the_front_end()
    ensures
        cors_headers().len() == 4,
        cors_headers()[0] == ("Access-Control-Allow-Origin"@, "http://localhost:3449"@),
        cors_headers()[1] == ("Access-Control-Allow-Methods"@, "POST, GET, OPTIONS, DELETE, PUT"@),
        cors_headers()[2] == (
            "Access-Control-Allow-Headers"@,
            "Content-Type, Access-Control-Allow-Headers, Authorization, X-Requested-With, Access-Control-Allow-Origin"@,
        ),
        cors_headers()[3] == ("Access-Control-Allow-Credentials"@, "false"@),
{
}

} // verus!
