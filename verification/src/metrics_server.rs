//! What is answered to those who come for the metrics.

use crate::snapshot::mgmt_server::setting;
use crate::text::same;
use vstd::prelude::*;

verus! {

/// Where metrics are offered unless something else is said.
pub const DEFAULT_METRICS_ADDR: &'static str = "127.0.0.1:9090";

/// The environment variable that says where metrics are offered.
pub const METRICS_ADDR_ENV: &'static str = "KUASAR_METRICS_ADDR";

/// The format in which metrics are offered.
pub const METRICS_CONTENT_TYPE: &'static str = "text/plain; version=0.0.4; charset=utf-8";

/// Where metrics are offered, from the environment variable. Set to nothing, it
/// switches them off.
pub fn metrics_addr(env: Option<&str>) -> (r: Option<String>)
    ensures
        match r {
            Some(addr) => addr@ == (match env {
                Some(v) => v@,
                None => DEFAULT_METRICS_ADDR@,
            }) && addr@.len() > 0,
            None => env matches Some(v) && v@.len() == 0,
        },
{
    proof {
        reveal_strlit("127.0.0.1:9090");
    }
    setting(env, DEFAULT_METRICS_ADDR)
}

/// What is answered.
pub struct Reply {
    pub status: u16,
    pub content_type: Option<String>,
    pub body: String,
}

/// What is answered.
pub open spec fn reply_to(path: Seq<char>, gathered: Result<Seq<char>, Seq<char>>) -> (
    u16,
    Option<Seq<char>>,
    Seq<char>,
) {
    if path == "/metrics"@ {
        match gathered {
            Ok(text) => (200, Some(METRICS_CONTENT_TYPE@), text),
            Err(e) => (500, None, e),
        }
    } else if path == "/healthz"@ {
        (200, None, "ok"@)
    } else {
        (404, None, "not found\n"@)
    }
}

/// The metrics are given under their path, whole and as what they are, and what went wrong
/// with them as a failure; health is answered whatever became of the metrics; and nothing
/// else is found.
pub proof fn lemma_who_is_answered(path: Seq<char>, gathered: Result<Seq<char>, Seq<char>>)
    ensures
        ({
            let (status, content_type, body) = reply_to(path, gathered);
            let metrics = path == "/metrics"@;
            let health = path == "/healthz"@;
            &&& status == 200 <==> (metrics && gathered is Ok) || health
            &&& status == 500 <==> metrics && gathered is Err
            &&& status == 404 <==> !metrics && !health
            &&& metrics && gathered is Ok ==> body == gathered->Ok_0
            &&& metrics && gathered is Err ==> body == gathered->Err_0
            &&& content_type is Some <==> metrics && gathered is Ok
            &&& content_type is Some ==> content_type->0 == METRICS_CONTENT_TYPE@
        }),
{
    reveal_strlit("/metrics");
    reveal_strlit("/healthz");
    assert("/metrics"@[1] == 'm' && "/healthz"@[1] == 'h');
}

/// What is answered to a request for a path. The metrics are gathered only where
/// they are asked for.
pub fn handle(path: &str, gathered: Result<String, String>) -> (r: Reply)
    ensures
        (
            r.status,
            match r.content_type {
                Some(t) => Some(t@),
                None => None,
            },
            r.body@,
        ) == reply_to(
            path@,
            match gathered {
                Ok(text) => Ok(text@),
                Err(e) => Err(e@),
            },
        ),
{
    if same(path, "/metrics") {
        match gathered {
            Ok(text) => Reply {
                status: 200,
                content_type: Some(METRICS_CONTENT_TYPE.to_owned()),
                body: text,
            },
            Err(e) => Reply { status: 500, content_type: None, body: e },
        }
    } else if same(path, "/healthz") {
        Reply { status: 200, content_type: None, body: "ok".to_owned() }
    } else {
        Reply { status: 404, content_type: None, body: "not found\n".to_owned() }
    }
}

} // verus!
