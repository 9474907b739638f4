use vstd::prelude::*;

use crate::json::{encode_records, parse_record, spec_encode_list, spec_parse_record};
use crate::store::{spec_add, Store};

verus! {

/// The request methods the service tells apart.  Anything but a read or a
/// write of records counts as `Other` and falls through to not-found.
#[derive(Clone, Copy, PartialEq, Eq, Structural, Debug)]
pub enum Method {
    Get,
    Post,
    Other,
}

/// What the service reads of an incoming request: the method, the path, and
/// the body text.
#[derive(Debug)]
pub struct Request {
    pub method: Method,
    pub path: String,
    pub body: String,
}

/// A finished response: the status code and the body text.
#[derive(Debug)]
pub struct Response {
    pub status: u16,
    pub body: String,
}

/// The greeting route: a read of the root path.
pub open spec fn is_greeting(m: Method, path: Seq<char>) -> bool {
    m == Method::Get && path == "/"@
}

/// The listing route: a read of the records path.
pub open spec fn is_list(m: Method, path: Seq<char>) -> bool {
    m == Method::Get && path == "/beers"@
}

/// The insertion route: a write to the records path.
pub open spec fn is_add(m: Method, path: Seq<char>) -> bool {
    m == Method::Post && path == "/beers"@
}

/// Serve one request against the store.
///
/// The greeting route answers with its fixed text; the listing route answers
/// with the store's contents encoded as a JSON array and changes nothing; a
/// well-formed insertion puts the record in (a repeat insertion changes
/// nothing) and answers created either way; a malformed insertion body is
/// rejected and leaves the store untouched; every other request is not found.
pub fn handle(store: &mut Store, req: &Request) -> (resp: Response)
    requires
        old(store).wf(),
    ensures
        final(store).wf(),
        is_greeting(req.method, req.path@) ==> resp.status == 200 && resp.body@
            == "Habe die Ehre!"@ && final(store)@ == old(store)@,
        is_list(req.method, req.path@) ==> resp.status == 200 && resp.body@ == spec_encode_list(
            old(store)@,
        ) && final(store)@ == old(store)@,
        is_add(req.method, req.path@) && spec_parse_record(req.body@) is Some ==> resp.status
            == 201 && resp.body@ == Seq::<char>::empty() && final(store)@ == spec_add(
            old(store)@,
            spec_parse_record(req.body@).unwrap(),
        ),
        is_add(req.method, req.path@) && spec_parse_record(req.body@) is None ==> resp.status
            == 400 && resp.body@ == Seq::<char>::empty() && final(store)@ == old(store)@,
        !is_greeting(req.method, req.path@) && !is_list(req.method, req.path@) && !is_add(
            req.method,
            req.path@,
        ) ==> resp.status == 404 && resp.body@ == Seq::<char>::empty() && final(store)@ == old(
            store,
        )@,
{
    proof {
        reveal_strlit("/");
        reveal_strlit("/beers");
        assert("/"@.len() == 1);
        assert("/beers"@.len() == 6);
        assert("/"@ != "/beers"@);
    }
    let root = String::from_str("/");
    let beers = String::from_str("/beers");
    match req.method {
        Method::Get => {
            if req.path == root {
                Response { status: 200, body: String::from_str("Habe die Ehre!") }
            } else if req.path == beers {
                let body = encode_records(&*store);
                Response { status: 200, body }
            } else {
                Response { status: 404, body: String::new() }
            }
        },
        Method::Post => {
            if req.path == beers {
                match parse_record(req.body.as_str()) {
                    Some(b) => {
                        store.add(b);
                        Response { status: 201, body: String::new() }
                    },
                    None => Response { status: 400, body: String::new() },
                }
            } else {
                Response { status: 404, body: String::new() }
            }
        },
        Method::Other => Response { status: 404, body: String::new() },
    }
}

} // verus!
