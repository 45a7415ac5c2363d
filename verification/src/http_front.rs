//! The HTTP frontend's decisions.
//!
//! Each request is a one-shot session: the body becomes the child's
//! single input line, the child's output lines become the response
//! body.  Only the routing rules live here — which methods are
//! served, with what status, and which environment entries the
//! spawned child sees.  The wire protocol itself stays with the
//! surrounding application.

use vstd::prelude::*;
use vstd::slice::slice_to_vec;
use vstd::string::StringExecFns;

use crate::codec::{encode_lines, lemma_frame_all_push, NL};
use crate::session::{pair_views, str_views};

verus! {

/// The request methods the frontend distinguishes.  Everything that
/// is neither `GET` nor `POST` is refused alike.
#[derive(Clone, Copy, PartialEq, Eq, Structural, Debug)]
pub enum HttpMethod {
    Get,
    Post,
    Other,
}

/// The quiet period the HTTP pump grants the child before streaming
/// its output, in milliseconds.
pub const HTTP_QUIET_MS: u64 = 100;

/// The status a request's method earns: served methods answer 200,
/// anything else 404.
pub open spec fn http_status_of(method: HttpMethod) -> u16 {
    if method is Other {
        404
    } else {
        200
    }
}

/// The response status for a method, as [`http_status_of`] rules.
pub fn http_status(method: HttpMethod) -> (r: u16)
    ensures
        r == http_status_of(method),
        r == 404 <==> method is Other,
{
    match method {
        HttpMethod::Other => 404,
        _ => 200,
    }
}

/// Route one request: `GET` and `POST` get a session whose child
/// sees the HTTP type tag and the request path as both client and
/// URI; any other method gets nothing — no child is spawned for it.
pub fn route_request(method: HttpMethod, path: &String) -> (r: Option<Vec<(String, String)>>)
    ensures
        r is Some <==> (method is Get || method is Post),
        r matches Some(env) ==> pair_views(env@) == seq![
            ("H-TYPE"@, "HAMELIN.RS-HTTP-POST-0.1"@),
            ("H-CLIENT"@, path@),
            ("H-URI"@, path@),
        ],
{
    match method {
        HttpMethod::Other => None,
        _ => {
            let mut env: Vec<(String, String)> = Vec::new();
            env.push(
                (String::from_str("H-TYPE"), String::from_str("HAMELIN.RS-HTTP-POST-0.1")),
            );
            env.push((String::from_str("H-CLIENT"), path.clone()));
            env.push((String::from_str("H-URI"), path.clone()));
            proof {
                assert(pair_views(env@) =~= seq![
                    ("H-TYPE"@, "HAMELIN.RS-HTTP-POST-0.1"@),
                    ("H-CLIENT"@, path@),
                    ("H-URI"@, path@),
                ]);
            }
            Some(env)
        },
    }
}

/// The response body for a served request: the child's output lines
/// concatenated, each followed by a newline.
pub fn response_body(lines: &Vec<String>) -> (r: Vec<u8>)
    ensures
        r@ == encode_lines(str_views(lines@)),
{
    let mut r: Vec<u8> = Vec::new();
    let mut i: usize = 0;
    proof {
        assert(str_views(lines@.take(0)) =~= Seq::<Seq<char>>::empty());
        assert(r@ =~= encode_lines(str_views(lines@.take(0))));
    }
    while i < lines.len()
        invariant
            i <= lines@.len(),
            r@ == encode_lines(str_views(lines@.take(i as int))),
        decreases lines@.len() - i,
    {
        let line = vstd::std_specs::vec::vec_index(lines, i);
        let mut bytes = slice_to_vec(line.as_str().as_bytes());
        r.append(&mut bytes);
        r.push(NL);
        i = i + 1;
        proof {
            let prev = str_views(lines@.take(i as int - 1)).map(
                |k: int, l: Seq<char>| vstd::utf8::encode_utf8(l),
            );
            let cur = str_views(lines@.take(i as int)).map(
                |k: int, l: Seq<char>| vstd::utf8::encode_utf8(l),
            );
            assert(cur =~= prev.push(vstd::utf8::encode_utf8(lines@[i as int - 1]@)));
            lemma_frame_all_push(prev, vstd::utf8::encode_utf8(lines@[i as int - 1]@));
            assert(r@ =~= encode_lines(str_views(lines@.take(i as int))));
        }
    }
    proof {
        assert(lines@.take(lines@.len() as int) =~= lines@);
    }
    r
}

} // verus!
