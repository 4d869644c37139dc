//! The CoAP method/path router: which handler an inbound request reaches.
//!
//! The mapping is bit-exact. Exact paths are matched byte-for-byte against
//! the request path's UTF-8 bytes; the per-skill resource paths are matched
//! by prefix, and the skill identifier is the remainder of the path.
use vstd::prelude::*;

use vstd::utf8::encode_utf8;
use vstd::utf8::valid_utf8;
use vstd::utf8::is_char_boundary;

verus! {

/// A CoAP request method, as far as the registry distinguishes them.
#[derive(Clone, Copy, Debug, PartialEq, Eq, Structural)]
pub enum Method {
    Get,
    Post,
    Put,
    Delete,
    /// Any other method; always answered 4.05.
    Other,
}

/// Where a request is routed.
#[derive(Debug, PartialEq)]
pub enum Route {
    /// POST `vap/skillRegistry/connect`
    Connect,
    /// POST `vap/skillRegistry/registerIntents`
    RegisterIntents,
    /// POST `vap/skillRegistry/notification`
    Notification,
    /// GET `vap/skillRegistry/query`
    Query,
    /// GET `.well-known/core`
    WellKnown,
    /// GET below `vap/skillRegistry/skills/`: the observe resource,
    /// answered 2.05 with an empty body.
    SkillGet,
    /// PUT below `vap/skillRegistry/skills/`: the observe trigger, answered
    /// 2.03 with an empty body.
    SkillPut,
    /// DELETE `vap/skillRegistry/skills/{id}`: detach the named skill.
    SkillDelete(String),
    /// Anything else: answered 4.05.
    NotFound,
}

/// In a valid UTF-8 byte string, the position after an all-ASCII prefix is
/// a character boundary.
proof fn lemma_ascii_prefix_boundary(bytes: Seq<u8>, k: int)
    requires
        valid_utf8(bytes),
        0 <= k <= bytes.len(),
        forall|i: int| 0 <= i < k ==> bytes[i] < 0x80,
    ensures
        is_char_boundary(bytes, k),
    decreases k,
{
    vstd::utf8::utf8_byte_ranges_bitwise(if k > 0 {
        bytes[0]
    } else {
        0
    });
    if k > 0 {
        reveal_with_fuel(valid_utf8, 2);
        assert(vstd::utf8::length_of_first_scalar(bytes) == 1);
        lemma_ascii_prefix_boundary(vstd::utf8::pop_first_scalar(bytes), k - 1);
        assert forall|i: int|
            0 <= i < k - 1 implies vstd::utf8::pop_first_scalar(bytes)[i] < 0x80 by {
            assert(vstd::utf8::pop_first_scalar(bytes)[i] == bytes[i + 1]);
        }
    }
}


/// The route literals are pairwise distinguishable, and the two
/// exact-match GET paths are too short to carry the skills prefix.
proof fn literal_facts()
    ensures
        "vap/skillRegistry/connect"@ != "vap/skillRegistry/registerIntents"@,
        "vap/skillRegistry/connect"@ != "vap/skillRegistry/notification"@,
        "vap/skillRegistry/registerIntents"@ != "vap/skillRegistry/notification"@,
        "vap/skillRegistry/query"@ != ".well-known/core"@,
        !skills_prefix().is_prefix_of(encode_utf8("vap/skillRegistry/query"@)),
        !skills_prefix().is_prefix_of(encode_utf8(".well-known/core"@)),
{
    reveal_strlit("vap/skillRegistry/connect");
    reveal_strlit("vap/skillRegistry/registerIntents");
    reveal_strlit("vap/skillRegistry/notification");
    reveal_strlit("vap/skillRegistry/query");
    reveal_strlit(".well-known/core");
    reveal_strlit("vap/skillRegistry/skills/");
    assert(("vap/skillRegistry/connect"@).len() == 25);
    assert(("vap/skillRegistry/registerIntents"@).len() == 33);
    assert(("vap/skillRegistry/notification"@).len() == 30);
    assert(("vap/skillRegistry/query"@).len() == 23);
    assert((".well-known/core"@).len() == 16);
    assert(vstd::utf8::is_ascii_chars("vap/skillRegistry/query"@));
    assert(vstd::utf8::is_ascii_chars(".well-known/core"@));
    assert(vstd::utf8::is_ascii_chars("vap/skillRegistry/skills/"@));
    vstd::utf8::is_ascii_chars_encode_utf8("vap/skillRegistry/query"@);
    vstd::utf8::is_ascii_chars_encode_utf8(".well-known/core"@);
    vstd::utf8::is_ascii_chars_encode_utf8("vap/skillRegistry/skills/"@);
    assert(encode_utf8("vap/skillRegistry/query"@).len() == 23);
    assert(encode_utf8(".well-known/core"@).len() == 16);
    assert(skills_prefix().len() == 25);
}

/// Whether `p` is a prefix of `b`.
fn bytes_has_prefix(b: &Vec<u8>, p: &Vec<u8>) -> (r: bool)
    ensures
        r == p@.is_prefix_of(b@),
{
    let np = p.len();
    let nb = b.len();
    if np > nb {
        proof {
            assert(!p@.is_prefix_of(b@));
        }
        return false;
    }
    let mut i: usize = 0;
    while i < np
        invariant
            0 <= i <= np,
            np == p@.len() <= b@.len() == nb,
            forall|j: int| 0 <= j < i ==> p@[j] == b@[j],
        decreases np - i,
    {
        if p[i] != b[i] {
            proof {
                assert(!p@.is_prefix_of(b@));
            }
            return false;
        }
        i = i + 1;
    }
    proof {
        assert(p@ =~= b@.subrange(0, np as int));
    }
    true
}

/// Whether two byte strings are equal.
fn bytes_eq(a: &Vec<u8>, b: &Vec<u8>) -> (r: bool)
    ensures
        r == (a@ == b@),
{
    let r = bytes_has_prefix(a, b) && bytes_has_prefix(b, a);
    proof {
        if a@.is_prefix_of(b@) && b@.is_prefix_of(a@) {
            assert(a@ =~= b@);
        }
    }
    r
}

/// The UTF-8 bytes of a string.
fn str_bytes(s: &str) -> (r: Vec<u8>)
    ensures
        r@ == encode_utf8(s@),
{
    vstd::slice::slice_to_vec(s.as_bytes())
}

/// The skills resource prefix, `vap/skillRegistry/skills/`, as bytes.
pub open spec fn skills_prefix() -> Seq<u8> {
    encode_utf8("vap/skillRegistry/skills/"@)
}

/// Routes a request by method and path, exactly as the dispatcher serves
/// it. Exact-path routes are stated over the path's characters; the
/// prefix routes over its UTF-8 bytes.
#[verifier::rlimit(100)]
pub fn route(method: Method, path: &str) -> (r: Route)
    ensures
        r == Route::Connect <==> method == Method::Post && path@ == "vap/skillRegistry/connect"@,
        r == Route::RegisterIntents <==> method == Method::Post && path@
            == "vap/skillRegistry/registerIntents"@,
        r == Route::Notification <==> method == Method::Post && path@
            == "vap/skillRegistry/notification"@,
        r == Route::Query <==> method == Method::Get && path@ == "vap/skillRegistry/query"@,
        r == Route::WellKnown <==> method == Method::Get && path@ == ".well-known/core"@,
        r == Route::SkillGet <==> method == Method::Get && skills_prefix().is_prefix_of(
            encode_utf8(path@),
        ) && path@ != "vap/skillRegistry/query"@,
        r == Route::SkillPut <==> method == Method::Put && skills_prefix().is_prefix_of(
            encode_utf8(path@),
        ),
        r matches Route::SkillDelete(id) ==> method == Method::Delete
            && skills_prefix().is_prefix_of(encode_utf8(path@)) && encode_utf8(id@) == encode_utf8(
            path@,
        ).skip(skills_prefix().len() as int),
        method == Method::Delete && skills_prefix().is_prefix_of(encode_utf8(path@)) ==> r matches
            Route::SkillDelete(id),
{
    proof {
        literal_facts();
    }
    let pb = str_bytes(path);
    match method {
        Method::Get => {
            let skills = str_bytes("vap/skillRegistry/skills/");
            if bytes_has_prefix(&pb, &skills) {
                let query = str_bytes("vap/skillRegistry/query");
                if bytes_eq(&pb, &query) {
                    proof {
                        lemma_utf8_eq(path@, "vap/skillRegistry/query"@);
                    }
                    Route::Query
                } else {
                    proof {
                        lemma_utf8_eq(path@, "vap/skillRegistry/query"@);
                    }
                    Route::SkillGet
                }
            } else {
                let query = str_bytes("vap/skillRegistry/query");
                if bytes_eq(&pb, &query) {
                    proof {
                        lemma_utf8_eq(path@, "vap/skillRegistry/query"@);
                    }
                    Route::Query
                } else {
                    let wk = str_bytes(".well-known/core");
                    if bytes_eq(&pb, &wk) {
                        proof {
                            lemma_utf8_eq(path@, "vap/skillRegistry/query"@);
                            lemma_utf8_eq(path@, ".well-known/core"@);
                        }
                        Route::WellKnown
                    } else {
                        proof {
                            lemma_utf8_eq(path@, "vap/skillRegistry/query"@);
                            lemma_utf8_eq(path@, ".well-known/core"@);
                        }
                        Route::NotFound
                    }
                }
            }
        },
        Method::Post => {
            let c = str_bytes("vap/skillRegistry/connect");
            if bytes_eq(&pb, &c) {
                proof {
                    lemma_utf8_eq(path@, "vap/skillRegistry/connect"@);
                }
                return Route::Connect;
            }
            let ri = str_bytes("vap/skillRegistry/registerIntents");
            if bytes_eq(&pb, &ri) {
                proof {
                    lemma_utf8_eq(path@, "vap/skillRegistry/connect"@);
                    lemma_utf8_eq(path@, "vap/skillRegistry/registerIntents"@);
                }
                return Route::RegisterIntents;
            }
            let no = str_bytes("vap/skillRegistry/notification");
            proof {
                lemma_utf8_eq(path@, "vap/skillRegistry/connect"@);
                lemma_utf8_eq(path@, "vap/skillRegistry/registerIntents"@);
                lemma_utf8_eq(path@, "vap/skillRegistry/notification"@);
            }
            if bytes_eq(&pb, &no) {
                Route::Notification
            } else {
                Route::NotFound
            }
        },
        Method::Put => {
            let skills = str_bytes("vap/skillRegistry/skills/");
            if bytes_has_prefix(&pb, &skills) {
                Route::SkillPut
            } else {
                Route::NotFound
            }
        },
        Method::Delete => {
            let skills = str_bytes("vap/skillRegistry/skills/");
            if bytes_has_prefix(&pb, &skills) {
                let n = skills.len();
                let total = pb.len();
                let mut idb: Vec<u8> = Vec::new();
                let mut i: usize = n;
                while i < total
                    invariant
                        n <= i <= total,
                        total == pb@.len(),
                        idb@ == pb@.subrange(n as int, i as int),
                    decreases total - i,
                {
                    idb.push(pb[i]);
                    proof {
                        assert(idb@ =~= pb@.subrange(n as int, i + 1));
                    }
                    i = i + 1;
                }
                proof {
                    assert(idb@ =~= pb@.skip(n as int));
                    vstd::utf8::encode_utf8_valid_utf8(path@);
                    proof_ascii_literal_prefix();
                    assert forall|j: int| 0 <= j < n implies pb@[j] < 0x80 by {
                        assert(pb@[j] == skills_prefix()[j]);
                    }
                    lemma_ascii_prefix_boundary(pb@, n as int);
                    vstd::utf8::valid_utf8_split(pb@, n as int);
                    assert(pb@.subrange(n as int, pb@.len() as int) =~= idb@);
                }
                let id = match crate::msgpack::string_from_utf8(idb) {
                    Option::Some(s) => s,
                    Option::None => {
                        proof {
                            assert(false);
                        }
                        String::new()
                    },
                };
                Route::SkillDelete(id)
            } else {
                Route::NotFound
            }
        },
        Method::Other => Route::NotFound,
    }
}

/// UTF-8 encoding determines the characters: equal encodings mean equal
/// strings.
proof fn lemma_utf8_eq(a: Seq<char>, b: Seq<char>)
    ensures
        (encode_utf8(a) == encode_utf8(b)) == (a == b),
{
    if encode_utf8(a) == encode_utf8(b) {
        vstd::utf8::encode_utf8_decode_utf8(a);
        vstd::utf8::encode_utf8_decode_utf8(b);
    }
}

/// Every byte of the skills prefix is ASCII.
proof fn proof_ascii_literal_prefix()
    ensures
        forall|j: int| 0 <= j < skills_prefix().len() ==> (#[trigger] skills_prefix()[j]) < 0x80,
        skills_prefix().len() == 25,
{
    reveal_strlit("vap/skillRegistry/skills/");
    let s = "vap/skillRegistry/skills/"@;
    assert(vstd::utf8::is_ascii_chars(s));
    vstd::utf8::is_ascii_chars_encode_utf8(s);
    assert forall|j: int| 0 <= j < skills_prefix().len() implies (#[trigger] skills_prefix()[j])
        < 0x80 by {
        assert(skills_prefix()[j] == s[j] as u8);
        assert((s[j] as u32) < 128);
    }
}

/// The literal answered to `GET /.well-known/core`:
/// `</vap>;rt="vap-skill-registry"`, byte for byte.
pub fn well_known_payload() -> (r: Vec<u8>)
    ensures
        r@ == encode_utf8("</vap>;rt=\"vap-skill-registry\""@),
{
    str_bytes("</vap>;rt=\"vap-skill-registry\"")
}


/// The reply the dispatcher gives at once, without consulting the host:
/// the observe resource answers 2.05 empty, the observe trigger 2.03
/// empty, well-known discovery 2.05 with its literal body, and an unknown
/// method/path combination 4.05 empty. The five handler routes give no
/// immediate reply.
pub fn immediate_response(r: &Route) -> (o: Option<crate::status::Response>)
    ensures
        *r == Route::SkillGet ==> (o matches Some(resp) && resp.status
            == crate::status::ResponseStatus::Content && resp.payload@ == Seq::<u8>::empty()),
        *r == Route::SkillPut ==> (o matches Some(resp) && resp.status
            == crate::status::ResponseStatus::Valid && resp.payload@ == Seq::<u8>::empty()),
        *r == Route::WellKnown ==> (o matches Some(resp) && resp.status
            == crate::status::ResponseStatus::Content && resp.payload@ == encode_utf8(
            "</vap>;rt=\"vap-skill-registry\""@,
        )),
        *r == Route::NotFound ==> (o matches Some(resp) && resp.status
            == crate::status::ResponseStatus::MethodNotAllowed && resp.payload@
            == Seq::<u8>::empty()),
        o is None <==> (*r == Route::Connect || *r == Route::RegisterIntents || *r
            == Route::Notification || *r == Route::Query || r matches Route::SkillDelete(_)),
{
    match r {
        Route::SkillGet => Some(
            crate::status::Response {
                status: crate::status::ResponseStatus::Content,
                payload: Vec::new(),
            },
        ),
        Route::SkillPut => Some(
            crate::status::Response {
                status: crate::status::ResponseStatus::Valid,
                payload: Vec::new(),
            },
        ),
        Route::WellKnown => Some(
            crate::status::Response {
                status: crate::status::ResponseStatus::Content,
                payload: well_known_payload(),
            },
        ),
        Route::NotFound => Some(
            crate::status::Response {
                status: crate::status::ResponseStatus::MethodNotAllowed,
                payload: Vec::new(),
            },
        ),
        _ => None,
    }
}

} // verus!
