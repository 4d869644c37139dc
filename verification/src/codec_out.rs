//! Encoders for the registry's outbound messages: the activation pushed to
//! a skill and the answer to a notification batch.
use vstd::prelude::*;

use crate::codec::enc_key;
use crate::codec::enc_kv_str;
use crate::codec::enc_kv_uint;
use crate::codec::enc_opt_str;
use crate::codec::enc_seq_of;
use crate::codec::lemma_enc_seq_of_push;
use crate::codec::opt_str_ok;
use crate::codec::put_key;
use crate::codec::put_opt_str;
use crate::msgpack::enc_arrhead;
use crate::msgpack::enc_maphead;
use crate::msgpack::put_arrhead;
use crate::msgpack::put_maphead;
use crate::msgpack::put_str;
use crate::msgpack::put_uint;
use crate::msgpack::str_ok;
use crate::structures::MsgNotificationResponse;
use crate::structures::MsgSkillRequest;
use crate::structures::NotifyResponseData;
use crate::structures::ClientData;
use crate::structures::RequestData;
use crate::structures::RequestDataKind;
use crate::structures::SpecClientData;
use crate::structures::SpecClientDataCapability;
use crate::structures::SpecMsgNotificationResponse;
use crate::structures::SpecMsgSkillRequest;
use crate::structures::SpecNotifyResponseData;
use crate::structures::SpecRequestData;
use crate::structures::SpecRequestSlot;

verus! {

/// An ASCII key of bounded length fits the wire format.
proof fn key_ok(s: Seq<char>)
    requires
        vstd::utf8::is_ascii_chars(s),
        s.len() < 0x100000000,
    ensures
        str_ok(s),
{
    vstd::utf8::is_ascii_chars_encode_utf8(s);
}

// ---------------------------------------------------------------------------
// skill request (outbound)
// ---------------------------------------------------------------------------

/// The wire name of a request kind.
pub open spec fn kind_str(k: RequestDataKind) -> Seq<char> {
    match k {
        RequestDataKind::Intent => "intent"@,
        RequestDataKind::Event => "event"@,
        RequestDataKind::CanAnswer => "canAnswer"@,
    }
}

pub open spec fn enc_client_cap(c: SpecClientDataCapability) -> Seq<u8> {
    enc_maphead(2) + enc_kv_str("name"@, c.name) + enc_kv_uint("version"@, c.version as u64)
}

pub open spec fn client_cap_ok(c: SpecClientDataCapability) -> bool {
    str_ok(c.name)
}

pub open spec fn enc_client(c: SpecClientData) -> Seq<u8> {
    enc_maphead(2) + enc_kv_str("systemId"@, c.system_id) + enc_key("capabilities"@) + enc_arrhead(
        c.capabilities.len() as u64,
    ) + enc_seq_of(c.capabilities, |x: SpecClientDataCapability| enc_client_cap(x))
}

pub open spec fn client_ok(c: SpecClientData) -> bool {
    str_ok(c.system_id) && c.capabilities.len() < 0x100000000 && (forall|i: int|
        0 <= i < c.capabilities.len() ==> client_cap_ok(#[trigger] c.capabilities[i]))
}

pub open spec fn enc_slot(s: SpecRequestSlot) -> Seq<u8> {
    enc_maphead(2) + enc_kv_str("name"@, s.name) + enc_key("value"@) + enc_opt_str(s.value)
}

pub open spec fn slot_ok(s: SpecRequestSlot) -> bool {
    str_ok(s.name) && opt_str_ok(s.value)
}

pub open spec fn enc_request_data(r: SpecRequestData) -> Seq<u8> {
    enc_maphead(4) + enc_kv_str("type"@, kind_str(r.type_)) + enc_kv_str("intent"@, r.intent)
        + enc_kv_str("locale"@, r.locale) + enc_key("slots"@) + enc_arrhead(r.slots.len() as u64)
        + enc_seq_of(r.slots, |x: SpecRequestSlot| enc_slot(x))
}

pub open spec fn request_data_ok(r: SpecRequestData) -> bool {
    str_ok(r.intent) && str_ok(r.locale) && r.slots.len() < 0x100000000 && (forall|i: int|
        0 <= i < r.slots.len() ==> slot_ok(#[trigger] r.slots[i]))
}

/// The encoding of an outbound activation or probe.
pub open spec fn enc_skill_request(m: SpecMsgSkillRequest) -> Seq<u8> {
    enc_maphead(3) + enc_kv_uint("requestId"@, m.request_id) + enc_key("client"@) + enc_client(
        m.client,
    ) + enc_key("request"@) + enc_request_data(m.request)
}

pub open spec fn skill_request_ok(m: SpecMsgSkillRequest) -> bool {
    client_ok(m.client) && request_data_ok(m.request)
}

/// The wire name of a request kind.
pub fn kind_name(k: RequestDataKind) -> (r: &'static str)
    ensures
        r@ == kind_str(k),
{
    match k {
        RequestDataKind::Intent => "intent",
        RequestDataKind::Event => "event",
        RequestDataKind::CanAnswer => "canAnswer",
    }
}

/// Appends the encoding of the client record.
#[verifier::rlimit(100)]
fn put_client(out: &mut Vec<u8>, c: &ClientData)
    requires
        client_ok(c@),
    ensures
        final(out)@ == old(out)@ + enc_client(c@),
{
    proof {
        reveal_strlit("systemId");
        key_ok("systemId"@);
        reveal_strlit("capabilities");
        key_ok("capabilities"@);
        reveal_strlit("name");
        key_ok("name"@);
        reveal_strlit("version");
        key_ok("version"@);
    }
    put_maphead(out, 2);
    put_key(out, "systemId");
    put_str(out, c.system_id.as_str());
    put_key(out, "capabilities");
    let ncaps = c.capabilities.len();
    put_arrhead(out, ncaps as u64);
    let ghost caps = c@.capabilities;
    let ghost capf = |x: SpecClientDataCapability| enc_client_cap(x);
    let ghost head = old(out)@ + enc_maphead(2) + enc_kv_str("systemId"@, c@.system_id) + enc_key(
        "capabilities"@,
    ) + enc_arrhead(caps.len() as u64);
    proof {
        assert(out@ =~= head + enc_seq_of(caps.take(0), capf));
    }
    let mut i: usize = 0;
    while i < ncaps
        invariant
            0 <= i <= ncaps,
            ncaps == caps.len(),
            caps == c@.capabilities,
            capf == (|x: SpecClientDataCapability| enc_client_cap(x)),
            client_ok(c@),
            out@ == head + enc_seq_of(caps.take(i as int), capf),
            str_ok("name"@),
            str_ok("version"@),
        decreases ncaps - i,
    {
        let cc = &c.capabilities[i];
        proof {
            assert(caps[i as int] == c.capabilities@[i as int].deep_view());
            assert(client_cap_ok(caps[i as int]));
            assert(capf(caps[i as int]) == enc_client_cap(caps[i as int]));
        }
        put_maphead(out, 2);
        put_key(out, "name");
        put_str(out, cc.name.as_str());
        put_key(out, "version");
        put_uint(out, cc.version as u64);
        proof {
            lemma_enc_seq_of_push(caps.take(i as int), capf, caps[i as int]);
            assert(caps.take(i + 1) =~= caps.take(i as int).push(caps[i as int]));
            assert(out@ =~= head + enc_seq_of(caps.take(i + 1), capf));
        }
        i = i + 1;
    }
    proof {
        assert(caps.take(ncaps as int) =~= caps);
        assert(out@ =~= old(out)@ + enc_client(c@));
    }
}

/// Appends the encoding of the request body.
#[verifier::rlimit(100)]
fn put_request_data(out: &mut Vec<u8>, r: &RequestData)
    requires
        request_data_ok(r@),
    ensures
        final(out)@ == old(out)@ + enc_request_data(r@),
{
    proof {
        reveal_strlit("type");
        key_ok("type"@);
        reveal_strlit("intent");
        key_ok("intent"@);
        reveal_strlit("locale");
        key_ok("locale"@);
        reveal_strlit("slots");
        key_ok("slots"@);
        reveal_strlit("name");
        key_ok("name"@);
        reveal_strlit("value");
        key_ok("value"@);
        reveal_strlit("event");
        key_ok("event"@);
        reveal_strlit("canAnswer");
        key_ok("canAnswer"@);
        assert(str_ok(kind_str(r@.type_)));
    }
    put_maphead(out, 4);
    put_key(out, "type");
    put_str(out, kind_name(r.type_));
    put_key(out, "intent");
    put_str(out, r.intent.as_str());
    put_key(out, "locale");
    put_str(out, r.locale.as_str());
    put_key(out, "slots");
    let nslots = r.slots.len();
    put_arrhead(out, nslots as u64);
    let ghost slots = r@.slots;
    let ghost slotf = |x: SpecRequestSlot| enc_slot(x);
    let ghost head = old(out)@ + enc_maphead(4) + enc_kv_str("type"@, kind_str(r@.type_))
        + enc_kv_str("intent"@, r@.intent) + enc_kv_str("locale"@, r@.locale) + enc_key("slots"@)
        + enc_arrhead(slots.len() as u64);
    proof {
        assert(out@ =~= head + enc_seq_of(slots.take(0), slotf));
    }
    let mut i: usize = 0;
    while i < nslots
        invariant
            0 <= i <= nslots,
            nslots == slots.len(),
            slots == r@.slots,
            slotf == (|x: SpecRequestSlot| enc_slot(x)),
            request_data_ok(r@),
            out@ == head + enc_seq_of(slots.take(i as int), slotf),
            str_ok("name"@),
            str_ok("value"@),
        decreases nslots - i,
    {
        let sl = &r.slots[i];
        proof {
            assert(slots[i as int] == r.slots@[i as int].deep_view());
            assert(slot_ok(slots[i as int]));
            assert(slotf(slots[i as int]) == enc_slot(slots[i as int]));
        }
        put_maphead(out, 2);
        put_key(out, "name");
        put_str(out, sl.name.as_str());
        put_key(out, "value");
        put_opt_str(out, &sl.value);
        proof {
            lemma_enc_seq_of_push(slots.take(i as int), slotf, slots[i as int]);
            assert(slots.take(i + 1) =~= slots.take(i as int).push(slots[i as int]));
            assert(out@ =~= head + enc_seq_of(slots.take(i + 1), slotf));
        }
        i = i + 1;
    }
    proof {
        assert(slots.take(nslots as int) =~= slots);
        assert(out@ =~= old(out)@ + enc_request_data(r@));
    }
}

/// Encodes a `MsgSkillRequest`, the body of a push to a skill.
#[verifier::rlimit(100)]
pub fn encode_skill_request(m: &MsgSkillRequest) -> (r: Vec<u8>)
    requires
        skill_request_ok(m@),
    ensures
        r@ == enc_skill_request(m@),
{
    proof {
        reveal_strlit("requestId");
        key_ok("requestId"@);
        reveal_strlit("client");
        key_ok("client"@);
        reveal_strlit("request");
        key_ok("request"@);
    }
    let mut out: Vec<u8> = Vec::new();
    put_maphead(&mut out, 3);
    put_key(&mut out, "requestId");
    put_uint(&mut out, m.request_id);
    put_key(&mut out, "client");
    put_client(&mut out, &m.client);
    put_key(&mut out, "request");
    put_request_data(&mut out, &m.request);
    proof {
        assert(out@ =~= enc_skill_request(m@));
    }
    out
}

// ---------------------------------------------------------------------------
// notification response (outbound)
// ---------------------------------------------------------------------------

/// The encoding of one per-datum answer.
pub open spec fn enc_nrd(d: SpecNotifyResponseData) -> Seq<u8> {
    match d {
        SpecNotifyResponseData::Requested { request_id, code } => enc_maphead(3) + enc_kv_str(
            "type"@,
            "requested"@,
        ) + enc_kv_uint("requestId"@, request_id) + enc_kv_uint("code"@, code as u64),
        SpecNotifyResponseData::StandAlone { client_id, code } => enc_maphead(3) + enc_kv_str(
            "type"@,
            "standalone"@,
        ) + enc_kv_str("clientId"@, client_id) + enc_kv_uint("code"@, code as u64),
        SpecNotifyResponseData::CanYouAnswer { request_id, code } => enc_maphead(3) + enc_kv_str(
            "type"@,
            "canYouAnswer"@,
        ) + enc_kv_uint("requestId"@, request_id) + enc_kv_uint("code"@, code as u64),
    }
}

pub open spec fn nrd_ok(d: SpecNotifyResponseData) -> bool {
    match d {
        SpecNotifyResponseData::StandAlone { client_id, .. } => str_ok(client_id),
        _ => true,
    }
}

/// The encoding of the registry's answer to a notification batch.
pub open spec fn enc_notification_response(m: SpecMsgNotificationResponse) -> Seq<u8> {
    enc_maphead(1) + enc_key("data"@) + enc_arrhead(m.data.len() as u64) + enc_seq_of(
        m.data,
        |d: SpecNotifyResponseData| enc_nrd(d),
    )
}

pub open spec fn notification_response_ok(m: SpecMsgNotificationResponse) -> bool {
    m.data.len() < 0x100000000 && (forall|i: int|
        0 <= i < m.data.len() ==> nrd_ok(#[trigger] m.data[i]))
}


/// Appends the encoding of one per-datum answer.
#[verifier::rlimit(100)]
fn put_nrd(out: &mut Vec<u8>, d: &NotifyResponseData)
    requires
        nrd_ok(d.deep_view()),
    ensures
        final(out)@ == old(out)@ + enc_nrd(d.deep_view()),
{
    proof {
        reveal_strlit("type");
        key_ok("type"@);
        reveal_strlit("requestId");
        key_ok("requestId"@);
        reveal_strlit("clientId");
        key_ok("clientId"@);
        reveal_strlit("code");
        key_ok("code"@);
        reveal_strlit("requested");
        key_ok("requested"@);
        reveal_strlit("standalone");
        key_ok("standalone"@);
        reveal_strlit("canYouAnswer");
        key_ok("canYouAnswer"@);
    }
        match d {
            NotifyResponseData::Requested { request_id, code } => {
                put_maphead(out, 3);
                put_key(out, "type");
                put_str(out, "requested");
                put_key(out, "requestId");
                put_uint(out, *request_id);
                put_key(out, "code");
                put_uint(out, *code as u64);
            },
            NotifyResponseData::StandAlone { client_id, code } => {
                put_maphead(out, 3);
                put_key(out, "type");
                put_str(out, "standalone");
                put_key(out, "clientId");
                put_str(out, client_id.as_str());
                put_key(out, "code");
                put_uint(out, *code as u64);
            },
            NotifyResponseData::CanYouAnswer { request_id, code } => {
                put_maphead(out, 3);
                put_key(out, "type");
                put_str(out, "canYouAnswer");
                put_key(out, "requestId");
                put_uint(out, *request_id);
                put_key(out, "code");
                put_uint(out, *code as u64);
            },
        }
    proof {
        assert(out@ =~= old(out)@ + enc_nrd(d.deep_view()));
    }
}

/// Encodes a `MsgNotificationResponse`: the per-datum answers mirror the
/// batch, in order.
#[verifier::rlimit(100)]
pub fn encode_notification_response(m: &MsgNotificationResponse) -> (r: Vec<u8>)
    requires
        notification_response_ok(m@),
    ensures
        r@ == enc_notification_response(m@),
{
    let mut out: Vec<u8> = Vec::new();
    proof {
        reveal_strlit("data");
        key_ok("data"@);
        reveal_strlit("type");
        key_ok("type"@);
        reveal_strlit("requestId");
        key_ok("requestId"@);
        reveal_strlit("clientId");
        key_ok("clientId"@);
        reveal_strlit("code");
        key_ok("code"@);
        reveal_strlit("requested");
        key_ok("requested"@);
        reveal_strlit("standalone");
        key_ok("standalone"@);
        reveal_strlit("canYouAnswer");
        key_ok("canYouAnswer"@);
    }
    put_maphead(&mut out, 1);
    put_key(&mut out, "data");
    let n = m.data.len();
    put_arrhead(&mut out, n as u64);
    let ghost data = m@.data;
    let ghost f = |d: SpecNotifyResponseData| enc_nrd(d);
    let ghost head = enc_maphead(1) + enc_key("data"@) + enc_arrhead(data.len() as u64);
    proof {
        assert(out@ =~= head + enc_seq_of(data.take(0), f));
    }
    let mut i: usize = 0;
    while i < n
        invariant
            0 <= i <= n,
            n == data.len(),
            data == m@.data,
            f == (|d: SpecNotifyResponseData| enc_nrd(d)),
            notification_response_ok(m@),
            out@ == head + enc_seq_of(data.take(i as int), f),
            str_ok("type"@),
            str_ok("requestId"@),
            str_ok("clientId"@),
            str_ok("code"@),
            str_ok("requested"@),
            str_ok("standalone"@),
            str_ok("canYouAnswer"@),
        decreases n - i,
    {
        proof {
            assert(data[i as int] == m.data@[i as int].deep_view());
            assert(nrd_ok(data[i as int]));
            assert(f(data[i as int]) == enc_nrd(data[i as int]));
        }
        put_nrd(&mut out, &m.data[i]);
        proof {
            lemma_enc_seq_of_push(data.take(i as int), f, data[i as int]);
            assert(data.take(i + 1) =~= data.take(i as int).push(data[i as int]));
            assert(data[i as int] == m.data@[i as int].deep_view());
            assert(out@ =~= head + enc_seq_of(data.take(i + 1), f));
        }
        i = i + 1;
    }
    proof {
        assert(data.take(n as int) =~= data);
        assert(out@ =~= enc_notification_response(m@));
    }
    out
}


} // verus!
