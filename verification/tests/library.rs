use vap_skill_register::capability::{capability_from_name, Capability, CapabilityCode};
use vap_skill_register::codec::{decode_connect, decode_error_status, decode_skill_close, encode_connect, encode_skill_close};
use vap_skill_register::codec_out::{encode_notification_response, encode_skill_request};
use vap_skill_register::framework::{close_outcome, connect_accepted, connect_request, notification_outcome, query_outcome, register_intents_outcome, Error as SkillError, Request, RequestStr};
use vap_skill_register::load::{EntityData, IntentData, LangData, NamedEntity, Scope, ScopeIntent};
use vap_skill_register::registry::{ack_code, assemble_notification_response, can_you_answer_reply, gate_rejection, notification_reply, Correlated, RequestResponse, SkillRegister};
use vap_skill_register::routes::{immediate_response, route, well_known_payload, Method, Route};
use vap_skill_register::status::ResponseStatus;
use vap_skill_register::structures::{
    ClientData, Language, MsgConnect, MsgNotification, MsgSkillClose, MsgSkillRequest, NluDataSlot,
    NotifyData, NotifyResponseData, PlainCapability, RequestData, RequestDataKind, RequestSlot,
};
use vap_skill_register::msgpack::DecodeError;
use vap_skill_register::value_codec::{get_value, get_value_list, put_value};
use vap_skill_register::structures::Value;

fn connect_msg(id: &str, version: &str) -> MsgConnect {
    MsgConnect {
        id: id.to_string(),
        name: "A".to_string(),
        vap_version: version.to_string(),
        unique_authentication_token: Some(String::new()),
    }
}

#[test]
fn s1_attach_accepts_fresh_skill() {
    let mut reg: SkillRegister<u8, u8> = SkillRegister::new();
    let m = connect_msg("com.example.a", "Alpha");
    assert!(reg.connect_gate(&m));
    let push = reg.connect_complete(&m.id, ResponseStatus::Created);
    assert!(push);
    assert!(reg.skill_gate(&"com.example.a".to_string()));
}

#[test]
fn version_gate_rejects_other_versions() {
    let reg: SkillRegister<u8, u8> = SkillRegister::new();
    let m = connect_msg("com.example.a", "Beta");
    assert!(!reg.connect_gate(&m));
}

#[test]
fn attach_uniqueness_until_close() {
    let mut reg: SkillRegister<u8, u8> = SkillRegister::new();
    let m = connect_msg("com.example.a", "Alpha");
    assert!(reg.connect_gate(&m));
    reg.connect_complete(&m.id, ResponseStatus::Created);
    // a second connect for the same id fails while it is attached
    assert!(!reg.connect_gate(&m));
    // after an accepted close the id may attach again
    reg.close_complete(&"com.example.a".to_string(), ResponseStatus::Deleted);
    assert!(reg.connect_gate(&m));
}

#[test]
fn route_gate_rejects_unattached_ids() {
    let reg: SkillRegister<u8, u8> = SkillRegister::new();
    assert!(!reg.skill_gate(&"com.example.missing".to_string()));
}

#[test]
fn s6_detach_removes_record() {
    let mut reg: SkillRegister<u8, u8> = SkillRegister::new();
    let m = connect_msg("com.example.a", "Alpha");
    reg.connect_complete(&m.id, ResponseStatus::Created);
    reg.close_complete(&"com.example.a".to_string(), ResponseStatus::Deleted);
    assert!(!reg.skill_gate(&"com.example.a".to_string()));
}

#[test]
fn rejected_close_keeps_record() {
    let mut reg: SkillRegister<u8, u8> = SkillRegister::new();
    let m = connect_msg("com.example.a", "Alpha");
    reg.connect_complete(&m.id, ResponseStatus::Created);
    reg.close_complete(&"com.example.a".to_string(), ResponseStatus::BadRequest);
    assert!(reg.skill_gate(&"com.example.a".to_string()));
}

fn skill_request() -> MsgSkillRequest {
    MsgSkillRequest {
        request_id: 0,
        client: ClientData { system_id: "vap.SYSTEM".to_string(), capabilities: vec![] },
        request: RequestData {
            type_: RequestDataKind::Intent,
            intent: "hello".to_string(),
            locale: "en-US".to_string(),
            slots: vec![],
        },
    }
}

#[test]
fn s3_s4_round_trip_correlation() {
    let mut reg: SkillRegister<u8, u8> = SkillRegister::new();
    reg.connect_complete(&"com.example.a".to_string(), ResponseStatus::Created);
    let (k, stamped) = reg.activate_prepare(7u8, skill_request());
    assert_eq!(k, 0);
    assert_eq!(stamped.request_id, 0);
    // ids are strictly increasing across activations and probes
    let (k2, _) = reg.probe_prepare(9u8, skill_request());
    assert_eq!(k2, 1);
    let caps = vec![PlainCapability { name: "voice".to_string(), cap_data: vec![] }];
    let msg = MsgNotification {
        skill_id: "com.example.a".to_string(),
        data: vec![NotifyData::Requested { request_id: 0, capabilities: caps }],
    };
    let plan = reg.handle_notification(msg).unwrap();
    assert!(plan.standalone.is_none());
    assert_eq!(plan.correlated.len(), 1);
    match &plan.correlated[0] {
        Correlated::RequestedKnown { request_id, entry, capabilities } => {
            assert_eq!(*request_id, 0);
            assert_eq!(*entry, 7u8);
            assert_eq!(capabilities.len(), 1);
            assert_eq!(capabilities[0].name, "voice");
        }
        _ => panic!("expected a delivered activation"),
    }
}

#[test]
fn s5_unknown_id_gets_per_datum_code() {
    let mut reg: SkillRegister<u8, u8> = SkillRegister::new();
    reg.connect_complete(&"com.example.a".to_string(), ResponseStatus::Created);
    let msg = MsgNotification {
        skill_id: "com.example.a".to_string(),
        data: vec![NotifyData::Requested { request_id: 9999, capabilities: vec![] }],
    };
    let plan = reg.handle_notification(msg).unwrap();
    assert_eq!(plan.correlated.len(), 1);
    match &plan.correlated[0] {
        Correlated::RequestedUnknown { request_id } => assert_eq!(*request_id, 9999),
        _ => panic!("expected an unknown activation"),
    }
    let resp = assemble_notification_response(&plan.correlated, &vec![]);
    assert_eq!(resp.data.len(), 1);
    match &resp.data[0] {
        NotifyResponseData::Requested { request_id, code } => {
            assert_eq!(*request_id, 9999);
            assert_eq!(*code, 400);
        }
        _ => panic!("expected a requested answer"),
    }
}

#[test]
fn batch_order_is_preserved() {
    let mut reg: SkillRegister<u8, u8> = SkillRegister::new();
    reg.connect_complete(&"com.example.a".to_string(), ResponseStatus::Created);
    let (k1, _) = reg.activate_prepare(1u8, skill_request());
    let (k2, _) = reg.probe_prepare(2u8, skill_request());
    let (k3, _) = reg.activate_prepare(3u8, skill_request());
    let msg = MsgNotification {
        skill_id: "com.example.a".to_string(),
        data: vec![
            NotifyData::Requested { request_id: k1, capabilities: vec![] },
            NotifyData::CanYouAnswer { request_id: k2, confidence_bits: 0x3f000000 },
            NotifyData::Requested { request_id: k3 + 100, capabilities: vec![] },
        ],
    };
    let plan = reg.handle_notification(msg).unwrap();
    assert_eq!(plan.correlated.len(), 3);
    // the host acknowledged the one delivered activation with 205
    let resp = assemble_notification_response(&plan.correlated, &vec![205]);
    match &resp.data[0] {
        NotifyResponseData::Requested { request_id, code } => {
            assert_eq!(*request_id, k1);
            assert_eq!(*code, 205);
        }
        _ => panic!("first answer out of order"),
    }
    match &resp.data[1] {
        NotifyResponseData::CanYouAnswer { request_id, code } => {
            assert_eq!(*request_id, k2);
            assert_eq!(*code, 203);
        }
        _ => panic!("second answer out of order"),
    }
    match &resp.data[2] {
        NotifyResponseData::Requested { request_id, code } => {
            assert_eq!(*request_id, k3 + 100);
            assert_eq!(*code, 400);
        }
        _ => panic!("third answer out of order"),
    }
}

#[test]
fn ack_code_defaults_to_content() {
    assert_eq!(ack_code(Some(RequestResponse { code: 201 })), 201);
    assert_eq!(ack_code(None), 205);
}

#[test]
fn well_known_body_is_exact() {
    assert_eq!(well_known_payload(), b"</vap>;rt=\"vap-skill-registry\"".to_vec());
}

#[test]
fn routing_matches_the_table() {
    assert_eq!(route(Method::Post, "vap/skillRegistry/connect"), Route::Connect);
    assert_eq!(route(Method::Post, "vap/skillRegistry/registerIntents"), Route::RegisterIntents);
    assert_eq!(route(Method::Post, "vap/skillRegistry/notification"), Route::Notification);
    assert_eq!(route(Method::Get, "vap/skillRegistry/query"), Route::Query);
    assert_eq!(route(Method::Get, ".well-known/core"), Route::WellKnown);
    assert_eq!(route(Method::Get, "vap/skillRegistry/skills/com.example.a"), Route::SkillGet);
    assert_eq!(route(Method::Put, "vap/skillRegistry/skills/com.example.a"), Route::SkillPut);
    match route(Method::Delete, "vap/skillRegistry/skills/com.example.a") {
        Route::SkillDelete(id) => assert_eq!(id, "com.example.a"),
        r => panic!("unexpected route {:?}", r),
    }
    assert_eq!(route(Method::Post, "vap/skillRegistry/unknown"), Route::NotFound);
    assert_eq!(route(Method::Other, "vap/skillRegistry/connect"), Route::NotFound);
}

#[test]
fn skill_close_codec_round_trips() {
    let m = MsgSkillClose { skill_id: "a".to_string() };
    let bytes = encode_skill_close(&m);
    assert_eq!(
        bytes,
        vec![0x81, 0xa7, b's', b'k', b'i', b'l', b'l', b'I', b'd', 0xa1, b'a']
    );
    let back = decode_skill_close(&bytes).unwrap();
    assert_eq!(back.skill_id, "a");
}

#[test]
fn connect_codec_round_trips() {
    let m = connect_msg("com.example.a", "Alpha");
    let bytes = encode_connect(&m);
    let back = decode_connect(&bytes).unwrap();
    assert_eq!(back, m);
    // a truncated payload is refused
    let cut = bytes[..bytes.len() - 1].to_vec();
    assert!(decode_connect(&cut).is_err());
    // a payload of the wrong shape is refused
    assert!(decode_connect(&vec![0xcc, 0x05]).is_err());
}

#[test]
fn skill_request_encoding_is_exact() {
    let mut m = skill_request();
    m.request_id = 1;
    let bytes = encode_skill_request(&m);
    let mut expect: Vec<u8> = vec![0x83];
    expect.extend(b"\xa9requestId\x01");
    expect.extend(b"\xa6client\x82\xa8systemId\xaavap.SYSTEM\xaccapabilities\x90");
    expect.extend(b"\xa7request\x84\xa4type\xa6intent\xa6intent\xa5hello\xa6locale\xa5en-US\xa5slots\x90");
    assert_eq!(bytes, expect);
}

#[test]
fn notification_response_encoding_is_exact() {
    let m = vap_skill_register::structures::MsgNotificationResponse {
        data: vec![NotifyResponseData::Requested { request_id: 1, code: 203 }],
    };
    let bytes = encode_notification_response(&m);
    let mut expect: Vec<u8> = vec![0x81];
    expect.extend(b"\xa4data\x91\x83\xa4type\xa9requested\xa9requestId\x01\xa4code\xcc\xcb");
    assert_eq!(bytes, expect);
}

#[test]
fn value_encoding_covers_the_kinds() {
    let mut out: Vec<u8> = Vec::new();
    put_value(&mut out, &Value::Nil);
    put_value(&mut out, &Value::Bool(true));
    put_value(&mut out, &Value::U8(5));
    put_value(&mut out, &Value::Text("hi".to_string()));
    put_value(&mut out, &Value::Array(vec![Value::U16(256)]));
    assert_eq!(
        out,
        vec![0xc0, 0xc3, 0xcc, 5, 0xa2, b'h', b'i', 0x91, 0xcd, 0x01, 0x00]
    );
}

#[test]
fn capability_codes_round_trip() {
    let code: CapabilityCode = Capability::Log.into();
    assert_eq!(code.to_u8(), 5);
    let back: Capability = code.into();
    assert_eq!(back, Capability::Log);
    assert_eq!(capability_from_name("SOUND"), Some(Capability::Sound));
    assert_eq!(capability_from_name("nothing"), None);
}

#[test]
fn skill_side_outcomes_match_statuses() {
    assert!(connect_accepted(ResponseStatus::Created));
    assert!(!connect_accepted(ResponseStatus::Content));
    assert_eq!(register_intents_outcome(ResponseStatus::Created), Ok(()));
    assert_eq!(register_intents_outcome(ResponseStatus::BadRequest), Err(SkillError::Unknown));
    assert_eq!(close_outcome(ResponseStatus::Deleted), Ok(()));
    assert_eq!(notification_outcome(ResponseStatus::Valid), Ok(()));
    assert_eq!(notification_outcome(ResponseStatus::Content), Err(SkillError::Unknown));
    assert_eq!(query_outcome(ResponseStatus::BadRequest), Err(SkillError::BadRequest));
    assert_eq!(query_outcome(ResponseStatus::Content), Ok(()));
}

#[test]
fn request_as_str_keeps_kind_and_name() {
    let r = Request::Intent(
        "hello".to_string(),
        vap_skill_register::framework::RequestData { locale: "en-US".to_string(), slots: vec![] },
    );
    match r.as_str() {
        RequestStr::Intent(name, data) => {
            assert_eq!(name, "hello");
            assert_eq!(data.locale, "en-US");
        }
        _ => panic!("kind changed"),
    }
}

#[test]
fn status_codes_are_coap_numbers() {
    assert_eq!(ResponseStatus::Created.code(), 201);
    assert_eq!(ResponseStatus::Valid.code(), 203);
    assert_eq!(ResponseStatus::Content.code(), 205);
    assert_eq!(ResponseStatus::BadRequest.code(), 400);
    assert_eq!(ResponseStatus::MethodNotAllowed.code(), 405);
    assert_eq!(ResponseStatus::RequestEntityIncomplete.code(), 413);
    assert!(ResponseStatus::Created.is_ok_family());
    assert!(!ResponseStatus::BadRequest.is_ok_family());
}

#[test]
fn connect_request_carries_the_version() {
    let m = connect_request("com.example.test".to_string(), "Test".to_string());
    assert_eq!(m.vap_version, "Alpha");
    assert_eq!(m.id, "com.example.test");
    assert_eq!(m.unique_authentication_token, Some(String::new()));
}

#[test]
fn intent_declarations_become_wire_records() {
    let lang = LangData {
        scopes: vec![Scope {
            name: "main".to_string(),
            intents: vec![ScopeIntent {
                name: "hello".to_string(),
                data: IntentData {
                    utterances: vec!["hi there".to_string()],
                    slots: Some(vec![NluDataSlot {
                        name: "who".to_string(),
                        entity: "person".to_string(),
                    }]),
                },
            }],
        }],
        entities: vec![NamedEntity {
            name: "person".to_string(),
            data: EntityData { data: vec![] },
        }],
    };
    let language = Language { country: None, language: "en".to_string(), extra: None };
    let nlu = lang.into_nlu_data(language);
    assert_eq!(nlu.intents.len(), 1);
    assert_eq!(nlu.intents[0].name, "hello");
    assert_eq!(nlu.intents[0].utterances[0].text, "hi there");
    assert_eq!(nlu.intents[0].slots[0].entity, "person");
    assert_eq!(nlu.entities.len(), 1);
    assert_eq!(nlu.entities[0].name, "person");
    assert!(!nlu.entities[0].strict);
}

#[test]
fn request_slots_survive_conversion() {
    let msg = MsgSkillRequest {
        request_id: 3,
        client: ClientData { system_id: "c".to_string(), capabilities: vec![] },
        request: RequestData {
            type_: RequestDataKind::CanAnswer,
            intent: "hello".to_string(),
            locale: "en".to_string(),
            slots: vec![RequestSlot { name: "who".to_string(), value: None }],
        },
    };
    let sr: vap_skill_register::framework::SkillRequest = msg.into();
    assert_eq!(sr.request_id, 3);
    match sr.request {
        Request::CanAnswer(name, data) => {
            assert_eq!(name, "hello");
            assert_eq!(data.slots.len(), 1);
        }
        _ => panic!("kind changed"),
    }
}

#[test]
fn notification_from_unattached_skill_is_rejected() {
    let mut reg: SkillRegister<u8, u8> = SkillRegister::new();
    reg.connect_complete(&"com.example.a".to_string(), ResponseStatus::Created);
    let (k, _) = reg.activate_prepare(7u8, skill_request());
    // the batch names the pending id but comes from a skill never attached
    let msg = MsgNotification {
        skill_id: "com.example.intruder".to_string(),
        data: vec![NotifyData::Requested { request_id: k, capabilities: vec![] }],
    };
    match reg.handle_notification(msg) {
        Err(status) => assert_eq!(status, ResponseStatus::BadRequest),
        Ok(_) => panic!("an unattached skill must be rejected"),
    }
    // the pending entry is still there: the rightful reply resolves it
    let again = MsgNotification {
        skill_id: "com.example.a".to_string(),
        data: vec![NotifyData::Requested { request_id: k, capabilities: vec![] }],
    };
    let plan = reg.handle_notification(again).unwrap();
    assert!(matches!(plan.correlated[0], Correlated::RequestedKnown { .. }));
}

#[test]
fn immediate_responses_match_the_table() {
    let r = immediate_response(&route(Method::Get, "vap/skillRegistry/skills/com.example.a"))
        .unwrap();
    assert_eq!(r.status, ResponseStatus::Content);
    assert!(r.payload.is_empty());
    let r = immediate_response(&route(Method::Put, "vap/skillRegistry/skills/com.example.a"))
        .unwrap();
    assert_eq!(r.status, ResponseStatus::Valid);
    assert!(r.payload.is_empty());
    let r = immediate_response(&route(Method::Get, ".well-known/core")).unwrap();
    assert_eq!(r.status, ResponseStatus::Content);
    assert_eq!(r.payload, b"</vap>;rt=\"vap-skill-registry\"".to_vec());
    let r = immediate_response(&route(Method::Post, "vap/unknown")).unwrap();
    assert_eq!(r.status, ResponseStatus::MethodNotAllowed);
    assert!(immediate_response(&route(Method::Post, "vap/skillRegistry/connect")).is_none());
    // a PUT outside the skills prefix is an unknown combination
    let r = immediate_response(&route(Method::Put, "vap/skillRegistry/connect")).unwrap();
    assert_eq!(r.status, ResponseStatus::MethodNotAllowed);
    // so is a GET outside the table
    let r = immediate_response(&route(Method::Get, "vap/request/1")).unwrap();
    assert_eq!(r.status, ResponseStatus::MethodNotAllowed);
}

#[test]
fn decode_errors_map_to_their_statuses() {
    assert_eq!(decode_error_status(DecodeError::TypeMismatch), ResponseStatus::RequestEntityIncomplete);
    assert_eq!(decode_error_status(DecodeError::Malformed), ResponseStatus::BadRequest);
    assert_eq!(gate_rejection().status, ResponseStatus::BadRequest);
}

#[test]
fn can_you_answer_reply_carries_the_probe() {
    let m = can_you_answer_reply("com.example.a".to_string(), 4, 0x3f800000);
    assert_eq!(m.skill_id, "com.example.a");
    assert_eq!(m.data.len(), 1);
    match &m.data[0] {
        NotifyData::CanYouAnswer { request_id, confidence_bits } => {
            assert_eq!(*request_id, 4);
            assert_eq!(*confidence_bits, 0x3f800000);
        }
        _ => panic!("wrong datum kind"),
    }
}

#[test]
fn notification_reply_is_valid_with_encoded_body() {
    let correlated: Vec<Correlated<u8, u8>> = vec![Correlated::RequestedUnknown {
        request_id: 1,
    }];
    let r = notification_reply(&correlated, &vec![]);
    assert_eq!(r.status, ResponseStatus::Valid);
    let mut expect: Vec<u8> = vec![0x81];
    expect.extend(b"\xa4data\x91\x83\xa4type\xa9requested\xa9requestId\x01\xa4code\xcd\x01\x90");
    assert_eq!(r.payload, expect);
}

#[test]
fn decoders_accept_wider_well_formed_forms() {
    // the id written with a str8 header instead of the minimal fixstr
    let wide = vec![0x81, 0xa7, b's', b'k', b'i', b'l', b'l', b'I', b'd', 0xd9, 0x01, b'a'];
    assert_eq!(decode_skill_close(&wide).unwrap().skill_id, "a");
    // the map header written at sixteen bits
    let wide_map = vec![0xde, 0x00, 0x01, 0xa7, b's', b'k', b'i', b'l', b'l', b'I', b'd', 0xa1, b'a'];
    assert_eq!(decode_skill_close(&wide_map).unwrap().skill_id, "a");
    // a whole connect message with its id behind a str8 header
    let mut wide_connect: Vec<u8> = vec![0x84];
    wide_connect.extend(b"\xa2id");
    wide_connect.push(0xd9);
    wide_connect.push(13);
    wide_connect.extend(b"com.example.a");
    wide_connect.extend(b"\xa4name\xa1A");
    wide_connect.extend(b"\xaavapVersion\xa5Alpha");
    wide_connect.extend(b"\xb9uniqueAuthenticationToken\xa0");
    let m = decode_connect(&wide_connect).unwrap();
    assert_eq!(m, connect_msg("com.example.a", "Alpha"));
    // a reordered field is still refused: fields arrive in declaration order
    let mut reordered: Vec<u8> = vec![0x82];
    reordered.extend(b"\xa4name\xa1A\xa2id\xa1a");
    assert!(decode_connect(&reordered).is_err());
}

#[test]
fn value_decoding_inverts_encoding() {
    let values = vec![
        Value::Nil,
        Value::Bool(false),
        Value::U8(5),
        Value::U16(256),
        Value::U32(1 << 20),
        Value::U64(1 << 40),
        Value::I8(-3),
        Value::I16(-300),
        Value::I32(-70000),
        Value::I64(-5_000_000_000),
        Value::F32Bits(0x3f800000),
        Value::F64Bits(0x3ff0000000000000),
        Value::Text("hello".to_string()),
        Value::Binary(vec![1, 2, 3]),
        Value::Array(vec![Value::U8(1), Value::Text("x".to_string())]),
        Value::Assoc(vec![vap_skill_register::structures::ValueEntry {
            key: Value::Text("k".to_string()),
            val: Value::U8(9),
        }]),
    ];
    for v in &values {
        let mut bytes: Vec<u8> = Vec::new();
        put_value(&mut bytes, v);
        let (back, p) = get_value(&bytes, 0).unwrap();
        assert_eq!(p, bytes.len());
        // the encoding is injective, so equal re-encodings mean equal values
        let mut bytes2: Vec<u8> = Vec::new();
        put_value(&mut bytes2, &back);
        assert_eq!(bytes, bytes2);
    }
}

#[test]
fn value_decoding_accepts_fixints_and_wide_heads() {
    // a positive fixint is a one-byte unsigned number
    let (v, p) = get_value(&vec![0x05], 0).unwrap();
    assert!(matches!(v, Value::U8(5)));
    assert_eq!(p, 1);
    // a negative fixint is a one-byte signed number
    let (v, _) = get_value(&vec![0xfe], 0).unwrap();
    assert!(matches!(v, Value::I8(-2)));
    // an array behind a sixteen-bit header
    let (v, _) = get_value(&vec![0xdc, 0x00, 0x01, 0xc3], 0).unwrap();
    match v {
        Value::Array(items) => {
            assert_eq!(items.len(), 1);
            assert!(matches!(items[0], Value::Bool(true)));
        }
        _ => panic!("expected an array"),
    }
    // a string behind a str8 header
    let (v, _) = get_value(&vec![0xd9, 0x02, b'h', b'i'], 0).unwrap();
    match v {
        Value::Text(s) => assert_eq!(s, "hi"),
        _ => panic!("expected a string"),
    }
    // a reserved tag is refused
    assert!(get_value(&vec![0xc1], 0).is_err());
    // truncated input is refused
    assert!(get_value(&vec![0xcd, 0x01], 0).is_err());
    // two values in a row
    let (vs, p) = get_value_list(&vec![0x01, 0xc2], 0, 2).unwrap();
    assert_eq!(vs.len(), 2);
    assert!(matches!(vs[0], Value::U8(1)));
    assert!(matches!(vs[1], Value::Bool(false)));
    assert_eq!(p, 2);
}
