//! The wire message structures exchanged between skills and the registry.
//!
//! Payloads travel as MessagePack maps with named, camelCase fields
//! (`vapVersion`, `skillId`, `requestId`, ...); the types here are the
//! in-memory representation. Each type has a mathematical view used by the
//! contracts: strings become `Seq<char>`, vectors become `Seq`, and the two
//! floating-point value kinds are carried as their raw IEEE-754 bit patterns,
//! so that equality in contracts is bit-exact.
use vstd::prelude::*;

verus! {

// ---------------------------------------------------------------------------
// connect
// ---------------------------------------------------------------------------

/// Sent by a skill to attach to the registry.
#[derive(Clone, Debug, PartialEq)]
pub struct MsgConnect {
    /// A skill id in the form of org.organization.skill
    pub id: String,
    /// A human readable name for the skill
    pub name: String,
    /// Wire field `vapVersion`
    pub vap_version: String,
    /// Wire field `uniqueAuthenticationToken`
    pub unique_authentication_token: Option<String>,
}

pub struct SpecMsgConnect {
    pub id: Seq<char>,
    pub name: Seq<char>,
    pub vap_version: Seq<char>,
    pub unique_authentication_token: Option<Seq<char>>,
}

impl View for MsgConnect {
    type V = SpecMsgConnect;

    open spec fn view(&self) -> SpecMsgConnect {
        SpecMsgConnect {
            id: self.id@,
            name: self.name@,
            vap_version: self.vap_version@,
            unique_authentication_token: self.unique_authentication_token.deep_view(),
        }
    }
}

/// A language in use by the voice assistant.
#[derive(Clone, Debug, PartialEq)]
pub struct Language {
    /// The country code of the language
    pub country: Option<String>,
    /// The language code
    pub language: String,
    /// The extra code for the language
    pub extra: Option<String>,
}

pub struct SpecLanguage {
    pub country: Option<Seq<char>>,
    pub language: Seq<char>,
    pub extra: Option<Seq<char>>,
}

impl View for Language {
    type V = SpecLanguage;

    open spec fn view(&self) -> SpecLanguage {
        SpecLanguage {
            country: self.country.deep_view(),
            language: self.language@,
            extra: self.extra.deep_view(),
        }
    }
}

impl DeepView for Language {
    type V = SpecLanguage;

    open spec fn deep_view(&self) -> SpecLanguage {
        self.view()
    }
}

/// The registry's answer to a successful `connect`.
#[derive(Clone, Debug, PartialEq)]
pub struct MsgConnectResponse {
    /// Languages currently in use by the voice assistant
    pub langs: Vec<Language>,
    /// Wire field `uniqueAuthenticationToken`
    pub unique_authentication_token: Option<String>,
}

pub struct SpecMsgConnectResponse {
    pub langs: Seq<SpecLanguage>,
    pub unique_authentication_token: Option<Seq<char>>,
}

impl View for MsgConnectResponse {
    type V = SpecMsgConnectResponse;

    open spec fn view(&self) -> SpecMsgConnectResponse {
        SpecMsgConnectResponse {
            langs: self.langs.deep_view(),
            unique_authentication_token: self.unique_authentication_token.deep_view(),
        }
    }
}

// ---------------------------------------------------------------------------
// registerIntents
// ---------------------------------------------------------------------------

/// One utterance template of an intent.
#[derive(Clone, Debug, PartialEq)]
pub struct NluDataIntentUtterance {
    pub text: String,
}

impl DeepView for NluDataIntentUtterance {
    type V = Seq<char>;

    open spec fn deep_view(&self) -> Seq<char> {
        self.text@
    }
}

/// A slot of an intent, pointing at an entity by name.
#[derive(Clone, Debug, PartialEq)]
pub struct NluDataSlot {
    pub name: String,
    pub entity: String,
}

pub struct SpecNluDataSlot {
    pub name: Seq<char>,
    pub entity: Seq<char>,
}

impl DeepView for NluDataSlot {
    type V = SpecNluDataSlot;

    open spec fn deep_view(&self) -> SpecNluDataSlot {
        SpecNluDataSlot { name: self.name@, entity: self.entity@ }
    }
}

/// An intent: a name plus its utterances and slots.
#[derive(Clone, Debug, PartialEq)]
pub struct NluDataIntent {
    pub name: String,
    pub utterances: Vec<NluDataIntentUtterance>,
    pub slots: Vec<NluDataSlot>,
}

pub struct SpecNluDataIntent {
    pub name: Seq<char>,
    pub utterances: Seq<Seq<char>>,
    pub slots: Seq<SpecNluDataSlot>,
}

impl DeepView for NluDataIntent {
    type V = SpecNluDataIntent;

    open spec fn deep_view(&self) -> SpecNluDataIntent {
        SpecNluDataIntent {
            name: self.name@,
            utterances: self.utterances.deep_view(),
            slots: self.slots.deep_view(),
        }
    }
}

/// One admissible value of an entity together with its synonyms.
#[derive(Clone, Debug, PartialEq)]
pub struct NluDataEntityData {
    pub value: String,
    pub synonyms: Vec<String>,
}

pub struct SpecNluDataEntityData {
    pub value: Seq<char>,
    pub synonyms: Seq<Seq<char>>,
}

impl DeepView for NluDataEntityData {
    type V = SpecNluDataEntityData;

    open spec fn deep_view(&self) -> SpecNluDataEntityData {
        SpecNluDataEntityData { value: self.value@, synonyms: self.synonyms.deep_view() }
    }
}

/// An entity: a name, a strictness flag and its data.
#[derive(Clone, Debug, PartialEq)]
pub struct NluDataEntity {
    pub name: String,
    pub strict: bool,
    pub data: Vec<NluDataEntityData>,
}

pub struct SpecNluDataEntity {
    pub name: Seq<char>,
    pub strict: bool,
    pub data: Seq<SpecNluDataEntityData>,
}

impl DeepView for NluDataEntity {
    type V = SpecNluDataEntity;

    open spec fn deep_view(&self) -> SpecNluDataEntity {
        SpecNluDataEntity {
            name: self.name@,
            strict: self.strict,
            data: self.data.deep_view(),
        }
    }
}

/// Per-language NLU declaration: intents and entities for one language.
#[derive(Clone, Debug, PartialEq)]
pub struct NluData {
    pub language: Language,
    pub intents: Vec<NluDataIntent>,
    pub entities: Vec<NluDataEntity>,
}

pub struct SpecNluData {
    pub language: SpecLanguage,
    pub intents: Seq<SpecNluDataIntent>,
    pub entities: Seq<SpecNluDataEntity>,
}

impl DeepView for NluData {
    type V = SpecNluData;

    open spec fn deep_view(&self) -> SpecNluData {
        SpecNluData {
            language: self.language@,
            intents: self.intents.deep_view(),
            entities: self.entities.deep_view(),
        }
    }
}

/// Sent by a skill to declare its intent and entity metadata.
#[derive(Clone, Debug, PartialEq)]
pub struct MsgRegisterIntents {
    /// Wire field `skillId`
    pub skill_id: String,
    /// Wire field `nluData`
    pub nlu_data: Vec<NluData>,
}

pub struct SpecMsgRegisterIntents {
    pub skill_id: Seq<char>,
    pub nlu_data: Seq<SpecNluData>,
}

impl View for MsgRegisterIntents {
    type V = SpecMsgRegisterIntents;

    open spec fn view(&self) -> SpecMsgRegisterIntents {
        SpecMsgRegisterIntents { skill_id: self.skill_id@, nlu_data: self.nlu_data.deep_view() }
    }
}

/// The (empty) answer to `registerIntents`.
#[derive(Clone, Debug, PartialEq)]
pub struct MsgRegisterIntentsResponse {}

// ---------------------------------------------------------------------------
// capability values
// ---------------------------------------------------------------------------

/// One key/value pair of a MessagePack map.
#[derive(Debug)]
pub struct ValueEntry {
    pub key: Value,
    pub val: Value,
}

/// A MessagePack value, used as variant for the capabilities data.
///
/// The two floating-point kinds carry their IEEE-754 bit patterns so that
/// the value model is exact. Maps keep their entries as an ordered list of
/// pairs, exactly as they sit on the wire.
#[derive(Debug)]
pub enum Value {
    Nil,
    Bool(bool),
    I8(i8),
    U8(u8),
    I16(i16),
    U16(u16),
    I32(i32),
    U32(u32),
    I64(i64),
    U64(u64),
    F32Bits(u32),
    F64Bits(u64),
    Text(String),
    Binary(Vec<u8>),
    Array(Vec<Value>),
    Assoc(Vec<ValueEntry>),
}

pub enum SpecValue {
    Nil,
    Bool(bool),
    I8(i8),
    U8(u8),
    I16(i16),
    U16(u16),
    I32(i32),
    U32(u32),
    I64(i64),
    U64(u64),
    F32Bits(u32),
    F64Bits(u64),
    Text(Seq<char>),
    Binary(Seq<u8>),
    Array(Seq<SpecValue>),
    Assoc(Seq<(SpecValue, SpecValue)>),
}

impl Value {
    pub open spec fn model(self) -> SpecValue
        decreases self,
    {
        match self {
            Value::Nil => SpecValue::Nil,
            Value::Bool(b) => SpecValue::Bool(b),
            Value::I8(n) => SpecValue::I8(n),
            Value::U8(n) => SpecValue::U8(n),
            Value::I16(n) => SpecValue::I16(n),
            Value::U16(n) => SpecValue::U16(n),
            Value::I32(n) => SpecValue::I32(n),
            Value::U32(n) => SpecValue::U32(n),
            Value::I64(n) => SpecValue::I64(n),
            Value::U64(n) => SpecValue::U64(n),
            Value::F32Bits(n) => SpecValue::F32Bits(n),
            Value::F64Bits(n) => SpecValue::F64Bits(n),
            Value::Text(s) => SpecValue::Text(s@),
            Value::Binary(b) => SpecValue::Binary(b@),
            Value::Array(a) => SpecValue::Array(Value::model_vec(a)),
            Value::Assoc(m) => SpecValue::Assoc(Value::model_entry_vec(m)),
        }
    }

    pub open spec fn model_vec(a: Vec<Value>) -> Seq<SpecValue>
        decreases a,
    {
        Value::model_seq(a@)
    }

    pub open spec fn model_seq(s: Seq<Value>) -> Seq<SpecValue>
        decreases s,
    {
        if s.len() == 0 {
            Seq::empty()
        } else {
            seq![s[0].model()] + Value::model_seq(s.subrange(1, s.len() as int))
        }
    }

    pub open spec fn model_entry_vec(m: Vec<ValueEntry>) -> Seq<(SpecValue, SpecValue)>
        decreases m,
    {
        Value::model_entry_seq(m@)
    }

    pub open spec fn model_entry_seq(s: Seq<ValueEntry>) -> Seq<(SpecValue, SpecValue)>
        decreases s,
    {
        if s.len() == 0 {
            Seq::empty()
        } else {
            seq![Value::model_entry(s[0])] + Value::model_entry_seq(
                s.subrange(1, s.len() as int),
            )
        }
    }

    pub open spec fn model_entry(e: ValueEntry) -> (SpecValue, SpecValue)
        decreases e,
    {
        (e.key.model(), e.val.model())
    }

    /// The element-wise reading of `model_seq`.
    pub proof fn lemma_model_seq(s: Seq<Value>)
        ensures
            Value::model_seq(s).len() == s.len(),
            forall|i: int| 0 <= i < s.len() ==> Value::model_seq(s)[i] == #[trigger] s[i].model(),
        decreases s.len(),
    {
        if s.len() > 0 {
            Value::lemma_model_seq(s.subrange(1, s.len() as int));
            assert forall|i: int| 0 <= i < s.len() implies Value::model_seq(s)[i] == #[trigger] s[
                i
            ].model() by {
                if i > 0 {
                    assert(s.subrange(1, s.len() as int)[i - 1] == s[i]);
                }
            }
        }
    }

    /// The element-wise reading of `model_entry_seq`.
    pub proof fn lemma_model_entry_seq(s: Seq<ValueEntry>)
        ensures
            Value::model_entry_seq(s).len() == s.len(),
            forall|i: int|
                0 <= i < s.len() ==> Value::model_entry_seq(s)[i] == Value::model_entry(
                    #[trigger] s[i],
                ),
        decreases s.len(),
    {
        if s.len() > 0 {
            Value::lemma_model_entry_seq(s.subrange(1, s.len() as int));
            assert forall|i: int|
                0 <= i < s.len() implies Value::model_entry_seq(s)[i] == Value::model_entry(
                #[trigger] s[i],
            ) by {
                if i > 0 {
                    assert(s.subrange(1, s.len() as int)[i - 1] == s[i]);
                }
            }
        }
    }
}

impl View for Value {
    type V = SpecValue;

    open spec fn view(&self) -> SpecValue {
        (*self).model()
    }
}

impl DeepView for Value {
    type V = SpecValue;

    open spec fn deep_view(&self) -> SpecValue {
        (*self).model()
    }
}

/// A named bag of typed key/value pairs describing a unit of output.
#[derive(Debug)]
pub struct PlainCapability {
    pub name: String,
    /// The capability's data entries, flattened beside `name` on the wire.
    pub cap_data: Vec<ValueEntry>,
}

pub struct SpecPlainCapability {
    pub name: Seq<char>,
    pub cap_data: Seq<(SpecValue, SpecValue)>,
}

impl DeepView for ValueEntry {
    type V = (SpecValue, SpecValue);

    open spec fn deep_view(&self) -> (SpecValue, SpecValue) {
        (self.key.model(), self.val.model())
    }
}

impl DeepView for PlainCapability {
    type V = SpecPlainCapability;

    open spec fn deep_view(&self) -> SpecPlainCapability {
        SpecPlainCapability { name: self.name@, cap_data: self.cap_data.deep_view() }
    }
}

// ---------------------------------------------------------------------------
// skill request (outbound activation / probe)
// ---------------------------------------------------------------------------

/// One capability of the client named in an outbound request.
#[derive(Clone, Debug, PartialEq)]
pub struct ClientDataCapability {
    pub name: String,
    pub version: u16,
}

pub struct SpecClientDataCapability {
    pub name: Seq<char>,
    pub version: u16,
}

impl DeepView for ClientDataCapability {
    type V = SpecClientDataCapability;

    open spec fn deep_view(&self) -> SpecClientDataCapability {
        SpecClientDataCapability { name: self.name@, version: self.version }
    }
}

/// The client an outbound request concerns.
#[derive(Clone, Debug, PartialEq)]
pub struct ClientData {
    /// Wire field `systemId`
    pub system_id: String,
    pub capabilities: Vec<ClientDataCapability>,
}

pub struct SpecClientData {
    pub system_id: Seq<char>,
    pub capabilities: Seq<SpecClientDataCapability>,
}

impl View for ClientData {
    type V = SpecClientData;

    open spec fn view(&self) -> SpecClientData {
        SpecClientData { system_id: self.system_id@, capabilities: self.capabilities.deep_view() }
    }
}

/// What kind of request an outbound activation carries.
#[derive(Clone, Copy, Debug, PartialEq, Eq, Structural)]
pub enum RequestDataKind {
    Intent,
    Event,
    CanAnswer,
}

/// One filled slot of a request.
#[derive(Clone, Debug, PartialEq)]
pub struct RequestSlot {
    pub name: String,
    pub value: Option<String>,
}

pub struct SpecRequestSlot {
    pub name: Seq<char>,
    pub value: Option<Seq<char>>,
}

impl DeepView for RequestSlot {
    type V = SpecRequestSlot;

    open spec fn deep_view(&self) -> SpecRequestSlot {
        SpecRequestSlot { name: self.name@, value: self.value.deep_view() }
    }
}

/// The body of an outbound request.
#[derive(Clone, Debug, PartialEq)]
pub struct RequestData {
    /// Wire field `type`
    pub type_: RequestDataKind,
    pub intent: String,
    pub locale: String,
    pub slots: Vec<RequestSlot>,
}

pub struct SpecRequestData {
    pub type_: RequestDataKind,
    pub intent: Seq<char>,
    pub locale: Seq<char>,
    pub slots: Seq<SpecRequestSlot>,
}

impl View for RequestData {
    type V = SpecRequestData;

    open spec fn view(&self) -> SpecRequestData {
        SpecRequestData {
            type_: self.type_,
            intent: self.intent@,
            locale: self.locale@,
            slots: self.slots.deep_view(),
        }
    }
}

/// An activation or probe pushed from the registry to one skill.
#[derive(Clone, Debug, PartialEq)]
pub struct MsgSkillRequest {
    /// Wire field `requestId`
    pub request_id: u64,
    pub client: ClientData,
    pub request: RequestData,
}

pub struct SpecMsgSkillRequest {
    pub request_id: u64,
    pub client: SpecClientData,
    pub request: SpecRequestData,
}

impl View for MsgSkillRequest {
    type V = SpecMsgSkillRequest;

    open spec fn view(&self) -> SpecMsgSkillRequest {
        SpecMsgSkillRequest {
            request_id: self.request_id,
            client: self.client@,
            request: self.request@,
        }
    }
}

// ---------------------------------------------------------------------------
// notification
// ---------------------------------------------------------------------------

/// One datum of a notification batch sent by a skill.
#[derive(Debug)]
pub enum NotifyData {
    /// Reply to a prior activation.
    Requested { request_id: u64, capabilities: Vec<PlainCapability> },
    /// Skill-initiated broadcast to a client.
    StandAlone { client_id: String, capabilities: Vec<PlainCapability> },
    /// Reply to a prior can-you-answer probe; the confidence travels as the
    /// bit pattern of an IEEE-754 single-precision number.
    CanYouAnswer { request_id: u64, confidence_bits: u32 },
}

pub enum SpecNotifyData {
    Requested { request_id: u64, capabilities: Seq<SpecPlainCapability> },
    StandAlone { client_id: Seq<char>, capabilities: Seq<SpecPlainCapability> },
    CanYouAnswer { request_id: u64, confidence_bits: u32 },
}

impl DeepView for NotifyData {
    type V = SpecNotifyData;

    open spec fn deep_view(&self) -> SpecNotifyData {
        match self {
            NotifyData::Requested { request_id, capabilities } => SpecNotifyData::Requested {
                request_id: *request_id,
                capabilities: capabilities.deep_view(),
            },
            NotifyData::StandAlone { client_id, capabilities } => SpecNotifyData::StandAlone {
                client_id: client_id@,
                capabilities: capabilities.deep_view(),
            },
            NotifyData::CanYouAnswer { request_id, confidence_bits } => {
                SpecNotifyData::CanYouAnswer {
                    request_id: *request_id,
                    confidence_bits: *confidence_bits,
                }
            },
        }
    }
}

/// A batch of notification data sent by one skill.
#[derive(Debug)]
pub struct MsgNotification {
    /// Wire field `skillId`
    pub skill_id: String,
    pub data: Vec<NotifyData>,
}

pub struct SpecMsgNotification {
    pub skill_id: Seq<char>,
    pub data: Seq<SpecNotifyData>,
}

impl View for MsgNotification {
    type V = SpecMsgNotification;

    open spec fn view(&self) -> SpecMsgNotification {
        SpecMsgNotification { skill_id: self.skill_id@, data: self.data.deep_view() }
    }
}

/// The per-datum outcome of a notification batch.
#[derive(Clone, Debug, PartialEq)]
pub enum NotifyResponseData {
    Requested { request_id: u64, code: u16 },
    StandAlone { client_id: String, code: u16 },
    CanYouAnswer { request_id: u64, code: u16 },
}

pub enum SpecNotifyResponseData {
    Requested { request_id: u64, code: u16 },
    StandAlone { client_id: Seq<char>, code: u16 },
    CanYouAnswer { request_id: u64, code: u16 },
}

impl DeepView for NotifyResponseData {
    type V = SpecNotifyResponseData;

    open spec fn deep_view(&self) -> SpecNotifyResponseData {
        match self {
            NotifyResponseData::Requested { request_id, code } => {
                SpecNotifyResponseData::Requested { request_id: *request_id, code: *code }
            },
            NotifyResponseData::StandAlone { client_id, code } => {
                SpecNotifyResponseData::StandAlone { client_id: client_id@, code: *code }
            },
            NotifyResponseData::CanYouAnswer { request_id, code } => {
                SpecNotifyResponseData::CanYouAnswer { request_id: *request_id, code: *code }
            },
        }
    }
}

/// The registry's answer to a notification batch.
#[derive(Clone, Debug, PartialEq)]
pub struct MsgNotificationResponse {
    pub data: Vec<NotifyResponseData>,
}

pub struct SpecMsgNotificationResponse {
    pub data: Seq<SpecNotifyResponseData>,
}

impl View for MsgNotificationResponse {
    type V = SpecMsgNotificationResponse;

    open spec fn view(&self) -> SpecMsgNotificationResponse {
        SpecMsgNotificationResponse { data: self.data.deep_view() }
    }
}

// ---------------------------------------------------------------------------
// query
// ---------------------------------------------------------------------------

/// One query addressed at a client.
#[derive(Debug)]
pub struct QueryData {
    /// Wire field `clientId`
    pub client_id: String,
    pub capabilities: Vec<PlainCapability>,
}

pub struct SpecQueryData {
    pub client_id: Seq<char>,
    pub capabilities: Seq<SpecPlainCapability>,
}

impl DeepView for QueryData {
    type V = SpecQueryData;

    open spec fn deep_view(&self) -> SpecQueryData {
        SpecQueryData { client_id: self.client_id@, capabilities: self.capabilities.deep_view() }
    }
}

/// A batch of queries sent by one skill.
#[derive(Debug)]
pub struct MsgQuery {
    /// Wire field `skillId`
    pub skill_id: String,
    pub data: Vec<QueryData>,
}

pub struct SpecMsgQuery {
    pub skill_id: Seq<char>,
    pub data: Seq<SpecQueryData>,
}

impl View for MsgQuery {
    type V = SpecMsgQuery;

    open spec fn view(&self) -> SpecMsgQuery {
        SpecMsgQuery { skill_id: self.skill_id@, data: self.data.deep_view() }
    }
}

/// The answer to one queried capability.
#[derive(Debug)]
pub struct QueryDataCapability {
    pub name: String,
    pub code: u16,
    /// Extra answer data, flattened beside `name` and `code` on the wire.
    pub data: Vec<ValueEntry>,
}

pub struct SpecQueryDataCapability {
    pub name: Seq<char>,
    pub code: u16,
    pub data: Seq<(SpecValue, SpecValue)>,
}

impl DeepView for QueryDataCapability {
    type V = SpecQueryDataCapability;

    open spec fn deep_view(&self) -> SpecQueryDataCapability {
        SpecQueryDataCapability {
            name: self.name@,
            code: self.code,
            data: self.data.deep_view(),
        }
    }
}

/// The answers for one queried client.
#[derive(Debug)]
pub struct QueryResponseData {
    /// Wire field `clientId`
    pub client_id: String,
    pub capabilities: Vec<QueryDataCapability>,
}

pub struct SpecQueryResponseData {
    pub client_id: Seq<char>,
    pub capabilities: Seq<SpecQueryDataCapability>,
}

impl DeepView for QueryResponseData {
    type V = SpecQueryResponseData;

    open spec fn deep_view(&self) -> SpecQueryResponseData {
        SpecQueryResponseData {
            client_id: self.client_id@,
            capabilities: self.capabilities.deep_view(),
        }
    }
}

/// The registry's answer to a query batch.
#[derive(Debug)]
pub struct MsgQueryResponse {
    pub data: Vec<QueryResponseData>,
}

pub struct SpecMsgQueryResponse {
    pub data: Seq<SpecQueryResponseData>,
}

impl View for MsgQueryResponse {
    type V = SpecMsgQueryResponse;

    open spec fn view(&self) -> SpecMsgQueryResponse {
        SpecMsgQueryResponse { data: self.data.deep_view() }
    }
}

// ---------------------------------------------------------------------------
// close
// ---------------------------------------------------------------------------

/// Sent by a skill (or on its behalf) to detach from the registry.
#[derive(Clone, Debug, PartialEq)]
pub struct MsgSkillClose {
    /// Wire field `skillId`
    pub skill_id: String,
}

pub struct SpecMsgSkillClose {
    pub skill_id: Seq<char>,
}

impl View for MsgSkillClose {
    type V = SpecMsgSkillClose;

    open spec fn view(&self) -> SpecMsgSkillClose {
        SpecMsgSkillClose { skill_id: self.skill_id@ }
    }
}

} // verus!
