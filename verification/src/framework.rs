//! The skill-side decisions: the messages a skill sends to the registry
//! and how it reads the registry's answers. The transport around them —
//! the CoAP client and the observe stream — lives outside the library and
//! hands values in and out.
use vstd::prelude::*;

use crate::status::ResponseStatus;
use crate::structures::ClientData;
use crate::structures::MsgConnect;
use crate::structures::MsgNotification;
use crate::structures::MsgQuery;
use crate::structures::MsgSkillRequest;
use crate::structures::NotifyData;
use crate::structures::PlainCapability;
use crate::structures::QueryData;
use crate::structures::RequestDataKind;
use crate::structures::RequestSlot;
use crate::structures::SpecRequestSlot;
use crate::vars::vap_version_spec;

verus! {

/// What can go wrong on the skill side.
#[derive(Clone, Copy, Debug, PartialEq, Eq, Structural)]
pub enum Error {
    /// The transport failed.
    IO,
    /// The data sent had a wrong format or did not meet the protocol rules.
    BadRequest,
    /// The registry answered something unexpected.
    Unknown,
}

/// A request delivered to a skill, with its kind made explicit.
#[derive(Debug)]
pub struct SkillRequest {
    pub request_id: u64,
    pub client: ClientData,
    pub request: Request,
}

/// A request by kind: an intent invocation, an event, or a can-you-answer
/// probe.
#[derive(Debug)]
pub enum Request {
    Intent(String, RequestData),
    Event(String, RequestData),
    CanAnswer(String, RequestData),
}

/// A borrowed reading of a `Request`.
#[derive(Debug)]
pub enum RequestStr<'a> {
    Intent(&'a str, &'a RequestData),
    Event(&'a str, &'a RequestData),
    CanAnswer(&'a str, &'a RequestData),
}

/// The data common to every request kind.
#[derive(Clone, Debug)]
pub struct RequestData {
    pub locale: String,
    pub slots: Vec<RequestSlot>,
}

pub struct SpecRequestData {
    pub locale: Seq<char>,
    pub slots: Seq<SpecRequestSlot>,
}

impl View for RequestData {
    type V = SpecRequestData;

    open spec fn view(&self) -> SpecRequestData {
        SpecRequestData { locale: self.locale@, slots: self.slots.deep_view() }
    }
}

impl Request {
    /// Borrows the name and data of the request, keeping its kind.
    pub fn as_str(&self) -> (r: RequestStr<'_>)
        ensures
            (self matches Request::Intent(s, d) ==> (r matches RequestStr::Intent(s2, d2) && s2@
                == s@ && *d2 == *d)),
            (self matches Request::Event(s, d) ==> (r matches RequestStr::Event(s2, d2) && s2@
                == s@ && *d2 == *d)),
            (self matches Request::CanAnswer(s, d) ==> (r matches RequestStr::CanAnswer(s2, d2)
                && s2@ == s@ && *d2 == *d)),
    {
        match self {
            Request::Intent(s, d) => RequestStr::Intent(s.as_str(), d),
            Request::Event(s, d) => RequestStr::Event(s.as_str(), d),
            Request::CanAnswer(s, d) => RequestStr::CanAnswer(s.as_str(), d),
        }
    }
}

impl From<MsgSkillRequest> for SkillRequest {
    /// Splits an inbound wire request into its kind and data.
    fn from(msg: MsgSkillRequest) -> (r: SkillRequest) {
        let MsgSkillRequest { request_id, client, request } = msg;
        let req_data = RequestData { locale: request.locale, slots: request.slots };
        let request = match request.type_ {
            RequestDataKind::CanAnswer => Request::CanAnswer(request.intent, req_data),
            RequestDataKind::Event => Request::Event(request.intent, req_data),
            RequestDataKind::Intent => Request::Intent(request.intent, req_data),
        };
        SkillRequest { request_id, client, request }
    }
}

impl vstd::std_specs::convert::FromSpecImpl<MsgSkillRequest> for SkillRequest {
    open spec fn obeys_from_spec() -> bool {
        true
    }

    open spec fn from_spec(msg: MsgSkillRequest) -> SkillRequest {
        let req_data = RequestData { locale: msg.request.locale, slots: msg.request.slots };
        SkillRequest {
            request_id: msg.request_id,
            client: msg.client,
            request: match msg.request.type_ {
                RequestDataKind::CanAnswer => Request::CanAnswer(msg.request.intent, req_data),
                RequestDataKind::Event => Request::Event(msg.request.intent, req_data),
                RequestDataKind::Intent => Request::Intent(msg.request.intent, req_data),
            },
        }
    }
}

/// The attach message a skill opens with: its id and name, the protocol
/// version this library implements, and an empty authentication token.
pub fn connect_request(id: String, name: String) -> (r: MsgConnect)
    ensures
        r@.id == id@,
        r@.name == name@,
        r@.vap_version == vap_version_spec(),
        r@.unique_authentication_token matches Some(t) && t.len() == 0,
{
    MsgConnect {
        id,
        name,
        vap_version: String::from_str(crate::vars::vap_version()),
        unique_authentication_token: Some(String::new()),
    }
}

/// Whether the registry accepted the attach: only 2.01 does.
pub fn connect_accepted(status: ResponseStatus) -> (r: bool)
    ensures
        r == (status == ResponseStatus::Created),
{
    status == ResponseStatus::Created
}

/// Reads the answer to `registerIntents`: 2.01 is success, anything else
/// is unexpected.
pub fn register_intents_outcome(status: ResponseStatus) -> (r: Result<(), Error>)
    ensures
        r is Ok <==> status == ResponseStatus::Created,
        r is Err ==> r == Result::<(), Error>::Err(Error::Unknown),
{
    if status == ResponseStatus::Created {
        Ok(())
    } else {
        Err(Error::Unknown)
    }
}

/// Reads the answer to a detach: 2.02 is success, anything else is
/// unexpected.
pub fn close_outcome(status: ResponseStatus) -> (r: Result<(), Error>)
    ensures
        r is Ok <==> status == ResponseStatus::Deleted,
        r is Err ==> r == Result::<(), Error>::Err(Error::Unknown),
{
    if status == ResponseStatus::Deleted {
        Ok(())
    } else {
        Err(Error::Unknown)
    }
}

/// Reads the status of a notification answer: the registry answers a
/// notification batch with 2.03, which carries the response body; anything
/// else is unexpected.
pub fn notification_outcome(status: ResponseStatus) -> (r: Result<(), Error>)
    ensures
        r is Ok <==> status == ResponseStatus::Valid,
        r is Err ==> r == Result::<(), Error>::Err(Error::Unknown),
{
    if status == ResponseStatus::Valid {
        Ok(())
    } else {
        Err(Error::Unknown)
    }
}

/// Reads the status of a query answer: 2.05 carries the response body,
/// 4.00 is the registry's rejection, anything else is unexpected.
pub fn query_outcome(status: ResponseStatus) -> (r: Result<(), Error>)
    ensures
        r is Ok <==> status == ResponseStatus::Content,
        r == Result::<(), Error>::Err(Error::BadRequest) <==> status == ResponseStatus::BadRequest,
        r == Result::<(), Error>::Err(Error::Unknown) <==> status != ResponseStatus::Content
            && status != ResponseStatus::BadRequest,
{
    if status == ResponseStatus::Content {
        Ok(())
    } else if status == ResponseStatus::BadRequest {
        Err(Error::BadRequest)
    } else {
        Err(Error::Unknown)
    }
}

/// A standalone notification to one client.
pub fn notify_message(skill_id: String, client_id: String, capabilities: Vec<PlainCapability>) -> (r:
    MsgNotification)
    ensures
        r@.skill_id == skill_id@,
        r@.data.len() == 1,
        r@.data[0] matches crate::structures::SpecNotifyData::StandAlone {
            client_id: c,
            capabilities: caps,
        } && c == client_id@ && caps == capabilities.deep_view(),
{
    let ghost caps_view = capabilities.deep_view();
    let mut data: Vec<NotifyData> = Vec::new();
    data.push(NotifyData::StandAlone { client_id, capabilities });
    let r = MsgNotification { skill_id, data };
    proof {
        assert(r@.data =~= seq![r.data@[0].deep_view()]);
    }
    r
}

/// A notification batch of arbitrary data.
pub fn notify_multiple_message(skill_id: String, data: Vec<NotifyData>) -> (r: MsgNotification)
    ensures
        r@.skill_id == skill_id@,
        r@.data == data.deep_view(),
{
    MsgNotification { skill_id, data }
}

/// The reply to a delivered request: a notification carrying the request
/// identifier and the produced capabilities.
pub fn answer_message(skill_id: String, request_id: u64, capabilities: Vec<PlainCapability>) -> (r:
    MsgNotification)
    ensures
        r@.skill_id == skill_id@,
        r@.data.len() == 1,
        r@.data[0] matches crate::structures::SpecNotifyData::Requested {
            request_id: k,
            capabilities: caps,
        } && k == request_id && caps == capabilities.deep_view(),
{
    let ghost caps_view = capabilities.deep_view();
    let mut data: Vec<NotifyData> = Vec::new();
    data.push(NotifyData::Requested { request_id, capabilities });
    let r = MsgNotification { skill_id, data };
    proof {
        assert(r@.data =~= seq![r.data@[0].deep_view()]);
    }
    r
}

/// A query batch addressed at any number of clients.
pub fn query_message(skill_id: String, data: Vec<QueryData>) -> (r: MsgQuery)
    ensures
        r@.skill_id == skill_id@,
        r@.data == data.deep_view(),
{
    MsgQuery { skill_id, data }
}

} // verus!
