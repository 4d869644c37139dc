//! The registry core: the skill directory, the two pending tables and the
//! decisions of every CoAP handler, as pure state transitions.
//!
//! The registry is generic over the entry types `C` and `R` held by the two
//! pending tables. In a running system those are the sending halves of
//! single-shot channels: `C` resolves a can-you-answer probe with a
//! confidence, `R` resolves an activation with the capabilities the skill
//! produced. The surrounding runtime performs channel sends and awaits;
//! every decision — gating, version checks, correlation, ordering — is made
//! here and carries a contract.
use vstd::prelude::*;

use crate::alloc_id::IdAllocator;
use crate::directory::SkillDirectory;
use crate::pending::PendingTable;
use crate::status::ResponseStatus;
use crate::structures::MsgNotification;
use crate::structures::MsgSkillRequest;
use crate::structures::NotifyData;
use crate::structures::PlainCapability;
use crate::structures::SpecMsgNotification;
use crate::structures::SpecNotifyData;
use crate::structures::SpecNotifyResponseData;
use crate::structures::SpecPlainCapability;
use crate::vars::vap_version;
use crate::vars::vap_version_spec;

verus! {

/// The one failure the channel plumbing can surface: a single-shot channel
/// was closed before its value arrived.
#[derive(Clone, Copy, Debug, PartialEq, Eq, Structural)]
pub enum Error {
    ClosedChannel,
}

/// A message from a skill to one client: the standalone part of a
/// notification batch.
#[derive(Debug)]
pub struct NotificationData {
    pub client_id: String,
    pub capabilities: Vec<PlainCapability>,
}

pub struct SpecNotificationData {
    pub client_id: Seq<char>,
    pub capabilities: Seq<SpecPlainCapability>,
}

impl DeepView for NotificationData {
    type V = SpecNotificationData;

    open spec fn deep_view(&self) -> SpecNotificationData {
        SpecNotificationData {
            client_id: self.client_id@,
            capabilities: self.capabilities.deep_view(),
        }
    }
}

/// A notification received from a skill, with the data for each client.
#[derive(Debug)]
pub struct Notification {
    pub skill_id: String,
    pub data: Vec<NotificationData>,
}

pub struct SpecNotification {
    pub skill_id: Seq<char>,
    pub data: Seq<SpecNotificationData>,
}

impl View for Notification {
    type V = SpecNotification;

    open spec fn view(&self) -> SpecNotification {
        SpecNotification { skill_id: self.skill_id@, data: self.data.deep_view() }
    }
}

/// A message received from a skill, as handed to the host.
#[derive(Debug)]
pub enum SkillRegisterMessage {
    Connect(crate::structures::MsgConnect),
    RegisterIntents(crate::structures::MsgRegisterIntents),
    Notification(Notification),
    Query(crate::structures::MsgQuery),
    Close(crate::structures::MsgSkillClose),
}

/// The host's per-client acknowledgement of a notification.
#[derive(Clone, Debug, PartialEq)]
pub struct NotificationResponse {
    pub client_id: String,
    /// Response code of the request, as a CoAP-style number (203, 400, ...).
    pub code: u16,
}

/// The host's acknowledgement of delivered capabilities.
#[derive(Clone, Copy, Debug, PartialEq, Eq, Structural)]
pub struct RequestResponse {
    /// A CoAP-style numeric code (205 for content, 400 for bad request, ...).
    pub code: u16,
}

/// One correlated datum of a notification batch, resolved against the
/// pending tables.
pub enum Correlated<C, R> {
    /// The probe was pending: the runtime must resolve `sender` with the
    /// confidence. The per-datum code is 203.
    CanYouAnswerKnown { request_id: u64, sender: C, confidence_bits: u32 },
    /// No such probe was pending. The per-datum code is 400.
    CanYouAnswerUnknown { request_id: u64 },
    /// The activation was pending: the runtime must deliver the capabilities
    /// through `entry` and await the host's acknowledgement code.
    RequestedKnown { request_id: u64, entry: R, capabilities: Vec<PlainCapability> },
    /// No such activation was pending. The per-datum code is 400.
    RequestedUnknown { request_id: u64 },
}

pub enum SpecCorrelated<C, R> {
    CanYouAnswerKnown { request_id: u64, sender: C, confidence_bits: u32 },
    CanYouAnswerUnknown { request_id: u64 },
    RequestedKnown { request_id: u64, entry: R, capabilities: Seq<SpecPlainCapability> },
    RequestedUnknown { request_id: u64 },
}

impl<C, R> DeepView for Correlated<C, R> {
    type V = SpecCorrelated<C, R>;

    open spec fn deep_view(&self) -> SpecCorrelated<C, R> {
        match self {
            Correlated::CanYouAnswerKnown { request_id, sender, confidence_bits } => {
                SpecCorrelated::CanYouAnswerKnown {
                    request_id: *request_id,
                    sender: *sender,
                    confidence_bits: *confidence_bits,
                }
            },
            Correlated::CanYouAnswerUnknown { request_id } => {
                SpecCorrelated::CanYouAnswerUnknown { request_id: *request_id }
            },
            Correlated::RequestedKnown { request_id, entry, capabilities } => {
                SpecCorrelated::RequestedKnown {
                    request_id: *request_id,
                    entry: *entry,
                    capabilities: capabilities.deep_view(),
                }
            },
            Correlated::RequestedUnknown { request_id } => {
                SpecCorrelated::RequestedUnknown { request_id: *request_id }
            },
        }
    }
}

/// What a notification batch resolves to: the correlated data in batch
/// order, and the standalone batch for the host, if any.
pub struct NotificationPlan<C, R> {
    /// Correlated (requested / can-you-answer) data, in input order.
    pub correlated: Vec<Correlated<C, R>>,
    /// The standalone entries bundled as one host event, when any exist.
    pub standalone: Option<Notification>,
}

/// The outcome of correlating one batch at the specification level: the two
/// tables after the batch, the correlated data in order, and the standalone
/// data in order.
pub struct SpecNotificationPlan<C, R> {
    pub can_you: Map<u64, C>,
    pub requests: Map<u64, R>,
    pub correlated: Seq<SpecCorrelated<C, R>>,
    pub standalone: Seq<SpecNotificationData>,
}

/// Correlates a batch against the pending tables, left to right. Each
/// can-you-answer or requested datum removes its pending entry if present;
/// a datum whose identifier is unknown resolves to its "unknown" form and
/// leaves the tables untouched. Standalone data pass through in order.
pub open spec fn spec_correlate<C, R>(
    can_you: Map<u64, C>,
    requests: Map<u64, R>,
    data: Seq<SpecNotifyData>,
) -> SpecNotificationPlan<C, R>
    decreases data.len(),
{
    if data.len() == 0 {
        SpecNotificationPlan {
            can_you,
            requests,
            correlated: Seq::empty(),
            standalone: Seq::empty(),
        }
    } else {
        match data[0] {
            SpecNotifyData::CanYouAnswer { request_id, confidence_bits } => {
                if can_you.contains_key(request_id) {
                    let p = spec_correlate(
                        can_you.remove(request_id),
                        requests,
                        data.drop_first(),
                    );
                    SpecNotificationPlan {
                        correlated: seq![
                            SpecCorrelated::CanYouAnswerKnown {
                                request_id,
                                sender: can_you[request_id],
                                confidence_bits,
                            },
                        ] + p.correlated,
                        ..p
                    }
                } else {
                    let p = spec_correlate(can_you, requests, data.drop_first());
                    SpecNotificationPlan {
                        correlated: seq![SpecCorrelated::CanYouAnswerUnknown { request_id }]
                            + p.correlated,
                        ..p
                    }
                }
            },
            SpecNotifyData::Requested { request_id, capabilities } => {
                if requests.contains_key(request_id) {
                    let p = spec_correlate(
                        can_you,
                        requests.remove(request_id),
                        data.drop_first(),
                    );
                    SpecNotificationPlan {
                        correlated: seq![
                            SpecCorrelated::RequestedKnown {
                                request_id,
                                entry: requests[request_id],
                                capabilities,
                            },
                        ] + p.correlated,
                        ..p
                    }
                } else {
                    let p = spec_correlate(can_you, requests, data.drop_first());
                    SpecNotificationPlan {
                        correlated: seq![SpecCorrelated::RequestedUnknown { request_id }]
                            + p.correlated,
                        ..p
                    }
                }
            },
            SpecNotifyData::StandAlone { client_id, capabilities } => {
                let p = spec_correlate(can_you, requests, data.drop_first());
                SpecNotificationPlan {
                    standalone: seq![SpecNotificationData { client_id, capabilities }]
                        + p.standalone,
                    ..p
                }
            },
        }
    }
}

/// The per-datum answers of a correlated batch, in batch order. A resolved
/// can-you-answer datum answers 2.03, a delivered activation answers the
/// host's acknowledgement code (taken from `fetched`, one per delivered
/// activation, in order), and a datum whose identifier was unknown answers
/// 4.00 — without failing the batch.
pub open spec fn spec_assemble<C, R>(
    correlated: Seq<SpecCorrelated<C, R>>,
    fetched: Seq<u16>,
) -> Seq<SpecNotifyResponseData>
    decreases correlated.len(),
{
    if correlated.len() == 0 {
        Seq::empty()
    } else {
        match correlated[0] {
            SpecCorrelated::CanYouAnswerKnown { request_id, .. } => seq![
                SpecNotifyResponseData::CanYouAnswer {
                    request_id,
                    code: ResponseStatus::Valid.spec_code(),
                },
            ] + spec_assemble(correlated.drop_first(), fetched),
            SpecCorrelated::CanYouAnswerUnknown { request_id } => seq![
                SpecNotifyResponseData::CanYouAnswer {
                    request_id,
                    code: ResponseStatus::BadRequest.spec_code(),
                },
            ] + spec_assemble(correlated.drop_first(), fetched),
            SpecCorrelated::RequestedKnown { request_id, .. } => seq![
                SpecNotifyResponseData::Requested { request_id, code: fetched[0] },
            ] + spec_assemble(correlated.drop_first(), fetched.drop_first()),
            SpecCorrelated::RequestedUnknown { request_id } => seq![
                SpecNotifyResponseData::Requested {
                    request_id,
                    code: ResponseStatus::BadRequest.spec_code(),
                },
            ] + spec_assemble(correlated.drop_first(), fetched),
        }
    }
}

/// How many correlated data await a host acknowledgement.
pub open spec fn spec_known_count<C, R>(correlated: Seq<SpecCorrelated<C, R>>) -> nat
    decreases correlated.len(),
{
    if correlated.len() == 0 {
        0
    } else {
        (match correlated[0] {
            SpecCorrelated::RequestedKnown { .. } => 1 as nat,
            _ => 0 as nat,
        }) + spec_known_count(correlated.drop_first())
    }
}

/// The code a delivered activation is answered with: the host's
/// acknowledgement where one arrived, 2.05 where the acknowledgement
/// channel was dropped.
pub fn ack_code(ack: Option<RequestResponse>) -> (r: u16)
    ensures
        r == match ack {
            Option::Some(a) => a.code,
            Option::None => ResponseStatus::Content.spec_code(),
        },
{
    match ack {
        Option::Some(a) => a.code,
        Option::None => ResponseStatus::Content.code(),
    }
}

/// Builds the `MsgNotificationResponse` for a batch with no standalone
/// entries: its data mirror the input order, each tagged with its request
/// identifier and resolved code. `fetched` carries the host acknowledgement
/// codes of the delivered activations, in order.
pub fn assemble_notification_response<C, R>(
    correlated: &Vec<Correlated<C, R>>,
    fetched: &Vec<u16>,
) -> (r: crate::structures::MsgNotificationResponse)
    requires
        fetched@.len() == spec_known_count(correlated.deep_view()),
    ensures
        r@.data == spec_assemble(correlated.deep_view(), fetched@),
{
    let ghost corr0 = correlated.deep_view();
    let fetched_len: usize = fetched.len();
    let mut data: Vec<crate::structures::NotifyResponseData> = Vec::new();
    let mut i: usize = 0;
    let mut j: usize = 0;
    proof {
        assert(corr0.skip(0) =~= corr0);
        assert(fetched@.skip(0) =~= fetched@);
    }
    while i < correlated.len()
        invariant
            0 <= i <= correlated@.len(),
            0 <= j <= fetched@.len(),
            fetched_len == fetched@.len(),
            corr0 == correlated.deep_view(),
            fetched@.len() - j == spec_known_count(corr0.skip(i as int)),
            spec_assemble(corr0, fetched@) == data.deep_view() + spec_assemble(
                corr0.skip(i as int),
                fetched@.skip(j as int),
            ),
        decreases correlated@.len() - i,
    {
        let ghost data_pre = data.deep_view();
        let ghost rem = corr0.skip(i as int);
        let ghost fem = fetched@.skip(j as int);
        proof {
            assert(rem[0] == corr0[i as int]);
            assert(rem.drop_first() =~= corr0.skip(i as int + 1));
        }
        match &correlated[i] {
            Correlated::CanYouAnswerKnown { request_id, .. } => {
                data.push(
                    crate::structures::NotifyResponseData::CanYouAnswer {
                        request_id: *request_id,
                        code: ResponseStatus::Valid.code(),
                    },
                );
            },
            Correlated::CanYouAnswerUnknown { request_id } => {
                data.push(
                    crate::structures::NotifyResponseData::CanYouAnswer {
                        request_id: *request_id,
                        code: ResponseStatus::BadRequest.code(),
                    },
                );
            },
            Correlated::RequestedKnown { request_id, .. } => {
                proof {
                    assert(spec_known_count(rem) > 0);
                    assert(j < fetched@.len());
                }
                let code = fetched[j];
                j = j + 1;
                proof {
                    assert(fem[0] == fetched@[j - 1]);
                    assert(fem.drop_first() =~= fetched@.skip(j as int));
                }
                data.push(
                    crate::structures::NotifyResponseData::Requested {
                        request_id: *request_id,
                        code,
                    },
                );
            },
            Correlated::RequestedUnknown { request_id } => {
                data.push(
                    crate::structures::NotifyResponseData::Requested {
                        request_id: *request_id,
                        code: ResponseStatus::BadRequest.code(),
                    },
                );
            },
        }
        i = i + 1;
        proof {
            assert(data.deep_view() =~= data_pre + seq![data.deep_view().last()]);
            assert(data_pre + spec_assemble(rem, fem) =~= data.deep_view() + spec_assemble(
                corr0.skip(i as int),
                fetched@.skip(j as int),
            ));
        }
    }
    proof {
        assert(corr0.skip(i as int) =~= Seq::<SpecCorrelated<C, R>>::empty());
        assert(spec_assemble(corr0, fetched@) =~= data.deep_view());
    }
    crate::structures::MsgNotificationResponse { data }
}

/// The skill register: keeps account of the skills attached to the system
/// and of every outbound request still awaiting its reply, and decides how
/// each inbound message is answered.
pub struct SkillRegister<C, R> {
    skills: SkillDirectory,
    pending_can_you: PendingTable<C>,
    pending_requests: PendingTable<R>,
    ids: IdAllocator,
}

impl<C, R> SkillRegister<C, R> {
    /// The set of attached skill identifiers.
    pub closed spec fn attached(self) -> Set<Seq<char>> {
        self.skills@
    }

    /// The pending can-you-answer table.
    pub closed spec fn can_you(self) -> Map<u64, C> {
        self.pending_can_you@
    }

    /// The pending activation table.
    pub closed spec fn requests(self) -> Map<u64, R> {
        self.pending_requests@
    }

    /// The next request identifier to be allocated.
    pub closed spec fn next_id(self) -> u64 {
        self.ids.next_id()
    }

    /// Well-formedness: the directory holds one record per skill, the
    /// tables' keys are distinct, and every pending identifier was allocated
    /// in the past — it is below the next fresh one.
    pub closed spec fn wf(self) -> bool {
        &&& self.skills.wf()
        &&& self.pending_can_you.wf()
        &&& self.pending_requests.wf()
        &&& forall|k: u64| self.pending_can_you@.contains_key(k) ==> k < self.ids.next_id()
        &&& forall|k: u64| self.pending_requests@.contains_key(k) ==> k < self.ids.next_id()
    }

    /// A fresh register: nothing attached, nothing pending, identifiers
    /// starting at 0.
    pub fn new() -> (r: SkillRegister<C, R>)
        ensures
            r.wf(),
            r.attached() == Set::<Seq<char>>::empty(),
            r.can_you() == Map::<u64, C>::empty(),
            r.requests() == Map::<u64, R>::empty(),
            r.next_id() == 0,
    {
        SkillRegister {
            skills: SkillDirectory::new(),
            pending_can_you: PendingTable::new(),
            pending_requests: PendingTable::new(),
            ids: IdAllocator::new(),
        }
    }

    /// Whether the skill with this identifier is currently attached. Every
    /// inbound path other than `connect` rejects with 4.00 when this is
    /// false of its subject skill.
    pub fn skill_gate(&self, skill_id: &String) -> (r: bool)
        requires
            self.wf(),
        ensures
            r == self.attached().contains(skill_id@),
    {
        self.skills.contains(skill_id)
    }

    /// The `connect` gate: a connect is accepted for the host's decision
    /// exactly when the identifier is not yet attached and the declared
    /// version matches the registry's own, byte for byte.
    pub fn connect_gate(&self, msg: &crate::structures::MsgConnect) -> (r: bool)
        requires
            self.wf(),
        ensures
            r == (!self.attached().contains(msg.id@) && msg.vap_version@ == vap_version_spec()),
    {
        let version = String::from_str(vap_version());
        !self.skills.contains(&msg.id) && msg.vap_version == version
    }

    /// Completes a `connect` once the host chose a status: on any OK-family
    /// status the skill is recorded as attached and the registry owes the
    /// skill a registration push; otherwise nothing changes. Returns whether
    /// to push.
    pub fn connect_complete(&mut self, id: &String, status: ResponseStatus) -> (push: bool)
        requires
            old(self).wf(),
        ensures
            final(self).wf(),
            push == status.spec_ok_family(),
            final(self).attached() == if status.spec_ok_family() {
                old(self).attached().insert(id@)
            } else {
                old(self).attached()
            },
            final(self).can_you() == old(self).can_you(),
            final(self).requests() == old(self).requests(),
            final(self).next_id() == old(self).next_id(),
    {
        if status.is_ok_family() {
            if !self.skills.contains(id) {
                self.skills.insert(id.clone());
            } else {
                proof {
                    assert(old(self).attached().insert(id@) =~= old(self).attached());
                }
            }
            true
        } else {
            false
        }
    }

    /// Completes a `close` once the host chose a status: on any OK-family
    /// status the skill's record is removed; otherwise nothing changes.
    pub fn close_complete(&mut self, id: &String, status: ResponseStatus)
        requires
            old(self).wf(),
        ensures
            final(self).wf(),
            final(self).attached() == if status.spec_ok_family() {
                old(self).attached().remove(id@)
            } else {
                old(self).attached()
            },
            final(self).can_you() == old(self).can_you(),
            final(self).requests() == old(self).requests(),
            final(self).next_id() == old(self).next_id(),
    {
        if status.is_ok_family() {
            self.skills.remove(id);
        }
    }

    /// Prepares an activation: allocates a fresh request identifier, stamps
    /// it into the outgoing message, and files `entry` in the activation
    /// table under that identifier.
    pub fn activate_prepare(&mut self, entry: R, msg: MsgSkillRequest) -> (r: (u64, MsgSkillRequest))
        requires
            old(self).wf(),
            old(self).next_id() < u64::MAX,
        ensures
            final(self).wf(),
            r.0 == old(self).next_id(),
            final(self).next_id() == old(self).next_id() + 1,
            final(self).requests() == old(self).requests().insert(r.0, entry),
            final(self).can_you() == old(self).can_you(),
            final(self).attached() == old(self).attached(),
            r.1@.request_id == r.0,
            r.1@.client == msg@.client,
            r.1@.request == msg@.request,
    {
        let id = self.ids.allocate();
        let mut out = msg;
        out.request_id = id;
        self.pending_requests.insert(id, entry);
        proof {
            assert forall|k: u64| self.pending_requests@.contains_key(k) implies k
                < self.ids.next_id() by {
                if k != id {
                    assert(old(self).requests().contains_key(k));
                }
            }
        }
        (id, out)
    }

    /// Prepares a can-you-answer probe: allocates a fresh request
    /// identifier, stamps it into the outgoing message, and files `sender`
    /// in the can-you-answer table under that identifier.
    pub fn probe_prepare(&mut self, sender: C, msg: MsgSkillRequest) -> (r: (u64, MsgSkillRequest))
        requires
            old(self).wf(),
            old(self).next_id() < u64::MAX,
        ensures
            final(self).wf(),
            r.0 == old(self).next_id(),
            final(self).next_id() == old(self).next_id() + 1,
            final(self).can_you() == old(self).can_you().insert(r.0, sender),
            final(self).requests() == old(self).requests(),
            final(self).attached() == old(self).attached(),
            r.1@.request_id == r.0,
            r.1@.client == msg@.client,
            r.1@.request == msg@.request,
    {
        let id = self.ids.allocate();
        let mut out = msg;
        out.request_id = id;
        self.pending_can_you.insert(id, sender);
        proof {
            assert forall|k: u64| self.pending_can_you@.contains_key(k) implies k
                < self.ids.next_id() by {
                if k != id {
                    assert(old(self).can_you().contains_key(k));
                }
            }
        }
        (id, out)
    }

    /// Correlates a notification batch against the pending tables, exactly
    /// as `spec_correlate` reads the batch: entries leave their table on
    /// first use, per-datum order is the batch order, and the standalone
    /// entries — if any — are bundled as a single host event.

    /// The notification handler's decision: a batch from a skill that is
    /// not attached is rejected with 4.00 and nothing is processed — no
    /// pending entry leaves its table; a batch from an attached skill is
    /// correlated as `spec_correlate` reads it.
    pub fn handle_notification(&mut self, msg: MsgNotification) -> (r: Result<
        NotificationPlan<C, R>,
        ResponseStatus,
    >)
        requires
            old(self).wf(),
        ensures
            final(self).wf(),
            final(self).attached() == old(self).attached(),
            final(self).next_id() == old(self).next_id(),
            !old(self).attached().contains(msg@.skill_id) ==> (r == Result::<
                NotificationPlan<C, R>,
                ResponseStatus,
            >::Err(ResponseStatus::BadRequest) && final(self).can_you() == old(self).can_you()
                && final(self).requests() == old(self).requests()),
            old(self).attached().contains(msg@.skill_id) ==> (r matches Ok(plan) && ({
                let p = spec_correlate(old(self).can_you(), old(self).requests(), msg@.data);
                &&& final(self).can_you() == p.can_you
                &&& final(self).requests() == p.requests
                &&& plan.correlated.deep_view() == p.correlated
                &&& match plan.standalone {
                    Option::Some(n) => p.standalone.len() > 0 && n@.skill_id == msg@.skill_id
                        && n@.data == p.standalone,
                    Option::None => p.standalone.len() == 0,
                }
            })),
    {
        if !self.skill_gate(&msg.skill_id) {
            return Result::Err(ResponseStatus::BadRequest);
        }
        Result::Ok(self.correlate_notification(msg))
    }

    pub fn correlate_notification(&mut self, msg: MsgNotification) -> (r: NotificationPlan<C, R>)
        requires
            old(self).wf(),
            old(self).attached().contains(msg@.skill_id),
        ensures
            final(self).wf(),
            final(self).attached() == old(self).attached(),
            final(self).next_id() == old(self).next_id(),
            ({
                let p = spec_correlate(old(self).can_you(), old(self).requests(), msg@.data);
                &&& final(self).can_you() == p.can_you
                &&& final(self).requests() == p.requests
                &&& r.correlated.deep_view() == p.correlated
                &&& match r.standalone {
                    Option::Some(n) => p.standalone.len() > 0 && n@.skill_id == msg@.skill_id
                        && n@.data == p.standalone,
                    Option::None => p.standalone.len() == 0,
                }
            }),
    {
        let ghost cy0 = self.can_you();
        let ghost rq0 = self.requests();
        let ghost data0 = msg@.data;
        let MsgNotification { skill_id, data } = msg;
        let mut rest = data;
        let mut correlated: Vec<Correlated<C, R>> = Vec::new();
        let mut standalone: Vec<NotificationData> = Vec::new();
        while rest.len() != 0
            invariant
                self.wf(),
                self.attached() == old(self).attached(),
                self.next_id() == old(self).next_id(),
                ({
                    let p = spec_correlate::<C, R>(self.can_you(), self.requests(),
                        rest.deep_view());
                    let q = spec_correlate::<C, R>(cy0, rq0, data0);
                    &&& q.can_you == p.can_you
                    &&& q.requests == p.requests
                    &&& q.correlated == correlated.deep_view() + p.correlated
                    &&& q.standalone == standalone.deep_view() + p.standalone
                }),
            decreases rest.len(),
        {
            let ghost rest0 = rest.deep_view();
            let ghost cy_pre = self.can_you();
            let ghost rq_pre = self.requests();
            let ghost corr_pre = correlated.deep_view();
            let ghost sa_pre = standalone.deep_view();
            let ghost p_pre = spec_correlate::<C, R>(cy_pre, rq_pre, rest0);
            let d = rest.remove(0);
            proof {
                assert(rest.deep_view() =~= rest0.drop_first());
                assert(rest0[0] == d.deep_view());
            }
            match d {
                NotifyData::CanYouAnswer { request_id, confidence_bits } => {
                    let taken = self.pending_can_you.take(request_id);
                    match taken {
                        Option::Some(sender) => {
                            correlated.push(
                                Correlated::CanYouAnswerKnown {
                                    request_id,
                                    sender,
                                    confidence_bits,
                                },
                            );
                            proof {
                                let ev = SpecCorrelated::<C, R>::CanYouAnswerKnown {
                                    request_id,
                                    sender,
                                    confidence_bits,
                                };
                                let p_next = spec_correlate::<C, R>(
                                    self.can_you(),
                                    self.requests(),
                                    rest.deep_view(),
                                );
                                assert(p_pre.correlated =~= seq![ev] + p_next.correlated);
                                assert(correlated.deep_view() =~= corr_pre + seq![ev]);
                                assert(corr_pre + p_pre.correlated =~= correlated.deep_view()
                                    + p_next.correlated);
                            }
                        },
                        Option::None => {
                            proof {
                                assert(self.pending_can_you@ =~= cy_pre);
                            }
                            correlated.push(Correlated::CanYouAnswerUnknown { request_id });
                            proof {
                                let ev = SpecCorrelated::<C, R>::CanYouAnswerUnknown {
                                    request_id,
                                };
                                let p_next = spec_correlate::<C, R>(
                                    self.can_you(),
                                    self.requests(),
                                    rest.deep_view(),
                                );
                                assert(p_pre.correlated =~= seq![ev] + p_next.correlated);
                                assert(correlated.deep_view() =~= corr_pre + seq![ev]);
                                assert(corr_pre + p_pre.correlated =~= correlated.deep_view()
                                    + p_next.correlated);
                            }
                        },
                    }
                },
                NotifyData::Requested { request_id, capabilities } => {
                    let taken = self.pending_requests.take(request_id);
                    match taken {
                        Option::Some(entry) => {
                            let ghost caps_view = capabilities.deep_view();
                            correlated.push(
                                Correlated::RequestedKnown { request_id, entry, capabilities },
                            );
                            proof {
                                let ev = SpecCorrelated::<C, R>::RequestedKnown {
                                    request_id,
                                    entry,
                                    capabilities: caps_view,
                                };
                                let p_next = spec_correlate::<C, R>(
                                    self.can_you(),
                                    self.requests(),
                                    rest.deep_view(),
                                );
                                assert(p_pre.correlated =~= seq![ev] + p_next.correlated);
                                assert(correlated.deep_view() =~= corr_pre + seq![ev]);
                                assert(corr_pre + p_pre.correlated =~= correlated.deep_view()
                                    + p_next.correlated);
                            }
                        },
                        Option::None => {
                            proof {
                                assert(self.pending_requests@ =~= rq_pre);
                            }
                            correlated.push(Correlated::RequestedUnknown { request_id });
                            proof {
                                let ev = SpecCorrelated::<C, R>::RequestedUnknown { request_id };
                                let p_next = spec_correlate::<C, R>(
                                    self.can_you(),
                                    self.requests(),
                                    rest.deep_view(),
                                );
                                assert(p_pre.correlated =~= seq![ev] + p_next.correlated);
                                assert(correlated.deep_view() =~= corr_pre + seq![ev]);
                                assert(corr_pre + p_pre.correlated =~= correlated.deep_view()
                                    + p_next.correlated);
                            }
                        },
                    }
                },
                NotifyData::StandAlone { client_id, capabilities } => {
                    let ghost cid_view = client_id@;
                    let ghost caps_view = capabilities.deep_view();
                    standalone.push(NotificationData { client_id, capabilities });
                    proof {
                        let ev = SpecNotificationData {
                            client_id: cid_view,
                            capabilities: caps_view,
                        };
                        let p_next = spec_correlate::<C, R>(
                            self.can_you(),
                            self.requests(),
                            rest.deep_view(),
                        );
                        assert(p_pre.standalone =~= seq![ev] + p_next.standalone);
                        assert(standalone.deep_view() =~= sa_pre + seq![ev]);
                        assert(sa_pre + p_pre.standalone =~= standalone.deep_view()
                            + p_next.standalone);
                    }
                },
            }
        }
        proof {
            assert(rest.deep_view() =~= Seq::<SpecNotifyData>::empty());
            let q = spec_correlate::<C, R>(cy0, rq0, data0);
            assert(q.correlated =~= correlated.deep_view());
            assert(q.standalone =~= standalone.deep_view());
        }
        let standalone_event = if standalone.len() > 0 {
            Option::Some(Notification { skill_id, data: standalone })
        } else {
            Option::None
        };
        NotificationPlan { correlated, standalone: standalone_event }
    }
}



/// How many data of a batch are correlated (not standalone) — the length
/// of the correlated output.
pub open spec fn spec_correlated_count(data: Seq<SpecNotifyData>) -> nat
    decreases data.len(),
{
    if data.len() == 0 {
        0
    } else {
        (match data[0] {
            SpecNotifyData::StandAlone { .. } => 0 as nat,
            _ => 1 as nat,
        }) + spec_correlated_count(data.drop_first())
    }
}

/// Correlation only removes pending entries: every identifier pending
/// after a batch was pending before it.
pub proof fn lemma_correlate_shrinks<C, R>(
    can_you: Map<u64, C>,
    requests: Map<u64, R>,
    data: Seq<SpecNotifyData>,
)
    ensures
        forall|k: u64|
            #[trigger] spec_correlate(can_you, requests, data).requests.contains_key(k)
                ==> requests.contains_key(k),
        forall|k: u64|
            #[trigger] spec_correlate(can_you, requests, data).can_you.contains_key(k)
                ==> can_you.contains_key(k),
        spec_correlate(can_you, requests, data).correlated.len() == spec_correlated_count(data),
    decreases data.len(),
{
    if data.len() > 0 {
        match data[0] {
            SpecNotifyData::CanYouAnswer { request_id, .. } => {
                if can_you.contains_key(request_id) {
                    lemma_correlate_shrinks(can_you.remove(request_id), requests, data.drop_first());
                } else {
                    lemma_correlate_shrinks(can_you, requests, data.drop_first());
                }
            },
            SpecNotifyData::Requested { request_id, .. } => {
                if requests.contains_key(request_id) {
                    lemma_correlate_shrinks(can_you, requests.remove(request_id), data.drop_first());
                } else {
                    lemma_correlate_shrinks(can_you, requests, data.drop_first());
                }
            },
            SpecNotifyData::StandAlone { .. } => {
                lemma_correlate_shrinks(can_you, requests, data.drop_first());
            },
        }
    }
}

/// An unknown-id answer is 4.00, wherever it stands in the batch: a
/// correlated datum resolved as unknown is answered with code 400 at its
/// own position, whatever the host acknowledged for the others.
pub proof fn lemma_unknown_answers_400<C, R>(
    correlated: Seq<SpecCorrelated<C, R>>,
    fetched: Seq<u16>,
    j: int,
)
    requires
        0 <= j < correlated.len(),
    ensures
        correlated[j] matches SpecCorrelated::RequestedUnknown { request_id } ==> spec_assemble(
            correlated,
            fetched,
        )[j] == (SpecNotifyResponseData::Requested {
            request_id,
            code: ResponseStatus::BadRequest.spec_code(),
        }),
        correlated[j] matches SpecCorrelated::CanYouAnswerUnknown { request_id } ==> spec_assemble(
            correlated,
            fetched,
        )[j] == (SpecNotifyResponseData::CanYouAnswer {
            request_id,
            code: ResponseStatus::BadRequest.spec_code(),
        }),
    decreases j,
{
    if j > 0 {
        assert(correlated.drop_first()[j - 1] == correlated[j]);
        match correlated[0] {
            SpecCorrelated::RequestedKnown { .. } => {
                lemma_unknown_answers_400(correlated.drop_first(), fetched.drop_first(), j - 1);
                lemma_spec_assemble_ok(correlated.drop_first(), fetched.drop_first());
                assert(spec_assemble(correlated, fetched)[j] == spec_assemble(
                    correlated.drop_first(),
                    fetched.drop_first(),
                )[j - 1]);
            },
            _ => {
                lemma_unknown_answers_400(correlated.drop_first(), fetched, j - 1);
                lemma_spec_assemble_ok(correlated.drop_first(), fetched);
                assert(spec_assemble(correlated, fetched)[j] == spec_assemble(
                    correlated.drop_first(),
                    fetched,
                )[j - 1]);
            },
        }
    }
}

/// The orphan-id policy, over arbitrary batches: a `Requested` datum whose
/// identifier is not pending contributes the per-datum answer 400 at its
/// own place in the response — it neither fails the batch nor touches the
/// tables beyond what the other data do.
pub proof fn lemma_orphan_requested_400<C, R>(
    can_you: Map<u64, C>,
    requests: Map<u64, R>,
    data: Seq<SpecNotifyData>,
    fetched: Seq<u16>,
    i: int,
    k: u64,
)
    requires
        0 <= i < data.len(),
        data[i] matches SpecNotifyData::Requested { request_id, .. } && request_id == k,
        !requests.contains_key(k),
    ensures
        ({
            let p = spec_correlate(can_you, requests, data);
            let j = spec_correlated_count(data.take(i)) as int;
            &&& 0 <= j < p.correlated.len()
            &&& p.correlated[j] == (SpecCorrelated::<C, R>::RequestedUnknown { request_id: k })
            &&& spec_assemble(p.correlated, fetched)[j] == (SpecNotifyResponseData::Requested {
                request_id: k,
                code: ResponseStatus::BadRequest.spec_code(),
            })
        }),
    decreases i,
{
    let p = spec_correlate(can_you, requests, data);
    lemma_correlate_shrinks(can_you, requests, data);
    if i == 0 {
        assert(data.take(0) =~= Seq::<SpecNotifyData>::empty());
        lemma_correlate_shrinks(can_you, requests, data.drop_first());
        lemma_unknown_answers_400(p.correlated, fetched, 0);
    } else {
        match data[0] {
            SpecNotifyData::CanYouAnswer { request_id, .. } => {
                let cy2 = if can_you.contains_key(request_id) {
                    can_you.remove(request_id)
                } else {
                    can_you
                };
                assert(data.drop_first()[i - 1] == data[i]);
                lemma_orphan_requested_400(cy2, requests, data.drop_first(), fetched, i - 1, k);
                let p2 = spec_correlate(cy2, requests, data.drop_first());
                let j2 = spec_correlated_count(data.drop_first().take(i - 1)) as int;
                assert(data.take(i).drop_first() =~= data.drop_first().take(i - 1));
                assert(p.correlated[1 + j2] == p2.correlated[j2]);
                lemma_unknown_answers_400(p.correlated, fetched, 1 + j2);
            },
            SpecNotifyData::Requested { request_id, .. } => {
                let rq2 = if requests.contains_key(request_id) {
                    requests.remove(request_id)
                } else {
                    requests
                };
                assert(!rq2.contains_key(k));
                assert(data.drop_first()[i - 1] == data[i]);
                lemma_orphan_requested_400(can_you, rq2, data.drop_first(), fetched, i - 1, k);
                let p2 = spec_correlate(can_you, rq2, data.drop_first());
                let j2 = spec_correlated_count(data.drop_first().take(i - 1)) as int;
                assert(data.take(i).drop_first() =~= data.drop_first().take(i - 1));
                assert(p.correlated[1 + j2] == p2.correlated[j2]);
                lemma_unknown_answers_400(p.correlated, fetched, 1 + j2);
            },
            SpecNotifyData::StandAlone { .. } => {
                assert(data.drop_first()[i - 1] == data[i]);
                lemma_orphan_requested_400(can_you, requests, data.drop_first(), fetched, i - 1, k);
                let p2 = spec_correlate(can_you, requests, data.drop_first());
                let j2 = spec_correlated_count(data.drop_first().take(i - 1)) as int;
                assert(data.take(i).drop_first() =~= data.drop_first().take(i - 1));
                assert(p.correlated[j2] == p2.correlated[j2]);
                lemma_unknown_answers_400(p.correlated, fetched, j2);
            },
        }
    }
}

/// The reply of every gate miss: any path other than `connect` whose
/// subject skill is not attached is answered 4.00 with an empty body.
pub fn gate_rejection() -> (r: crate::status::Response)
    ensures
        r.status == ResponseStatus::BadRequest,
        r.payload@ == Seq::<u8>::empty(),
{
    crate::status::Response { status: ResponseStatus::BadRequest, payload: Vec::new() }
}

/// The per-skill answer of a can-you-answer round: one notification
/// carrying the probe's request identifier and the skill's confidence.
pub fn can_you_answer_reply(skill_id: String, request_id: u64, confidence_bits: u32) -> (r:
    MsgNotification)
    ensures
        r@.skill_id == skill_id@,
        r@.data.len() == 1,
        r@.data[0] == (SpecNotifyData::CanYouAnswer { request_id, confidence_bits }),
{
    let mut data: Vec<NotifyData> = Vec::new();
    data.push(NotifyData::CanYouAnswer { request_id, confidence_bits });
    let r = MsgNotification { skill_id, data };
    proof {
        assert(r@.data =~= seq![r.data@[0].deep_view()]);
    }
    r
}

/// Every per-datum answer a correlated batch assembles is well formed on
/// the wire: only request-id-tagged forms appear.
proof fn lemma_spec_assemble_ok<C, R>(correlated: Seq<SpecCorrelated<C, R>>, fetched: Seq<u16>)
    ensures
        spec_assemble(correlated, fetched).len() == correlated.len(),
        forall|i: int|
            0 <= i < correlated.len() ==> crate::codec_out::nrd_ok(
                #[trigger] spec_assemble(correlated, fetched)[i],
            ),
    decreases correlated.len(),
{
    if correlated.len() > 0 {
        match correlated[0] {
            SpecCorrelated::RequestedKnown { .. } => {
                lemma_spec_assemble_ok(correlated.drop_first(), fetched.drop_first());
            },
            _ => {
                lemma_spec_assemble_ok(correlated.drop_first(), fetched);
            },
        }
    }
}

/// The CoAP reply to a notification batch with no standalone entries: the
/// per-datum answers in batch order, encoded, under status 2.03.
pub fn notification_reply<C, R>(correlated: &Vec<Correlated<C, R>>, fetched: &Vec<u16>) -> (r:
    crate::status::Response)
    requires
        fetched@.len() == spec_known_count(correlated.deep_view()),
        correlated@.len() < 0x100000000,
    ensures
        r.status == ResponseStatus::Valid,
        r.payload@ == crate::codec_out::enc_notification_response(
            crate::structures::SpecMsgNotificationResponse {
                data: spec_assemble(correlated.deep_view(), fetched@),
            },
        ),
{
    let msg = assemble_notification_response(correlated, fetched);
    proof {
        lemma_spec_assemble_ok(correlated.deep_view(), fetched@);
        assert(correlated.deep_view().len() == correlated@.len());
    }
    let payload = crate::codec_out::encode_notification_response(&msg);
    crate::status::Response { status: ResponseStatus::Valid, payload }
}

} // verus!
