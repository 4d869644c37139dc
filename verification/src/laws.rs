//! Laws of the attach lifecycle, stated over the directory model that the
//! registry's contracts expose.
use vstd::prelude::*;

use crate::status::ResponseStatus;
use crate::vars::vap_version_spec;

verus! {

/// Whether a `connect` for `id` with this version is let through.
pub open spec fn connect_allowed(
    attached: Set<Seq<char>>,
    id: Seq<char>,
    version: Seq<char>,
) -> bool {
    !attached.contains(id) && version == vap_version_spec()
}

/// The attached set after one `connect` attempt, as `connect_gate` and
/// `connect_complete` leave it: the id is added exactly when the attempt
/// was let through and the host chose an OK-family status.
pub open spec fn step_connect(
    attached: Set<Seq<char>>,
    id: Seq<char>,
    version: Seq<char>,
    status: ResponseStatus,
) -> Set<Seq<char>> {
    if connect_allowed(attached, id, version) && status.spec_ok_family() {
        attached.insert(id)
    } else {
        attached
    }
}

/// The attached set after one `close` attempt, as `close_complete` leaves
/// it.
pub open spec fn step_close(attached: Set<Seq<char>>, id: Seq<char>, status: ResponseStatus) -> Set<
    Seq<char>,
> {
    if status.spec_ok_family() {
        attached.remove(id)
    } else {
        attached
    }
}

/// Runs a sequence of `connect` attempts for one id, each with its own
/// version and host-chosen status.
pub open spec fn run_connects(
    attached: Set<Seq<char>>,
    id: Seq<char>,
    attempts: Seq<(Seq<char>, ResponseStatus)>,
) -> Set<Seq<char>>
    decreases attempts.len(),
{
    if attempts.len() == 0 {
        attached
    } else {
        run_connects(
            step_connect(attached, id, attempts[0].0, attempts[0].1),
            id,
            attempts.drop_first(),
        )
    }
}

/// Attach-uniqueness: once a skill is attached, every further `connect`
/// for its id fails — the attempts change nothing, whatever version they
/// declare and whatever the host answers — until a matching `close` is
/// accepted, after which a well-versioned, host-accepted `connect`
/// succeeds again.
pub proof fn lemma_attach_uniqueness(
    attached: Set<Seq<char>>,
    id: Seq<char>,
    attempts: Seq<(Seq<char>, ResponseStatus)>,
)
    requires
        attached.contains(id),
    ensures
        run_connects(attached, id, attempts) == attached,
        forall|i: int| 0 <= i < attempts.len() ==> !connect_allowed(attached, id, (#[trigger] attempts[i]).0),
        !step_close(attached, id, ResponseStatus::Deleted).contains(id),
        connect_allowed(step_close(attached, id, ResponseStatus::Deleted), id, vap_version_spec()),
        step_connect(
            step_close(attached, id, ResponseStatus::Deleted),
            id,
            vap_version_spec(),
            ResponseStatus::Created,
        ).contains(id),
    decreases attempts.len(),
{
    if attempts.len() > 0 {
        assert(step_connect(attached, id, attempts[0].0, attempts[0].1) == attached);
        lemma_attach_uniqueness(attached, id, attempts.drop_first());
        assert forall|i: int| 0 <= i < attempts.len() implies !connect_allowed(
            attached,
            id,
            (#[trigger] attempts[i]).0,
        ) by {
            if i > 0 {
                assert(attempts.drop_first()[i - 1] == attempts[i]);
            }
        }
    }
}

/// The version gate alone: a `connect` whose declared version differs from
/// the registry's own never changes the attached set, whatever the host
/// answers.
pub proof fn lemma_version_gate(
    attached: Set<Seq<char>>,
    id: Seq<char>,
    version: Seq<char>,
    status: ResponseStatus,
)
    requires
        version != vap_version_spec(),
    ensures
        step_connect(attached, id, version, status) == attached,
{
}

} // verus!
