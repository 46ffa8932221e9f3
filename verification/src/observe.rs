//! The observation of resources: who observes which resource, and how many
//! notifications each observer has left unanswered.

use vstd::prelude::*;
use vstd::slice::slice_to_vec;
use vstd::std_specs::cmp::PartialEqSpec;
use vstd::utf8::decode_utf8;

use crate::header::{MessageClass, MessageType, ResponseType};
use crate::option_value::{be_minimal, lemma_be_width, option_from_uint, pow256};
use crate::packet::{option_number, CoapOption, Packet};
use crate::request::{join_with_slash, valid_segments, values_of, CoapRequest};
use crate::wire::PacketView;

verus! {

/// The number of notifications that an observer may leave unanswered, where
/// no other limit is set.
pub const DEFAULT_UNACKNOWLEDGED_LIMIT: u8 = 10;

/// An observer client.
pub struct Observer<Endpoint> {
    pub endpoint: Endpoint,
    pub token: Vec<u8>,
    pub unacknowledged_messages: u8,
    /// The message id of the last update to be acknowledged
    pub message_id: Option<u16>,
}

/// An observer as plain values.
pub struct ObserverView<Endpoint> {
    pub endpoint: Endpoint,
    pub token: Seq<u8>,
    pub unacknowledged_messages: u8,
    pub message_id: Option<u16>,
}

impl<Endpoint> View for Observer<Endpoint> {
    type V = ObserverView<Endpoint>;

    open spec fn view(&self) -> ObserverView<Endpoint> {
        ObserverView {
            endpoint: self.endpoint,
            token: self.token@,
            unacknowledged_messages: self.unacknowledged_messages,
            message_id: self.message_id,
        }
    }
}

/// An observed resource.
pub struct Resource<Endpoint> {
    pub observers: Vec<Observer<Endpoint>>,
    pub sequence: u32,
}

/// An observed resource as plain values.
pub struct ResourceView<Endpoint> {
    pub observers: Seq<ObserverView<Endpoint>>,
    pub sequence: u32,
}

/// Observers as plain values.
pub open spec fn observers_view<Endpoint>(observers: Seq<Observer<Endpoint>>) -> Seq<
    ObserverView<Endpoint>,
> {
    Seq::new(observers.len(), |i: int| observers[i]@)
}

impl<Endpoint> View for Resource<Endpoint> {
    type V = ResourceView<Endpoint>;

    open spec fn view(&self) -> ResourceView<Endpoint> {
        ResourceView { observers: observers_view(self.observers@), sequence: self.sequence }
    }
}

/// The index of the first observer that `wanted` holds of, or the number of
/// observers where it holds of none.
pub open spec fn first_where<Endpoint>(
    observers: Seq<ObserverView<Endpoint>>,
    wanted: spec_fn(ObserverView<Endpoint>) -> bool,
) -> int
    decreases observers.len(),
{
    if observers.len() == 0 || wanted(observers[0]) {
        0
    } else {
        1 + first_where(observers.drop_first(), wanted)
    }
}

/// Holds of the observers at an endpoint that equals `endpoint`.
pub open spec fn at_endpoint<Endpoint: PartialEq>(endpoint: Endpoint) -> spec_fn(
    ObserverView<Endpoint>,
) -> bool {
    |o: ObserverView<Endpoint>| o.endpoint.eq_spec(&endpoint)
}

/// Holds of the observers at an endpoint that equals `endpoint` with the
/// token `token`.
pub open spec fn at_endpoint_with_token<Endpoint: PartialEq>(
    endpoint: Endpoint,
    token: Seq<u8>,
) -> spec_fn(ObserverView<Endpoint>) -> bool {
    |o: ObserverView<Endpoint>| o.endpoint.eq_spec(&endpoint) && o.token == token
}

/// Holds of the observers at an endpoint that equals `endpoint` that wait
/// for the acknowledgement of message `message_id`.
pub open spec fn awaiting<Endpoint: PartialEq>(endpoint: Endpoint, message_id: u16) -> spec_fn(
    ObserverView<Endpoint>,
) -> bool {
    |o: ObserverView<Endpoint>|
        o.message_id == Some(message_id) && o.endpoint.eq_spec(&endpoint)
}

/// A resource that nobody observes yet.
pub open spec fn unobserved<Endpoint>() -> ResourceView<Endpoint> {
    ResourceView { observers: Seq::empty(), sequence: 0 }
}

/// The resource with `observer` registered: in place of the observer at an
/// equal endpoint where there is one, else behind the others.
pub open spec fn registered<Endpoint: PartialEq>(
    resource: Option<ResourceView<Endpoint>>,
    observer: ObserverView<Endpoint>,
) -> ResourceView<Endpoint> {
    let resource = match resource {
        Some(resource) => resource,
        None => unobserved(),
    };
    let position = first_where(resource.observers, at_endpoint(observer.endpoint));
    ResourceView {
        observers: if position < resource.observers.len() {
            resource.observers.update(position, observer)
        } else {
            resource.observers.push(observer)
        },
        ..resource
    }
}

/// The resource without the first observer at an equal endpoint with the
/// given token.
pub open spec fn deregistered<Endpoint: PartialEq>(
    resource: ResourceView<Endpoint>,
    endpoint: Endpoint,
    token: Seq<u8>,
) -> ResourceView<Endpoint> {
    let position = first_where(resource.observers, at_endpoint_with_token(endpoint, token));
    if position < resource.observers.len() {
        ResourceView { observers: resource.observers.remove(position), ..resource }
    } else {
        resource
    }
}

/// An observer after a notification with message id `message_id`: one more
/// unanswered notification, where the count is not at its maximum of 255.
pub open spec fn notified_observer<Endpoint>(
    observer: ObserverView<Endpoint>,
    message_id: u16,
) -> ObserverView<Endpoint> {
    ObserverView {
        unacknowledged_messages: if observer.unacknowledged_messages == 255 {
            255
        } else {
            (observer.unacknowledged_messages + 1) as u8
        },
        message_id: Some(message_id),
        ..observer
    }
}

/// The observers after a notification: each notified, and those dropped
/// that have more than `limit` notifications unanswered.
pub open spec fn notified<Endpoint>(
    observers: Seq<ObserverView<Endpoint>>,
    message_id: u16,
    limit: u8,
) -> Seq<ObserverView<Endpoint>>
    decreases observers.len(),
{
    if observers.len() == 0 {
        Seq::empty()
    } else {
        let rest = notified(observers.drop_last(), message_id, limit);
        let last = notified_observer(observers.last(), message_id);
        if last.unacknowledged_messages <= limit {
            rest.push(last)
        } else {
            rest
        }
    }
}

/// The resource after a change: its sequence one higher, modulo 2 to the
/// power of 32, and its observers notified.
pub open spec fn changed<Endpoint>(
    resource: ResourceView<Endpoint>,
    message_id: u16,
    limit: u8,
) -> ResourceView<Endpoint> {
    ResourceView {
        observers: notified(resource.observers, message_id, limit),
        sequence: if resource.sequence == u32::MAX {
            0
        } else {
            (resource.sequence + 1) as u32
        },
    }
}

/// The resource after `message_ids.len()` changes in a row, notified under
/// the given message ids.
pub open spec fn changed_repeatedly<Endpoint>(
    resource: ResourceView<Endpoint>,
    message_ids: Seq<u16>,
    limit: u8,
) -> ResourceView<Endpoint>
    decreases message_ids.len(),
{
    if message_ids.len() == 0 {
        resource
    } else {
        changed(
            changed_repeatedly(resource, message_ids.drop_last(), limit),
            message_ids.last(),
            limit,
        )
    }
}

/// The resource after the acknowledgement of message `message_id` from
/// `endpoint`: the first observer there that waits for it has nothing
/// unanswered any more.
pub open spec fn acknowledged<Endpoint: PartialEq>(
    resource: ResourceView<Endpoint>,
    endpoint: Endpoint,
    message_id: u16,
) -> ResourceView<Endpoint> {
    let position = first_where(resource.observers, awaiting(endpoint, message_id));
    if position < resource.observers.len() {
        ResourceView {
            observers: resource.observers.update(
                position,
                ObserverView {
                    unacknowledged_messages: 0,
                    message_id: None,
                    ..resource.observers[position]
                },
            ),
            ..resource
        }
    } else {
        resource
    }
}

/// The path of a request as a text: its Uri-Path values that are valid
/// UTF-8, with a slash between each two.
pub open spec fn request_path(message: PacketView) -> Seq<char> {
    decode_utf8(
        join_with_slash(
            valid_segments(values_of(message.options, option_number(CoapOption::UriPath))),
        ),
    )
}

/// The index of the first of `paths` that equals `path`, or their number
/// where none does.
pub open spec fn place(paths: Seq<Seq<char>>, path: Seq<char>) -> int
    decreases paths.len(),
{
    if paths.len() == 0 || paths[0] == path {
        0
    } else {
        1 + place(paths.drop_first(), path)
    }
}

proof fn lemma_first_where_is<Endpoint>(
    observers: Seq<ObserverView<Endpoint>>,
    wanted: spec_fn(ObserverView<Endpoint>) -> bool,
    k: int,
)
    requires
        0 <= k <= observers.len(),
        forall|i: int| 0 <= i < k ==> !wanted(#[trigger] observers[i]),
        k < observers.len() ==> wanted(observers[k]),
    ensures
        first_where(observers, wanted) == k,
    decreases observers.len(),
{
    if k > 0 {
        let rest = observers.drop_first();
        assert(!wanted(observers[0]));
        assert forall|i: int| 0 <= i < k - 1 implies !wanted(#[trigger] rest[i]) by {
            assert(rest[i] == observers[i + 1]);
        }
        lemma_first_where_is(rest, wanted, k - 1);
    }
}

proof fn lemma_place_is(paths: Seq<Seq<char>>, path: Seq<char>, k: int)
    requires
        0 <= k <= paths.len(),
        forall|i: int| 0 <= i < k ==> #[trigger] paths[i] != path,
        k < paths.len() ==> paths[k] == path,
    ensures
        place(paths, path) == k,
    decreases paths.len(),
{
    if k > 0 {
        let rest = paths.drop_first();
        assert(paths[0] != path);
        assert forall|i: int| 0 <= i < k - 1 implies #[trigger] rest[i] != path by {
            assert(rest[i] == paths[i + 1]);
        }
        lemma_place_is(rest, path, k - 1);
    }
}

proof fn lemma_place(paths: Seq<Seq<char>>, path: Seq<char>)
    ensures
        0 <= place(paths, path) <= paths.len(),
        place(paths, path) < paths.len() ==> paths[place(paths, path)] == path,
        forall|i: int| 0 <= i < place(paths, path) ==> #[trigger] paths[i] != path,
    decreases paths.len(),
{
    if paths.len() > 0 && paths[0] != path {
        let rest = paths.drop_first();
        lemma_place(rest, path);
        assert forall|i: int| 0 <= i < place(paths, path) implies #[trigger] paths[i] != path by {
            if i > 0 {
                assert(rest[i - 1] == paths[i]);
            }
        }
    }
}

/// The sequence of a resource after some changes in a row is the sequence
/// before plus their number, modulo 2 to the power of 32: from 0, it is
/// exactly the number of changes.
pub proof fn lemma_sequence_counts_changes<Endpoint>(
    resource: ResourceView<Endpoint>,
    message_ids: Seq<u16>,
    limit: u8,
)
    ensures
        changed_repeatedly(resource, message_ids, limit).sequence == (resource.sequence
            + message_ids.len()) % 0x1_0000_0000,
    decreases message_ids.len(),
{
    if message_ids.len() > 0 {
        lemma_sequence_counts_changes(resource, message_ids.drop_last(), limit);
    }
}

/// After a notification no observer has more than `limit` notifications
/// unanswered, and each observer that is left had one fewer before.
pub proof fn lemma_notified<Endpoint>(
    observers: Seq<ObserverView<Endpoint>>,
    message_id: u16,
    limit: u8,
)
    ensures
        notified(observers, message_id, limit).len() <= observers.len(),
        forall|i: int|
            0 <= i < notified(observers, message_id, limit).len() ==> (#[trigger] notified(
                observers,
                message_id,
                limit,
            )[i]).unacknowledged_messages <= limit,
        limit < 255 ==> forall|i: int|
            0 <= i < notified(observers, message_id, limit).len() ==> (#[trigger] notified(
                observers,
                message_id,
                limit,
            )[i]).unacknowledged_messages >= 1,
    decreases observers.len(),
{
    if observers.len() > 0 {
        lemma_notified(observers.drop_last(), message_id, limit);
    }
}

/// Where every observer has at least `floor` notifications unanswered, after
/// a notification every observer that is left has at least one more.
proof fn lemma_notified_raises<Endpoint>(
    observers: Seq<ObserverView<Endpoint>>,
    message_id: u16,
    limit: u8,
    floor: int,
)
    requires
        limit < 255,
        forall|i: int| 0 <= i < observers.len() ==> (#[trigger] observers[i]).unacknowledged_messages
            >= floor,
    ensures
        forall|i: int|
            0 <= i < notified(observers, message_id, limit).len() ==> (#[trigger] notified(
                observers,
                message_id,
                limit,
            )[i]).unacknowledged_messages >= floor + 1,
    decreases observers.len(),
{
    if observers.len() > 0 {
        let front = observers.drop_last();
        assert forall|i: int| 0 <= i < front.len() implies (#[trigger] front[i]).unacknowledged_messages
            >= floor by {
            assert(front[i] == observers[i]);
        }
        lemma_notified_raises(front, message_id, limit, floor);
        lemma_notified(observers, message_id, limit);
        assert(observers.last() == observers[observers.len() - 1]);
    }
}

proof fn lemma_changed_repeatedly_raises<Endpoint>(
    resource: ResourceView<Endpoint>,
    message_ids: Seq<u16>,
    limit: u8,
)
    requires
        limit < 255,
    ensures
        forall|i: int|
            0 <= i < changed_repeatedly(resource, message_ids, limit).observers.len() ==> (
            #[trigger] changed_repeatedly(
                resource,
                message_ids,
                limit,
            ).observers[i]).unacknowledged_messages >= message_ids.len(),
        forall|i: int|
            0 <= i < changed_repeatedly(resource, message_ids, limit).observers.len() ==> (
            #[trigger] changed_repeatedly(
                resource,
                message_ids,
                limit,
            ).observers[i]).unacknowledged_messages <= limit || message_ids.len() == 0,
    decreases message_ids.len(),
{
    if message_ids.len() > 0 {
        let before = changed_repeatedly(resource, message_ids.drop_last(), limit);
        lemma_changed_repeatedly_raises(resource, message_ids.drop_last(), limit);
        lemma_notified_raises(
            before.observers,
            message_ids.last(),
            limit,
            message_ids.len() - 1,
        );
        lemma_notified(before.observers, message_ids.last(), limit);
    }
}

/// An observer that answers nothing is forgotten: after more changes in a
/// row than the limit of unanswered notifications, no observer is left.
pub proof fn lemma_unresponsive_observers_age_out<Endpoint>(
    resource: ResourceView<Endpoint>,
    message_ids: Seq<u16>,
    limit: u8,
)
    requires
        limit < 255,
        message_ids.len() > limit,
    ensures
        changed_repeatedly(resource, message_ids, limit).observers.len() == 0,
{
    lemma_changed_repeatedly_raises(resource, message_ids, limit);
    let after = changed_repeatedly(resource, message_ids, limit);
    if after.observers.len() > 0 {
        assert(after.observers[0].unacknowledged_messages >= message_ids.len());
        assert(after.observers[0].unacknowledged_messages <= limit);
    }
}

/// Whether two byte strings are equal.
fn bytes_equal(a: &[u8], b: &[u8]) -> (equal: bool)
    ensures
        equal == (a@ == b@),
{
    if a.len() != b.len() {
        return false;
    }
    let mut i: usize = 0;
    while i < a.len()
        invariant
            i <= a@.len(),
            a@.len() == b@.len(),
            forall|k: int| 0 <= k < i ==> a@[k] == b@[k],
        decreases a@.len() - i,
    {
        if a[i] != b[i] {
            return false;
        }
        i = i + 1;
    }
    assert(a@ =~= b@);
    true
}

/// Whether the observer is at an endpoint that equals `endpoint` and waits
/// for the acknowledgement of message `message_id`.
fn is_awaiting<Endpoint: PartialEq>(
    observer: &Observer<Endpoint>,
    endpoint: &Endpoint,
    message_id: u16,
) -> (r: bool)
    ensures
        Endpoint::obeys_eq_spec() ==> r == awaiting(*endpoint, message_id)(observer@),
{
    match observer.message_id {
        Some(observe_msg_id) => {
            // Unacknowledgement doesn't officially require the token to be
            // passed in the ACK so it's not checked
            observer.endpoint.eq(endpoint) && observe_msg_id == message_id
        },
        None => false,
    }
}

/// Whether the observer is at an endpoint that equals `endpoint` with the
/// token `token`.
fn is_at_endpoint_with_token<Endpoint: PartialEq>(
    observer: &Observer<Endpoint>,
    endpoint: &Endpoint,
    token: &[u8],
) -> (r: bool)
    ensures
        Endpoint::obeys_eq_spec() ==> r == at_endpoint_with_token(*endpoint, token@)(observer@),
{
    observer.endpoint.eq(endpoint) && bytes_equal(observer.token.as_slice(), token)
}

impl<Endpoint: PartialEq> Resource<Endpoint> {
    /// Registers `observer`: in place of the observer at an equal endpoint
    /// where there is one, else behind the others.
    pub fn register(&mut self, observer: Observer<Endpoint>)
        ensures
            final(self).sequence == old(self).sequence,
            Endpoint::obeys_eq_spec() ==> final(self)@ == registered(Some(old(self)@), observer@),
    {
        let ghost start = self@;
        let ghost wanted = at_endpoint(observer.endpoint);
        let count = self.observers.len();
        let mut position: usize = 0;
        while position < count && !self.observers[position].endpoint.eq(&observer.endpoint)
            invariant
                count == self.observers@.len(),
                position <= count,
                start == self@,
                wanted == at_endpoint(observer.endpoint),
                Endpoint::obeys_eq_spec() ==> forall|i: int|
                    0 <= i < position ==> !wanted(#[trigger] start.observers[i]),
            decreases count - position,
        {
            position = position + 1;
        }
        proof {
            if Endpoint::obeys_eq_spec() {
                lemma_first_where_is(start.observers, wanted, position as int);
            }
        }
        if position < count {
            self.observers[position] = observer;
            assert(self@.observers =~= start.observers.update(position as int, observer@));
        } else {
            self.observers.push(observer);
            assert(self@.observers =~= start.observers.push(observer@));
        }
    }

    /// Removes the first observer at an endpoint that equals `endpoint` with
    /// the token `token`.
    pub fn deregister(&mut self, endpoint: &Endpoint, token: &[u8])
        ensures
            final(self).sequence == old(self).sequence,
            Endpoint::obeys_eq_spec() ==> final(self)@ == deregistered(old(self)@, *endpoint, token@),
    {
        let ghost start = self@;
        let ghost wanted = at_endpoint_with_token(*endpoint, token@);
        let count = self.observers.len();
        let mut position: usize = 0;
        while position < count && !is_at_endpoint_with_token(
            &self.observers[position],
            endpoint,
            token,
        )
            invariant
                count == self.observers@.len(),
                position <= count,
                start == self@,
                wanted == at_endpoint_with_token(*endpoint, token@),
                Endpoint::obeys_eq_spec() ==> forall|i: int|
                    0 <= i < position ==> !wanted(#[trigger] start.observers[i]),
            decreases count - position,
        {
            position = position + 1;
        }
        proof {
            if Endpoint::obeys_eq_spec() {
                lemma_first_where_is(start.observers, wanted, position as int);
            }
        }
        if position < count {
            let removed = self.observers.remove(position);
            assert(self@.observers =~= start.observers.remove(position as int));
        }
    }

    /// Records a change that the observers were notified of under
    /// `message_id`.
    pub fn change(&mut self, message_id: u16, unacknowledged_limit: u8)
        ensures
            final(self)@ == changed(old(self)@, message_id, unacknowledged_limit),
    {
        let ghost start = self@;
        self.sequence = self.sequence.wrapping_add(1);

        let mut i: usize = 0;
        while i < self.observers.len()
            invariant
                i <= self.observers@.len(),
                self.observers@.len() == start.observers.len(),
                self.sequence == changed(start, message_id, unacknowledged_limit).sequence,
                forall|j: int|
                    0 <= j < i ==> (#[trigger] self.observers@[j])@ == notified_observer(
                        start.observers[j],
                        message_id,
                    ),
                forall|j: int|
                    i <= j < start.observers.len() ==> (#[trigger] self.observers@[j])@
                        == start.observers[j],
            decreases self.observers@.len() - i,
        {
            let count = self.observers[i].unacknowledged_messages;
            self.observers[i].unacknowledged_messages = if count == 255 {
                255
            } else {
                count + 1
            };
            self.observers[i].message_id = Some(message_id);
            i = i + 1;
        }
        let ghost bumped = observers_view(self.observers@);

        let mut kept: usize = 0;
        let ghost mut seen: int = 0;
        assert(start.observers.take(0) =~= Seq::<ObserverView<Endpoint>>::empty());
        assert(bumped.skip(0) =~= bumped);
        while kept < self.observers.len()
            invariant
                0 <= seen <= start.observers.len(),
                bumped.len() == start.observers.len(),
                forall|j: int|
                    0 <= j < bumped.len() ==> #[trigger] bumped[j] == notified_observer(
                        start.observers[j],
                        message_id,
                    ),
                kept == notified(
                    start.observers.take(seen),
                    message_id,
                    unacknowledged_limit,
                ).len(),
                observers_view(self.observers@) == notified(
                    start.observers.take(seen),
                    message_id,
                    unacknowledged_limit,
                ) + bumped.skip(seen),
                self.sequence == changed(start, message_id, unacknowledged_limit).sequence,
            decreases start.observers.len() - seen,
        {
            let ghost current = observers_view(self.observers@);
            let ghost done = notified(
                start.observers.take(seen),
                message_id,
                unacknowledged_limit,
            );
            proof {
                assert(current.len() == done.len() + bumped.skip(seen).len());
                assert(seen < start.observers.len());
                assert(current[kept as int] == bumped.skip(seen)[0]);
                assert(self.observers@[kept as int]@ == current[kept as int]);
                let next = start.observers.take(seen + 1);
                assert(next.drop_last() =~= start.observers.take(seen));
                assert(next.last() == start.observers[seen]);
            }
            if self.observers[kept].message_id.is_some()
                && self.observers[kept].unacknowledged_messages <= unacknowledged_limit {
                proof {
                    assert(current =~= done.push(bumped[seen]) + bumped.skip(seen + 1));
                }
                kept = kept + 1;
            } else {
                let dropped = self.observers.remove(kept);
                proof {
                    assert(observers_view(self.observers@) =~= current.remove(kept as int));
                    assert(current.remove(kept as int) =~= done + bumped.skip(seen + 1));
                }
            }
            proof {
                seen = seen + 1;
            }
        }
        proof {
            assert(bumped.skip(seen).len() == 0);
            assert(start.observers.take(seen) =~= start.observers);
            assert(observers_view(self.observers@) =~= notified(
                start.observers,
                message_id,
                unacknowledged_limit,
            ));
        }
    }

    /// Records the acknowledgement of message `message_id` from `endpoint`:
    /// the first observer there that waits for it has nothing unanswered any
    /// more.
    pub fn acknowledge(&mut self, endpoint: &Endpoint, message_id: u16)
        ensures
            final(self).sequence == old(self).sequence,
            Endpoint::obeys_eq_spec() ==> final(self)@ == acknowledged(
                old(self)@,
                *endpoint,
                message_id,
            ),
    {
        let ghost start = self@;
        let ghost wanted = awaiting(*endpoint, message_id);
        let count = self.observers.len();
        let mut position: usize = 0;
        while position < count && !is_awaiting(&self.observers[position], endpoint, message_id)
            invariant
                count == self.observers@.len(),
                position <= count,
                start == self@,
                wanted == awaiting(*endpoint, message_id),
                Endpoint::obeys_eq_spec() ==> forall|i: int|
                    0 <= i < position ==> !wanted(#[trigger] start.observers[i]),
            decreases count - position,
        {
            position = position + 1;
        }
        proof {
            if Endpoint::obeys_eq_spec() {
                lemma_first_where_is(start.observers, wanted, position as int);
            }
        }
        if position < count {
            self.observers[position].unacknowledged_messages = 0;
            self.observers[position].message_id = None;
            assert(self@.observers =~= start.observers.update(
                position as int,
                ObserverView {
                    unacknowledged_messages: 0,
                    message_id: None,
                    ..start.observers[position as int]
                },
            ));
        }
    }
}

/// The paths of tracked resources.
pub open spec fn paths_of<Endpoint>(resources: Seq<(String, Resource<Endpoint>)>) -> Seq<
    Seq<char>,
> {
    Seq::new(resources.len(), |i: int| resources[i].0@)
}

/// Whether no two of `paths` are equal.
pub open spec fn distinct(paths: Seq<Seq<char>>) -> bool {
    forall|i: int, j: int| 0 <= i < j < paths.len() ==> paths[i] != paths[j]
}

/// The resource tracked at `path`, if any.
pub open spec fn resource_in<Endpoint>(
    resources: Seq<(String, Resource<Endpoint>)>,
    path: Seq<char>,
) -> Option<ResourceView<Endpoint>> {
    let k = place(paths_of(resources), path);
    if 0 <= k < resources.len() {
        Some(resources[k].1@)
    } else {
        None
    }
}

proof fn lemma_changed_at<Endpoint>(
    before: Seq<(String, Resource<Endpoint>)>,
    after: Seq<(String, Resource<Endpoint>)>,
    k: int,
)
    requires
        distinct(paths_of(before)),
        0 <= k < before.len(),
        after.len() == before.len(),
        after[k].0@ == before[k].0@,
        forall|j: int| 0 <= j < before.len() && j != k ==> #[trigger] after[j] == before[j],
    ensures
        paths_of(after) == paths_of(before),
        resource_in(after, before[k].0@) == Some(after[k].1@),
        resource_in(before, before[k].0@) == Some(before[k].1@),
        forall|other: Seq<char>|
            other != before[k].0@ ==> resource_in(after, other) == resource_in(before, other),
{
    let paths = paths_of(before);
    assert(paths_of(after) =~= paths) by {
        assert forall|j: int| 0 <= j < before.len() implies paths_of(after)[j] == paths[j] by {
            if j != k {
                assert(after[j] == before[j]);
            }
        }
    }
    assert forall|i: int| 0 <= i < k implies #[trigger] paths[i] != before[k].0@ by {
        assert(paths[i] != paths[k]);
    }
    lemma_place_is(paths, before[k].0@, k);
    assert forall|other: Seq<char>| other != before[k].0@ implies resource_in(after, other)
        == resource_in(before, other) by {
        lemma_place(paths, other);
        let p = place(paths, other);
        if p < paths.len() {
            assert(paths[p] == other);
            assert(p != k);
            assert(after[p] == before[p]);
        }
    }
}

proof fn lemma_pushed<Endpoint>(
    before: Seq<(String, Resource<Endpoint>)>,
    after: Seq<(String, Resource<Endpoint>)>,
    path: Seq<char>,
)
    requires
        distinct(paths_of(before)),
        place(paths_of(before), path) == before.len(),
        after.len() == before.len() + 1,
        after[before.len() as int].0@ == path,
        forall|j: int| 0 <= j < before.len() ==> #[trigger] after[j] == before[j],
    ensures
        distinct(paths_of(after)),
        resource_in(before, path) is None,
        resource_in(after, path) == Some(after[before.len() as int].1@),
        forall|other: Seq<char>|
            other != path ==> resource_in(after, other) == resource_in(before, other),
{
    let paths = paths_of(before);
    let longer = paths_of(after);
    lemma_place(paths, path);
    assert(longer =~= paths.push(path)) by {
        assert forall|j: int| 0 <= j < before.len() implies longer[j] == paths[j] by {
            assert(after[j] == before[j]);
        }
    }
    assert(distinct(longer)) by {
        assert forall|i: int, j: int| 0 <= i < j < longer.len() implies longer[i] != longer[j] by {
            if j < paths.len() {
                assert(paths[i] != paths[j]);
            } else {
                assert(paths[i] != path);
            }
        }
    }
    lemma_place_is(longer, path, before.len() as int);
    assert forall|other: Seq<char>| other != path implies resource_in(after, other)
        == resource_in(before, other) by {
        lemma_place(paths, other);
        let p = place(paths, other);
        if p < paths.len() {
            lemma_place_is(longer, other, p);
            assert(after[p] == before[p]);
        } else {
            lemma_place_is(longer, other, longer.len() as int);
        }
    }
}

/// Keeps track of the state of the observed resources.
pub struct Subject<Endpoint: PartialEq + Clone> {
    resources: Vec<(String, Resource<Endpoint>)>,
    unacknowledged_limit: u8,
}

impl<Endpoint: PartialEq + Clone> Default for Subject<Endpoint> {
    /// No resources, and the default limit of unanswered notifications.
    fn default() -> (subject: Self)
        ensures
            subject.unacknowledged_limit() == DEFAULT_UNACKNOWLEDGED_LIMIT,
            forall|path: Seq<char>| subject.resource(path) is None,
    {
        Subject { resources: Vec::new(), unacknowledged_limit: DEFAULT_UNACKNOWLEDGED_LIMIT }
    }
}

impl<Endpoint: PartialEq + Clone> Subject<Endpoint> {
    #[verifier::type_invariant]
    spec fn well_formed(self) -> bool {
        distinct(paths_of(self.resources@))
    }

    /// The resource at `path`, if it is tracked.
    pub closed spec fn resource(self, path: Seq<char>) -> Option<ResourceView<Endpoint>> {
        resource_in(self.resources@, path)
    }

    /// The number of notifications that an observer may leave unanswered.
    pub closed spec fn unacknowledged_limit(self) -> u8 {
        self.unacknowledged_limit
    }

    /// The index of the resource at `path`, or the number of resources where
    /// it is not tracked.
    fn find(&self, path: &str) -> (k: usize)
        ensures
            k == place(paths_of(self.resources@), path@),
            k <= self.resources@.len(),
            k < self.resources@.len() ==> self.resources@[k as int].0@ == path@,
    {
        let key = path.to_owned();
        let mut k: usize = 0;
        while k < self.resources.len() && !self.resources[k].0.eq(&key)
            invariant
                k <= self.resources@.len(),
                key@ == path@,
                forall|i: int| 0 <= i < k ==> #[trigger] paths_of(self.resources@)[i] != path@,
            decreases self.resources@.len() - k,
        {
            k = k + 1;
        }
        proof {
            lemma_place_is(paths_of(self.resources@), path@, k as int);
        }
        k
    }

    /// Registers an observer interested in a resource: the source of the
    /// request, with its token, for the resource at its path.
    pub fn register(&mut self, request: &CoapRequest<Endpoint>)
        requires
            request.source is Some,
        ensures
            final(self).unacknowledged_limit() == old(self).unacknowledged_limit(),
            forall|other: Seq<char>|
                other != request_path(request.message@) ==> final(self).resource(other) == old(self).resource(other),
            final(self).resource(request_path(request.message@)) is Some,
            Endpoint::obeys_eq_spec() ==> exists|endpoint: Endpoint| #[trigger]
                cloned(request.source->0, endpoint) && final(self).resource(
                    request_path(request.message@),
                ) == Some(
                    registered(
                        old(self).resource(request_path(request.message@)),
                        ObserverView {
                            endpoint,
                            token: request.message.token@,
                            unacknowledged_messages: 0,
                            message_id: None,
                        },
                    ),
                ),
    {
        proof {
            use_type_invariant(&*self);
        }
        let observer_endpoint = match &request.source {
            Some(endpoint) => endpoint,
            None => {
                return;
            },
        };
        let resource_path = request.get_path();
        let token = slice_to_vec(request.message.get_token());
        let ghost path = resource_path@;

        let observer = Observer {
            endpoint: observer_endpoint.clone(),
            token,
            unacknowledged_messages: 0,
            message_id: None,
        };
        let ghost endpoint = observer.endpoint;
        let ghost view = observer@;

        let k = self.find(resource_path.as_str());
        let mut resources: Vec<(String, Resource<Endpoint>)> = Vec::new();
        core::mem::swap(&mut resources, &mut self.resources);
        let ghost before = resources@;
        if k == resources.len() {
            resources.push((resource_path, Resource { observers: Vec::new(), sequence: 0 }));
            proof {
                assert(resources@[k as int].1@.observers =~= Seq::<ObserverView<Endpoint>>::empty());
                lemma_pushed(before, resources@, path);
            }
        } else {
            proof {
                lemma_changed_at(before, resources@, k as int);
            }
        }
        let ghost middle = resources@;
        resources[k].1.register(observer);
        proof {
            assert(distinct(paths_of(middle)));
            lemma_changed_at(middle, resources@, k as int);
        }
        self.resources = resources;
        proof {
            if Endpoint::obeys_eq_spec() {
                assert(cloned(request.source->0, endpoint));
                assert(self.resource(path) == Some(registered(old(self).resource(path), view)));
            }
        }
    }

    /// Removes an observer from the interested resource: the first at the
    /// source of the request with its token, for the resource at its path.
    pub fn deregister(&mut self, request: &CoapRequest<Endpoint>)
        requires
            request.source is Some,
        ensures
            final(self).unacknowledged_limit() == old(self).unacknowledged_limit(),
            forall|other: Seq<char>|
                other != request_path(request.message@) ==> final(self).resource(other) == old(self).resource(other),
            old(self).resource(request_path(request.message@)) is None ==> final(self).resource(
                request_path(request.message@),
            ) is None,
            old(self).resource(request_path(request.message@)) is Some ==> final(self).resource(
                request_path(request.message@),
            ) is Some,
            Endpoint::obeys_eq_spec() && old(self).resource(request_path(request.message@))
                is Some ==> final(self).resource(request_path(request.message@)) == Some(
                deregistered(
                    old(self).resource(request_path(request.message@))->0,
                    request.source->0,
                    request.message.token@,
                ),
            ),
    {
        proof {
            use_type_invariant(&*self);
        }
        let observer_endpoint = match &request.source {
            Some(endpoint) => endpoint,
            None => {
                return;
            },
        };
        let resource_path = request.get_path();
        let token = request.message.get_token();

        let k = self.find(resource_path.as_str());
        if k < self.resources.len() {
            let mut resources: Vec<(String, Resource<Endpoint>)> = Vec::new();
            core::mem::swap(&mut resources, &mut self.resources);
            let ghost before = resources@;
            resources[k].1.deregister(observer_endpoint, token);
            proof {
                lemma_changed_at(before, resources@, k as int);
            }
            self.resources = resources;
        }
    }

    /// Updates the resource information after having notified the observers.
    ///
    /// It increments the resource sequence and counter of unacknowledged
    /// updates, and drops the observers that have left more notifications
    /// unanswered than the limit allows.
    pub fn resource_changed(&mut self, resource: &str, message_id: u16)
        ensures
            final(self).unacknowledged_limit() == old(self).unacknowledged_limit(),
            forall|other: Seq<char>|
                other != resource@ ==> final(self).resource(other) == old(self).resource(other),
            final(self).resource(resource@) == match old(self).resource(resource@) {
                Some(before) => Some(changed(before, message_id, old(self).unacknowledged_limit())),
                None => None,
            },
    {
        proof {
            use_type_invariant(&*self);
        }
        let unacknowledged_limit = self.unacknowledged_limit;
        let k = self.find(resource);
        if k < self.resources.len() {
            let mut resources: Vec<(String, Resource<Endpoint>)> = Vec::new();
            core::mem::swap(&mut resources, &mut self.resources);
            let ghost before = resources@;
            resources[k].1.change(message_id, unacknowledged_limit);
            proof {
                lemma_changed_at(before, resources@, k as int);
            }
            self.resources = resources;
        }
    }

    /// Resets the counter of unacknowledged updates for a resource observer:
    /// in every resource, for the first observer at the source of the
    /// request that waits for the acknowledgement of its message id.
    pub fn acknowledge(&mut self, request: &CoapRequest<Endpoint>)
        requires
            request.source is Some,
        ensures
            final(self).unacknowledged_limit() == old(self).unacknowledged_limit(),
            forall|path: Seq<char>|
                old(self).resource(path) is None <==> #[trigger] final(self).resource(path) is None,
            Endpoint::obeys_eq_spec() ==> forall|path: Seq<char>|
                old(self).resource(path) is Some ==> #[trigger] final(self).resource(path) == Some(
                    acknowledged(
                        old(self).resource(path)->0,
                        request.source->0,
                        request.message.header.message_id,
                    ),
                ),
    {
        proof {
            use_type_invariant(&*self);
        }
        let observer_endpoint = match &request.source {
            Some(endpoint) => endpoint,
            None => {
                return;
            },
        };
        let message_id = request.message.header.message_id;

        let mut resources: Vec<(String, Resource<Endpoint>)> = Vec::new();
        core::mem::swap(&mut resources, &mut self.resources);
        let ghost before = resources@;
        let mut k: usize = 0;
        while k < resources.len()
            invariant
                k <= resources@.len(),
                resources@.len() == before.len(),
                paths_of(resources@) == paths_of(before),
                forall|j: int| k <= j < before.len() ==> #[trigger] resources@[j] == before[j],
                Endpoint::obeys_eq_spec() ==> forall|j: int|
                    0 <= j < k ==> (#[trigger] resources@[j]).1@ == acknowledged(
                        before[j].1@,
                        *observer_endpoint,
                        message_id,
                    ),
            decreases resources@.len() - k,
        {
            let ghost middle = resources@;
            resources[k].1.acknowledge(observer_endpoint, message_id);
            proof {
                assert(paths_of(resources@) =~= paths_of(middle)) by {
                    assert forall|j: int| 0 <= j < middle.len() implies paths_of(resources@)[j]
                        == paths_of(middle)[j] by {
                        if j != k {
                            assert(resources@[j] == middle[j]);
                        }
                    }
                }
                assert forall|j: int| k + 1 <= j < before.len() implies #[trigger] resources@[j]
                    == before[j] by {
                    assert(resources@[j] == middle[j]);
                }
                if Endpoint::obeys_eq_spec() {
                    assert forall|j: int| 0 <= j < k + 1 implies (#[trigger] resources@[j]).1@
                        == acknowledged(before[j].1@, *observer_endpoint, message_id) by {
                        if j < k {
                            assert(resources@[j] == middle[j]);
                        } else {
                            assert(middle[j] == before[j]);
                        }
                    }
                }
            }
            k = k + 1;
        }
        self.resources = resources;
        proof {
            let paths = paths_of(before);
            assert forall|path: Seq<char>| true implies (old(self).resource(path) is None <==> (
            #[trigger] self.resource(path)) is None) by {
                lemma_place(paths, path);
            }
            if Endpoint::obeys_eq_spec() {
                assert forall|path: Seq<char>| old(self).resource(path) is Some implies (
                #[trigger] self.resource(path)) == Some(
                    acknowledged(old(self).resource(path)->0, request.source->0, message_id),
                ) by {
                    lemma_place(paths, path);
                    let p = place(paths, path);
                    assert(self.resources@[p].1@ == acknowledged(
                        before[p].1@,
                        *observer_endpoint,
                        message_id,
                    ));
                }
            }
        }
    }

    /// Gets the tracked resources.
    pub fn get_resource(&self, resource: &str) -> (r: Option<&Resource<Endpoint>>)
        ensures
            match r {
                Some(found) => self.resource(resource@) == Some(found@),
                None => self.resource(resource@) is None,
            },
    {
        let k = self.find(resource);
        if k < self.resources.len() {
            Some(&self.resources[k].1)
        } else {
            None
        }
    }

    /// Gets the observers of a resource.
    pub fn get_resource_observers(&self, resource: &str) -> (r: Option<Vec<&Observer<Endpoint>>>)
        ensures
            match r {
                Some(observers) => self.resource(resource@) is Some && observers@.len()
                    == self.resource(resource@)->0.observers.len() && forall|i: int|
                    0 <= i < observers@.len() ==> (#[trigger] observers@[i])@ == self.resource(
                        resource@,
                    )->0.observers[i],
                None => self.resource(resource@) is None,
            },
    {
        let k = self.find(resource);
        if k < self.resources.len() {
            let found = &self.resources[k].1;
            let mut observers: Vec<&Observer<Endpoint>> = Vec::new();
            let mut i: usize = 0;
            while i < found.observers.len()
                invariant
                    i <= found.observers@.len(),
                    observers@.len() == i,
                    forall|j: int| 0 <= j < i ==> *(#[trigger] observers@[j]) == found.observers@[j],
                decreases found.observers@.len() - i,
            {
                observers.push(&found.observers[i]);
                i = i + 1;
            }
            Some(observers)
        } else {
            None
        }
    }

    /// Sets the limit of unacknowledged updates before removing an observer.
    pub fn set_unacknowledged_limit(&mut self, limit: u8)
        ensures
            final(self).unacknowledged_limit() == limit,
            forall|path: Seq<char>| final(self).resource(path) == old(self).resource(path),
    {
        proof {
            use_type_invariant(&*self);
        }
        self.unacknowledged_limit = limit;
    }
}

/// The notification of a change: a Confirmable 2.05 Content with the given
/// message id, token and payload, whose Observe option is the sequence in the
/// fewest bytes.
pub fn create_notification(message_id: u16, token: Vec<u8>, sequence: u32, payload: Vec<u8>) -> (packet:
    Packet)
    requires
        token@.len() < 16,
    ensures
        packet.header.version() == 1,
        packet.header.message_type() == MessageType::Confirmable,
        packet.header.token_length() == token@.len(),
        packet.header.code == MessageClass::Response(ResponseType::Content),
        packet.header.message_id == message_id,
        packet.token@ == token@,
        packet.payload@ == payload@,
        packet.options@ == seq![
            (option_number(CoapOption::Observe), seq![be_minimal(sequence as nat)]),
        ],
{
    let mut packet = Packet::new();

    packet.header.set_version(1);
    packet.header.set_type(MessageType::Confirmable);
    packet.header.code = MessageClass::Response(ResponseType::Content);
    packet.header.message_id = message_id;
    packet.set_token(token);
    packet.payload = payload;

    proof {
        lemma_be_width(sequence as nat, 4);
        reveal_with_fuel(pow256, 5);
        assert(1u8 & 3 == 1) by (bit_vector);
    }
    let sequence_bytes = option_from_uint(sequence as u64, 4);
    packet.set_observe(sequence_bytes);
    assert(packet.options@ =~= seq![
        (option_number(CoapOption::Observe), seq![be_minimal(sequence as nat)]),
    ]);

    packet
}

} // verus!
