//! The organization store: visions and named member groups.
//!
//! A vision is a content-addressed proposal document: the byte blob is its
//! own key, mapping to its author and creation block, with a parallel list
//! of signer accounts. An organization is a named list of member accounts
//! whose first element is permanently the founder; only the founder may
//! add or remove members, attach tasks, or dissolve the organization.

use std::collections::HashMap;
use vstd::prelude::*;

use crate::bmap::ByteMap;

verus! {

broadcast use vstd::std_specs::hash::group_hash_axioms;

/// Why an organization or vision request was rejected.
#[derive(Clone, Copy, Debug, PartialEq, Eq, Structural)]
pub enum Error {
    /// The vision has already been created.
    VisionAlreadyExists,
    /// The vision does not exist.
    NoSuchVision,
    /// Only the author of a vision may remove it.
    NotVisionOwner,
    /// The vision counter cannot grow any further.
    VisionCountOverflow,
    /// The caller has already signed this vision.
    AlreadySigned,
    /// The caller has not signed this vision.
    NotSigned,
    /// Only the founder may change or dissolve an organization.
    NotOrganizationCreator,
    /// The account is already a member of this organization.
    AlreadyMember,
    /// The organization does not exist.
    InvalidOrganization,
    /// The account is not a member of this organization.
    NotMember,
    /// The task is already attached to this organization.
    TaskAlreadyExists,
}

/// Notification recorded for a successful request.
#[derive(Debug, PartialEq, Eq)]
pub enum Event {
    /// A vision was created: author and document.
    VisionCreated(u64, Vec<u8>),
    /// A vision was removed: author and document.
    VisionRemoved(u64, Vec<u8>),
    /// A vision was signed: signer and document.
    VisionSigned(u64, Vec<u8>),
    /// A vision was unsigned: signer and document.
    VisionUnsigned(u64, Vec<u8>),
    /// An organization was created: founder and name.
    OrganizationCreated(u64, Vec<u8>),
    /// An organization was dissolved: founder and name.
    OrganizationDissolved(u64, Vec<u8>),
    /// A member was added: founder and new member.
    MemberAdded(u64, u64),
    /// A member was removed: founder and removed member.
    MemberRemoved(u64, u64),
    /// A task was attached: founder and task id.
    TaskAdded(u64, u64),
}

/// The abstract value of an `Event`: byte payloads as sequences.
pub enum EventView {
    /// A vision was created: author and document.
    VisionCreated(u64, Seq<u8>),
    /// A vision was removed: author and document.
    VisionRemoved(u64, Seq<u8>),
    /// A vision was signed: signer and document.
    VisionSigned(u64, Seq<u8>),
    /// A vision was unsigned: signer and document.
    VisionUnsigned(u64, Seq<u8>),
    /// An organization was created: founder and name.
    OrganizationCreated(u64, Seq<u8>),
    /// An organization was dissolved: founder and name.
    OrganizationDissolved(u64, Seq<u8>),
    /// A member was added: founder and new member.
    MemberAdded(u64, u64),
    /// A member was removed: founder and removed member.
    MemberRemoved(u64, u64),
    /// A task was attached: founder and task id.
    TaskAdded(u64, u64),
}

impl View for Event {
    type V = EventView;

    open spec fn view(&self) -> EventView {
        match self {
            Event::VisionCreated(a, d) => EventView::VisionCreated(*a, d@),
            Event::VisionRemoved(a, d) => EventView::VisionRemoved(*a, d@),
            Event::VisionSigned(a, d) => EventView::VisionSigned(*a, d@),
            Event::VisionUnsigned(a, d) => EventView::VisionUnsigned(*a, d@),
            Event::OrganizationCreated(a, n) => EventView::OrganizationCreated(*a, n@),
            Event::OrganizationDissolved(a, n) => EventView::OrganizationDissolved(*a, n@),
            Event::MemberAdded(a, b) => EventView::MemberAdded(*a, *b),
            Event::MemberRemoved(a, b) => EventView::MemberRemoved(*a, *b),
            Event::TaskAdded(a, t) => EventView::TaskAdded(*a, *t),
        }
    }
}

/// `s` with its first occurrence of `x` (if any) taken out, keeping the
/// order of the rest.
pub open spec fn remove_first<T>(s: Seq<T>, x: T) -> Seq<T> {
    match s.index_of_first(x) {
        Some(i) => s.remove(i),
        None => s,
    }
}

/// Pushing an event and then viewing the list is viewing and then pushing
/// the event's view.
proof fn lemma_event_views_push(pre: Seq<Event>, ev: Event)
    ensures
        pre.push(ev).map_values(|e: Event| e@) == pre.map_values(|e: Event| e@).push(ev@),
{
    assert(pre.push(ev).map_values(|e: Event| e@) =~= pre.map_values(|e: Event| e@).push(ev@));
}

/// The index of the first entry of `list` with the contents of `x`, if
/// any.
fn name_position(list: &Vec<Vec<u8>>, x: &Vec<u8>) -> (r: Option<usize>)
    ensures
        match r {
            Some(p) => {
                &&& p < list@.len()
                &&& list@[p as int]@ == x@
                &&& forall|j: int| 0 <= j < p ==> list@[j]@ != x@
            },
            None => forall|j: int| 0 <= j < list@.len() ==> list@[j]@ != x@,
        },
{
    let mut i: usize = 0;
    while i < list.len()
        invariant
            i <= list@.len(),
            forall|j: int| 0 <= j < i ==> list@[j]@ != x@,
        decreases list@.len() - i,
    {
        if crate::bmap::bytes_eq(&list[i], x) {
            return Some(i);
        }
        i = i + 1;
    }
    None
}

/// The index of the first occurrence of `x` in `list`, if any.
fn id_position(list: &Vec<u64>, x: u64) -> (r: Option<usize>)
    ensures
        match r {
            Some(p) => {
                &&& p < list@.len()
                &&& list@[p as int] == x
                &&& forall|j: int| 0 <= j < p ==> list@[j] != x
            },
            None => forall|j: int| 0 <= j < list@.len() ==> list@[j] != x,
        },
{
    let mut i: usize = 0;
    while i < list.len()
        invariant
            i <= list@.len(),
            forall|j: int| 0 <= j < i ==> list@[j] != x,
        decreases list@.len() - i,
    {
        if list[i] == x {
            return Some(i);
        }
        i = i + 1;
    }
    None
}

/// A copy of a list of account ids.
fn copy_ids(list: &Vec<u64>) -> (r: Vec<u64>)
    ensures
        r@ == list@,
{
    let copy = list.clone();
    proof {
        assert(copy@ =~= list@);
    }
    copy
}

/// A copy of a byte blob.
fn copy_bytes(bytes: &Vec<u8>) -> (r: Vec<u8>)
    ensures
        r@ == bytes@,
{
    let copy = bytes.clone();
    proof {
        assert(copy@ =~= bytes@);
    }
    copy
}

/// The organization store.
pub struct Pallet {
    vision_count: u64,
    visions: ByteMap<(u64, u64)>,
    vision_signers: ByteMap<Vec<u64>>,
    organizations: ByteMap<Vec<u64>>,
    organization_tasks: ByteMap<Vec<u64>>,
    member_of: HashMap<u64, Vec<Vec<u8>>>,
    events: Vec<Event>,
}

impl Pallet {
    /// The vision documents held: document to author and creation block.
    pub closed spec fn spec_visions(&self) -> Map<Seq<u8>, (u64, u64)> {
        self.visions.view()
    }

    /// The number of visions held.
    pub closed spec fn spec_vision_count(&self) -> u64 {
        self.vision_count
    }

    /// The accounts that have signed `document`, in signing order.
    pub closed spec fn spec_vision_signers(&self, document: Seq<u8>) -> Seq<u64> {
        if self.vision_signers.view().contains_key(document) {
            self.vision_signers.view()[document]@
        } else {
            Seq::empty()
        }
    }

    /// The members of the organization `name`, founder first.
    pub closed spec fn spec_organization(&self, name: Seq<u8>) -> Seq<u64> {
        if self.organizations.view().contains_key(name) {
            self.organizations.view()[name]@
        } else {
            Seq::empty()
        }
    }

    /// The task ids attached to the organization `name`.
    pub closed spec fn spec_organization_tasks(&self, name: Seq<u8>) -> Seq<u64> {
        if self.organization_tasks.view().contains_key(name) {
            self.organization_tasks.view()[name]@
        } else {
            Seq::empty()
        }
    }

    /// The names of the organizations `account` was added to.
    pub closed spec fn spec_member_of(&self, account: u64) -> Seq<Seq<u8>> {
        if self.member_of@.contains_key(account) {
            self.member_of@[account]@.map_values(|v: Vec<u8>| v@)
        } else {
            Seq::empty()
        }
    }

    /// The notifications recorded so far, oldest first.
    pub closed spec fn spec_events(&self) -> Seq<EventView> {
        self.events@.map_values(|e: Event| e@)
    }

    /// `account` founded the organization `name`: it occupies position
    /// zero of a non-empty member list.
    pub open spec fn spec_is_founder(&self, account: u64, name: Seq<u8>) -> bool {
        self.spec_organization(name).len() > 0 && self.spec_organization(name)[0] == account
    }

    /// The internal maps are well formed.
    pub closed spec fn wf(&self) -> bool {
        &&& self.visions.wf()
        &&& self.vision_signers.wf()
        &&& self.organizations.wf()
        &&& self.organization_tasks.wf()
    }

    /// An empty store.
    pub fn new() -> (r: Pallet)
        ensures
            r.wf(),
            r.spec_visions() == Map::<Seq<u8>, (u64, u64)>::empty(),
            r.spec_vision_count() == 0,
            forall|d: Seq<u8>| r.spec_vision_signers(d) == Seq::<u64>::empty(),
            forall|n: Seq<u8>| r.spec_organization(n) == Seq::<u64>::empty(),
            forall|n: Seq<u8>| r.spec_organization_tasks(n) == Seq::<u64>::empty(),
            forall|a: u64| r.spec_member_of(a) == Seq::<Seq<u8>>::empty(),
            r.spec_events() == Seq::<EventView>::empty(),
    {
        let r = Pallet {
            vision_count: 0,
            visions: ByteMap::new(),
            vision_signers: ByteMap::new(),
            organizations: ByteMap::new(),
            organization_tasks: ByteMap::new(),
            member_of: HashMap::new(),
            events: Vec::new(),
        };
        proof {
            assert(r.spec_events() =~= Seq::<EventView>::empty());
        }
        r
    }

    /// The number of visions held.
    pub fn vision_count(&self) -> (r: u64)
        ensures
            r == self.spec_vision_count(),
    {
        self.vision_count
    }

    /// The author and creation block of `document`, or zeroes if no such
    /// vision exists.
    pub fn vision(&self, document: &Vec<u8>) -> (r: (u64, u64))
        requires
            self.wf(),
        ensures
            self.spec_visions().contains_key(document@) ==> r == self.spec_visions()[document@],
            !self.spec_visions().contains_key(document@) ==> r == (0u64, 0u64),
    {
        match self.visions.get(document) {
            Some(entry) => (entry.0, entry.1),
            None => (0, 0),
        }
    }

    /// A copy of the signer list of `document`.
    pub fn vision_signer(&self, document: &Vec<u8>) -> (r: Vec<u64>)
        requires
            self.wf(),
        ensures
            r@ == self.spec_vision_signers(document@),
    {
        match self.vision_signers.get(document) {
            Some(list) => copy_ids(list),
            None => Vec::new(),
        }
    }

    /// A copy of the member list of the organization `name`.
    pub fn organization(&self, name: &Vec<u8>) -> (r: Vec<u64>)
        requires
            self.wf(),
        ensures
            r@ == self.spec_organization(name@),
    {
        match self.organizations.get(name) {
            Some(list) => copy_ids(list),
            None => Vec::new(),
        }
    }

    /// A copy of the task list of the organization `name`.
    pub fn organization_tasks(&self, name: &Vec<u8>) -> (r: Vec<u64>)
        requires
            self.wf(),
        ensures
            r@ == self.spec_organization_tasks(name@),
    {
        match self.organization_tasks.get(name) {
            Some(list) => copy_ids(list),
            None => Vec::new(),
        }
    }

    /// A copy of the names of the organizations `account` was added to.
    pub fn member_of(&self, account: u64) -> (r: Vec<Vec<u8>>)
        ensures
            r@.map_values(|v: Vec<u8>| v@) == self.spec_member_of(account),
    {
        match self.member_of.get(&account) {
            Some(names) => {
                let mut copy: Vec<Vec<u8>> = Vec::new();
                let mut i: usize = 0;
                while i < names.len()
                    invariant
                        i <= names@.len(),
                        copy@.len() == i,
                        forall|j: int| 0 <= j < i ==> copy@[j]@ == names@[j]@,
                    decreases names@.len() - i,
                {
                    copy.push(copy_bytes(&names[i]));
                    i = i + 1;
                }
                proof {
                    assert(copy@.map_values(|v: Vec<u8>| v@) =~= names@.map_values(
                        |v: Vec<u8>| v@,
                    ));
                }
                copy
            },
            None => Vec::new(),
        }
    }

    /// The notifications recorded so far, oldest first.
    pub fn events(&self) -> (r: &Vec<Event>)
        ensures
            r@.map_values(|e: Event| e@) == self.spec_events(),
    {
        &self.events
    }
}

/// The vision documents, counter and signer lists agree between `pre` and
/// `post`.
pub open spec fn same_visions(pre: Pallet, post: Pallet) -> bool {
    &&& post.spec_visions() == pre.spec_visions()
    &&& post.spec_vision_count() == pre.spec_vision_count()
    &&& (forall|d: Seq<u8>| post.spec_vision_signers(d) == pre.spec_vision_signers(d))
}

/// The organizations, their task lists and the member-of index agree
/// between `pre` and `post`.
pub open spec fn same_organizations(pre: Pallet, post: Pallet) -> bool {
    &&& (forall|n: Seq<u8>| post.spec_organization(n) == pre.spec_organization(n))
    &&& (forall|n: Seq<u8>| post.spec_organization_tasks(n) == pre.spec_organization_tasks(n))
    &&& (forall|a: u64| post.spec_member_of(a) == pre.spec_member_of(a))
}

/// The whole store agrees between `pre` and `post`.
pub open spec fn same_dao(pre: Pallet, post: Pallet) -> bool {
    &&& same_visions(pre, post)
    &&& same_organizations(pre, post)
    &&& post.spec_events() == pre.spec_events()
}

impl Pallet {
    /// Publish the vision `vision_document` at `current_block`: the
    /// document becomes its own key, mapping to the author and the block.
    /// Fails if the same document was already published (content
    /// addressing makes duplicates impossible) or if the counter would
    /// overflow. Records a `VisionCreated` event.
    pub fn create_vision(&mut self, caller: u64, vision_document: Vec<u8>, current_block: u64)
        -> (r: Result<(), Error>)
        requires
            old(self).wf(),
        ensures
            final(self).wf(),
            match r {
                Ok(()) => {
                    &&& !old(self).spec_visions().contains_key(vision_document@)
                    &&& old(self).spec_vision_count() < u64::MAX
                    &&& final(self).spec_visions() == old(self).spec_visions().insert(
                        vision_document@,
                        (caller, current_block),
                    )
                    &&& final(self).spec_vision_count() == old(self).spec_vision_count() + 1
                    &&& (forall|d: Seq<u8>|
                        final(self).spec_vision_signers(d) == old(self).spec_vision_signers(d))
                    &&& same_organizations(*old(self), *final(self))
                    &&& final(self).spec_events() == old(self).spec_events().push(
                        EventView::VisionCreated(caller, vision_document@),
                    )
                },
                Err(e) => {
                    &&& same_dao(*old(self), *final(self))
                    &&& (e == Error::VisionAlreadyExists || e == Error::VisionCountOverflow)
                    &&& (e == Error::VisionAlreadyExists <==> old(
                        self,
                    ).spec_visions().contains_key(vision_document@))
                    &&& (e == Error::VisionCountOverflow <==> !old(
                        self,
                    ).spec_visions().contains_key(vision_document@) && old(
                        self,
                    ).spec_vision_count() == u64::MAX)
                },
            },
    {
        if self.visions.contains_key(&vision_document) {
            return Err(Error::VisionAlreadyExists);
        }
        if self.vision_count == u64::MAX {
            return Err(Error::VisionCountOverflow);
        }
        let key = copy_bytes(&vision_document);
        self.visions.insert(key, (caller, current_block));
        self.vision_count = self.vision_count + 1;
        let ghost pre_events = self.events@;
        self.events.push(Event::VisionCreated(caller, vision_document));
        proof {
            lemma_event_views_push(pre_events, self.events@.last());
        }
        Ok(())
    }

    /// Withdraw the vision `vision_document`: only its author may do so.
    /// The document leaves the store and the counter shrinks by one (floor
    /// zero); the signer list is left as it is. Records a `VisionRemoved`
    /// event.
    pub fn remove_vision(&mut self, caller: u64, vision_document: Vec<u8>) -> (r: Result<
        (),
        Error,
    >)
        requires
            old(self).wf(),
        ensures
            final(self).wf(),
            match r {
                Ok(()) => {
                    &&& old(self).spec_visions().contains_key(vision_document@)
                    &&& old(self).spec_visions()[vision_document@].0 == caller
                    &&& final(self).spec_visions() == old(self).spec_visions().remove(
                        vision_document@,
                    )
                    &&& final(self).spec_vision_count() == if old(self).spec_vision_count()
                        > 0 {
                        (old(self).spec_vision_count() - 1) as u64
                    } else {
                        0u64
                    }
                    &&& (forall|d: Seq<u8>|
                        final(self).spec_vision_signers(d) == old(self).spec_vision_signers(d))
                    &&& same_organizations(*old(self), *final(self))
                    &&& final(self).spec_events() == old(self).spec_events().push(
                        EventView::VisionRemoved(caller, vision_document@),
                    )
                },
                Err(e) => {
                    &&& same_dao(*old(self), *final(self))
                    &&& (e == Error::NoSuchVision || e == Error::NotVisionOwner)
                    &&& (e == Error::NoSuchVision <==> !old(self).spec_visions().contains_key(
                        vision_document@,
                    ))
                    &&& (e == Error::NotVisionOwner <==> old(self).spec_visions().contains_key(
                        vision_document@,
                    ) && old(self).spec_visions()[vision_document@].0 != caller)
                },
            },
    {
        let owner = match self.visions.get(&vision_document) {
            Some(entry) => entry.0,
            None => {
                return Err(Error::NoSuchVision);
            },
        };
        if owner != caller {
            return Err(Error::NotVisionOwner);
        }
        self.visions.remove(&vision_document);
        if self.vision_count > 0 {
            self.vision_count = self.vision_count - 1;
        }
        let ghost pre_events = self.events@;
        self.events.push(Event::VisionRemoved(caller, vision_document));
        proof {
            lemma_event_views_push(pre_events, self.events@.last());
        }
        Ok(())
    }

    /// Add `from_initiator` to the signer list of `vision_document`.
    /// Fails if no such vision exists or if it has already signed.
    pub fn member_signs_vision(&mut self, from_initiator: u64, vision_document: &Vec<u8>) -> (r:
        Result<(), Error>)
        requires
            old(self).wf(),
        ensures
            final(self).wf(),
            match r {
                Ok(()) => {
                    &&& old(self).spec_visions().contains_key(vision_document@)
                    &&& !old(self).spec_vision_signers(vision_document@).contains(
                        from_initiator,
                    )
                    &&& final(self).spec_vision_signers(vision_document@) == old(
                        self,
                    ).spec_vision_signers(vision_document@).push(from_initiator)
                    &&& (forall|d: Seq<u8>|
                        d != vision_document@ ==> final(self).spec_vision_signers(d) == old(
                            self,
                        ).spec_vision_signers(d))
                    &&& final(self).spec_visions() == old(self).spec_visions()
                    &&& final(self).spec_vision_count() == old(self).spec_vision_count()
                    &&& same_organizations(*old(self), *final(self))
                    &&& final(self).spec_events() == old(self).spec_events()
                },
                Err(e) => {
                    &&& same_dao(*old(self), *final(self))
                    &&& (e == Error::NoSuchVision || e == Error::AlreadySigned)
                    &&& (e == Error::NoSuchVision <==> !old(self).spec_visions().contains_key(
                        vision_document@,
                    ))
                    &&& (e == Error::AlreadySigned <==> old(self).spec_visions().contains_key(
                        vision_document@,
                    ) && old(self).spec_vision_signers(vision_document@).contains(
                        from_initiator,
                    ))
                },
            },
    {
        if !self.visions.contains_key(vision_document) {
            return Err(Error::NoSuchVision);
        }
        let mut signers = match self.vision_signers.get(vision_document) {
            Some(list) => copy_ids(list),
            None => Vec::new(),
        };
        match id_position(&signers, from_initiator) {
            Some(_) => {
                proof {
                    assert(old(self).spec_vision_signers(vision_document@).contains(
                        from_initiator,
                    ));
                }
                Err(Error::AlreadySigned)
            },
            None => {
                proof {
                    assert(!old(self).spec_vision_signers(vision_document@).contains(
                        from_initiator,
                    ));
                }
                signers.push(from_initiator);
                let key = copy_bytes(vision_document);
                self.vision_signers.insert(key, signers);
                Ok(())
            },
        }
    }

    /// Take `from_initiator` off the signer list of `vision_document`,
    /// keeping the order of the other signers. Fails if no such vision
    /// exists or if it has not signed.
    pub fn member_unsigns_vision(&mut self, from_initiator: u64, vision_document: &Vec<u8>) -> (r:
        Result<(), Error>)
        requires
            old(self).wf(),
        ensures
            final(self).wf(),
            match r {
                Ok(()) => {
                    &&& old(self).spec_visions().contains_key(vision_document@)
                    &&& old(self).spec_vision_signers(vision_document@).contains(from_initiator)
                    &&& final(self).spec_vision_signers(vision_document@) == remove_first(
                        old(self).spec_vision_signers(vision_document@),
                        from_initiator,
                    )
                    &&& (forall|d: Seq<u8>|
                        d != vision_document@ ==> final(self).spec_vision_signers(d) == old(
                            self,
                        ).spec_vision_signers(d))
                    &&& final(self).spec_visions() == old(self).spec_visions()
                    &&& final(self).spec_vision_count() == old(self).spec_vision_count()
                    &&& same_organizations(*old(self), *final(self))
                    &&& final(self).spec_events() == old(self).spec_events()
                },
                Err(e) => {
                    &&& same_dao(*old(self), *final(self))
                    &&& (e == Error::NoSuchVision || e == Error::NotSigned)
                    &&& (e == Error::NoSuchVision <==> !old(self).spec_visions().contains_key(
                        vision_document@,
                    ))
                    &&& (e == Error::NotSigned <==> old(self).spec_visions().contains_key(
                        vision_document@,
                    ) && !old(self).spec_vision_signers(vision_document@).contains(
                        from_initiator,
                    ))
                },
            },
    {
        if !self.visions.contains_key(vision_document) {
            return Err(Error::NoSuchVision);
        }
        let mut signers = match self.vision_signers.get(vision_document) {
            Some(list) => copy_ids(list),
            None => Vec::new(),
        };
        let ghost pre_signers = signers@;
        match id_position(&signers, from_initiator) {
            Some(p) => {
                proof {
                    assert(pre_signers.contains(from_initiator)) by {
                        assert(pre_signers[p as int] == from_initiator);
                    }
                    pre_signers.index_of_first_ensures(from_initiator);
                    let i = pre_signers.index_of_first(from_initiator)->Some_0;
                    assert(i == p) by {
                        if i < p {
                            assert(pre_signers[i] != from_initiator);
                        }
                        if p < i {
                            assert(pre_signers[p as int] != from_initiator);
                        }
                    }
                }
                signers.remove(p);
                let key = copy_bytes(vision_document);
                self.vision_signers.insert(key, signers);
                Ok(())
            },
            None => {
                proof {
                    assert(!pre_signers.contains(from_initiator));
                }
                Err(Error::NotSigned)
            },
        }
    }

    /// Sign a vision as `caller` and record a `VisionSigned` event. A
    /// failed request changes nothing and records nothing.
    pub fn sign_vision(&mut self, caller: u64, vision_document: Vec<u8>) -> (r: Result<
        (),
        Error,
    >)
        requires
            old(self).wf(),
        ensures
            final(self).wf(),
            match r {
                Ok(()) => {
                    &&& final(self).spec_vision_signers(vision_document@) == old(
                        self,
                    ).spec_vision_signers(vision_document@).push(caller)
                    &&& (forall|d: Seq<u8>|
                        d != vision_document@ ==> final(self).spec_vision_signers(d) == old(
                            self,
                        ).spec_vision_signers(d))
                    &&& final(self).spec_visions() == old(self).spec_visions()
                    &&& final(self).spec_vision_count() == old(self).spec_vision_count()
                    &&& same_organizations(*old(self), *final(self))
                    &&& final(self).spec_events() == old(self).spec_events().push(
                        EventView::VisionSigned(caller, vision_document@),
                    )
                },
                Err(e) => {
                    &&& same_dao(*old(self), *final(self))
                    &&& (e == Error::NoSuchVision || e == Error::AlreadySigned)
                    &&& (e == Error::NoSuchVision <==> !old(self).spec_visions().contains_key(
                        vision_document@,
                    ))
                    &&& (e == Error::AlreadySigned <==> old(self).spec_visions().contains_key(
                        vision_document@,
                    ) && old(self).spec_vision_signers(vision_document@).contains(caller))
                },
            },
    {
        match self.member_signs_vision(caller, &vision_document) {
            Ok(()) => {},
            Err(e) => {
                return Err(e);
            },
        }
        let ghost pre_events = self.events@;
        self.events.push(Event::VisionSigned(caller, vision_document));
        proof {
            lemma_event_views_push(pre_events, self.events@.last());
        }
        Ok(())
    }

    /// Withdraw `caller`'s signature from a vision and record a
    /// `VisionUnsigned` event. A failed request changes nothing and
    /// records nothing.
    pub fn unsign_vision(&mut self, caller: u64, vision_document: Vec<u8>) -> (r: Result<
        (),
        Error,
    >)
        requires
            old(self).wf(),
        ensures
            final(self).wf(),
            match r {
                Ok(()) => {
                    &&& old(self).spec_vision_signers(vision_document@).contains(caller)
                    &&& final(self).spec_vision_signers(vision_document@) == remove_first(
                        old(self).spec_vision_signers(vision_document@),
                        caller,
                    )
                    &&& (forall|d: Seq<u8>|
                        d != vision_document@ ==> final(self).spec_vision_signers(d) == old(
                            self,
                        ).spec_vision_signers(d))
                    &&& final(self).spec_visions() == old(self).spec_visions()
                    &&& final(self).spec_vision_count() == old(self).spec_vision_count()
                    &&& same_organizations(*old(self), *final(self))
                    &&& final(self).spec_events() == old(self).spec_events().push(
                        EventView::VisionUnsigned(caller, vision_document@),
                    )
                },
                Err(e) => {
                    &&& same_dao(*old(self), *final(self))
                    &&& (e == Error::NoSuchVision || e == Error::NotSigned)
                    &&& (e == Error::NoSuchVision <==> !old(self).spec_visions().contains_key(
                        vision_document@,
                    ))
                    &&& (e == Error::NotSigned <==> old(self).spec_visions().contains_key(
                        vision_document@,
                    ) && !old(self).spec_vision_signers(vision_document@).contains(caller))
                },
            },
    {
        match self.member_unsigns_vision(caller, &vision_document) {
            Ok(()) => {},
            Err(e) => {
                return Err(e);
            },
        }
        let ghost pre_events = self.events@;
        self.events.push(Event::VisionUnsigned(caller, vision_document));
        proof {
            lemma_event_views_push(pre_events, self.events@.last());
        }
        Ok(())
    }

    /// Whether `from_initiator` founded the organization `org_name`:
    /// founders occupy position zero of the member list. An account that
    /// did not is reported as an error, as is a missing organization.
    pub fn is_dao_founder(&self, from_initiator: u64, org_name: &Vec<u8>) -> (r: Result<
        bool,
        Error,
    >)
        requires
            self.wf(),
        ensures
            match r {
                Ok(b) => b && self.spec_is_founder(from_initiator, org_name@),
                Err(e) => e == Error::NotOrganizationCreator && !self.spec_is_founder(
                    from_initiator,
                    org_name@,
                ),
            },
    {
        match self.organizations.get(org_name) {
            Some(members) => {
                if members.len() > 0 {
                    if members[0] == from_initiator {
                        return Ok(true);
                    }
                }
                Err(Error::NotOrganizationCreator)
            },
            None => Err(Error::NotOrganizationCreator),
        }
    }

    /// Append `from_initiator` to the member list stored under `org_name`,
    /// creating the list if none exists. There is no duplicate-name check:
    /// a second creation under the same name appends to the existing list.
    pub fn new_org(&mut self, from_initiator: u64, org_name: &Vec<u8>) -> (r: Result<(), Error>)
        requires
            old(self).wf(),
        ensures
            final(self).wf(),
            r matches Ok(()),
            final(self).spec_organization(org_name@) == old(self).spec_organization(
                org_name@,
            ).push(from_initiator),
            forall|n: Seq<u8>|
                n != org_name@ ==> final(self).spec_organization(n) == old(
                    self,
                ).spec_organization(n),
            forall|n: Seq<u8>|
                final(self).spec_organization_tasks(n) == old(self).spec_organization_tasks(n),
            forall|a: u64| final(self).spec_member_of(a) == old(self).spec_member_of(a),
            same_visions(*old(self), *final(self)),
            final(self).spec_events() == old(self).spec_events(),
    {
        let mut members = match self.organizations.get(org_name) {
            Some(list) => copy_ids(list),
            None => Vec::new(),
        };
        members.push(from_initiator);
        let key = copy_bytes(org_name);
        self.organizations.insert(key, members);
        Ok(())
    }

    /// Delete the organization `org_name` entirely, whatever members
    /// remain; only its founder may do so. Its task list and the members'
    /// member-of entries are left as they are.
    pub fn remove_org(&mut self, from_initiator: u64, org_name: &Vec<u8>) -> (r: Result<
        (),
        Error,
    >)
        requires
            old(self).wf(),
        ensures
            final(self).wf(),
            match r {
                Ok(()) => {
                    &&& old(self).spec_is_founder(from_initiator, org_name@)
                    &&& final(self).spec_organization(org_name@) == Seq::<u64>::empty()
                    &&& (forall|n: Seq<u8>|
                        n != org_name@ ==> final(self).spec_organization(n) == old(
                            self,
                        ).spec_organization(n))
                    &&& (forall|n: Seq<u8>|
                        final(self).spec_organization_tasks(n) == old(
                            self,
                        ).spec_organization_tasks(n))
                    &&& (forall|a: u64|
                        final(self).spec_member_of(a) == old(self).spec_member_of(a))
                    &&& same_visions(*old(self), *final(self))
                    &&& final(self).spec_events() == old(self).spec_events()
                },
                Err(e) => {
                    &&& same_dao(*old(self), *final(self))
                    &&& e == Error::NotOrganizationCreator
                    &&& !old(self).spec_is_founder(from_initiator, org_name@)
                },
            },
    {
        match self.is_dao_founder(from_initiator, org_name) {
            Ok(_) => {},
            Err(e) => {
                return Err(e);
            },
        }
        self.organizations.remove(org_name);
        Ok(())
    }

    /// Add `account` to the organization `org_name` and record the name in
    /// `account`'s member-of index. Only the founder may add members; an
    /// account cannot be added twice.
    pub fn add_member_to_organization(
        &mut self,
        from_initiator: u64,
        org_name: &Vec<u8>,
        account: u64,
    ) -> (r: Result<(), Error>)
        requires
            old(self).wf(),
        ensures
            final(self).wf(),
            match r {
                Ok(()) => {
                    &&& old(self).spec_is_founder(from_initiator, org_name@)
                    &&& !old(self).spec_organization(org_name@).contains(account)
                    &&& final(self).spec_organization(org_name@) == old(self).spec_organization(
                        org_name@,
                    ).push(account)
                    &&& (forall|n: Seq<u8>|
                        n != org_name@ ==> final(self).spec_organization(n) == old(
                            self,
                        ).spec_organization(n))
                    &&& final(self).spec_member_of(account) == old(self).spec_member_of(
                        account,
                    ).push(org_name@)
                    &&& (forall|a: u64|
                        a != account ==> final(self).spec_member_of(a) == old(
                            self,
                        ).spec_member_of(a))
                    &&& (forall|n: Seq<u8>|
                        final(self).spec_organization_tasks(n) == old(
                            self,
                        ).spec_organization_tasks(n))
                    &&& same_visions(*old(self), *final(self))
                    &&& final(self).spec_events() == old(self).spec_events()
                },
                Err(e) => {
                    &&& same_dao(*old(self), *final(self))
                    &&& add_member_rejected(*old(self), from_initiator, org_name@, account, e)
                },
            },
    {
        let member_count = match self.organizations.get(org_name) {
            Some(list) => list.len(),
            None => 0,
        };
        if member_count == 0 {
            return Err(Error::InvalidOrganization);
        }
        match self.is_dao_founder(from_initiator, org_name) {
            Ok(_) => {},
            Err(e) => {
                return Err(e);
            },
        }
        let mut members = match self.organizations.get(org_name) {
            Some(list) => copy_ids(list),
            None => Vec::new(),
        };
        match id_position(&members, account) {
            Some(_) => {
                proof {
                    assert(old(self).spec_organization(org_name@).contains(account));
                }
                return Err(Error::AlreadyMember);
            },
            None => {
                proof {
                    assert(!old(self).spec_organization(org_name@).contains(account));
                }
            },
        }
        members.push(account);
        let key = copy_bytes(org_name);
        self.organizations.insert(key, members);
        let mut organizations_of_account = match self.member_of.remove(&account) {
            Some(names) => names,
            None => Vec::new(),
        };
        organizations_of_account.push(copy_bytes(org_name));
        self.member_of.insert(account, organizations_of_account);
        proof {
            assert(final(self).spec_member_of(account) =~= old(self).spec_member_of(
                account,
            ).push(org_name@));
        }
        Ok(())
    }

    /// Attach `task` to the organization `org_name`. Only the founder may
    /// attach tasks; a task cannot be attached twice.
    pub fn add_task_to_organization(
        &mut self,
        from_initiator: u64,
        org_name: &Vec<u8>,
        task: u64,
    ) -> (r: Result<(), Error>)
        requires
            old(self).wf(),
        ensures
            final(self).wf(),
            match r {
                Ok(()) => {
                    &&& old(self).spec_is_founder(from_initiator, org_name@)
                    &&& !old(self).spec_organization_tasks(org_name@).contains(task)
                    &&& final(self).spec_organization_tasks(org_name@) == old(
                        self,
                    ).spec_organization_tasks(org_name@).push(task)
                    &&& (forall|n: Seq<u8>|
                        n != org_name@ ==> final(self).spec_organization_tasks(n) == old(
                            self,
                        ).spec_organization_tasks(n))
                    &&& (forall|n: Seq<u8>|
                        final(self).spec_organization(n) == old(self).spec_organization(n))
                    &&& (forall|a: u64|
                        final(self).spec_member_of(a) == old(self).spec_member_of(a))
                    &&& same_visions(*old(self), *final(self))
                    &&& final(self).spec_events() == old(self).spec_events()
                },
                Err(e) => {
                    &&& same_dao(*old(self), *final(self))
                    &&& add_task_rejected(*old(self), from_initiator, org_name@, task, e)
                },
            },
    {
        let member_count = match self.organizations.get(org_name) {
            Some(list) => list.len(),
            None => 0,
        };
        if member_count == 0 {
            return Err(Error::InvalidOrganization);
        }
        match self.is_dao_founder(from_initiator, org_name) {
            Ok(_) => {},
            Err(e) => {
                return Err(e);
            },
        }
        let mut tasks = match self.organization_tasks.get(org_name) {
            Some(list) => copy_ids(list),
            None => Vec::new(),
        };
        match id_position(&tasks, task) {
            Some(_) => {
                proof {
                    assert(old(self).spec_organization_tasks(org_name@).contains(task));
                }
                return Err(Error::TaskAlreadyExists);
            },
            None => {
                proof {
                    assert(!old(self).spec_organization_tasks(org_name@).contains(task));
                }
            },
        }
        tasks.push(task);
        let key = copy_bytes(org_name);
        self.organization_tasks.insert(key, tasks);
        Ok(())
    }
}

/// The error an add-member request is rejected with, exactly when it
/// comes.
pub open spec fn add_member_rejected(
    pre: Pallet,
    from_initiator: u64,
    org_name: Seq<u8>,
    account: u64,
    e: Error,
) -> bool {
    &&& (e == Error::InvalidOrganization || e == Error::NotOrganizationCreator
        || e == Error::AlreadyMember)
    &&& (e == Error::InvalidOrganization <==> pre.spec_organization(org_name).len() == 0)
    &&& (e == Error::NotOrganizationCreator <==> pre.spec_organization(org_name).len() != 0
        && !pre.spec_is_founder(from_initiator, org_name))
    &&& (e == Error::AlreadyMember <==> pre.spec_is_founder(from_initiator, org_name)
        && pre.spec_organization(org_name).contains(account))
}

impl Pallet {
    /// Take `account` out of the organization `org_name` and the name out
    /// of `account`'s member-of index, keeping the order of the rest.
    /// Only the founder may remove members.
    pub fn remove_member_from_organization(
        &mut self,
        from_initiator: u64,
        org_name: &Vec<u8>,
        account: u64,
    ) -> (r: Result<(), Error>)
        requires
            old(self).wf(),
        ensures
            final(self).wf(),
            match r {
                Ok(()) => {
                    &&& old(self).spec_is_founder(from_initiator, org_name@)
                    &&& old(self).spec_organization(org_name@).contains(account)
                    &&& old(self).spec_member_of(account).contains(org_name@)
                    &&& final(self).spec_organization(org_name@) == remove_first(
                        old(self).spec_organization(org_name@),
                        account,
                    )
                    &&& (forall|n: Seq<u8>|
                        n != org_name@ ==> final(self).spec_organization(n) == old(
                            self,
                        ).spec_organization(n))
                    &&& final(self).spec_member_of(account) == remove_first(
                        old(self).spec_member_of(account),
                        org_name@,
                    )
                    &&& (forall|a: u64|
                        a != account ==> final(self).spec_member_of(a) == old(
                            self,
                        ).spec_member_of(a))
                    &&& (forall|n: Seq<u8>|
                        final(self).spec_organization_tasks(n) == old(
                            self,
                        ).spec_organization_tasks(n))
                    &&& same_visions(*old(self), *final(self))
                    &&& final(self).spec_events() == old(self).spec_events()
                },
                Err(e) => {
                    &&& same_dao(*old(self), *final(self))
                    &&& remove_member_rejected(*old(self), from_initiator, org_name@, account, e)
                },
            },
    {
        let member_count = match self.organizations.get(org_name) {
            Some(list) => list.len(),
            None => 0,
        };
        if member_count == 0 {
            return Err(Error::InvalidOrganization);
        }
        match self.is_dao_founder(from_initiator, org_name) {
            Ok(_) => {},
            Err(e) => {
                return Err(e);
            },
        }
        let mut members = match self.organizations.get(org_name) {
            Some(list) => copy_ids(list),
            None => Vec::new(),
        };
        let ghost pre_members = members@;
        let member_index = match id_position(&members, account) {
            Some(p) => p,
            None => {
                proof {
                    assert(!old(self).spec_organization(org_name@).contains(account));
                }
                return Err(Error::NotMember);
            },
        };
        proof {
            assert(pre_members.contains(account)) by {
                assert(pre_members[member_index as int] == account);
            }
        }
        let names = match self.member_of.get(&account) {
            Some(names) => names,
            None => {
                proof {
                    assert(!old(self).spec_member_of(account).contains(org_name@));
                }
                return Err(Error::InvalidOrganization);
            },
        };
        let name_index = match name_position(names, org_name) {
            Some(p) => p,
            None => {
                proof {
                    assert forall|j: int|
                        0 <= j < old(self).spec_member_of(account).len() implies old(
                        self,
                    ).spec_member_of(account)[j] != org_name@ by {
                        assert(old(self).spec_member_of(account)[j] == names@[j]@);
                    }
                }
                return Err(Error::InvalidOrganization);
            },
        };
        proof {
            let s = old(self).spec_member_of(account);
            assert(s[name_index as int] == names@[name_index as int]@);
            assert(s.contains(org_name@)) by {
                assert(s[name_index as int] == org_name@);
            }
            s.index_of_first_ensures(org_name@);
            let i = s.index_of_first(org_name@)->Some_0;
            assert(i == name_index) by {
                if i < name_index {
                    assert(s[i] == names@[i]@);
                    assert(names@[i]@ != org_name@);
                }
                if name_index < i {
                    assert(s[name_index as int] != org_name@);
                }
            }
            let m = pre_members;
            m.index_of_first_ensures(account);
            let k = m.index_of_first(account)->Some_0;
            assert(k == member_index) by {
                if k < member_index {
                    assert(m[k] != account);
                }
                if member_index < k {
                    assert(m[member_index as int] != account);
                }
            }
        }
        members.remove(member_index);
        let key = copy_bytes(org_name);
        self.organizations.insert(key, members);
        let mut names_owned = match self.member_of.remove(&account) {
            Some(names) => names,
            None => Vec::new(),
        };
        names_owned.remove(name_index);
        self.member_of.insert(account, names_owned);
        proof {
            let s = old(self).spec_member_of(account);
            assert(final(self).spec_member_of(account) =~= s.remove(name_index as int));
        }
        Ok(())
    }
}

impl Pallet {
    /// Create (or extend, since names are not checked for duplicates) the
    /// organization `org_name` with `caller` as its newest member, and
    /// record an `OrganizationCreated` event.
    pub fn create_organization(&mut self, caller: u64, org_name: Vec<u8>) -> (r: Result<
        (),
        Error,
    >)
        requires
            old(self).wf(),
        ensures
            final(self).wf(),
            r matches Ok(()),
            final(self).spec_organization(org_name@) == old(self).spec_organization(
                org_name@,
            ).push(caller),
            forall|n: Seq<u8>|
                n != org_name@ ==> final(self).spec_organization(n) == old(
                    self,
                ).spec_organization(n),
            forall|n: Seq<u8>|
                final(self).spec_organization_tasks(n) == old(self).spec_organization_tasks(n),
            forall|a: u64| final(self).spec_member_of(a) == old(self).spec_member_of(a),
            same_visions(*old(self), *final(self)),
            final(self).spec_events() == old(self).spec_events().push(
                EventView::OrganizationCreated(caller, org_name@),
            ),
    {
        match self.new_org(caller, &org_name) {
            Ok(()) => {},
            Err(e) => {
                return Err(e);
            },
        }
        let ghost pre_events = self.events@;
        self.events.push(Event::OrganizationCreated(caller, org_name));
        proof {
            lemma_event_views_push(pre_events, self.events@.last());
        }
        Ok(())
    }

    /// Dissolve the organization `org_name` as `caller` and record an
    /// `OrganizationDissolved` event. A failed request changes nothing and
    /// records nothing.
    pub fn dissolve_organization(&mut self, caller: u64, org_name: Vec<u8>) -> (r: Result<
        (),
        Error,
    >)
        requires
            old(self).wf(),
        ensures
            final(self).wf(),
            match r {
                Ok(()) => {
                    &&& old(self).spec_is_founder(caller, org_name@)
                    &&& final(self).spec_organization(org_name@) == Seq::<u64>::empty()
                    &&& (forall|n: Seq<u8>|
                        n != org_name@ ==> final(self).spec_organization(n) == old(
                            self,
                        ).spec_organization(n))
                    &&& (forall|n: Seq<u8>|
                        final(self).spec_organization_tasks(n) == old(
                            self,
                        ).spec_organization_tasks(n))
                    &&& (forall|a: u64|
                        final(self).spec_member_of(a) == old(self).spec_member_of(a))
                    &&& same_visions(*old(self), *final(self))
                    &&& final(self).spec_events() == old(self).spec_events().push(
                        EventView::OrganizationDissolved(caller, org_name@),
                    )
                },
                Err(e) => {
                    &&& same_dao(*old(self), *final(self))
                    &&& e == Error::NotOrganizationCreator
                    &&& !old(self).spec_is_founder(caller, org_name@)
                },
            },
    {
        match self.remove_org(caller, &org_name) {
            Ok(()) => {},
            Err(e) => {
                return Err(e);
            },
        }
        let ghost pre_events = self.events@;
        self.events.push(Event::OrganizationDissolved(caller, org_name));
        proof {
            lemma_event_views_push(pre_events, self.events@.last());
        }
        Ok(())
    }

    /// Add `account` to the organization `org_name` as `caller` and record
    /// a `MemberAdded` event. A failed request changes nothing and records
    /// nothing.
    pub fn add_members(&mut self, caller: u64, org_name: Vec<u8>, account: u64) -> (r: Result<
        (),
        Error,
    >)
        requires
            old(self).wf(),
        ensures
            final(self).wf(),
            match r {
                Ok(()) => {
                    &&& old(self).spec_is_founder(caller, org_name@)
                    &&& !old(self).spec_organization(org_name@).contains(account)
                    &&& final(self).spec_organization(org_name@) == old(self).spec_organization(
                        org_name@,
                    ).push(account)
                    &&& (forall|n: Seq<u8>|
                        n != org_name@ ==> final(self).spec_organization(n) == old(
                            self,
                        ).spec_organization(n))
                    &&& final(self).spec_member_of(account) == old(self).spec_member_of(
                        account,
                    ).push(org_name@)
                    &&& (forall|a: u64|
                        a != account ==> final(self).spec_member_of(a) == old(
                            self,
                        ).spec_member_of(a))
                    &&& (forall|n: Seq<u8>|
                        final(self).spec_organization_tasks(n) == old(
                            self,
                        ).spec_organization_tasks(n))
                    &&& same_visions(*old(self), *final(self))
                    &&& final(self).spec_events() == old(self).spec_events().push(
                        EventView::MemberAdded(caller, account),
                    )
                },
                Err(e) => {
                    &&& same_dao(*old(self), *final(self))
                    &&& add_member_rejected(*old(self), caller, org_name@, account, e)
                },
            },
    {
        match self.add_member_to_organization(caller, &org_name, account) {
            Ok(()) => {},
            Err(e) => {
                return Err(e);
            },
        }
        let ghost pre_events = self.events@;
        self.events.push(Event::MemberAdded(caller, account));
        proof {
            lemma_event_views_push(pre_events, self.events@.last());
        }
        Ok(())
    }

    /// Attach `task` to the organization `org_name` as `caller` and record
    /// a `TaskAdded` event. A failed request changes nothing and records
    /// nothing.
    pub fn add_tasks(&mut self, caller: u64, org_name: Vec<u8>, task: u64) -> (r: Result<
        (),
        Error,
    >)
        requires
            old(self).wf(),
        ensures
            final(self).wf(),
            match r {
                Ok(()) => {
                    &&& old(self).spec_is_founder(caller, org_name@)
                    &&& !old(self).spec_organization_tasks(org_name@).contains(task)
                    &&& final(self).spec_organization_tasks(org_name@) == old(
                        self,
                    ).spec_organization_tasks(org_name@).push(task)
                    &&& (forall|n: Seq<u8>|
                        n != org_name@ ==> final(self).spec_organization_tasks(n) == old(
                            self,
                        ).spec_organization_tasks(n))
                    &&& (forall|n: Seq<u8>|
                        final(self).spec_organization(n) == old(self).spec_organization(n))
                    &&& (forall|a: u64|
                        final(self).spec_member_of(a) == old(self).spec_member_of(a))
                    &&& same_visions(*old(self), *final(self))
                    &&& final(self).spec_events() == old(self).spec_events().push(
                        EventView::TaskAdded(caller, task),
                    )
                },
                Err(e) => {
                    &&& same_dao(*old(self), *final(self))
                    &&& add_task_rejected(*old(self), caller, org_name@, task, e)
                },
            },
    {
        match self.add_task_to_organization(caller, &org_name, task) {
            Ok(()) => {},
            Err(e) => {
                return Err(e);
            },
        }
        let ghost pre_events = self.events@;
        self.events.push(Event::TaskAdded(caller, task));
        proof {
            lemma_event_views_push(pre_events, self.events@.last());
        }
        Ok(())
    }

    /// Remove `account` from the organization `org_name` as `caller` and
    /// record a `MemberRemoved` event. A failed request changes nothing
    /// and records nothing.
    pub fn remove_members(&mut self, caller: u64, org_name: Vec<u8>, account: u64) -> (r: Result<
        (),
        Error,
    >)
        requires
            old(self).wf(),
        ensures
            final(self).wf(),
            match r {
                Ok(()) => {
                    &&& old(self).spec_is_founder(caller, org_name@)
                    &&& old(self).spec_organization(org_name@).contains(account)
                    &&& final(self).spec_organization(org_name@) == remove_first(
                        old(self).spec_organization(org_name@),
                        account,
                    )
                    &&& (forall|n: Seq<u8>|
                        n != org_name@ ==> final(self).spec_organization(n) == old(
                            self,
                        ).spec_organization(n))
                    &&& final(self).spec_member_of(account) == remove_first(
                        old(self).spec_member_of(account),
                        org_name@,
                    )
                    &&& (forall|a: u64|
                        a != account ==> final(self).spec_member_of(a) == old(
                            self,
                        ).spec_member_of(a))
                    &&& (forall|n: Seq<u8>|
                        final(self).spec_organization_tasks(n) == old(
                            self,
                        ).spec_organization_tasks(n))
                    &&& same_visions(*old(self), *final(self))
                    &&& final(self).spec_events() == old(self).spec_events().push(
                        EventView::MemberRemoved(caller, account),
                    )
                },
                Err(e) => {
                    &&& same_dao(*old(self), *final(self))
                    &&& remove_member_rejected(*old(self), caller, org_name@, account, e)
                },
            },
    {
        match self.remove_member_from_organization(caller, &org_name, account) {
            Ok(()) => {},
            Err(e) => {
                return Err(e);
            },
        }
        let ghost pre_events = self.events@;
        self.events.push(Event::MemberRemoved(caller, account));
        proof {
            lemma_event_views_push(pre_events, self.events@.last());
        }
        Ok(())
    }
}

/// The error a remove-member request is rejected with, exactly when it
/// comes.
pub open spec fn remove_member_rejected(
    pre: Pallet,
    from_initiator: u64,
    org_name: Seq<u8>,
    account: u64,
    e: Error,
) -> bool {
    &&& (e == Error::InvalidOrganization || e == Error::NotOrganizationCreator
        || e == Error::NotMember)
    &&& (e == Error::NotOrganizationCreator <==> pre.spec_organization(org_name).len() != 0
        && !pre.spec_is_founder(from_initiator, org_name))
    &&& (e == Error::NotMember <==> pre.spec_is_founder(from_initiator, org_name)
        && !pre.spec_organization(org_name).contains(account))
    &&& (e == Error::InvalidOrganization <==> pre.spec_organization(org_name).len() == 0 || (
    pre.spec_is_founder(from_initiator, org_name) && pre.spec_organization(org_name).contains(
        account,
    ) && !pre.spec_member_of(account).contains(org_name)))
}

/// The error an attach-task request is rejected with, exactly when it
/// comes.
pub open spec fn add_task_rejected(
    pre: Pallet,
    from_initiator: u64,
    org_name: Seq<u8>,
    task: u64,
    e: Error,
) -> bool {
    &&& (e == Error::InvalidOrganization || e == Error::NotOrganizationCreator
        || e == Error::TaskAlreadyExists)
    &&& (e == Error::InvalidOrganization <==> pre.spec_organization(org_name).len() == 0)
    &&& (e == Error::NotOrganizationCreator <==> pre.spec_organization(org_name).len() != 0
        && !pre.spec_is_founder(from_initiator, org_name))
    &&& (e == Error::TaskAlreadyExists <==> pre.spec_is_founder(from_initiator, org_name)
        && pre.spec_organization_tasks(org_name).contains(task))
}

} // verus!
