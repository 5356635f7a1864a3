//! The coherent client cache.
//!
//! The cache tracks one 8-byte line per aligned address with a permission
//! level (None, Branch as ToB, Trunk as ToT), a dirty flag and a
//! release-pending flag.  Reads need Branch or Trunk, writes need Trunk;
//! anything else is a miss that the caller answers with an AcquireBlock and
//! `install`, or a blocked access while a release is in flight.  Probes from
//! the peer queue up and are answered with ProbeAck or ProbeAckData.

use vstd::prelude::*;

use crate::credits::Credits;
use crate::operations::Operations;
use crate::operations::ProbeDataOp;
use crate::operations::ProbeOp;
use crate::operations::SubmitOutcome;
use crate::operations::TLOperations;
use crate::tilelink_messages::ChanABCDTilelinkMessage;
use crate::tilelink_messages::OmnixtendPermissionChangeCap;
use crate::tilelink_messages::OmnixtendPermissionChangeGrow;
use crate::tilelink_messages::get_permission_change;
use crate::tilelink_messages::get_permission_change_grow;
use crate::tilelink_messages::spec_permission_change;
use crate::tilelink_messages::spec_permission_change_grow;
use crate::wire::push_u64_le;
use crate::wire::spec_u64_from_le;
use crate::wire::spec_u64_le_bytes;

verus! {

/// What a cache operation can fail with.
#[derive(Debug, Clone, Copy, PartialEq, Eq, Structural)]
pub enum Error {
    /// The address holds no releasable line.
    NotInCache { addr: u64 },
}

/// A probe accepted from channel B: its header and the address it names.
pub type Probe = (ChanABCDTilelinkMessage, u64);

/// One line of the cache as shown to an observer.
pub struct CacheStatus {
    pub addr: u64,
    pub data: Vec<u8>,
    pub modified: bool,
    pub permissions: OmnixtendPermissionChangeCap,
}

/// One cached line.
#[derive(Debug)]
pub struct CachedEntry {
    pub data: Vec<u8>,
    pub modified: bool,
    pub valid: bool,
    pub release_pending: bool,
    pub permissions: OmnixtendPermissionChangeCap,
}

impl CachedEntry {
    /// Reads are allowed: the line is valid, not being released, and held at
    /// least as Branch.
    pub open spec fn readable(&self) -> bool {
        &&& self.valid
        &&& !self.release_pending
        &&& (self.permissions == OmnixtendPermissionChangeCap::ToT || self.permissions
            == OmnixtendPermissionChangeCap::ToB)
    }

    /// Writes are allowed: the line is valid, not being released, and held
    /// as Trunk.
    pub open spec fn writable(&self) -> bool {
        &&& self.valid
        &&& !self.release_pending
        &&& self.permissions == OmnixtendPermissionChangeCap::ToT
    }

    /// The line may be voluntarily released.
    pub open spec fn releasable(&self) -> bool {
        &&& self.valid
        &&& !self.release_pending
        &&& self.permissions != OmnixtendPermissionChangeCap::ToN
    }
}

/// The outcome of a local cache access.
#[derive(Debug, PartialEq, Eq, Structural)]
pub enum CacheAccess {
    /// The line was usable; here is its 64-bit value.
    Hit(u64),
    /// A release of this line is pending; retry after it completed.
    Blocked,
    /// The line must first be acquired with this permission growth.
    Miss(OmnixtendPermissionChangeGrow),
}

/// The outcome of a local cache write.
#[derive(Debug, PartialEq, Eq, Structural)]
pub enum CacheWrite {
    /// The line was writable and now holds the value, marked dirty.
    Done,
    /// A release of this line is pending; retry after it completed.
    Blocked,
    /// The line must first be acquired with this permission growth.
    Miss(OmnixtendPermissionChangeGrow),
}

/// What a voluntary release must send.
pub struct ReleaseAction {
    /// The line's bytes when it was dirty and owes a writeback.
    pub writeback: Option<Vec<u8>>,
    /// The line's length in bytes.
    pub len: usize,
    /// The permission level the line is released from.
    pub perm_from: OmnixtendPermissionChangeCap,
}

/// The outcome of answering one queued probe.
#[derive(Debug, PartialEq, Eq, Structural)]
pub enum ProbeOutcome {
    /// An acknowledgement was put on the pending-messages list.
    Done,
    /// The line is being released; the probe stays queued for the next tick.
    Blocked,
    /// The credit pool could not cover the acknowledgement; the probe stays
    /// queued.
    NoCredits,
}

/// The index of an address in the entry list, or -1.
pub open spec fn spec_entry_index(s: Seq<(u64, CachedEntry)>, addr: u64) -> int
    decreases s.len(),
{
    if s.len() == 0 {
        -1
    } else if s[0].0 == addr {
        0
    } else {
        let r = spec_entry_index(s.skip(1), addr);
        if r == -1 {
            -1
        } else {
            1 + r
        }
    }
}

/// The index is in range and names the address, when there is one.
pub proof fn lemma_entry_index(s: Seq<(u64, CachedEntry)>, addr: u64)
    ensures
        spec_entry_index(s, addr) == -1 ==> forall|i: int| 0 <= i < s.len() ==> (#[trigger] s[i]).0
            != addr,
        spec_entry_index(s, addr) != -1 ==> 0 <= spec_entry_index(s, addr) < s.len() && s[
            spec_entry_index(s, addr)
        ].0 == addr,
    decreases s.len(),
{
    if s.len() > 0 && s[0].0 != addr {
        lemma_entry_index(s.skip(1), addr);
        if spec_entry_index(s, addr) == -1 {
            assert forall|i: int| 0 <= i < s.len() implies (#[trigger] s[i]).0 != addr by {
                if i > 0 {
                    assert(s.skip(1)[i - 1] == s[i]);
                }
            }
        } else {
            assert(s[spec_entry_index(s, addr)] == s.skip(1)[spec_entry_index(s.skip(1), addr)]);
        }
    }
}

/// The first position holding the address is the index the search finds.
pub proof fn lemma_index_from_position(s: Seq<(u64, CachedEntry)>, addr: u64, i: int)
    requires
        0 <= i < s.len(),
        s[i].0 == addr,
        forall|j: int| 0 <= j < i ==> (#[trigger] s[j]).0 != addr,
    ensures
        spec_entry_index(s, addr) == i,
    decreases i,
{
    if i == 0 {
    } else {
        assert(s.skip(1)[i - 1] == s[i]);
        assert forall|j: int| 0 <= j < i - 1 implies (#[trigger] s.skip(1)[j]).0 != addr by {
            assert(s.skip(1)[j] == s[j + 1]);
        }
        lemma_index_from_position(s.skip(1), addr, i - 1);
    }
}

/// A sequence without the address has no index for it.
pub proof fn lemma_index_none(s: Seq<(u64, CachedEntry)>, addr: u64)
    requires
        forall|j: int| 0 <= j < s.len() ==> (#[trigger] s[j]).0 != addr,
    ensures
        spec_entry_index(s, addr) == -1,
    decreases s.len(),
{
    if s.len() > 0 {
        assert forall|j: int| 0 <= j < s.skip(1).len() implies (#[trigger] s.skip(1)[j]).0
            != addr by {
            assert(s.skip(1)[j] == s[j + 1]);
        }
        lemma_index_none(s.skip(1), addr);
    }
}

/// The per-address coherent cache with its probe queue.
pub struct Cache {
    entries: Vec<(u64, CachedEntry)>,
    id: u8,
    probes: Vec<Probe>,
}

impl Cache {
    /// The entry list, keyed by address.
    pub closed spec fn entries_view(&self) -> Seq<(u64, CachedEntry)> {
        self.entries@
    }

    /// The queued probes, oldest first.
    pub closed spec fn probes_view(&self) -> Seq<Probe> {
        self.probes@
    }

    /// The line cached at an address.
    pub open spec fn spec_lookup(&self, addr: u64) -> Option<CachedEntry> {
        if spec_entry_index(self.entries_view(), addr) == -1 {
            Option::None
        } else {
            Some(self.entries_view()[spec_entry_index(self.entries_view(), addr)].1)
        }
    }

    /// Addresses are unique and every line holds exactly eight bytes.
    pub open spec fn wf(&self) -> bool {
        &&& forall|i: int, j: int|
            0 <= i < j < self.entries_view().len() ==> (#[trigger] self.entries_view()[i]).0 != (
            #[trigger] self.entries_view()[j]).0
        &&& forall|i: int|
            0 <= i < self.entries_view().len() ==> (#[trigger] self.entries_view()[i]).1.data@.len()
                == 8
    }

    /// What a read of the address yields right now.
    pub open spec fn spec_read_step(&self, addr: u64) -> CacheAccess {
        match self.spec_lookup(addr) {
            Some(e) => {
                if e.readable() {
                    CacheAccess::Hit(spec_u64_from_le(e.data@))
                } else if e.release_pending {
                    CacheAccess::Blocked
                } else {
                    CacheAccess::Miss(
                        spec_permission_change_grow(
                            e.permissions,
                            OmnixtendPermissionChangeCap::ToB,
                        ),
                    )
                }
            },
            Option::None => CacheAccess::Miss(
                spec_permission_change_grow(
                    OmnixtendPermissionChangeCap::ToN,
                    OmnixtendPermissionChangeCap::ToB,
                ),
            ),
        }
    }

    /// What a read-for-update of the address yields right now.
    pub open spec fn spec_rmw_step(&self, addr: u64) -> CacheAccess {
        match self.spec_lookup(addr) {
            Some(e) => {
                if e.writable() {
                    CacheAccess::Hit(spec_u64_from_le(e.data@))
                } else if e.release_pending {
                    CacheAccess::Blocked
                } else {
                    CacheAccess::Miss(
                        spec_permission_change_grow(
                            e.permissions,
                            OmnixtendPermissionChangeCap::ToT,
                        ),
                    )
                }
            },
            Option::None => CacheAccess::Miss(
                spec_permission_change_grow(
                    OmnixtendPermissionChangeCap::ToN,
                    OmnixtendPermissionChangeCap::ToT,
                ),
            ),
        }
    }

    pub fn new(id: u8) -> (r: Cache)
        ensures
            r.wf(),
            r.entries_view().len() == 0,
            r.probes_view().len() == 0,
    {
        Cache { entries: Vec::new(), id, probes: Vec::new() }
    }

    /// Find the slot of an address.
    fn find(&self, addr: u64) -> (r: Option<usize>)
        ensures
            r is Some <==> spec_entry_index(self.entries_view(), addr) != -1,
            r is Some ==> r->0 as int == spec_entry_index(self.entries_view(), addr),
    {
        let n = self.entries.len();
        let mut i: usize = 0;
        while i < n
            invariant
                n == self.entries@.len(),
                i <= n,
                forall|j: int| 0 <= j < i ==> (#[trigger] self.entries@[j]).0 != addr,
            decreases n - i,
        {
            if self.entries[i].0 == addr {
                proof {
                    lemma_index_from_position(self.entries@, addr, i as int);
                }
                return Some(i);
            }
            i = i + 1;
        }
        proof {
            lemma_index_none(self.entries@, addr);
        }
        None
    }

    /// Service a read locally: the value on Branch or Trunk, Blocked while a
    /// release is pending, else the growth to request with an AcquireBlock.
    pub fn read_step(&self, address: u64) -> (r: CacheAccess)
        requires
            self.wf(),
        ensures
            r == self.spec_read_step(address),
    {
        proof {
            lemma_entry_index(self.entries_view(), address);
        }
        match self.find(address) {
            Some(i) => {
                let e = &self.entries[i].1;
                if e.valid && !e.release_pending && (e.permissions
                    == OmnixtendPermissionChangeCap::ToT || e.permissions
                    == OmnixtendPermissionChangeCap::ToB) {
                    CacheAccess::Hit(crate::wire::read_u64_le(e.data.as_slice(), 0))
                } else if e.release_pending {
                    CacheAccess::Blocked
                } else {
                    CacheAccess::Miss(
                        get_permission_change_grow(
                            &e.permissions,
                            &OmnixtendPermissionChangeCap::ToB,
                        ),
                    )
                }
            },
            Option::None => CacheAccess::Miss(
                get_permission_change_grow(
                    &OmnixtendPermissionChangeCap::ToN,
                    &OmnixtendPermissionChangeCap::ToB,
                ),
            ),
        }
    }

    /// Read the current value for a read-modify-write: Trunk only.
    pub fn rmw_step(&self, address: u64) -> (r: CacheAccess)
        requires
            self.wf(),
        ensures
            r == self.spec_rmw_step(address),
    {
        proof {
            lemma_entry_index(self.entries_view(), address);
        }
        match self.find(address) {
            Some(i) => {
                let e = &self.entries[i].1;
                if e.valid && !e.release_pending && e.permissions
                    == OmnixtendPermissionChangeCap::ToT {
                    CacheAccess::Hit(crate::wire::read_u64_le(e.data.as_slice(), 0))
                } else if e.release_pending {
                    CacheAccess::Blocked
                } else {
                    CacheAccess::Miss(
                        get_permission_change_grow(
                            &e.permissions,
                            &OmnixtendPermissionChangeCap::ToT,
                        ),
                    )
                }
            },
            Option::None => CacheAccess::Miss(
                get_permission_change_grow(
                    &OmnixtendPermissionChangeCap::ToN,
                    &OmnixtendPermissionChangeCap::ToT,
                ),
            ),
        }
    }

    /// Service a write locally: on Trunk the line takes the value and turns
    /// dirty; Blocked while a release is pending; else the growth to request.
    pub fn write_step(&mut self, address: u64, data: u64) -> (r: CacheWrite)
        requires
            old(self).wf(),
        ensures
            final(self).wf(),
            final(self).probes_view() == old(self).probes_view(),
            ({
                match old(self).spec_rmw_step(address) {
                    CacheAccess::Hit(_) => {
                        &&& r == CacheWrite::Done
                        &&& final(self).spec_lookup(address) matches Some(e) && e.data@
                            == spec_u64_le_bytes(data) && e.modified && e.valid
                            && !e.release_pending && e.permissions
                            == OmnixtendPermissionChangeCap::ToT
                        &&& forall|a: u64|
                            a != address ==> #[trigger] final(self).spec_lookup(a) == old(
                                self,
                            ).spec_lookup(a)
                    },
                    CacheAccess::Blocked => r == CacheWrite::Blocked && *final(self) == *old(self),
                    CacheAccess::Miss(g) => r == CacheWrite::Miss(g) && *final(self) == *old(self),
                }
            }),
    {
        proof {
            lemma_entry_index(self.entries_view(), address);
        }
        match self.find(address) {
            Some(i) => {
                let e = &self.entries[i].1;
                if e.valid && !e.release_pending && e.permissions
                    == OmnixtendPermissionChangeCap::ToT {
                    let mut bytes: Vec<u8> = Vec::new();
                    push_u64_le(&mut bytes, data);
                    let entry = CachedEntry {
                        data: bytes,
                        modified: true,
                        valid: true,
                        release_pending: false,
                        permissions: OmnixtendPermissionChangeCap::ToT,
                    };
                    self.entries.set(i, (address, entry));
                    proof {
                        lemma_index_update(old(self).entries_view(), self.entries_view(), i as int);
                        assert forall|a: u64| a != address implies #[trigger] self.spec_lookup(a)
                            == old(self).spec_lookup(a) by {
                            lemma_entry_index(self.entries_view(), a);
                            lemma_entry_index(old(self).entries_view(), a);
                        }
                    }
                    CacheWrite::Done
                } else if e.release_pending {
                    CacheWrite::Blocked
                } else {
                    CacheWrite::Miss(
                        get_permission_change_grow(
                            &e.permissions,
                            &OmnixtendPermissionChangeCap::ToT,
                        ),
                    )
                }
            },
            Option::None => CacheWrite::Miss(
                get_permission_change_grow(
                    &OmnixtendPermissionChangeCap::ToN,
                    &OmnixtendPermissionChangeCap::ToT,
                ),
            ),
        }
    }

    /// Install a line delivered by an AcquireBlock: clean, valid, with the
    /// granted permission.  An existing entry at the address is replaced.
    pub fn install(&mut self, address: u64, data: Vec<u8>, permissions: OmnixtendPermissionChangeCap)
        requires
            old(self).wf(),
            data@.len() == 8,
        ensures
            final(self).wf(),
            final(self).probes_view() == old(self).probes_view(),
            final(self).spec_lookup(address) matches Some(e) && e.data@ == data@ && !e.modified
                && e.valid && !e.release_pending && e.permissions == permissions,
            forall|a: u64|
                a != address ==> #[trigger] final(self).spec_lookup(a) == old(self).spec_lookup(a),
    {
        proof {
            lemma_entry_index(self.entries_view(), address);
        }
        let entry = CachedEntry {
            data,
            modified: false,
            valid: true,
            release_pending: false,
            permissions,
        };
        match self.find(address) {
            Some(i) => {
                self.entries.set(i, (address, entry));
                proof {
                    lemma_index_update(old(self).entries_view(), self.entries_view(), i as int);
                    assert forall|a: u64| a != address implies #[trigger] self.spec_lookup(a)
                        == old(self).spec_lookup(a) by {
                        lemma_entry_index(self.entries_view(), a);
                        lemma_entry_index(old(self).entries_view(), a);
                    }
                }
            },
            Option::None => {
                self.entries.push((address, entry));
                proof {
                    let n = old(self).entries_view().len() as int;
                    assert(self.entries_view() == old(self).entries_view().push(
                        self.entries_view()[n],
                    ));
                    lemma_index_push(old(self).entries_view(), self.entries_view(), address);
                    assert forall|a: u64| a != address implies #[trigger] self.spec_lookup(a)
                        == old(self).spec_lookup(a) by {
                        lemma_entry_index(self.entries_view(), a);
                        lemma_entry_index(old(self).entries_view(), a);
                    }
                    assert forall|x: int, y: int|
                        0 <= x < y < self.entries_view().len() implies (
                    #[trigger] self.entries_view()[x]).0 != (#[trigger] self.entries_view()[y]).0
                        by {
                        if y == n {
                            lemma_entry_index(old(self).entries_view(), address);
                        }
                    }
                }
            },
        }
    }

    /// Start a voluntary release: mark the line release-pending and say what
    /// must be sent, a ReleaseData with the bytes when the line is dirty,
    /// else a plain Release.  Only a valid, settled, held line can go.
    pub fn begin_release(&mut self, address: u64) -> (r: Result<ReleaseAction, Error>)
        requires
            old(self).wf(),
        ensures
            final(self).wf(),
            final(self).probes_view() == old(self).probes_view(),
            ({
                match old(self).spec_lookup(address) {
                    Some(e) => {
                        if e.releasable() {
                            &&& r is Ok
                            &&& r->Ok_0.perm_from == e.permissions
                            &&& r->Ok_0.len == e.data@.len()
                            &&& (e.modified ==> (r->Ok_0.writeback matches Some(d) && d@
                                == e.data@))
                            &&& (!e.modified ==> r->Ok_0.writeback is None)
                            &&& (final(self).spec_lookup(address) matches Some(e2) && e2.data@
                                == e.data@ && e2.modified == e.modified && e2.valid == e.valid
                                && e2.release_pending && e2.permissions == e.permissions)
                            &&& forall|a: u64|
                                a != address ==> #[trigger] final(self).spec_lookup(a) == old(
                                    self,
                                ).spec_lookup(a)
                        } else {
                            r == Result::<ReleaseAction, Error>::Err(
                                Error::NotInCache { addr: address },
                            ) && *final(self) == *old(self)
                        }
                    },
                    Option::None => r == Result::<ReleaseAction, Error>::Err(
                        Error::NotInCache { addr: address },
                    ) && *final(self) == *old(self),
                }
            }),
    {
        proof {
            lemma_entry_index(self.entries_view(), address);
        }
        match self.find(address) {
            Some(i) => {
                let e = &self.entries[i].1;
                if e.valid && !e.release_pending && e.permissions
                    != OmnixtendPermissionChangeCap::ToN {
                    let writeback = if e.modified {
                        Some(clone_data(&e.data))
                    } else {
                        Option::None
                    };
                    let action = ReleaseAction {
                        writeback,
                        len: e.data.len(),
                        perm_from: e.permissions,
                    };
                    let entry = CachedEntry {
                        data: clone_data(&e.data),
                        modified: e.modified,
                        valid: e.valid,
                        release_pending: true,
                        permissions: e.permissions,
                    };
                    self.entries.set(i, (address, entry));
                    proof {
                        lemma_index_update(old(self).entries_view(), self.entries_view(), i as int);
                        assert forall|a: u64| a != address implies #[trigger] self.spec_lookup(a)
                            == old(self).spec_lookup(a) by {
                            lemma_entry_index(self.entries_view(), a);
                            lemma_entry_index(old(self).entries_view(), a);
                        }
                    }
                    Ok(action)
                } else {
                    Err(Error::NotInCache { addr: address })
                }
            },
            Option::None => Err(Error::NotInCache { addr: address }),
        }
    }

    /// Finish a release: once the ReleaseAck arrived (or the send was given
    /// up on), the line is clean, invalid and holds nothing.
    pub fn finish_release(&mut self, address: u64)
        requires
            old(self).wf(),
        ensures
            final(self).wf(),
            final(self).probes_view() == old(self).probes_view(),
            old(self).spec_lookup(address) is Some ==> (final(self).spec_lookup(address) matches
                Some(e) && e.data@ == old(self).spec_lookup(address)->0.data@ && !e.modified
                && !e.valid && !e.release_pending && e.permissions
                == OmnixtendPermissionChangeCap::ToN),
            old(self).spec_lookup(address) is None ==> *final(self) == *old(self),
            forall|a: u64|
                a != address ==> #[trigger] final(self).spec_lookup(a) == old(self).spec_lookup(a),
    {
        proof {
            lemma_entry_index(self.entries_view(), address);
        }
        match self.find(address) {
            Some(i) => {
                let e = &self.entries[i].1;
                let entry = CachedEntry {
                    data: clone_data(&e.data),
                    modified: false,
                    valid: false,
                    release_pending: false,
                    permissions: OmnixtendPermissionChangeCap::ToN,
                };
                self.entries.set(i, (address, entry));
                proof {
                    lemma_index_update(old(self).entries_view(), self.entries_view(), i as int);
                    assert forall|a: u64| a != address implies #[trigger] self.spec_lookup(a)
                        == old(self).spec_lookup(a) by {
                        lemma_entry_index(self.entries_view(), a);
                        lemma_entry_index(old(self).entries_view(), a);
                    }
                }
            },
            Option::None => {},
        }
    }

    /// The addresses whose lines a release-all must let go: valid, settled,
    /// held.
    pub fn release_candidates(&self) -> (r: Vec<u64>)
        requires
            self.wf(),
        ensures
            forall|k: int|
                0 <= k < r@.len() ==> ((#[trigger] self.spec_lookup(r@[k])) matches Some(e)
                    && e.releasable()),
            forall|i: int|
                0 <= i < self.entries_view().len() && (#[trigger] self.entries_view()[i]).1.releasable()
                    ==> r@.contains(self.entries_view()[i].0),
    {
        let n = self.entries.len();
        let mut r: Vec<u64> = Vec::new();
        let mut i: usize = 0;
        while i < n
            invariant
                self.wf(),
                n == self.entries_view().len(),
                i <= n,
                forall|k: int|
                    0 <= k < r@.len() ==> ((#[trigger] self.spec_lookup(r@[k])) matches Some(e)
                        && e.releasable()),
                forall|j: int|
                    0 <= j < i && (#[trigger] self.entries_view()[j]).1.releasable()
                        ==> r@.contains(self.entries_view()[j].0),
            decreases n - i,
        {
            let e = &self.entries[i].1;
            if e.valid && !e.release_pending && e.permissions != OmnixtendPermissionChangeCap::ToN {
                let ghost rold = r@;
                r.push(self.entries[i].0);
                proof {
                    lemma_entry_index(self.entries_view(), self.entries_view()[i as int].0);
                    let idx = spec_entry_index(self.entries_view(), self.entries_view()[i as int].0);
                    assert(self.entries_view()[idx].0 == self.entries_view()[i as int].0);
                    if idx < i as int {
                        assert((self.entries_view()[idx]).0 != (self.entries_view()[i as int]).0);
                    }
                    if idx > i as int {
                        assert((self.entries_view()[i as int]).0 != (self.entries_view()[idx]).0);
                    }
                    assert(idx == i as int);
                    assert(forall|j: int| 0 <= j < rold.len() ==> #[trigger] r@[j] == rold[j]);
                    assert forall|j: int|
                        0 <= j < i + 1 && (#[trigger] self.entries_view()[j]).1.releasable()
                            implies r@.contains(self.entries_view()[j].0) by {
                        if j < i as int {
                            let k = choose|k: int|
                                0 <= k < rold.len() && rold[k] == self.entries_view()[j].0;
                            assert(r@[k] == self.entries_view()[j].0);
                        } else {
                            assert(r@[rold.len() as int] == self.entries_view()[i as int].0);
                        }
                    }
                }
            }
            i = i + 1;
        }
        r
    }

    /// A snapshot of every valid line: each status reflects a valid line,
    /// and every valid line appears.
    pub fn retrieve_overview(&self) -> (r: Vec<CacheStatus>)
        requires
            self.wf(),
        ensures
            forall|k: int|
                0 <= k < r@.len() ==> ((#[trigger] self.spec_lookup(r@[k].addr)) matches Some(e)
                    && e.valid && e.data@ == r@[k].data@ && e.modified == r@[k].modified
                    && e.permissions == r@[k].permissions),
            forall|i: int|
                0 <= i < self.entries_view().len() && (#[trigger] self.entries_view()[i]).1.valid
                    ==> exists|k: int| 0 <= k < r@.len() && (#[trigger] r@[k].addr)
                    == self.entries_view()[i].0,
    {
        let n = self.entries.len();
        let mut r: Vec<CacheStatus> = Vec::new();
        let mut i: usize = 0;
        while i < n
            invariant
                self.wf(),
                n == self.entries_view().len(),
                i <= n,
                forall|k: int|
                    0 <= k < r@.len() ==> ((#[trigger] self.spec_lookup(r@[k].addr)) matches Some(e)
                        && e.valid && e.data@ == r@[k].data@ && e.modified == r@[k].modified
                        && e.permissions == r@[k].permissions),
                forall|j: int|
                    0 <= j < i && (#[trigger] self.entries_view()[j]).1.valid ==> exists|k: int|
                        0 <= k < r@.len() && (#[trigger] r@[k].addr) == self.entries_view()[j].0,
            decreases n - i,
        {
            let e = &self.entries[i].1;
            if e.valid {
                let status = CacheStatus {
                    addr: self.entries[i].0,
                    data: clone_data(&e.data),
                    modified: e.modified,
                    permissions: e.permissions,
                };
                let ghost rold = r@;
                proof {
                    lemma_entry_index(self.entries_view(), self.entries_view()[i as int].0);
                    let idx = spec_entry_index(self.entries_view(), self.entries_view()[i as int].0);
                    assert(self.entries_view()[idx].0 == self.entries_view()[i as int].0);
                    if idx < i as int {
                        assert((self.entries_view()[idx]).0 != (self.entries_view()[i as int]).0);
                    }
                    if idx > i as int {
                        assert((self.entries_view()[i as int]).0 != (self.entries_view()[idx]).0);
                    }
                    assert(idx == i as int);
                }
                r.push(status);
                proof {
                    assert(forall|j: int| 0 <= j < rold.len() ==> #[trigger] r@[j] == rold[j]);
                    assert forall|j: int|
                        0 <= j < i + 1 && (#[trigger] self.entries_view()[j]).1.valid
                            implies exists|k: int|
                        0 <= k < r@.len() && (#[trigger] r@[k].addr) == self.entries_view()[j].0 by {
                        if j < i as int {
                            let k = choose|k: int|
                                0 <= k < rold.len() && (#[trigger] rold[k].addr)
                                    == self.entries_view()[j].0;
                            assert(r@[k].addr == self.entries_view()[j].0);
                        } else {
                            assert(r@[rold.len() as int].addr == self.entries_view()[i as int].0);
                        }
                    }
                }
            }
            i = i + 1;
        }
        r
    }

    /// Accept a probe from channel B.
    pub fn add_probe(&mut self, probe: Probe)
        requires
            old(self).wf(),
        ensures
            final(self).wf(),
            final(self).probes_view() == old(self).probes_view().push(probe),
            final(self).entries_view() == old(self).entries_view(),
    {
        self.probes.push(probe);
    }

    /// How many probes wait in the queue.
    pub fn probe_count(&self) -> (r: usize)
        ensures
            r == self.probes_view().len(),
    {
        self.probes.len()
    }
}

/// Copy a line's bytes.
fn clone_data(v: &Vec<u8>) -> (r: Vec<u8>)
    ensures
        r@ == v@,
{
    let len = v.len();
    let mut r: Vec<u8> = Vec::new();
    let mut i: usize = 0;
    while i < len
        invariant
            len == v@.len(),
            i <= len,
            r@ =~= v@.subrange(0, i as int),
        decreases len - i,
    {
        r.push(v[i]);
        i = i + 1;
        proof {
            assert(r@ =~= v@.subrange(0, i as int));
        }
    }
    proof {
        assert(r@ =~= v@);
    }
    r
}

/// Updating one slot in place keeps every other address where it was.
proof fn lemma_index_update(olds: Seq<(u64, CachedEntry)>, news: Seq<(u64, CachedEntry)>, i: int)
    requires
        0 <= i < olds.len(),
        news.len() == olds.len(),
        news[i].0 == olds[i].0,
        forall|j: int| 0 <= j < olds.len() && j != i ==> news[j] == olds[j],
        forall|a: int, b: int| 0 <= a < b < olds.len() ==> olds[a].0 != olds[b].0,
    ensures
        forall|addr: u64|
            addr != olds[i].0 ==> #[trigger] spec_entry_index(news, addr) == spec_entry_index(
                olds,
                addr,
            ),
        spec_entry_index(news, olds[i].0) == spec_entry_index(olds, olds[i].0),
        forall|addr: u64|
            spec_entry_index(news, addr) != -1 ==> 0 <= #[trigger] spec_entry_index(news, addr)
                < news.len(),
    decreases olds.len(),
{
    assert forall|addr: u64| true implies #[trigger] spec_entry_index(news, addr)
        == spec_entry_index(olds, addr) by {
        lemma_index_congruence(olds, news, addr, i);
    }
    assert forall|addr: u64|
        spec_entry_index(news, addr) != -1 implies 0 <= #[trigger] spec_entry_index(news, addr)
        < news.len() by {
        lemma_entry_index(news, addr);
    }
}

/// Index search only looks at keys; equal keys give equal indices.
proof fn lemma_index_congruence(
    olds: Seq<(u64, CachedEntry)>,
    news: Seq<(u64, CachedEntry)>,
    addr: u64,
    i: int,
)
    requires
        news.len() == olds.len(),
        forall|j: int| 0 <= j < olds.len() ==> (#[trigger] news[j]).0 == olds[j].0,
    ensures
        spec_entry_index(news, addr) == spec_entry_index(olds, addr),
    decreases olds.len(),
{
    if olds.len() > 0 {
        assert(news[0].0 == olds[0].0);
        assert forall|j: int|
            0 <= j < olds.skip(1).len() implies (#[trigger] news.skip(1)[j]).0 == olds.skip(
            1,
        )[j].0 by {
            assert(news.skip(1)[j] == news[j + 1]);
            assert(olds.skip(1)[j] == olds[j + 1]);
        }
        lemma_index_congruence(olds.skip(1), news.skip(1), addr, i - 1);
    }
}

/// Appending a fresh address leaves every old address in place and makes the
/// new one findable.
proof fn lemma_index_push(
    olds: Seq<(u64, CachedEntry)>,
    news: Seq<(u64, CachedEntry)>,
    addr: u64,
)
    requires
        spec_entry_index(olds, addr) == -1,
        news == olds.push(news[olds.len() as int]),
        news[olds.len() as int].0 == addr,
    ensures
        spec_entry_index(news, addr) == olds.len(),
        forall|a: u64|
            a != addr ==> #[trigger] spec_entry_index(news, a) == spec_entry_index(olds, a),
    decreases olds.len(),
{
    lemma_entry_index(olds, addr);
    if olds.len() == 0 {
        assert(news.len() == 1);
        assert(news[0].0 == addr);
        assert forall|a: u64| a != addr implies #[trigger] spec_entry_index(news, a)
            == spec_entry_index(olds, a) by {
            assert(news.skip(1) =~= Seq::<(u64, CachedEntry)>::empty());
            assert(spec_entry_index(news.skip(1), a) == -1);
        }
    } else {
        assert(news[0] == olds[0]);
        assert(olds[0].0 != addr);
        assert(news.skip(1) =~= olds.skip(1).push(news[olds.len() as int]));
        assert(news.skip(1)[olds.skip(1).len() as int] == news[olds.len() as int]);
        assert forall|j: int| 0 <= j < olds.skip(1).len() implies (#[trigger] olds.skip(1)[j]).0
            != addr by {
            assert(olds.skip(1)[j] == olds[j + 1]);
        }
        lemma_index_none(olds.skip(1), addr);
        lemma_index_push(olds.skip(1), news.skip(1), addr);
        assert(spec_entry_index(news, addr) == olds.len());
        assert forall|a: u64| a != addr implies #[trigger] spec_entry_index(news, a)
            == spec_entry_index(olds, a) by {
            if news[0].0 != a {
                assert(spec_entry_index(news.skip(1), a) == spec_entry_index(olds.skip(1), a));
            }
        }
    }
}


/// The permission level a probe's param byte asks to cap the line at.
pub open spec fn spec_probe_request(param: u8) -> OmnixtendPermissionChangeCap {
    OmnixtendPermissionChangeCap::spec_from_num(param)
}

/// A cached line at the specification level: the bytes as a sequence.
pub struct EntryModel {
    pub data: Seq<u8>,
    pub modified: bool,
    pub valid: bool,
    pub release_pending: bool,
    pub permissions: OmnixtendPermissionChangeCap,
}

/// The specification-level picture of one line.
pub open spec fn entry_model(e: CachedEntry) -> EntryModel {
    EntryModel {
        data: e.data@,
        modified: e.modified,
        valid: e.valid,
        release_pending: e.release_pending,
        permissions: e.permissions,
    }
}

/// The specification-level picture of the whole entry list.
pub open spec fn cache_model(s: Seq<(u64, CachedEntry)>) -> Seq<(u64, EntryModel)> {
    s.map_values(|p: (u64, CachedEntry)| (p.0, entry_model(p.1)))
}

/// The index of an address in a modelled entry list, or -1.
pub open spec fn spec_model_index(s: Seq<(u64, EntryModel)>, addr: u64) -> int
    decreases s.len(),
{
    if s.len() == 0 {
        -1
    } else if s[0].0 == addr {
        0
    } else {
        let r = spec_model_index(s.skip(1), addr);
        if r == -1 {
            -1
        } else {
            1 + r
        }
    }
}

/// The modelled line at an address.
pub open spec fn spec_model_lookup(s: Seq<(u64, EntryModel)>, addr: u64) -> Option<EntryModel> {
    if spec_model_index(s, addr) == -1 {
        Option::None
    } else {
        Some(s[spec_model_index(s, addr)].1)
    }
}

/// The model's index search agrees with the entry list's.
pub proof fn lemma_model_index(s: Seq<(u64, CachedEntry)>, addr: u64)
    ensures
        spec_model_index(cache_model(s), addr) == spec_entry_index(s, addr),
    decreases s.len(),
{
    if s.len() > 0 {
        assert(cache_model(s)[0].0 == s[0].0);
        assert(cache_model(s).skip(1) =~= cache_model(s.skip(1)));
        lemma_model_index(s.skip(1), addr);
    }
}

/// Model index search only looks at keys.
proof fn lemma_model_index_congruence(
    olds: Seq<(u64, EntryModel)>,
    news: Seq<(u64, EntryModel)>,
    addr: u64,
)
    requires
        news.len() == olds.len(),
        forall|j: int| 0 <= j < olds.len() ==> (#[trigger] news[j]).0 == olds[j].0,
    ensures
        spec_model_index(news, addr) == spec_model_index(olds, addr),
    decreases olds.len(),
{
    if olds.len() > 0 {
        assert(news[0].0 == olds[0].0);
        assert forall|j: int|
            0 <= j < olds.skip(1).len() implies (#[trigger] news.skip(1)[j]).0 == olds.skip(
            1,
        )[j].0 by {
            assert(news.skip(1)[j] == news[j + 1]);
            assert(olds.skip(1)[j] == olds[j + 1]);
        }
        lemma_model_index_congruence(olds.skip(1), news.skip(1), addr);
    }
}

/// The index is in range and names the address, when there is one.
pub proof fn lemma_model_index_bounds(s: Seq<(u64, EntryModel)>, addr: u64)
    ensures
        spec_model_index(s, addr) != -1 ==> 0 <= spec_model_index(s, addr) < s.len() && s[
            spec_model_index(s, addr)
        ].0 == addr,
    decreases s.len(),
{
    if s.len() > 0 && s[0].0 != addr {
        lemma_model_index_bounds(s.skip(1), addr);
        if spec_model_index(s, addr) != -1 {
            assert(s[spec_model_index(s, addr)] == s.skip(1)[spec_model_index(s.skip(1), addr)]);
        }
    }
}

/// The C-channel param an answered probe reports: the transition from the
/// line's level to the requested one, NtoN when nothing is cached.
pub open spec fn spec_probe_pc(
    e0: Option<EntryModel>,
    request: OmnixtendPermissionChangeCap,
) -> u8 {
    match e0 {
        Some(e) => spec_permission_change(e.permissions, request),
        Option::None => spec_permission_change(
            OmnixtendPermissionChangeCap::ToN,
            OmnixtendPermissionChangeCap::ToN,
        ),
    }
}

/// Whether answering the probe writes dirty data back.
pub open spec fn spec_probe_writeback(
    e0: Option<EntryModel>,
    request: OmnixtendPermissionChangeCap,
) -> bool {
    match e0 {
        Some(e) => e.permissions != request && e.permissions
            != OmnixtendPermissionChangeCap::ToN && e.modified,
        Option::None => false,
    }
}

/// The C-channel flits an acknowledgement costs: a header and an address,
/// plus the line's flits when dirty data goes back with a ProbeBlock.
pub open spec fn spec_probe_cost(e0: Option<EntryModel>, msg: ChanABCDTilelinkMessage) -> nat {
    if spec_probe_writeback(e0, spec_probe_request(msg.param)) && msg.opcode == 6 {
        2 + e0->0.data.len() / 8
    } else {
        2
    }
}

/// The packed acknowledgement of one probe: a ProbeAckData carrying the
/// line's bytes for a ProbeBlock on a dirty line, else a plain ProbeAck.
pub open spec fn spec_probe_ack_bytes(
    e0: Option<EntryModel>,
    msg: ChanABCDTilelinkMessage,
    addr: u64,
) -> Seq<u8> {
    let request = spec_probe_request(msg.param);
    let pc = spec_probe_pc(e0, request);
    if spec_probe_writeback(e0, request) && msg.opcode == 6 {
        crate::operations::spec_hdr_addr_bytes(
            crate::operations::spec_op_msg(
                crate::tilelink_messages::OmnixtendChannel::C,
                5,
                pc,
                crate::operations::spec_size_field(e0->0.data.len()),
                0,
            ),
            addr,
        ) + e0->0.data
    } else {
        crate::operations::spec_hdr_addr_bytes(
            crate::operations::spec_op_msg(
                crate::tilelink_messages::OmnixtendChannel::C,
                4,
                pc,
                msg.size,
                0,
            ),
            addr,
        )
    }
}

/// Everything one probe round touches: the modelled lines, the C-channel
/// credit pools, the pending-messages list, and the probes kept for retry.
pub struct ProbeDrainState {
    pub entries: Seq<(u64, EntryModel)>,
    pub credits: Seq<nat>,
    pub pending: Seq<Seq<u8>>,
    pub kept: Seq<Probe>,
}

/// One probe round.  A line under release blocks: the probe is kept and
/// nothing changes.  Otherwise the line caps to the requested level and
/// turns clean (when it held more); then, if the C-channel pool covers the
/// acknowledgement, the ack joins the pending messages, the pool pays, and
/// the probe is dropped -- else the probe is kept, the capping already done.
pub open spec fn spec_probe_step(
    s: ProbeDrainState,
    msg: ChanABCDTilelinkMessage,
    addr: u64,
) -> ProbeDrainState {
    let e0 = spec_model_lookup(s.entries, addr);
    if e0 matches Some(e) && e.release_pending {
        ProbeDrainState {
            entries: s.entries,
            credits: s.credits,
            pending: s.pending,
            kept: s.kept.push((msg, addr)),
        }
    } else {
        let request = spec_probe_request(msg.param);
        let idx = spec_model_index(s.entries, addr);
        let entries2 = if e0 is Some && e0->0.permissions != request && e0->0.permissions
            != OmnixtendPermissionChangeCap::ToN {
            s.entries.update(
                idx,
                (
                    addr,
                    EntryModel {
                        data: e0->0.data,
                        modified: false,
                        valid: e0->0.valid,
                        release_pending: false,
                        permissions: request,
                    },
                ),
            )
        } else {
            s.entries
        };
        let cost = spec_probe_cost(e0, msg);
        if s.credits[2] >= cost {
            ProbeDrainState {
                entries: entries2,
                credits: s.credits.update(2, (s.credits[2] - cost) as nat),
                pending: s.pending.push(spec_probe_ack_bytes(e0, msg, addr)),
                kept: s.kept,
            }
        } else {
            ProbeDrainState {
                entries: entries2,
                credits: s.credits,
                pending: s.pending,
                kept: s.kept.push((msg, addr)),
            }
        }
    }
}

/// Draining a probe queue is folding the round over it, front first.
pub open spec fn spec_probe_drain(s: ProbeDrainState, probes: Seq<Probe>) -> ProbeDrainState
    decreases probes.len(),
{
    if probes.len() == 0 {
        s
    } else {
        spec_probe_drain(spec_probe_step(s, probes[0].0, probes[0].1), probes.skip(1))
    }
}

impl Cache {
    /// The cache's side of a probe drain state, with the given queue.
    pub open spec fn probe_state(
        &self,
        credits: Seq<nat>,
        pending: Seq<Seq<u8>>,
        kept: Seq<Probe>,
    ) -> ProbeDrainState {
        ProbeDrainState { entries: cache_model(self.entries_view()), credits, pending, kept }
    }

    /// Apply a probe's permission request to the line: the report param,
    /// the dirty bytes if a writeback is owed, and whether a pending release
    /// blocks the probe.  A blocked line and a line already at or below the
    /// request stay untouched; otherwise the line caps to the request and
    /// turns clean.
    fn change_permission_probe(
        &mut self,
        addr: u64,
        permission_request: OmnixtendPermissionChangeCap,
    ) -> (r: (u8, Option<Vec<u8>>, bool))
        requires
            old(self).wf(),
        ensures
            final(self).wf(),
            final(self).probes_view() == old(self).probes_view(),
            ({
                let m0 = cache_model(old(self).entries_view());
                let em0 = spec_model_lookup(m0, addr);
                let idx = spec_model_index(m0, addr);
                &&& r.2 == (em0 matches Some(e) && e.release_pending)
                &&& (r.2 ==> *final(self) == *old(self) && r.1 is None)
                &&& (!r.2 ==> {
                    &&& r.0 == spec_probe_pc(em0, permission_request)
                    &&& (spec_probe_writeback(em0, permission_request) ==> (r.1 matches Some(d)
                        && d@ == em0->0.data))
                    &&& (!spec_probe_writeback(em0, permission_request) ==> r.1 is None)
                    &&& cache_model(final(self).entries_view()) == (if em0 is Some
                        && em0->0.permissions != permission_request && em0->0.permissions
                        != OmnixtendPermissionChangeCap::ToN {
                        m0.update(
                            idx,
                            (
                                addr,
                                EntryModel {
                                    data: em0->0.data,
                                    modified: false,
                                    valid: em0->0.valid,
                                    release_pending: false,
                                    permissions: permission_request,
                                },
                            ),
                        )
                    } else {
                        m0
                    })
                })
            }),
    {
        proof {
            lemma_entry_index(self.entries_view(), addr);
            lemma_model_index(self.entries_view(), addr);
        }
        match self.find(addr) {
            Some(i) => {
                let e = &self.entries[i].1;
                if e.release_pending {
                    (0, Option::None, true)
                } else {
                    let pc = get_permission_change(&e.permissions, &permission_request);
                    if e.permissions == permission_request || e.permissions
                        == OmnixtendPermissionChangeCap::ToN {
                        (pc, Option::None, false)
                    } else {
                        let wb = if e.modified {
                            Some(clone_data(&e.data))
                        } else {
                            Option::None
                        };
                        let entry = CachedEntry {
                            data: clone_data(&e.data),
                            modified: false,
                            valid: e.valid,
                            release_pending: false,
                            permissions: permission_request,
                        };
                        self.entries.set(i, (addr, entry));
                        proof {
                            lemma_index_update(
                                old(self).entries_view(),
                                self.entries_view(),
                                i as int,
                            );
                            let m0 = cache_model(old(self).entries_view());
                            let em0 = spec_model_lookup(m0, addr);
                            assert(cache_model(self.entries_view()) =~= m0.update(
                                i as int,
                                (
                                    addr,
                                    EntryModel {
                                        data: em0->0.data,
                                        modified: false,
                                        valid: em0->0.valid,
                                        release_pending: false,
                                        permissions: permission_request,
                                    },
                                ),
                            ));
                        }
                        (pc, wb, false)
                    }
                }
            },
            Option::None => {
                let pc = get_permission_change(
                    &OmnixtendPermissionChangeCap::ToN,
                    &OmnixtendPermissionChangeCap::ToN,
                );
                (pc, Option::None, false)
            },
        }
    }

    /// Answer one probe, as one round of `spec_probe_step` over the cache
    /// lines, the credit pools and the pending-messages list: a line under
    /// release blocks the probe; otherwise the line is capped as requested,
    /// and the acknowledgement goes out exactly when the C-channel pool
    /// covers its cost.
    pub fn process_probe(
        &mut self,
        msg: &ChanABCDTilelinkMessage,
        addr: u64,
        operations: &mut Operations,
        credits: &mut Credits,
    ) -> (r: ProbeOutcome)
        requires
            old(self).wf(),
            old(operations).wf(),
            old(credits).wf(),
        ensures
            final(self).wf(),
            final(operations).wf(),
            final(credits).wf(),
            final(self).probes_view() == old(self).probes_view(),
            final(operations).sources() == old(operations).sources(),
            final(operations).completions_view() == old(operations).completions_view(),
            final(operations).outstanding() == old(operations).outstanding(),
            ({
                let s0 = old(self).probe_state(
                    old(credits)@,
                    old(operations).pending_view(),
                    Seq::<Probe>::empty(),
                );
                let s1 = spec_probe_step(s0, *msg, addr);
                let e0 = spec_model_lookup(s0.entries, addr);
                let blocked = e0 matches Some(e) && e.release_pending;
                let covered = s0.credits[2] >= spec_probe_cost(e0, *msg);
                &&& cache_model(final(self).entries_view()) == s1.entries
                &&& final(credits)@ == s1.credits
                &&& final(operations).pending_view() == s1.pending
                &&& (r == ProbeOutcome::Blocked <==> blocked)
                &&& (r == ProbeOutcome::Done <==> !blocked && covered)
                &&& (r == ProbeOutcome::NoCredits <==> !blocked && !covered)
            }),
    {
        let request = OmnixtendPermissionChangeCap::from_num(msg.param);
        proof {
            lemma_entry_index(old(self).entries_view(), addr);
            lemma_model_index(old(self).entries_view(), addr);
        }
        let (pc, writeback, blocked) = self.change_permission_probe(addr, request);
        if blocked {
            return ProbeOutcome::Blocked;
        }
        let op = match (writeback, msg.opcode == 6) {
            (Some(data), true) => {
                proof {
                    lemma_is_pow2_8();
                }
                TLOperations::ProbeAckData(
                    ProbeDataOp {
                        probe: ProbeOp { address: addr, size: msg.size, permission_change: pc },
                        data,
                    },
                )
            },
            (_, _) => TLOperations::ProbeAck(
                ProbeOp { address: addr, size: msg.size, permission_change: pc },
            ),
        };
        proof {
            assert(crate::operations::spec_packed(&op, 0) is Some);
        }
        let outcome = operations.submit(&op, credits);
        match outcome {
            Ok(SubmitOutcome::Submitted { source }) => {
                proof {
                    assert(source == 0);
                }
                ProbeOutcome::Done
            },
            _ => ProbeOutcome::NoCredits,
        }
    }

    /// One probe round with the retry queue as the accumulator: the probe is
    /// answered or pushed back, exactly as `spec_probe_step` says.
    fn probe_round(
        &mut self,
        msg: &ChanABCDTilelinkMessage,
        addr: u64,
        operations: &mut Operations,
        credits: &mut Credits,
    ) -> (kept: bool)
        requires
            old(self).wf(),
            old(operations).wf(),
            old(credits).wf(),
        ensures
            final(self).wf(),
            final(operations).wf(),
            final(credits).wf(),
            ({
                let s0 = old(self).probe_state(
                    old(credits)@,
                    old(operations).pending_view(),
                    old(self).probes_view(),
                );
                let s1 = spec_probe_step(s0, *msg, addr);
                &&& cache_model(final(self).entries_view()) == s1.entries
                &&& final(credits)@ == s1.credits
                &&& final(operations).pending_view() == s1.pending
                &&& final(self).probes_view() == s1.kept
            }),
            final(operations).pending_view().len() >= old(operations).pending_view().len(),
            final(operations).pending_view().take(
                old(operations).pending_view().len() as int,
            ) == old(operations).pending_view(),
            forall|i: int|
                old(operations).pending_view().len() <= i < final(operations).pending_view().len()
                    ==> #[trigger] final(operations).pending_view()[i].len() <= 24,
            final(operations).sources() == old(operations).sources(),
            final(operations).completions_view() == old(operations).completions_view(),
            final(operations).outstanding() == old(operations).outstanding(),
    {
        let ghost pending_before = operations.pending_view();
        proof {
            lemma_entry_index(old(self).entries_view(), addr);
            lemma_model_index(old(self).entries_view(), addr);
        }
        let outcome = self.process_probe(msg, addr, operations, credits);
        proof {
            assert(operations.pending_view().take(pending_before.len() as int)
                =~= pending_before);
        }
        match outcome {
            ProbeOutcome::Done => false,
            _ => {
                self.probes.push((*msg, addr));
                true
            },
        }
    }

    /// Drain the probe queue, folding `spec_probe_step` over it in order:
    /// every probe whose line is not release-pending and whose
    /// acknowledgement the C-channel credits cover is answered and dropped;
    /// every other probe stays queued, in order, a blocked one with its line
    /// untouched.
    #[verifier::rlimit(100)]
    pub fn process_probes(&mut self, operations: &mut Operations, credits: &mut Credits)
        requires
            old(self).wf(),
            old(operations).wf(),
            old(credits).wf(),
        ensures
            final(self).wf(),
            final(operations).wf(),
            final(credits).wf(),
            ({
                let s1 = spec_probe_drain(
                    old(self).probe_state(
                        old(credits)@,
                        old(operations).pending_view(),
                        Seq::<Probe>::empty(),
                    ),
                    old(self).probes_view(),
                );
                &&& cache_model(final(self).entries_view()) == s1.entries
                &&& final(credits)@ == s1.credits
                &&& final(operations).pending_view() == s1.pending
                &&& final(self).probes_view() == s1.kept
            }),
            final(operations).pending_view().len() >= old(operations).pending_view().len(),
            final(operations).pending_view().take(
                old(operations).pending_view().len() as int,
            ) == old(operations).pending_view(),
            forall|i: int|
                old(operations).pending_view().len() <= i < final(operations).pending_view().len()
                    ==> #[trigger] final(operations).pending_view()[i].len() <= 24,
            final(operations).sources() == old(operations).sources(),
            final(operations).completions_view() == old(operations).completions_view(),
            final(operations).outstanding() == old(operations).outstanding(),
    {
        let mut queue: Vec<Probe> = Vec::new();
        core::mem::swap(&mut queue, &mut self.probes);
        let n = queue.len();
        let mut i: usize = 0;
        let ghost pending0 = operations.pending_view();
        let ghost s0 = self.probe_state(credits@, operations.pending_view(), Seq::<Probe>::empty());
        proof {
            assert(operations.pending_view().take(pending0.len() as int) =~= pending0);
            assert(self.probes_view() =~= Seq::<Probe>::empty());
            assert(queue@.skip(0) =~= queue@);
            assert(self.probe_state(credits@, operations.pending_view(), self.probes_view())
                == s0);
        }
        while i < n
            invariant
                self.wf(),
                operations.wf(),
                credits.wf(),
                n == queue@.len(),
                i <= n,
                spec_probe_drain(s0, queue@) == spec_probe_drain(
                    self.probe_state(credits@, operations.pending_view(), self.probes_view()),
                    queue@.skip(i as int),
                ),
                operations.pending_view().len() >= pending0.len(),
                operations.pending_view().take(pending0.len() as int) == pending0,
                forall|j: int|
                    pending0.len() <= j < operations.pending_view().len()
                        ==> #[trigger] operations.pending_view()[j].len() <= 24,
                operations.sources() == old(operations).sources(),
                operations.completions_view() == old(operations).completions_view(),
                operations.outstanding() == old(operations).outstanding(),
            decreases n - i,
        {
            let (msg, addr) = queue[i];
            let ghost pending_before = operations.pending_view();
            let ghost cur = self.probe_state(credits@, operations.pending_view(), self.probes_view());
            let _kept = self.probe_round(&msg, addr, operations, credits);
            i = i + 1;
            proof {
                assert(operations.pending_view().take(pending0.len() as int)
                    =~= pending_before.take(pending0.len() as int));
                assert forall|j: int|
                    pending0.len() <= j < operations.pending_view().len()
                        implies #[trigger] operations.pending_view()[j].len() <= 24 by {
                    if j < pending_before.len() {
                        assert(operations.pending_view().take(pending_before.len() as int)[j]
                            == operations.pending_view()[j]);
                        assert(pending_before[j].len() <= 24);
                    }
                }
                let rest = queue@.skip(i - 1);
                assert(rest[0] == queue@[i - 1]);
                assert(rest.skip(1) =~= queue@.skip(i as int));
                assert(spec_probe_drain(cur, rest) == spec_probe_drain(
                    spec_probe_step(cur, msg, addr),
                    queue@.skip(i as int),
                ));
            }
        }
        proof {
            assert(queue@.skip(n as int).len() == 0);
        }
    }
}

/// Probe liveness: a probe whose line is not under release, with the
/// C-channel pool covering its acknowledgement, is answered -- the ack joins
/// the pending messages -- and leaves the queue.
pub proof fn lemma_probe_liveness(s: ProbeDrainState, msg: ChanABCDTilelinkMessage, addr: u64)
    requires
        !(spec_model_lookup(s.entries, addr) matches Some(e) && e.release_pending),
        s.credits[2] >= spec_probe_cost(spec_model_lookup(s.entries, addr), msg),
    ensures
        spec_probe_step(s, msg, addr).pending == s.pending.push(
            spec_probe_ack_bytes(spec_model_lookup(s.entries, addr), msg, addr),
        ),
        spec_probe_step(s, msg, addr).kept == s.kept,
{
}

/// Permission monotonicity on probe: after a round that demands None, the
/// line at the address is gone or holds None.
pub proof fn lemma_probe_caps_to_none(s: ProbeDrainState, msg: ChanABCDTilelinkMessage, addr: u64)
    requires
        spec_probe_request(msg.param) == OmnixtendPermissionChangeCap::ToN,
        !(spec_model_lookup(s.entries, addr) matches Some(e) && e.release_pending),
    ensures
        spec_model_lookup(spec_probe_step(s, msg, addr).entries, addr) is None
            || spec_model_lookup(
            spec_probe_step(s, msg, addr).entries,
            addr,
        )->0.permissions == OmnixtendPermissionChangeCap::ToN,
{
    let e0 = spec_model_lookup(s.entries, addr);
    let idx = spec_model_index(s.entries, addr);
    lemma_model_index_bounds(s.entries, addr);
    if e0 is Some && e0->0.permissions != OmnixtendPermissionChangeCap::ToN {
        let news = spec_probe_step(s, msg, addr).entries;
        assert forall|j: int| 0 <= j < s.entries.len() implies (#[trigger] news[j]).0
            == s.entries[j].0 by {}
        lemma_model_index_congruence(s.entries, news, addr);
        assert(spec_model_lookup(news, addr)->0.permissions
            == OmnixtendPermissionChangeCap::ToN);
    }
}

/// A ProbeBlock on a dirty held line answers with the line's bytes, and the
/// line ends capped at the requested level, clean.
pub proof fn lemma_probe_writeback_dirty(s: ProbeDrainState, msg: ChanABCDTilelinkMessage, addr: u64)
    requires
        msg.opcode == 6,
        spec_model_lookup(s.entries, addr) matches Some(e) && !e.release_pending && e.modified
            && e.permissions != spec_probe_request(msg.param) && e.permissions
            != OmnixtendPermissionChangeCap::ToN,
        s.credits[2] >= spec_probe_cost(spec_model_lookup(s.entries, addr), msg),
    ensures
        ({
            let e = spec_model_lookup(s.entries, addr)->0;
            &&& spec_probe_step(s, msg, addr).pending == s.pending.push(
                crate::operations::spec_hdr_addr_bytes(
                    crate::operations::spec_op_msg(
                        crate::tilelink_messages::OmnixtendChannel::C,
                        5,
                        spec_permission_change(e.permissions, spec_probe_request(msg.param)),
                        crate::operations::spec_size_field(e.data.len()),
                        0,
                    ),
                    addr,
                ) + e.data,
            )
            &&& (spec_model_lookup(spec_probe_step(s, msg, addr).entries, addr) matches Some(e2)
                && e2.data == e.data && !e2.modified && e2.permissions == spec_probe_request(
                msg.param,
            ))
            &&& spec_probe_step(s, msg, addr).kept == s.kept
        }),
{
    let e0 = spec_model_lookup(s.entries, addr);
    let idx = spec_model_index(s.entries, addr);
    lemma_model_index_bounds(s.entries, addr);
    let news = spec_probe_step(s, msg, addr).entries;
    assert forall|j: int| 0 <= j < s.entries.len() implies (#[trigger] news[j]).0
        == s.entries[j].0 by {}
    lemma_model_index_congruence(s.entries, news, addr);
}

/// A probe blocked by a pending release stays queued, and the lines, the
/// credits and the pending messages are untouched.
pub proof fn lemma_probe_blocked_stays(s: ProbeDrainState, msg: ChanABCDTilelinkMessage, addr: u64)
    requires
        spec_model_lookup(s.entries, addr) matches Some(e) && e.release_pending,
    ensures
        spec_probe_step(s, msg, addr).entries == s.entries,
        spec_probe_step(s, msg, addr).credits == s.credits,
        spec_probe_step(s, msg, addr).pending == s.pending,
        spec_probe_step(s, msg, addr).kept == s.kept.push((msg, addr)),
{
}

/// Eight is a power of two, as the writeback's size field relies on.
proof fn lemma_is_pow2_8()
    ensures
        crate::utils::spec_is_pow2(8),
        crate::utils::spec_floor_log2(8) == 3,
{
    vstd::arithmetic::power2::lemma2_to64();
    assert(crate::utils::spec_floor_log2(1) == 0);
    assert(crate::utils::spec_floor_log2(2) == 1);
    assert(crate::utils::spec_floor_log2(4) == 2);
    assert(crate::utils::spec_floor_log2(8) == 3);
}


/// Cache safety: right after a completed local write of `v`, a local read of
/// the same address is a hit that returns `v`.
pub proof fn lemma_read_after_write(c: &Cache, addr: u64, v: u64)
    requires
        c.wf(),
        c.spec_lookup(addr) matches Some(e) && e.data@ == spec_u64_le_bytes(v) && e.valid
            && !e.release_pending && e.permissions == OmnixtendPermissionChangeCap::ToT,
    ensures
        c.spec_read_step(addr) == CacheAccess::Hit(v),
{
    crate::wire::lemma_u64_le_roundtrip(v);
}

} // verus!
