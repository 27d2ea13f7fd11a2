use vstd::prelude::*;

use crate::store::{copy_ids, records_of, Config, ContainedUser, Record, Status};

verus! {

/// A role a member holds, as the chat platform reports it.
pub struct RoleInfo {
    pub id: u64,
    pub name: String,
}

/// The identifiers of the roles whose name starts with `prefix`, in the order
/// they were listed.
pub open spec fn stripped(roles: Seq<RoleInfo>, prefix: Seq<char>) -> Seq<u64>
    decreases roles.len(),
{
    if roles.len() == 0 {
        Seq::empty()
    } else {
        let rest = stripped(roles.drop_last(), prefix);
        if prefix.is_prefix_of(roles.last().name@) {
            rest.push(roles.last().id)
        } else {
            rest
        }
    }
}

/// The identifiers of all listed roles.
pub open spec fn role_ids(roles: Seq<RoleInfo>) -> Set<u64> {
    roles.map_values(|r: RoleInfo| r.id).to_set()
}

/// Relies on `str::starts_with`: true exactly when `prefix` is a prefix of `name`.
#[verifier::external_body]
fn has_prefix(name: &str, prefix: &str) -> (r: bool)
    ensures
        r == prefix@.is_prefix_of(name@),
{
    name.starts_with(prefix)
}

/// The roles that containment takes away: those whose name starts with `prefix`.
pub fn roles_to_strip(roles: &[RoleInfo], prefix: &str) -> (r: Vec<u64>)
    ensures
        r@ == stripped(roles@, prefix@),
{
    let mut r: Vec<u64> = Vec::new();
    let mut i: usize = 0;
    while i < roles.len()
        invariant
            i <= roles@.len(),
            r@ == stripped(roles@.subrange(0, i as int), prefix@),
        decreases roles@.len() - i,
    {
        let ghost before = roles@.subrange(0, i as int);
        if has_prefix(roles[i].name.as_str(), prefix) {
            r.push(roles[i].id);
        }
        i = i + 1;
        assert(roles@.subrange(0, i as int).drop_last() =~= before);
    }
    assert(roles@.subrange(0, roles@.len() as int) =~= roles@);
    r
}

/// No two records are about the same member.
pub open spec fn unique_subjects(recs: Seq<Record>) -> bool {
    forall|i: int, j: int|
        0 <= i < recs.len() && 0 <= j < recs.len() && i != j ==> recs[i].user_id != recs[j].user_id
}

/// Some record is about `user_id`.
pub open spec fn holds(recs: Seq<Record>, user_id: u64) -> bool {
    exists|i: int| 0 <= i < recs.len() && recs[i].user_id == user_id
}

/// Where the record about `user_id` stands.
pub open spec fn index_of(recs: Seq<Record>, user_id: u64) -> int {
    choose|i: int| 0 <= i < recs.len() && recs[i].user_id == user_id
}

/// The record about `user_id`, if there is one.
pub open spec fn record_of(recs: Seq<Record>, user_id: u64) -> Option<Record> {
    if holds(recs, user_id) {
        Some(recs[index_of(recs, user_id)])
    } else {
        None
    }
}

/// The records with the one about `user_id` taken out.
pub open spec fn without(recs: Seq<Record>, user_id: u64) -> Seq<Record> {
    if holds(recs, user_id) {
        recs.remove(index_of(recs, user_id))
    } else {
        recs
    }
}

/// What loading a persisted list of records gives: the same records when no
/// member appears twice, nothing otherwise.
pub open spec fn loaded(recs: Seq<Record>) -> Option<Seq<Record>> {
    if unique_subjects(recs) {
        Some(recs)
    } else {
        None
    }
}

pub open spec fn opt_record(u: Option<ContainedUser>) -> Option<Record> {
    match u {
        Some(u) => Some(u@),
        None => None,
    }
}

proof fn lemma_push_set(s: Seq<u64>, x: u64)
    ensures
        s.push(x).to_set() == s.to_set().insert(x),
{
    let t = s.push(x);
    assert forall|y: u64| t.contains(y) <==> s.contains(y) || y == x by {
        if t.contains(y) && y != x {
            let k = choose|k: int| 0 <= k < t.len() && t[k] == y;
            assert(s[k] == y);
        }
        if s.contains(y) {
            let k = choose|k: int| 0 <= k < s.len() && s[k] == y;
            assert(t[k] == y);
        }
        if y == x {
            assert(t[s.len() as int] == y);
        }
    }
    assert(t.to_set() =~= s.to_set().insert(x));
}

proof fn lemma_remove_set(s: Seq<u64>, idx: int)
    requires
        s.no_duplicates(),
        0 <= idx < s.len(),
    ensures
        s.remove(idx).to_set() == s.to_set().remove(s[idx]),
        s.remove(idx).no_duplicates(),
        forall|y: u64| s.remove(idx).contains(y) ==> s.contains(y),
{
    let t = s.remove(idx);
    assert forall|y: u64| t.contains(y) <==> s.contains(y) && y != s[idx] by {
        if t.contains(y) {
            let k = choose|k: int| 0 <= k < t.len() && t[k] == y;
            if k < idx {
                assert(s[k] == y);
            } else {
                assert(s[k + 1] == y);
            }
        }
        if s.contains(y) && y != s[idx] {
            let k = choose|k: int| 0 <= k < s.len() && s[k] == y;
            if k < idx {
                assert(t[k] == y);
            } else {
                assert(t[k - 1] == y);
            }
        }
    }
    assert(t.to_set() =~= s.to_set().remove(s[idx]));
    assert forall|i: int, j: int| 0 <= i < t.len() && 0 <= j < t.len() && i != j implies t[i]
        != t[j] by {
        let a = if i < idx { i } else { i + 1 };
        let b = if j < idx { j } else { j + 1 };
        assert(t[i] == s[a] && t[j] == s[b]);
    }
}

pub(crate) proof fn lemma_push_record(recs: Seq<Record>, rec: Record)
    requires
        unique_subjects(recs),
        !holds(recs, rec.user_id),
    ensures
        unique_subjects(recs.push(rec)),
        forall|id: u64| holds(recs.push(rec), id) <==> holds(recs, id) || id == rec.user_id,
{
    let t = recs.push(rec);
    assert forall|id: u64| holds(t, id) <==> holds(recs, id) || id == rec.user_id by {
        if holds(t, id) && id != rec.user_id {
            let k = choose|k: int| 0 <= k < t.len() && t[k].user_id == id;
            assert(recs[k].user_id == id);
        }
        if holds(recs, id) {
            let k = choose|k: int| 0 <= k < recs.len() && recs[k].user_id == id;
            assert(t[k].user_id == id);
        }
        if id == rec.user_id {
            assert(t[recs.len() as int].user_id == id);
        }
    }
    assert forall|i: int, j: int| 0 <= i < t.len() && 0 <= j < t.len() && i != j implies t[i].user_id
        != t[j].user_id by {
        if i < recs.len() && j < recs.len() {
            assert(t[i] == recs[i] && t[j] == recs[j]);
        } else if i < recs.len() {
            assert(t[i] == recs[i]);
        } else if j < recs.len() {
            assert(t[j] == recs[j]);
        }
    }
}

pub(crate) proof fn lemma_remove_record(recs: Seq<Record>, idx: int)
    requires
        unique_subjects(recs),
        0 <= idx < recs.len(),
    ensures
        index_of(recs, recs[idx].user_id) == idx,
        without(recs, recs[idx].user_id) == recs.remove(idx),
        unique_subjects(recs.remove(idx)),
        forall|id: u64| holds(recs.remove(idx), id) ==> holds(recs, id),
{
    let id0 = recs[idx].user_id;
    assert(holds(recs, id0));
    let c = index_of(recs, id0);
    assert(0 <= c < recs.len() && recs[c].user_id == id0);
    let t = recs.remove(idx);
    assert forall|id: u64| holds(t, id) implies holds(recs, id) by {
        let k = choose|k: int| 0 <= k < t.len() && t[k].user_id == id;
        if k < idx {
            assert(recs[k].user_id == id);
        } else {
            assert(recs[k + 1].user_id == id);
        }
    }
    assert forall|i: int, j: int| 0 <= i < t.len() && 0 <= j < t.len() && i != j implies t[i].user_id
        != t[j].user_id by {
        let a = if i < idx { i } else { i + 1 };
        let b = if j < idx { j } else { j + 1 };
        assert(t[i] == recs[a] && t[j] == recs[b]);
    }
}

/// What the caller must do on the chat platform to contain a member: take
/// each of `remove_roles` away, in order, then grant `add_role`.
pub struct ContainPlan {
    pub user_id: u64,
    pub name: String,
    pub remove_roles: Vec<u64>,
    pub add_role: u64,
}

/// Why a containment did not happen or was not fully recorded.
pub enum ContainError {
    /// The member is contained already, or being contained.
    AlreadyContained,
    /// The platform refused to take away or grant this role.
    RoleOperationFailed { role_id: u64 },
    /// The roles were changed and recorded, but the record could not be saved.
    PersistFailed { cause: String },
}

/// What the caller must do on the chat platform to release a member: grant
/// each of `restore_roles`, in order, then take `remove_role` away.
pub struct ReleasePlan {
    pub user_id: u64,
    pub restore_roles: Vec<u64>,
    pub remove_role: u64,
}

/// Why a release did not happen or was not fully recorded.
pub enum ReleaseError {
    /// The member is not contained.
    NotContained,
    /// The platform refused these role operations; the record is kept.
    RoleOperationFailed { role_ids: Vec<u64> },
    /// The roles were restored and the record dropped, but this could not be saved.
    PersistFailed { cause: String },
}

/// Why a persisted list of records was not taken.
pub enum StoreError {
    /// Two records are about this member.
    StoreCorrupt { user_id: u64 },
}

/// The contained members, in the order they were contained, and the members
/// whose containment has begun and not yet finished.
pub struct Registry {
    records: Vec<ContainedUser>,
    reserved: Vec<u64>,
}

impl View for Registry {
    type V = Seq<Record>;

    closed spec fn view(&self) -> Seq<Record> {
        records_of(self.records@)
    }
}

impl Registry {
    /// The members whose containment is in progress.
    pub closed spec fn in_progress(&self) -> Set<u64> {
        self.reserved@.to_set()
    }

    pub closed spec fn wf(&self) -> bool {
        &&& unique_subjects(self@)
        &&& self.reserved@.no_duplicates()
        &&& forall|k: int| 0 <= k < self.reserved@.len() ==> !holds(self@, #[trigger] self.reserved@[k])
    }

    /// A well-formed registry never holds two records about one member.
    pub proof fn lemma_wf_unique(&self)
        requires
            self.wf(),
        ensures
            unique_subjects(self@),
    {
    }

    /// An empty registry.
    pub fn new() -> (r: Registry)
        ensures
            r.wf(),
            r@ == Seq::<Record>::empty(),
            r.in_progress() == Set::<u64>::empty(),
    {
        let r = Registry { records: Vec::new(), reserved: Vec::new() };
        assert(r@ =~= Seq::<Record>::empty());
        assert(r.in_progress() =~= Set::<u64>::empty());
        r
    }

    /// Whether a record about `user_id` is kept.
    pub fn is_contained(&self, user_id: u64) -> (r: bool)
        ensures
            r == holds(self@, user_id),
    {
        let mut i: usize = 0;
        while i < self.records.len()
            invariant
                i <= self.records@.len(),
                forall|k: int| 0 <= k < i ==> self@[k].user_id != user_id,
            decreases self.records@.len() - i,
        {
            if self.records[i].user_id == user_id {
                assert(self@[i as int].user_id == user_id);
                return true;
            }
            i = i + 1;
        }
        false
    }

    /// Whether the containment of `user_id` has begun and not finished.
    pub fn is_reserved(&self, user_id: u64) -> (r: bool)
        ensures
            r == self.in_progress().contains(user_id),
    {
        let mut i: usize = 0;
        while i < self.reserved.len()
            invariant
                i <= self.reserved@.len(),
                forall|k: int| 0 <= k < i ==> self.reserved@[k] != user_id,
            decreases self.reserved@.len() - i,
        {
            if self.reserved[i] == user_id {
                assert(self.reserved@[i as int] == user_id);
                return true;
            }
            i = i + 1;
        }
        false
    }

    /// The record about `user_id`, if the member is contained.
    pub fn query(&self, user_id: u64) -> (r: Option<ContainedUser>)
        requires
            self.wf(),
        ensures
            opt_record(r) == record_of(self@, user_id),
    {
        let mut i: usize = 0;
        while i < self.records.len()
            invariant
                self.wf(),
                i <= self.records@.len(),
                forall|k: int| 0 <= k < i ==> self@[k].user_id != user_id,
            decreases self.records@.len() - i,
        {
            if self.records[i].user_id == user_id {
                assert(self@[i as int].user_id == user_id);
                assert(holds(self@, user_id));
                let ghost c = index_of(self@, user_id);
                assert(0 <= c < self@.len() && self@[c].user_id == user_id);
                assert(c == i as int);
                let u = self.records[i].duplicate();
                assert(u@ == self@[i as int]);
                return Some(u);
            }
            i = i + 1;
        }
        None
    }

    /// Every contained member's record, in the order they were contained.
    pub fn list_contained(&self) -> (r: Vec<ContainedUser>)
        ensures
            records_of(r@) == self@,
    {
        let mut r: Vec<ContainedUser> = Vec::new();
        let mut i: usize = 0;
        while i < self.records.len()
            invariant
                i <= self.records@.len(),
                records_of(r@) == self@.subrange(0, i as int),
            decreases self.records@.len() - i,
        {
            let ghost prev = r@;
            let u = self.records[i].duplicate();
            assert(u@ == self@[i as int]);
            r.push(u);
            assert(r@ == prev.push(u));
            i = i + 1;
            assert(records_of(r@) =~= records_of(prev).push(u@));
            assert(records_of(r@) =~= self@.subrange(0, i as int));
        }
        assert(self@.subrange(0, i as int) =~= self@);
        r
    }

    /// The persisted form of the registry.
    pub fn to_status(&self) -> (s: Status)
        ensures
            s@ == self@,
    {
        Status { to_restore: self.list_contained() }
    }

    /// A registry holding the persisted records, refused when a member appears
    /// twice.
    pub fn from_status(status: Status) -> (r: Result<Registry, StoreError>)
        ensures
            r is Ok <==> loaded(status@) is Some,
            r matches Ok(reg) ==> reg.wf() && Some(reg@) == loaded(status@) && reg.in_progress()
                == Set::<u64>::empty(),
            r matches Err(StoreError::StoreCorrupt { user_id }) ==> exists|i: int, j: int|
                0 <= i < j < status@.len() && status@[i].user_id == user_id && status@[j].user_id
                    == user_id,
    {
        let mut i: usize = 0;
        while i < status.to_restore.len()
            invariant
                i <= status@.len(),
                unique_subjects(status@.subrange(0, i as int)),
            decreases status@.len() - i,
        {
            let mut j: usize = 0;
            while j < i
                invariant
                    i < status@.len(),
                    j <= i,
                    forall|k: int| 0 <= k < j ==> status@[k].user_id != status@[i as int].user_id,
                decreases i - j,
            {
                if status.to_restore[j].user_id == status.to_restore[i].user_id {
                    let user_id = status.to_restore[i].user_id;
                    assert(status@[j as int].user_id == user_id && status@[i as int].user_id
                        == user_id);
                    assert(!unique_subjects(status@));
                    return Err(StoreError::StoreCorrupt { user_id });
                }
                j = j + 1;
            }
            i = i + 1;
            assert(unique_subjects(status@.subrange(0, i as int)));
        }
        assert(status@.subrange(0, i as int) =~= status@);
        let r = Registry { records: status.to_restore, reserved: Vec::new() };
        assert(r.in_progress() =~= Set::<u64>::empty());
        Ok(r)
    }

    /// Reserves `user_id` for containment and says which roles to take away,
    /// or refuses when the member is contained or being contained already.
    pub fn begin_contain(&mut self, config: &Config, user_id: u64, name: &str, roles: &[RoleInfo]) -> (r:
        Result<ContainPlan, ContainError>)
        requires
            old(self).wf(),
        ensures
            final(self).wf(),
            final(self)@ == old(self)@,
            r is Err <==> holds(old(self)@, user_id) || old(self).in_progress().contains(user_id),
            r is Err ==> {
                &&& r matches Err(ContainError::AlreadyContained)
                &&& final(self).in_progress() == old(self).in_progress()
            },
            r matches Ok(plan) ==> {
                &&& plan.user_id == user_id
                &&& plan.name@ == name@
                &&& plan.remove_roles@ == stripped(roles@, config.role_prefix_to_remove@)
                &&& plan.add_role == config.role_to_add
                &&& final(self).in_progress() == old(self).in_progress().insert(user_id)
            },
    {
        if self.is_contained(user_id) || self.is_reserved(user_id) {
            return Err(ContainError::AlreadyContained);
        }
        let remove_roles = roles_to_strip(roles, config.role_prefix_to_remove.as_str());
        proof {
            lemma_push_set(self.reserved@, user_id);
        }
        self.reserved.push(user_id);
        assert forall|k: int| 0 <= k < self.reserved@.len() implies !holds(
            self@,
            #[trigger] self.reserved@[k],
        ) by {
            if k < self.reserved@.len() - 1 {
                assert(self.reserved@[k] == old(self).reserved@[k]);
            }
        }
        assert forall|i: int, j: int|
            0 <= i < self.reserved@.len() && 0 <= j < self.reserved@.len() && i != j implies self.reserved@[i]
            != self.reserved@[j] by {
            let n = self.reserved@.len() - 1;
            if i < n && j < n {
                assert(self.reserved@[i] == old(self).reserved@[i]);
                assert(self.reserved@[j] == old(self).reserved@[j]);
            } else if i < n {
                assert(old(self).reserved@.contains(self.reserved@[i]));
            } else if j < n {
                assert(old(self).reserved@.contains(self.reserved@[j]));
            }
        }
        Ok(ContainPlan { user_id, name: name.to_owned(), remove_roles, add_role: config.role_to_add })
    }

    /// Ends a containment begun with `begin_contain`. With no failed role the
    /// member's record is added; with one, nothing is recorded and the error
    /// names that role. Either way the reservation is dropped.
    pub fn finish_contain(&mut self, plan: ContainPlan, failed_role: Option<u64>) -> (r: Result<
        (),
        ContainError,
    >)
        requires
            old(self).wf(),
            old(self).in_progress().contains(plan.user_id),
        ensures
            final(self).wf(),
            final(self).in_progress() == old(self).in_progress().remove(plan.user_id),
            failed_role is None ==> r is Ok && final(self)@ == old(self)@.push(
                Record { user_id: plan.user_id, name: plan.name@, roles: plan.remove_roles@ },
            ),
            failed_role matches Some(id) ==> {
                &&& final(self)@ == old(self)@
                &&& r matches Err(ContainError::RoleOperationFailed { role_id }) && role_id == id
            },
    {
        let mut k: usize = 0;
        while k < self.reserved.len() && self.reserved[k] != plan.user_id
            invariant
                k <= self.reserved@.len(),
                self.reserved@.contains(plan.user_id),
                forall|j: int| 0 <= j < k ==> self.reserved@[j] != plan.user_id,
            decreases self.reserved@.len() - k,
        {
            k = k + 1;
        }
        if k == self.reserved.len() {
            let ghost w = choose|w: int| 0 <= w < self.reserved@.len() && self.reserved@[w] == plan.user_id;
            assert(self.reserved@[w] == plan.user_id);
        }
        proof {
            lemma_remove_set(self.reserved@, k as int);
        }
        self.reserved.remove(k);
        match failed_role {
            Some(role_id) => {
                assert forall|j: int| 0 <= j < self.reserved@.len() implies !holds(
                    self@,
                    #[trigger] self.reserved@[j],
                ) by {
                    assert(self.reserved@.contains(self.reserved@[j]));
                    assert(old(self).reserved@.contains(self.reserved@[j]));
                }
                Err(ContainError::RoleOperationFailed { role_id })
            },
            None => {
                let ghost before = self@;
                let u = ContainedUser {
                    user_id: plan.user_id,
                    name: plan.name,
                    role_ids_to_restore: plan.remove_roles,
                };
                proof {
                    lemma_push_record(before, u@);
                }
                self.records.push(u);
                assert(self@ =~= before.push(u@));
                assert forall|j: int| 0 <= j < self.reserved@.len() implies !holds(
                    self@,
                    #[trigger] self.reserved@[j],
                ) by {
                    assert(self.reserved@.contains(self.reserved@[j]));
                    assert(old(self).reserved@.contains(self.reserved@[j]));
                }
                Ok(())
            },
        }
    }

    /// Says which roles to give back to a contained member, or refuses when
    /// the member is not contained.
    pub fn begin_release(&self, config: &Config, user_id: u64) -> (r: Result<ReleasePlan, ReleaseError>)
        requires
            self.wf(),
        ensures
            r is Err <==> !holds(self@, user_id),
            r is Err ==> r matches Err(ReleaseError::NotContained),
            r matches Ok(plan) ==> {
                &&& plan.user_id == user_id
                &&& record_of(self@, user_id) matches Some(rec) && plan.restore_roles@ == rec.roles
                &&& plan.remove_role == config.role_to_add
            },
    {
        match self.query(user_id) {
            Some(u) => Ok(
                ReleasePlan {
                    user_id,
                    restore_roles: u.role_ids_to_restore,
                    remove_role: config.role_to_add,
                },
            ),
            None => Err(ReleaseError::NotContained),
        }
    }

    /// Ends a release. When every role operation succeeded the member's record
    /// is taken out and handed back; otherwise it is kept, so that the release
    /// can be tried again, and the error lists the roles that failed.
    pub fn finish_release(&mut self, user_id: u64, failed_roles: &[u64]) -> (r: Result<
        ContainedUser,
        ReleaseError,
    >)
        requires
            old(self).wf(),
        ensures
            final(self).wf(),
            final(self).in_progress() == old(self).in_progress(),
            !holds(old(self)@, user_id) ==> {
                &&& final(self)@ == old(self)@
                &&& r matches Err(ReleaseError::NotContained)
            },
            holds(old(self)@, user_id) && failed_roles@.len() > 0 ==> {
                &&& final(self)@ == old(self)@
                &&& r matches Err(ReleaseError::RoleOperationFailed { role_ids }) && role_ids@
                    == failed_roles@
            },
            holds(old(self)@, user_id) && failed_roles@.len() == 0 ==> {
                &&& final(self)@ == without(old(self)@, user_id)
                &&& r matches Ok(u) && record_of(old(self)@, user_id) == Some(u@)
            },
    {
        let mut k: usize = 0;
        while k < self.records.len() && self.records[k].user_id != user_id
            invariant
                k <= self.records@.len(),
                forall|j: int| 0 <= j < k ==> self@[j].user_id != user_id,
            decreases self.records@.len() - k,
        {
            k = k + 1;
        }
        if k == self.records.len() {
            return Err(ReleaseError::NotContained);
        }
        assert(self@[k as int].user_id == user_id);
        if failed_roles.len() > 0 {
            return Err(ReleaseError::RoleOperationFailed { role_ids: copy_ids(failed_roles) });
        }
        let ghost before = self@;
        proof {
            lemma_remove_record(before, k as int);
        }
        let u = self.records.remove(k);
        assert(self@ =~= before.remove(k as int));
        assert forall|j: int| 0 <= j < self.reserved@.len() implies !holds(
            self@,
            #[trigger] self.reserved@[j],
        ) by {
            assert(!holds(before, self.reserved@[j]));
        }
        Ok(u)
    }

    /// The registry a process starts with: the persisted records when they
    /// could be read and no member appears twice, an empty registry otherwise.
    pub fn startup(persisted: Option<Status>) -> (r: Registry)
        ensures
            r.wf(),
            r.in_progress() == Set::<u64>::empty(),
            r@ == match persisted {
                Some(s) => if unique_subjects(s@) {
                    s@
                } else {
                    Seq::<Record>::empty()
                },
                None => Seq::<Record>::empty(),
            },
    {
        match persisted {
            Some(s) => match Registry::from_status(s) {
                Ok(reg) => reg,
                Err(_) => Registry::new(),
            },
            None => Registry::new(),
        }
    }
}

} // verus!
