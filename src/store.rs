use vstd::prelude::*;

verus! {

/// Settings read once at startup; never changed while the process runs.
pub struct Config {
    pub bot_token: String,
    pub role_to_add: u64,
    pub role_prefix_to_remove: String,
}

/// One contained member, with the roles that were taken from them.
pub struct ContainedUser {
    pub user_id: u64,
    pub name: String,
    pub role_ids_to_restore: Vec<u64>,
}

/// The mathematical value of a `ContainedUser`.
pub struct Record {
    pub user_id: u64,
    pub name: Seq<char>,
    pub roles: Seq<u64>,
}

impl View for ContainedUser {
    type V = Record;

    open spec fn view(&self) -> Record {
        Record { user_id: self.user_id, name: self.name@, roles: self.role_ids_to_restore@ }
    }
}

/// Copies a slice of identifiers into a fresh vector, keeping their order.
pub(crate) fn copy_ids(ids: &[u64]) -> (r: Vec<u64>)
    ensures
        r@ == ids@,
{
    let mut r: Vec<u64> = Vec::new();
    let mut i: usize = 0;
    while i < ids.len()
        invariant
            i <= ids@.len(),
            r@ == ids@.subrange(0, i as int),
        decreases ids@.len() - i,
    {
        r.push(ids[i]);
        i = i + 1;
        assert(r@ =~= ids@.subrange(0, i as int));
    }
    assert(r@ =~= ids@);
    r
}

impl ContainedUser {
    pub fn new(user_id: &u64, name: &str, role_ids_to_restore: &[u64]) -> (r: Self)
        ensures
            r@ == (Record { user_id: *user_id, name: name@, roles: role_ids_to_restore@ }),
    {
        ContainedUser {
            user_id: *user_id,
            name: name.to_owned(),
            role_ids_to_restore: copy_ids(role_ids_to_restore),
        }
    }

    /// A copy with the same identifier, name and roles.
    pub fn duplicate(&self) -> (r: Self)
        ensures
            r@ == self@,
    {
        ContainedUser {
            user_id: self.user_id,
            name: self.name.clone(),
            role_ids_to_restore: copy_ids(self.role_ids_to_restore.as_slice()),
        }
    }
}

/// The persisted form of the registry: the contained members in the order
/// they were contained.
pub struct Status {
    pub to_restore: Vec<ContainedUser>,
}

pub open spec fn records_of(users: Seq<ContainedUser>) -> Seq<Record> {
    users.map_values(|u: ContainedUser| u@)
}

impl View for Status {
    type V = Seq<Record>;

    open spec fn view(&self) -> Seq<Record> {
        records_of(self.to_restore@)
    }
}

impl Default for Status {
    fn default() -> (r: Self)
        ensures
            r@ == Seq::<Record>::empty(),
    {
        let r = Status { to_restore: Vec::new() };
        assert(r@ =~= Seq::<Record>::empty());
        r
    }
}

} // verus!
