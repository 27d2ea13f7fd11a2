use vstd::prelude::*;

use crate::registry::{
    holds, lemma_push_record, lemma_remove_record, loaded, record_of, role_ids, stripped,
    unique_subjects, without, Registry, RoleInfo,
};
use crate::store::Record;

verus! {

/// The roles a member holds after a containment plan ran in full: the
/// stripped roles are gone and the containment role is granted.
pub open spec fn after_contain(held: Set<u64>, removed: Seq<u64>, containment: u64) -> Set<u64> {
    held.difference(removed.to_set()).insert(containment)
}

/// The roles a member holds after a release plan ran in full: the restored
/// roles are granted again and the containment role is gone.
pub open spec fn after_release(held: Set<u64>, restored: Seq<u64>, containment: u64) -> Set<u64> {
    held.union(restored.to_set()).remove(containment)
}

proof fn lemma_stripped_held(roles: Seq<RoleInfo>, prefix: Seq<char>)
    ensures
        forall|x: u64| stripped(roles, prefix).contains(x) ==> role_ids(roles).contains(x),
    decreases roles.len(),
{
    if roles.len() > 0 {
        let init = roles.drop_last();
        lemma_stripped_held(init, prefix);
        assert forall|x: u64| stripped(roles, prefix).contains(x) implies role_ids(roles).contains(x) by {
            let ids = roles.map_values(|r: RoleInfo| r.id);
            if stripped(init, prefix).contains(x) {
                let init_ids = init.map_values(|r: RoleInfo| r.id);
                assert(role_ids(init).contains(x));
                assert(init_ids.to_set().contains(x));
                assert(init_ids.contains(x));
                let k = choose|k: int| 0 <= k < init_ids.len() && #[trigger] init_ids[k] == x;
                assert(ids[k] == x);
            } else {
                assert(x == roles.last().id);
                assert(ids[roles.len() - 1] == x);
            }
        }
    }
}

/// Right after a member who was not contained is contained, looking them up
/// gives their record, whose roles are exactly the listed roles that match
/// the strip prefix, in the order they were listed.
pub proof fn lemma_contain_then_query(
    recs: Seq<Record>,
    user_id: u64,
    name: Seq<char>,
    roles: Seq<RoleInfo>,
    prefix: Seq<char>,
)
    requires
        unique_subjects(recs),
        !holds(recs, user_id),
    ensures
        record_of(recs.push(Record { user_id, name, roles: stripped(roles, prefix) }), user_id)
            == Some(Record { user_id, name, roles: stripped(roles, prefix) }),
        unique_subjects(recs.push(Record { user_id, name, roles: stripped(roles, prefix) })),
{
    let rec = Record { user_id, name, roles: stripped(roles, prefix) };
    lemma_push_record(recs, rec);
    lemma_remove_record(recs.push(rec), recs.len() as int);
}

/// Containing a member and then releasing them, both in full, gives the
/// member back exactly the roles they held before, provided they did not hold
/// the containment role already.
pub proof fn lemma_contain_release_restores_roles(
    roles: Seq<RoleInfo>,
    prefix: Seq<char>,
    containment: u64,
)
    requires
        !role_ids(roles).contains(containment),
    ensures
        after_release(
            after_contain(role_ids(roles), stripped(roles, prefix), containment),
            stripped(roles, prefix),
            containment,
        ) == role_ids(roles),
{
    lemma_stripped_held(roles, prefix);
    let held = role_ids(roles);
    let s = stripped(roles, prefix);
    let back = after_release(after_contain(held, s, containment), s, containment);
    assert forall|x: u64| back.contains(x) <==> held.contains(x) by {
        if s.to_set().contains(x) {
            assert(s.contains(x));
        }
    }
    assert(back =~= held);
}

/// Containing a member who was not contained and then releasing them leaves
/// the registry's records as they were: in particular the member is no longer
/// listed.
pub proof fn lemma_contain_release_registry(recs: Seq<Record>, rec: Record)
    requires
        unique_subjects(recs),
        !holds(recs, rec.user_id),
    ensures
        without(recs.push(rec), rec.user_id) == recs,
        !holds(without(recs.push(rec), rec.user_id), rec.user_id),
{
    lemma_push_record(recs, rec);
    let t = recs.push(rec);
    lemma_remove_record(t, recs.len() as int);
    assert(t.remove(recs.len() as int) =~= recs);
}

/// Saving a registry and loading what was saved gives the same records, so a
/// second save writes the same records again.
pub proof fn lemma_persist_round_trip(reg: Registry)
    requires
        reg.wf(),
    ensures
        loaded(reg@) == Some(reg@),
{
    reg.lemma_wf_unique();
}

} // verus!
