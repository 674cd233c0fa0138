//! What holds of the key rename for every JSON value.

use vstd::prelude::*;
use crate::json_limits::MAX_DEPTH;
use crate::json::{
    crate_key, has_key, krate_key, lemma_keys_differ, lemma_same_keys,
    members_with_renamed_values, renamed_items,
    renamed_key, renamed_members, renamed_members_when, JsonView, MemberView,
};

verus! {

impl JsonView {
    /// Whether some object in the value, at any depth, has a member with
    /// the key `krate`.
    pub open spec fn mentions_krate(self) -> bool
        decreases self,
    {
        match self {
            JsonView::Array(items) => exists|i: int|
                0 <= i < items.len() && (#[trigger] items[i]).mentions_krate(),
            JsonView::Object(members) => has_key(members, krate_key()) || exists|i: int|
                0 <= i < members.len() && (#[trigger] members[i]).1.mentions_krate(),
            _ => false,
        }
    }

    /// Whether no object in the value, at any depth, has two members with
    /// the same key.
    pub open spec fn well_formed(self) -> bool
        decreases self,
    {
        match self {
            JsonView::Array(items) => forall|i: int|
                0 <= i < items.len() ==> (#[trigger] items[i]).well_formed(),
            JsonView::Object(members) => distinct_member_keys(members) && forall|i: int|
                0 <= i < members.len() ==> (#[trigger] members[i]).1.well_formed(),
            _ => true,
        }
    }
}

/// Whether no two members have the same key.
pub open spec fn distinct_member_keys(members: Seq<MemberView>) -> bool {
    forall|i: int, j: int|
        0 <= i < j < members.len() ==> (#[trigger] members[i]).0 != (#[trigger] members[j]).0
}

/// Where no member `crate` has to give way, the rename keeps every
/// member in its place: only a key `krate` changes.
pub proof fn lemma_members_keep_their_places(members: Seq<MemberView>, shadowed: bool)
    requires
        !(shadowed && has_key(members, crate_key())),
    ensures
        renamed_members_when(members, shadowed).len() == members.len(),
        forall|i: int|
            0 <= i < members.len() ==> #[trigger] renamed_members_when(members, shadowed)[i] == (
                renamed_key(members[i].0),
                members[i].1,
            ),
    decreases members.len(),
{
    if members.len() > 0 {
        let before = members.drop_last();
        assert(has_key(before, crate_key()) ==> has_key(members, crate_key())) by {
            if has_key(before, crate_key()) {
                let k = choose|k: int| 0 <= k < before.len() && (#[trigger] before[k]).0 == crate_key();
                assert(members[k].0 == crate_key());
            }
        }
        assert(members[members.len() - 1].0 == crate_key() ==> has_key(members, crate_key()));
        lemma_members_keep_their_places(before, shadowed);
    }
}

/// The rename of an array renames each element in its place, and the
/// rename of a value that is neither array nor object changes nothing.
pub proof fn lemma_rename_keeps_arrays_and_scalars(json: JsonView)
    ensures
        json matches JsonView::Array(items) ==> json.renamed() matches JsonView::Array(renamed)
            && renamed.len() == items.len() && forall|i: int|
            0 <= i < items.len() ==> #[trigger] renamed[i] == items[i].renamed(),
        !(json is Array) && !(json is Object) ==> json.renamed() == json,
{
}

/// The rename of an object in which `crate` and `krate` do not both
/// occur keeps every member in its place: a key `krate` becomes `crate`,
/// every other key stays, and each value is renamed in turn.
pub proof fn lemma_rename_keeps_members(members: Seq<MemberView>)
    requires
        !(has_key(members, krate_key()) && has_key(members, crate_key())),
    ensures
        JsonView::Object(members).renamed() matches JsonView::Object(renamed) && renamed.len()
            == members.len() && forall|i: int|
            0 <= i < members.len() ==> #[trigger] renamed[i] == (
                renamed_key(members[i].0),
                members[i].1.renamed(),
            ),
{
    let inner = members_with_renamed_values(members);
    lemma_same_keys(members);
    lemma_members_keep_their_places(inner, has_key(inner, krate_key()));
}

/// Whether a member outlives the rename: all do but a member `crate`
/// that gives way.
pub open spec fn outlives(member: MemberView, shadowed: bool) -> bool {
    !(shadowed && member.0 == crate_key())
}

/// Every member after the rename comes from a member before it that
/// outlives the rename, with its key renamed, and no member has the key
/// `krate` any more.
pub proof fn lemma_renamed_members_come_from(members: Seq<MemberView>, shadowed: bool, j: int)
    requires
        0 <= j < renamed_members_when(members, shadowed).len(),
    ensures
        exists|i: int|
            0 <= i < members.len() && outlives(#[trigger] members[i], shadowed)
                && renamed_members_when(members, shadowed)[j] == (
                renamed_key(members[i].0),
                members[i].1,
            ),
        renamed_members_when(members, shadowed)[j].0 != krate_key(),
    decreases members.len(),
{
    lemma_keys_differ();
    let before = members.drop_last();
    let last = members.last();
    let renamed_before = renamed_members_when(before, shadowed);
    if j < renamed_before.len() {
        lemma_renamed_members_come_from(before, shadowed, j);
        let i = choose|i: int|
            0 <= i < before.len() && outlives(#[trigger] before[i], shadowed) && renamed_before[j]
                == (renamed_key(before[i].0), before[i].1);
        assert(members[i] == before[i]);
    } else {
        assert(members[members.len() - 1] == last);
    }
}

/// Every member that outlives the rename is among the members after it,
/// with its key renamed.
pub proof fn lemma_outliving_members_stay(members: Seq<MemberView>, shadowed: bool, i: int)
    requires
        0 <= i < members.len(),
        outlives(members[i], shadowed),
    ensures
        exists|j: int|
            0 <= j < renamed_members_when(members, shadowed).len() && #[trigger] renamed_members_when(
                members,
                shadowed,
            )[j] == (renamed_key(members[i].0), members[i].1),
    decreases members.len(),
{
    let before = members.drop_last();
    let renamed_before = renamed_members_when(before, shadowed);
    let renamed = renamed_members_when(members, shadowed);
    if i < members.len() - 1 {
        lemma_outliving_members_stay(before, shadowed, i);
        let j = choose|j: int|
            0 <= j < renamed_before.len() && #[trigger] renamed_before[j] == (
                renamed_key(before[i].0),
                before[i].1,
            );
        assert(renamed[j] == renamed_before[j]);
    } else {
        assert(renamed[renamed_before.len() as int] == (renamed_key(members[i].0), members[i].1));
    }
}

/// Members with distinct keys have distinct keys after the rename.
pub proof fn lemma_renamed_members_are_distinct(members: Seq<MemberView>, shadowed: bool)
    requires
        distinct_member_keys(members),
        has_key(members, krate_key()) ==> shadowed,
    ensures
        distinct_member_keys(renamed_members_when(members, shadowed)),
    decreases members.len(),
{
    if members.len() > 0 {
        let before = members.drop_last();
        let last = members.last();
        let renamed_before = renamed_members_when(before, shadowed);
        let renamed = renamed_members_when(members, shadowed);
        assert(has_key(before, krate_key()) ==> has_key(members, krate_key())) by {
            if has_key(before, krate_key()) {
                let k = choose|k: int| 0 <= k < before.len() && (#[trigger] before[k]).0 == krate_key();
                assert(members[k].0 == krate_key());
            }
        }
        assert(distinct_member_keys(before)) by {
            assert forall|a: int, b: int| 0 <= a < b < before.len() implies (#[trigger] before[a]).0
                != (#[trigger] before[b]).0 by {
                assert(members[a].0 != members[b].0);
            }
        }
        lemma_renamed_members_are_distinct(before, shadowed);
        if outlives(last, shadowed) {
            assert forall|a: int| 0 <= a < renamed_before.len() implies (#[trigger] renamed_before[a]).0
                != renamed_key(last.0) by {
                lemma_renamed_members_come_from(before, shadowed, a);
                let i = choose|i: int|
                    0 <= i < before.len() && outlives(#[trigger] before[i], shadowed)
                        && renamed_before[a] == (renamed_key(before[i].0), before[i].1);
                assert(members[i].0 != members[members.len() - 1].0);
                if before[i].0 == krate_key() {
                    assert(members[i].0 == krate_key());
                }
                if last.0 == krate_key() {
                    assert(members[members.len() - 1].0 == krate_key());
                }
            }
            assert forall|a: int, b: int| 0 <= a < b < renamed.len() implies (#[trigger] renamed[a]).0
                != (#[trigger] renamed[b]).0 by {
                if b < renamed_before.len() {
                    assert(renamed_before[a].0 != renamed_before[b].0);
                } else {
                    assert(renamed[a] == renamed_before[a]);
                }
            }
        }
    }
}

/// The rename of an object, member by member. Every member of the
/// result comes from a member of the object: its key is that member's
/// key, with `krate` turned into `crate`, and its value is that member's
/// value, renamed in turn. Every member of the object has a member in
/// the result that comes from it, but for a member `crate` in an object
/// that has a member `krate` too.
pub proof fn lemma_rename_of_object(members: Seq<MemberView>)
    ensures
        JsonView::Object(members).renamed() is Object,
        forall|j: int|
            #![trigger JsonView::Object(members).renamed()->Object_0[j]]
            0 <= j < JsonView::Object(members).renamed()->Object_0.len() ==> exists|i: int|
                #![trigger members[i]]
                0 <= i < members.len() && outlives(members[i], has_key(members, krate_key()))
                    && JsonView::Object(members).renamed()->Object_0[j] == (
                    renamed_key(members[i].0),
                    members[i].1.renamed(),
                ),
        forall|i: int|
            #![trigger members[i]]
            0 <= i < members.len() && outlives(members[i], has_key(members, krate_key()))
                ==> exists|j: int|
                #![trigger JsonView::Object(members).renamed()->Object_0[j]]
                0 <= j < JsonView::Object(members).renamed()->Object_0.len() && JsonView::Object(
                    members,
                ).renamed()->Object_0[j] == (renamed_key(members[i].0), members[i].1.renamed()),
{
    let inner = members_with_renamed_values(members);
    let shadowed = has_key(members, krate_key());
    let renamed = renamed_members(inner);
    lemma_same_keys(members);
    assert(renamed == renamed_members_when(inner, shadowed));
    assert(JsonView::Object(members).renamed()->Object_0 == renamed);
    assert forall|j: int| #![trigger renamed[j]] 0 <= j < renamed.len() implies exists|i: int|
        #![trigger members[i]]
        0 <= i < members.len() && outlives(members[i], shadowed) && renamed[j] == (
            renamed_key(members[i].0),
            members[i].1.renamed(),
        ) by {
        lemma_renamed_members_come_from(inner, shadowed, j);
        let i = choose|i: int|
            0 <= i < inner.len() && outlives(#[trigger] inner[i], shadowed) && renamed[j] == (
                renamed_key(inner[i].0),
                inner[i].1,
            );
        assert(outlives(members[i], shadowed));
    }
    assert forall|i: int|
        #![trigger members[i]]
        0 <= i < members.len() && outlives(members[i], shadowed) implies exists|j: int|
        #![trigger renamed[j]]
        0 <= j < renamed.len() && renamed[j] == (renamed_key(members[i].0), members[i].1.renamed()) by {
        assert(outlives(inner[i], shadowed));
        lemma_outliving_members_stay(inner, shadowed, i);
    }
}

/// A value in which no object has a key twice is such a value after the
/// rename too.
pub proof fn lemma_renamed_is_well_formed(json: JsonView)
    requires
        json.well_formed(),
    ensures
        json.renamed().well_formed(),
    decreases json,
{
    match json {
        JsonView::Array(items) => {
            let renamed = renamed_items(items);
            assert forall|i: int| 0 <= i < renamed.len() implies (#[trigger] renamed[i]).well_formed() by {
                lemma_renamed_is_well_formed(items[i]);
            }
        },
        JsonView::Object(members) => {
            let inner = members_with_renamed_values(members);
            let shadowed = has_key(inner, krate_key());
            let renamed = renamed_members(inner);
            assert(distinct_member_keys(inner)) by {
                assert forall|a: int, b: int| 0 <= a < b < inner.len() implies (#[trigger] inner[a]).0
                    != (#[trigger] inner[b]).0 by {
                    assert(members[a].0 != members[b].0);
                }
            }
            lemma_renamed_members_are_distinct(inner, shadowed);
            assert forall|j: int| 0 <= j < renamed.len() implies (#[trigger] renamed[j]).1.well_formed() by {
                lemma_renamed_members_come_from(inner, shadowed, j);
                let i = choose|i: int|
                    0 <= i < inner.len() && outlives(#[trigger] inner[i], shadowed) && renamed[j]
                        == (renamed_key(inner[i].0), inner[i].1);
                assert(members[i].1.well_formed());
                lemma_renamed_is_well_formed(members[i].1);
            }
        },
        _ => {},
    }
}

/// After the rename no object, at any depth, has a member `krate`.
pub proof fn lemma_renamed_mentions_no_krate(json: JsonView)
    ensures
        !json.renamed().mentions_krate(),
    decreases json,
{
    match json {
        JsonView::Array(items) => {
            let renamed = renamed_items(items);
            assert forall|i: int| 0 <= i < renamed.len() implies !(#[trigger] renamed[i]).mentions_krate() by {
                lemma_renamed_mentions_no_krate(items[i]);
            }
        },
        JsonView::Object(members) => {
            let inner = members_with_renamed_values(members);
            let renamed = renamed_members(inner);
            let shadowed = has_key(inner, krate_key());
            assert forall|j: int| 0 <= j < renamed.len() implies (#[trigger] renamed[j]).0
                != krate_key() && !renamed[j].1.mentions_krate() by {
                lemma_renamed_members_come_from(inner, shadowed, j);
                let i = choose|i: int|
                    0 <= i < inner.len() && outlives(#[trigger] inner[i], shadowed) && renamed[j]
                        == (renamed_key(inner[i].0), inner[i].1);
                lemma_renamed_mentions_no_krate(members[i].1);
            }
        },
        _ => {},
    }
}

/// A value in which no object has a member `krate` is left as it is.
pub proof fn lemma_rename_without_krate_changes_nothing(json: JsonView)
    requires
        !json.mentions_krate(),
    ensures
        json.renamed() == json,
    decreases json,
{
    match json {
        JsonView::Array(items) => {
            let renamed = renamed_items(items);
            assert forall|i: int| 0 <= i < items.len() implies renamed[i] == items[i] by {
                lemma_rename_without_krate_changes_nothing(items[i]);
            }
            assert(renamed =~= items);
        },
        JsonView::Object(members) => {
            let inner = members_with_renamed_values(members);
            assert forall|i: int| 0 <= i < members.len() implies inner[i] == members[i] by {
                lemma_rename_without_krate_changes_nothing(members[i].1);
            }
            assert(inner =~= members);
            lemma_members_keep_their_places(members, false);
            assert forall|i: int| 0 <= i < members.len() implies renamed_key(members[i].0)
                == members[i].0 by {}
            assert(renamed_members(members) =~= members);
        },
        _ => {},
    }
}

/// Renaming twice gives what renaming once gives.
pub proof fn lemma_rename_twice(json: JsonView)
    ensures
        json.renamed().renamed() == json.renamed(),
{
    lemma_renamed_mentions_no_krate(json);
    lemma_rename_without_krate_changes_nothing(json.renamed());
}

/// The rename changes no real number and makes nothing deeper.
pub proof fn lemma_renamed_fits(json: JsonView, depth: nat)
    requires
        json.fits(depth),
    ensures
        json.renamed().fits(depth),
    decreases json,
{
    match json {
        JsonView::Array(items) => {
            let renamed = renamed_items(items);
            assert forall|i: int| 0 <= i < renamed.len() implies (#[trigger] renamed[i]).fits(
                (depth - 1) as nat,
            ) by {
                lemma_renamed_fits(items[i], (depth - 1) as nat);
            }
        },
        JsonView::Object(members) => {
            let inner = members_with_renamed_values(members);
            let shadowed = has_key(inner, krate_key());
            let renamed = renamed_members(inner);
            assert forall|j: int| 0 <= j < renamed.len() implies (#[trigger] renamed[j]).1.fits(
                (depth - 1) as nat,
            ) by {
                lemma_renamed_members_come_from(inner, shadowed, j);
                let i = choose|i: int|
                    0 <= i < inner.len() && outlives(#[trigger] inner[i], shadowed) && renamed[j]
                        == (renamed_key(inner[i].0), inner[i].1);
                assert(members[i].1.fits((depth - 1) as nat));
                lemma_renamed_fits(members[i].1, (depth - 1) as nat);
            }
        },
        _ => {},
    }
}

/// A value that can be handed to the printer is such a value after the
/// rename too.
pub proof fn lemma_renamed_is_printable(json: JsonView)
    requires
        json.printable(),
    ensures
        json.renamed().printable(),
{
    lemma_renamed_fits(json, MAX_DEPTH as nat);
}

} // verus!
