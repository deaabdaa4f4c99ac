use vstd::prelude::*;

use crate::car_nft::{
    all_parts_valid, covers_all_categories, last_pending_at, pending_for, CarNftContract, PendingSlot,
    SetEquippedState,
};
use crate::car_part::CarPartContract;
use crate::seq_util::{lemma_push_contains, lemma_without_contains};
use crate::types::{ContractError, PartData, PartType, SLOT_COUNT};

verus! {

/// Once a composite's mint saga is complete, a slot is marked occupied exactly
/// when it holds a nonzero id. Component 0 is a valid id that reads like an
/// empty slot, so a slot holding it is left out.
pub proof fn lemma_occupancy_matches_ids(c: &CarNftContract, car_id: u64, i: int)
    requires
        c.wf(),
        c.has_car(car_id),
        c.complete(car_id),
        0 <= i < SLOT_COUNT,
        !(c.car(car_id).slot_occupied@[i] && c.car(car_id).part_ids@[i] == 0),
    ensures
        c.car(car_id).slot_occupied@[i] == (c.car(car_id).part_ids@[i] != 0),
{
    assert(c.cars@[car_id - 1].wf());
}

/// After `old_id` is replaced by `new_id` in slot `i` of a composite, the slot
/// holds `new_id` and stays occupied; once the component registry has applied
/// the two notifications in order, it reports `old_id` unattached and `new_id`
/// attached to the composite.
pub proof fn lemma_replace_reported(
    c0: &CarNftContract,
    c1: &CarNftContract,
    car_id: u64,
    old_id: u64,
    new_id: u64,
    i: int,
    r: Result<(SetEquippedState, SetEquippedState), ContractError>,
    reg_before: &CarPartContract,
    reg_between: &CarPartContract,
    reg_after: &CarPartContract,
)
    requires
        c0.wf(),
        c0.has_car(car_id),
        c0.car(car_id).holds_at(old_id, i),
        c1.part_replaced(c0, car_id, old_id, new_id, i, r),
        reg_before.wf(),
        old_id < reg_before.count(),
        new_id < reg_before.count(),
        old_id != new_id,
        r matches Ok((detach, attach)) && reg_between.attachment_set(reg_before, detach.part_id, detach.car_id)
            && reg_after.attachment_set(reg_between, attach.part_id, attach.car_id),
    ensures
        c1.car(car_id).part_ids@[i] == new_id,
        c1.car(car_id).slot_occupied@[i],
        reg_after.attached_to(old_id) == 0,
        reg_after.attached_to(new_id) == car_id,
{
}

/// A transfer of an unattached component between two owners takes it out of
/// all four index lists of the source owner and puts it in the matching lists
/// of the destination owner; attached lists are untouched.
pub proof fn lemma_transfer_moves_indices(
    before: &CarPartContract,
    after: &CarPartContract,
    from: Seq<char>,
    to: Seq<char>,
    id: u64,
)
    requires
        before.wf(),
        before.owns(from, id),
        before.attached_to(id) == 0,
        from != to,
        after.transferred(before, from, to, id),
    ensures
        !after.parts_of(from).contains(id),
        forall|t: PartType| !#[trigger] after.parts_of_type(from, t).contains(id),
        !after.attached_of(from).contains(id),
        !after.unattached_of(from).contains(id),
        after.parts_of(to).contains(id),
        after.parts_of_type(to, before.part_stats@[id as int].part_type).contains(id),
        !after.attached_of(to).contains(id),
        after.unattached_of(to).contains(id),
        after.part_owner@[id as int]@ == to,
{
    crate::car_part::lemma_component_listed_once(before, id);
    lemma_without_contains(before.parts_of(from), id, id);
    lemma_without_contains(before.unattached_of(from), id, id);
    lemma_push_contains(before.parts_of(to), id, id);
    lemma_push_contains(before.unattached_of(to), id, id);
    let t0 = before.part_stats@[id as int].part_type;
    lemma_push_contains(before.parts_of_type(to, t0), id, id);
    assert forall|t: PartType| !#[trigger] after.parts_of_type(from, t).contains(id) by {
        if t == t0 {
            lemma_without_contains(before.parts_of_type(from, t), id, id);
        } else {
            assert(after.parts_of_type(from, t) == before.parts_of_type(from, t));
            if before.has_entry(from) {
                assert(before.entry_wf(before.owners@[before.entry_pos(from)]));
            }
        }
    }
    if before.has_entry(to) {
        assert(before.entry_wf(before.owners@[before.entry_pos(to)]));
    }
    if before.has_entry(from) {
        assert(before.entry_wf(before.owners@[before.entry_pos(from)]));
    }
}

/// The records of `batch` each belong to the part of their token, and no two
/// carry the same token.
pub open spec fn batch_records(batch: Seq<PendingSlot>, parts: Seq<PartData>, car_id: u64) -> bool {
    &&& forall|j: int|
        0 <= j < batch.len() ==> 1 <= (#[trigger] batch[j]).token <= parts.len() && batch[j] == pending_for(
            parts[batch[j].token - 1],
            batch[j].token - 1,
            car_id,
        )
    &&& forall|j: int, k: int| 0 <= j < batch.len() && 0 <= k < batch.len() && j != k ==> (#[trigger] batch[j]).token
        != (#[trigger] batch[k]).token
}

/// Tokens of the records in `batch`.
pub open spec fn batch_has_token(batch: Seq<PendingSlot>, token: u64) -> bool {
    exists|j: int| 0 <= j < batch.len() && (#[trigger] batch[j]).token == token
}

proof fn lemma_last_in_batch(earlier: Seq<PendingSlot>, batch: Seq<PendingSlot>, token: u64, m: int)
    requires
        0 <= m < batch.len(),
        batch[m].token == token,
        forall|j: int| 0 <= j < batch.len() && j != m ==> (#[trigger] batch[j]).token != token,
    ensures
        last_pending_at(earlier + batch, token, earlier.len() + m),
        forall|p: int| #[trigger] last_pending_at(earlier + batch, token, p) ==> p == earlier.len() + m,
{
    let all = earlier + batch;
    assert(all[earlier.len() + m] == batch[m]);
    assert forall|q: int| earlier.len() + m < q < all.len() implies (#[trigger] all[q]).token != token by {
        assert(all[q] == batch[q - earlier.len()]);
    }
    assert forall|p: int| #[trigger] last_pending_at(all, token, p) implies p == earlier.len() + m by {
        if p < earlier.len() + m {
            assert(all[earlier.len() + m].token == token);
        }
    }
}

/// One reply of a batch: the record of its token leaves the batch and the
/// slot of its part's category receives the delivered id.
proof fn lemma_batch_reply(
    prev: &CarNftContract,
    next: &CarNftContract,
    earlier: Seq<PendingSlot>,
    batch: Seq<PendingSlot>,
    parts: Seq<PartData>,
    car_id: u64,
    token: u64,
    part_id: u64,
    r: Result<PendingSlot, ContractError>,
) -> (rest: Seq<PendingSlot>)
    requires
        prev.pending@ == earlier + batch,
        batch_records(batch, parts, car_id),
        batch_has_token(batch, token),
        prev.has_car(car_id),
        next.slot_filled(prev, token, part_id, r),
    ensures
        next.pending@ == earlier + rest,
        batch_records(rest, parts, car_id),
        forall|t: u64| #[trigger] batch_has_token(rest, t) <==> (batch_has_token(batch, t) && t != token),
        next.cars@.len() == prev.cars@.len(),
        next.car(car_id).part_ids@ == prev.car(car_id).part_ids@.update(
            parts[token - 1].part_type.slot_spec() as int,
            part_id,
        ),
        next.car(car_id).slot_occupied@ == prev.car(car_id).slot_occupied@.update(
            parts[token - 1].part_type.slot_spec() as int,
            true,
        ),
{
    let m = choose|j: int| 0 <= j < batch.len() && (#[trigger] batch[j]).token == token;
    assert forall|j: int| 0 <= j < batch.len() && j != m implies (#[trigger] batch[j]).token != token by {}
    lemma_last_in_batch(earlier, batch, token, m);
    let p = earlier.len() + m;
    assert(last_pending_at(prev.pending@, token, p));
    let rest = batch.remove(m);
    assert(prev.pending@.remove(p) =~= earlier + rest);
    assert(prev.pending@[p] == batch[m]);
    assert forall|j: int| 0 <= j < rest.len() implies 1 <= (#[trigger] rest[j]).token <= parts.len() && rest[j]
        == pending_for(parts[rest[j].token - 1], rest[j].token - 1, car_id) by {
        if j < m {
            assert(rest[j] == batch[j]);
        } else {
            assert(rest[j] == batch[j + 1]);
        }
    }
    assert forall|j: int, k: int| 0 <= j < rest.len() && 0 <= k < rest.len() && j != k implies (#[trigger] rest[j]).token
        != (#[trigger] rest[k]).token by {
        let jj = if j < m { j } else { j + 1 };
        let kk = if k < m { k } else { k + 1 };
        assert(rest[j] == batch[jj]);
        assert(rest[k] == batch[kk]);
    }
    assert forall|t: u64| #[trigger] batch_has_token(rest, t) <==> (batch_has_token(batch, t) && t != token) by {
        if batch_has_token(rest, t) {
            let j = choose|j: int| 0 <= j < rest.len() && (#[trigger] rest[j]).token == t;
            let jj = if j < m { j } else { j + 1 };
            assert(rest[j] == batch[jj]);
        }
        if batch_has_token(batch, t) && t != token {
            let j = choose|j: int| 0 <= j < batch.len() && (#[trigger] batch[j]).token == t;
            assert(j != m);
            let jj = if j < m { j } else { j - 1 };
            assert(rest[jj] == batch[j]);
        }
    }
    rest
}

/// At most three parts that cover the three categories are exactly three, of
/// pairwise distinct categories.
pub proof fn lemma_one_part_per_category(parts: Seq<PartData>)
    requires
        parts.len() <= SLOT_COUNT,
        covers_all_categories(parts),
    ensures
        parts.len() == 3,
        forall|a: int, b: int|
            0 <= a < 3 && 0 <= b < 3 && a != b ==> (#[trigger] parts[a]).part_type != (#[trigger] parts[b]).part_type,
{
    let e = choose|i: int| 0 <= i < parts.len() && (#[trigger] parts[i]).part_type == PartType::Engine;
    let t = choose|i: int| 0 <= i < parts.len() && (#[trigger] parts[i]).part_type == PartType::Transmission;
    let w = choose|i: int| 0 <= i < parts.len() && (#[trigger] parts[i]).part_type == PartType::Wheels;
    assert(parts.len() == 3);
}

/// Minting a composite whose parts cover all three categories issues one
/// mint call per category; once the replies to all three calls have landed,
/// in any order, the composite's saga is complete and each slot holds the id
/// delivered for the part of its category.
#[verifier::rlimit(60)]
pub proof fn lemma_mint_saga_fills_slots(
    c0: &CarNftContract,
    c1: &CarNftContract,
    c2: &CarNftContract,
    c3: &CarNftContract,
    c4: &CarNftContract,
    owner: String,
    image: String,
    parts: Seq<PartData>,
    tokens: Seq<u64>,
    ids: Seq<u64>,
    r1: Result<PendingSlot, ContractError>,
    r2: Result<PendingSlot, ContractError>,
    r3: Result<PendingSlot, ContractError>,
)
    requires
        c0.wf(),
        parts.len() <= SLOT_COUNT,
        all_parts_valid(parts),
        covers_all_categories(parts),
        c1.car_minted(c0, owner, image, parts),
        tokens.len() == 3,
        ids.len() == 3,
        forall|k: int| 0 <= k < 3 ==> 1 <= #[trigger] tokens[k] <= 3,
        tokens[0] != tokens[1] && tokens[0] != tokens[2] && tokens[1] != tokens[2],
        c2.slot_filled(c1, tokens[0], ids[0], r1),
        c3.slot_filled(c2, tokens[1], ids[1], r2),
        c4.slot_filled(c3, tokens[2], ids[2], r3),
    ensures
        parts.len() == 3,
        c4.complete(c0.next_id() as u64),
        c4.car(c0.next_id() as u64).slot_occupied@ == seq![true, true, true],
        forall|k: int|
            0 <= k < 3 ==> c4.car(c0.next_id() as u64).part_ids@[parts[tokens[k] - 1].part_type.slot_spec() as int]
                == #[trigger] ids[k],
{
    let id = c0.next_id() as u64;
    lemma_one_part_per_category(parts);
    let batch = Seq::new(parts.len(), |i: int| pending_for(parts[i], i, id));
    assert(batch_records(batch, parts, id));
    assert forall|tk: u64| 1 <= tk <= 3 implies #[trigger] batch_has_token(batch, tk) by {
        assert(batch[tk - 1].token == tk);
    }
    assert(c1.has_car(id));
    let b1 = lemma_batch_reply(c1, c2, c0.pending@, batch, parts, id, tokens[0], ids[0], r1);
    assert(batch_has_token(batch, tokens[1]));
    assert(c2.has_car(id));
    let b2 = lemma_batch_reply(c2, c3, c0.pending@, b1, parts, id, tokens[1], ids[1], r2);
    assert(batch_has_token(batch, tokens[2]));
    let b3 = lemma_batch_reply(c3, c4, c0.pending@, b2, parts, id, tokens[2], ids[2], r3);
    // nothing of the batch is left
    assert(b3.len() == 0) by {
        if b3.len() > 0 {
            let tk = b3[0].token;
            assert(batch_has_token(b3, tk));
        }
    }
    assert(c4.pending@ =~= c0.pending@);
    assert forall|p: int| 0 <= p < c4.pending@.len() implies (#[trigger] c4.pending@[p]).car_id != id by {
        assert(c0.has_car(c0.pending@[p].car_id));
    }
    let s0 = parts[tokens[0] - 1].part_type.slot_spec() as int;
    let s1 = parts[tokens[1] - 1].part_type.slot_spec() as int;
    let s2 = parts[tokens[2] - 1].part_type.slot_spec() as int;
    assert(s0 != s1 && s0 != s2 && s1 != s2);
    assert(c4.car(id).slot_occupied@ =~= seq![true, true, true]);
}

} // verus!
