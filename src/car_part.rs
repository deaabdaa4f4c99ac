use vstd::prelude::*;

use crate::seq_util::{
    lemma_push_contains, lemma_push_no_duplicates, lemma_without_contains, lemma_without_no_duplicates,
    remove_value, without,
};
use crate::types::{check_stats, stats_in_range, ContractError, PartStats, PartType};

verus! {

/// The index lists kept for one owner.
pub struct OwnerIndex {
    pub owner: String,
    /// Every component the owner holds, in order of arrival.
    pub parts: Vec<u64>,
    pub engines: Vec<u64>,
    pub transmissions: Vec<u64>,
    pub wheels: Vec<u64>,
    /// The owner's components that are attached to a composite.
    pub equipped: Vec<u64>,
    /// The owner's components that are not attached.
    pub unequipped: Vec<u64>,
}

impl OwnerIndex {
    /// The owner's components of category `t`.
    pub open spec fn by_type(&self, t: PartType) -> Seq<u64> {
        match t {
            PartType::Engine => self.engines@,
            PartType::Transmission => self.transmissions@,
            PartType::Wheels => self.wheels@,
        }
    }

    pub open spec fn lists_distinct(&self) -> bool {
        &&& self.parts@.no_duplicates()
        &&& self.engines@.no_duplicates()
        &&& self.transmissions@.no_duplicates()
        &&& self.wheels@.no_duplicates()
        &&& self.equipped@.no_duplicates()
        &&& self.unequipped@.no_duplicates()
    }

    fn empty(owner: String) -> (r: Self)
        ensures
            r.owner == owner,
            r.parts@.len() == 0,
            r.engines@.len() == 0,
            r.transmissions@.len() == 0,
            r.wheels@.len() == 0,
            r.equipped@.len() == 0,
            r.unequipped@.len() == 0,
    {
        OwnerIndex {
            owner,
            parts: Vec::new(),
            engines: Vec::new(),
            transmissions: Vec::new(),
            wheels: Vec::new(),
            equipped: Vec::new(),
            unequipped: Vec::new(),
        }
    }

    /// Appends `id` to the category list of `t`.
    fn push_typed(&mut self, t: PartType, id: u64)
        ensures
            final(self).owner == old(self).owner,
            final(self).parts == old(self).parts,
            final(self).equipped == old(self).equipped,
            final(self).unequipped == old(self).unequipped,
            forall|u: PartType|
                #![trigger final(self).by_type(u)]
                final(self).by_type(u) == if u == t {
                    old(self).by_type(u).push(id)
                } else {
                    old(self).by_type(u)
                },
    {
        match t {
            PartType::Engine => self.engines.push(id),
            PartType::Transmission => self.transmissions.push(id),
            PartType::Wheels => self.wheels.push(id),
        }
    }

    /// Removes `id` from the category list of `t`.
    fn remove_typed(&mut self, t: PartType, id: u64)
        ensures
            final(self).owner == old(self).owner,
            final(self).parts == old(self).parts,
            final(self).equipped == old(self).equipped,
            final(self).unequipped == old(self).unequipped,
            forall|u: PartType|
                #![trigger final(self).by_type(u)]
                final(self).by_type(u) == if u == t {
                    without(old(self).by_type(u), id)
                } else {
                    old(self).by_type(u)
                },
    {
        match t {
            PartType::Engine => remove_value(&mut self.engines, id),
            PartType::Transmission => remove_value(&mut self.transmissions, id),
            PartType::Wheels => remove_value(&mut self.wheels, id),
        }
    }
}

/// Configuration of a fresh component registry.
#[derive(Debug, PartialEq)]
pub struct InstantiateMsg {
    pub car_contract: String,
}

/// The calls the component registry accepts.
#[derive(Debug, PartialEq)]
pub enum ExecuteMsg {
    SetCarContract { address: String },
    Mint {
        to: String,
        part_type: PartType,
        stat1: u8,
        stat2: u8,
        stat3: u8,
        image_uri: String,
        car_id: u64,
    },
    SetEquippedState { part_id: u64, car_id: u64 },
    TransferPart { from: String, to: String, part_id: u64 },
}

/// The reads the component registry answers.
#[derive(Debug, PartialEq)]
pub enum QueryMsg {
    GetPartStats { part_id: u64 },
    GetPartType { part_id: u64 },
    IsEquipped { part_id: u64 },
    GetEquippedCar { part_id: u64 },
    GetOwnerParts { owner: String },
    GetOwnerPartsByType { owner: String, part_type: PartType },
    GetOwnerEquippedParts { owner: String },
    GetOwnerUnequippedParts { owner: String },
}

/// The answer to a `QueryMsg`.
#[derive(Debug, PartialEq)]
pub enum QueryResponse {
    PartStats(PartStats),
    PartType(PartType),
    IsEquipped(bool),
    EquippedCar(u64),
    PartIds(Vec<u64>),
}

/// What a successful mint reports.
#[derive(Debug, PartialEq)]
pub struct MintResponse {
    pub token_id: String,
    pub part_id: u64,
}

/// State of the component registry.
pub struct CarPartContract {
    /// The composite registry: the only caller allowed to mint, attach or transfer.
    pub car_contract: String,
    /// Record of each component; a component's id is its position.
    pub part_stats: Vec<PartStats>,
    /// The composite each component is attached to, 0 when unattached.
    pub equipped_in_car: Vec<u64>,
    /// The current owner of each component.
    pub part_owner: Vec<String>,
    /// One entry per owner that ever received a component.
    pub owners: Vec<OwnerIndex>,
}

impl CarPartContract {
    /// Number of components minted so far; also the next id.
    pub open spec fn count(&self) -> nat {
        self.part_stats@.len()
    }

    /// `o` is the current owner of component `id`.
    pub open spec fn owns(&self, o: Seq<char>, id: u64) -> bool {
        id < self.count() && self.part_owner@[id as int]@ == o
    }

    /// The composite component `id` is attached to, 0 when unattached or unknown.
    pub open spec fn attached_to(&self, id: u64) -> u64 {
        if id < self.count() {
            self.equipped_in_car@[id as int]
        } else {
            0
        }
    }

    pub open spec fn has_entry(&self, o: Seq<char>) -> bool {
        exists|k: int| 0 <= k < self.owners@.len() && self.owners@[k].owner@ == o
    }

    pub open spec fn entry_pos(&self, o: Seq<char>) -> int {
        choose|k: int| 0 <= k < self.owners@.len() && self.owners@[k].owner@ == o
    }

    /// Every component `o` holds, in order.
    pub open spec fn parts_of(&self, o: Seq<char>) -> Seq<u64> {
        if self.has_entry(o) {
            self.owners@[self.entry_pos(o)].parts@
        } else {
            Seq::empty()
        }
    }

    /// The components of category `t` that `o` holds, in order.
    pub open spec fn parts_of_type(&self, o: Seq<char>, t: PartType) -> Seq<u64> {
        if self.has_entry(o) {
            self.owners@[self.entry_pos(o)].by_type(t)
        } else {
            Seq::empty()
        }
    }

    /// The attached components that `o` holds, in order.
    pub open spec fn attached_of(&self, o: Seq<char>) -> Seq<u64> {
        if self.has_entry(o) {
            self.owners@[self.entry_pos(o)].equipped@
        } else {
            Seq::empty()
        }
    }

    /// The unattached components that `o` holds, in order.
    pub open spec fn unattached_of(&self, o: Seq<char>) -> Seq<u64> {
        if self.has_entry(o) {
            self.owners@[self.entry_pos(o)].unequipped@
        } else {
            Seq::empty()
        }
    }

    /// The lists of `e` agree with the component records.
    pub open spec fn entry_wf(&self, e: OwnerIndex) -> bool {
        &&& e.lists_distinct()
        &&& forall|id: u64|
            #![trigger e.parts@.contains(id)]
            e.parts@.contains(id) <==> self.owns(e.owner@, id)
        &&& forall|id: u64, t: PartType|
            #![trigger e.by_type(t).contains(id)]
            e.by_type(t).contains(id) <==> (e.parts@.contains(id) && self.part_stats@[id as int].part_type == t)
        &&& forall|id: u64|
            #![trigger e.equipped@.contains(id)]
            e.equipped@.contains(id) <==> (e.parts@.contains(id) && self.equipped_in_car@[id as int] != 0)
        &&& forall|id: u64|
            #![trigger e.unequipped@.contains(id)]
            e.unequipped@.contains(id) <==> (e.parts@.contains(id) && self.equipped_in_car@[id as int] == 0)
    }

    pub open spec fn owners_unique(&self) -> bool {
        forall|j: int, k: int|
            0 <= j < self.owners@.len() && 0 <= k < self.owners@.len() && #[trigger] self.owners@[j].owner@
                == #[trigger] self.owners@[k].owner@ ==> j == k
    }

    /// The registry's invariant.
    pub open spec fn wf(&self) -> bool {
        &&& self.equipped_in_car@.len() == self.count()
        &&& self.part_owner@.len() == self.count()
        &&& self.count() <= u64::MAX
        &&& forall|i: int| 0 <= i < self.count() ==> (#[trigger] self.part_stats@[i]).valid()
        &&& self.owners_unique()
        &&& forall|k: int| 0 <= k < self.owners@.len() ==> self.entry_wf(#[trigger] self.owners@[k])
        &&& forall|id: u64| id < self.count() ==> self.has_entry(#[trigger] self.part_owner@[id as int]@)
    }

    proof fn lemma_entry_pos(&self, k: int)
        requires
            self.owners_unique(),
            0 <= k < self.owners@.len(),
        ensures
            self.has_entry(self.owners@[k].owner@),
            self.entry_pos(self.owners@[k].owner@) == k,
    {
        let o = self.owners@[k].owner@;
        assert(self.has_entry(o));
        let j = self.entry_pos(o);
        assert(self.owners@[j].owner@ == self.owners@[k].owner@);
    }

    /// A fresh registry that accepts privileged calls from `car_contract`.
    pub fn new(car_contract: String) -> (r: Self)
        ensures
            r.wf(),
            r.car_contract == car_contract,
            r.count() == 0,
            forall|o: Seq<char>| !(#[trigger] r.has_entry(o)),
    {
        CarPartContract {
            car_contract,
            part_stats: Vec::new(),
            equipped_in_car: Vec::new(),
            part_owner: Vec::new(),
            owners: Vec::new(),
        }
    }

    /// Position of the entry of `owner`, if it has one.
    fn find_entry(&self, owner: &String) -> (r: Option<usize>)
        requires
            self.owners_unique(),
        ensures
            r is Some <==> self.has_entry(owner@),
            r matches Some(k) ==> k == self.entry_pos(owner@) && k < self.owners@.len()
                && self.owners@[k as int].owner@ == owner@,
    {
        let mut k: usize = 0;
        while k < self.owners.len()
            invariant
                self.owners_unique(),
                k <= self.owners@.len(),
                forall|j: int| 0 <= j < k ==> self.owners@[j].owner@ != owner@,
            decreases self.owners@.len() - k,
        {
            if self.owners[k].owner == *owner {
                proof {
                    self.lemma_entry_pos(k as int);
                }
                return Some(k);
            }
            k = k + 1;
        }
        None
    }

    proof fn lemma_views_at(&self, j: int)
        requires
            self.owners_unique(),
            0 <= j < self.owners@.len(),
        ensures
            self.has_entry(self.owners@[j].owner@),
            self.parts_of(self.owners@[j].owner@) == self.owners@[j].parts@,
            self.attached_of(self.owners@[j].owner@) == self.owners@[j].equipped@,
            self.unattached_of(self.owners@[j].owner@) == self.owners@[j].unequipped@,
            forall|t: PartType|
                #[trigger] self.parts_of_type(self.owners@[j].owner@, t) == self.owners@[j].by_type(t),
    {
        self.lemma_entry_pos(j);
    }

    /// The two states give the same index lists to every owner.
    pub open spec fn same_views(&self, other: &Self) -> bool {
        &&& forall|o: Seq<char>| #[trigger] self.parts_of(o) == other.parts_of(o)
        &&& forall|o: Seq<char>, t: PartType| #[trigger] self.parts_of_type(o, t) == other.parts_of_type(o, t)
        &&& forall|o: Seq<char>| #[trigger] self.attached_of(o) == other.attached_of(o)
        &&& forall|o: Seq<char>| #[trigger] self.unattached_of(o) == other.unattached_of(o)
    }

    proof fn lemma_added_entry_views(prev: &Self, cur: &Self, o: Seq<char>)
        requires
            prev.owners_unique(),
            cur.owners_unique(),
            cur.owners@.len() == prev.owners@.len() + 1,
            forall|j: int| 0 <= j < prev.owners@.len() ==> cur.owners@[j] == prev.owners@[j],
            !prev.has_entry(cur.owners@.last().owner@),
            cur.owners@.last().parts@.len() == 0,
            cur.owners@.last().engines@.len() == 0,
            cur.owners@.last().transmissions@.len() == 0,
            cur.owners@.last().wheels@.len() == 0,
            cur.owners@.last().equipped@.len() == 0,
            cur.owners@.last().unequipped@.len() == 0,
        ensures
            cur.parts_of(o) == prev.parts_of(o),
            cur.attached_of(o) == prev.attached_of(o),
            cur.unattached_of(o) == prev.unattached_of(o),
            forall|t: PartType| #[trigger] cur.parts_of_type(o, t) == prev.parts_of_type(o, t),
    {
        let k = prev.owners@.len() as int;
        let e = cur.owners@[k];
        if o == e.owner@ {
            cur.lemma_views_at(k);
            assert(e.parts@ =~= Seq::<u64>::empty());
            assert(e.engines@ =~= Seq::<u64>::empty());
            assert(e.transmissions@ =~= Seq::<u64>::empty());
            assert(e.wheels@ =~= Seq::<u64>::empty());
            assert(e.equipped@ =~= Seq::<u64>::empty());
            assert(e.unequipped@ =~= Seq::<u64>::empty());
        } else if prev.has_entry(o) {
            let j = prev.entry_pos(o);
            prev.lemma_views_at(j);
            cur.lemma_views_at(j);
        } else {
            assert(!cur.has_entry(o)) by {
                if cur.has_entry(o) {
                    let j = cur.entry_pos(o);
                    assert(cur.owners@[j] == prev.owners@[j]);
                }
            }
        }
    }

    proof fn lemma_replaced_entry_views(prev: &Self, cur: &Self, k: int, o: Seq<char>)
        requires
            prev.owners_unique(),
            cur.owners@.len() == prev.owners@.len(),
            0 <= k < prev.owners@.len(),
            forall|j: int| 0 <= j < prev.owners@.len() && j != k ==> cur.owners@[j] == prev.owners@[j],
            cur.owners@[k].owner@ == prev.owners@[k].owner@,
        ensures
            cur.owners_unique(),
            cur.has_entry(o) == prev.has_entry(o),
            o == prev.owners@[k].owner@ ==> {
                &&& cur.parts_of(o) == cur.owners@[k].parts@
                &&& prev.parts_of(o) == prev.owners@[k].parts@
                &&& cur.attached_of(o) == cur.owners@[k].equipped@
                &&& prev.attached_of(o) == prev.owners@[k].equipped@
                &&& cur.unattached_of(o) == cur.owners@[k].unequipped@
                &&& prev.unattached_of(o) == prev.owners@[k].unequipped@
                &&& forall|t: PartType| #[trigger] cur.parts_of_type(o, t) == cur.owners@[k].by_type(t)
                &&& forall|t: PartType| #[trigger] prev.parts_of_type(o, t) == prev.owners@[k].by_type(t)
            },
            o != prev.owners@[k].owner@ ==> {
                &&& cur.parts_of(o) == prev.parts_of(o)
                &&& cur.attached_of(o) == prev.attached_of(o)
                &&& cur.unattached_of(o) == prev.unattached_of(o)
                &&& forall|t: PartType| #[trigger] cur.parts_of_type(o, t) == prev.parts_of_type(o, t)
            },
    {
        assert forall|j: int, i: int|
            0 <= j < cur.owners@.len() && 0 <= i < cur.owners@.len()
                && #[trigger] cur.owners@[j].owner@ == #[trigger] cur.owners@[i].owner@ implies j == i by {
            assert(prev.owners@[j].owner@ == cur.owners@[j].owner@);
            assert(prev.owners@[i].owner@ == cur.owners@[i].owner@);
        }
        if prev.has_entry(o) {
            let j = prev.entry_pos(o);
            prev.lemma_views_at(j);
            cur.lemma_views_at(j);
        } else {
            assert(!cur.has_entry(o)) by {
                if cur.has_entry(o) {
                    let j = cur.entry_pos(o);
                    assert(cur.owners@[j].owner@ == prev.owners@[j].owner@);
                }
            }
        }
    }

    /// Position of the entry of `owner`, adding an empty entry when there is none.
    fn ensure_entry(&mut self, owner: &String) -> (k: usize)
        requires
            old(self).wf(),
        ensures
            final(self).wf(),
            final(self).car_contract == old(self).car_contract,
            final(self).part_stats == old(self).part_stats,
            final(self).equipped_in_car == old(self).equipped_in_car,
            final(self).part_owner == old(self).part_owner,
            k < final(self).owners@.len(),
            final(self).owners@[k as int].owner@ == owner@,
            final(self).same_views(old(self)),
            forall|o: Seq<char>| old(self).has_entry(o) ==> #[trigger] final(self).has_entry(o),
            final(self).has_entry(owner@),
    {
        match self.find_entry(owner) {
            Some(k) => k,
            None => {
                let ghost prev = *self;
                self.owners.push(OwnerIndex::empty(owner.clone()));
                let k = self.owners.len() - 1;
                proof {
                    assert(self.owners@[k as int].owner@ == owner@);
                    assert forall|j: int, i: int|
                        0 <= j < self.owners@.len() && 0 <= i < self.owners@.len()
                            && #[trigger] self.owners@[j].owner@ == #[trigger] self.owners@[i].owner@ implies j == i by {
                        if j < k && i < k {
                            assert(prev.owners@[j] == self.owners@[j]);
                            assert(prev.owners@[i] == self.owners@[i]);
                        } else if j < k {
                            assert(prev.owners@[j] == self.owners@[j]);
                            assert(prev.has_entry(owner@));
                        } else if i < k {
                            assert(prev.owners@[i] == self.owners@[i]);
                            assert(prev.has_entry(owner@));
                        }
                    }
                    let e = self.owners@[k as int];
                    assert(e.parts@ =~= Seq::<u64>::empty());
                    assert forall|id: u64| #[trigger] e.parts@.contains(id) <==> self.owns(e.owner@, id) by {
                        if self.owns(e.owner@, id) {
                            assert(prev.has_entry(prev.part_owner@[id as int]@));
                        }
                    }
                    assert forall|j: int| 0 <= j < self.owners@.len() implies self.entry_wf(#[trigger] self.owners@[j]) by {
                        if j < k {
                            assert(prev.owners@[j] == self.owners@[j]);
                            assert(prev.entry_wf(prev.owners@[j]));
                        }
                    }
                    assert forall|id: u64| id < self.count() implies self.has_entry(#[trigger] self.part_owner@[id as int]@) by {
                        assert(prev.has_entry(prev.part_owner@[id as int]@));
                        let j = prev.entry_pos(prev.part_owner@[id as int]@);
                        assert(self.owners@[j] == prev.owners@[j]);
                    }
                    assert forall|o: Seq<char>| prev.has_entry(o) implies #[trigger] self.has_entry(o) by {
                        let j = prev.entry_pos(o);
                        assert(self.owners@[j] == prev.owners@[j]);
                    }
                    assert forall|o: Seq<char>| #[trigger] self.parts_of(o) == prev.parts_of(o) by {
                        Self::lemma_added_entry_views(&prev, self, o);
                    }
                    assert forall|o: Seq<char>| #[trigger] self.attached_of(o) == prev.attached_of(o) by {
                        Self::lemma_added_entry_views(&prev, self, o);
                    }
                    assert forall|o: Seq<char>| #[trigger] self.unattached_of(o) == prev.unattached_of(o) by {
                        Self::lemma_added_entry_views(&prev, self, o);
                    }
                    assert forall|o: Seq<char>, t: PartType| #[trigger] self.parts_of_type(o, t)
                        == prev.parts_of_type(o, t) by {
                        Self::lemma_added_entry_views(&prev, self, o);
                    }
                    assert(self.same_views(&prev));
                }
                k
            },
        }
    }

    /// `self` is `prev` after component `prev.count()` was minted to `to`
    /// with record `rec`, attached to `car_id` (0: unattached).
    pub open spec fn minted(&self, prev: &Self, to: Seq<char>, rec: PartStats, car_id: u64) -> bool {
        let id = prev.count() as u64;
        &&& self.car_contract == prev.car_contract
        &&& self.part_stats@ == prev.part_stats@.push(rec)
        &&& self.equipped_in_car@ == prev.equipped_in_car@.push(car_id)
        &&& self.part_owner@.len() == prev.part_owner@.len() + 1
        &&& forall|i: int| 0 <= i < prev.count() ==> #[trigger] self.part_owner@[i] == prev.part_owner@[i]
        &&& self.part_owner@[id as int]@ == to
        &&& forall|o: Seq<char>|
            #[trigger] self.parts_of(o) == if o == to {
                prev.parts_of(o).push(id)
            } else {
                prev.parts_of(o)
            }
        &&& forall|o: Seq<char>, t: PartType|
            #[trigger] self.parts_of_type(o, t) == if o == to && t == rec.part_type {
                prev.parts_of_type(o, t).push(id)
            } else {
                prev.parts_of_type(o, t)
            }
        &&& forall|o: Seq<char>|
            #[trigger] self.attached_of(o) == if o == to && car_id != 0 {
                prev.attached_of(o).push(id)
            } else {
                prev.attached_of(o)
            }
        &&& forall|o: Seq<char>|
            #[trigger] self.unattached_of(o) == if o == to && car_id == 0 {
                prev.unattached_of(o).push(id)
            } else {
                prev.unattached_of(o)
            }
    }

    /// The result of a mint call from `sender`: refused unless `sender` is the
    /// composite registry and the stats are in range, otherwise component
    /// `prev.count()` is minted.
    pub open spec fn mint_outcome(
        &self,
        prev: &Self,
        sender: Seq<char>,
        to: String,
        part_type: PartType,
        stat1: u8,
        stat2: u8,
        stat3: u8,
        image_uri: String,
        car_id: u64,
        r: Result<u64, ContractError>,
    ) -> bool {
        if sender != prev.car_contract@ {
            r == Err::<u64, ContractError>(ContractError::Unauthorized) && *self == *prev
        } else if !stats_in_range(stat1, stat2, stat3) {
            r == Err::<u64, ContractError>(ContractError::InvalidStat) && *self == *prev
        } else {
            r == Ok::<u64, ContractError>(prev.count() as u64) && self.minted(
                prev,
                to@,
                PartStats { part_type, stat1, stat2, stat3, image_uri },
                car_id,
            )
        }
    }

    /// The result of an attachment call from `sender`.
    pub open spec fn attach_outcome(
        &self,
        prev: &Self,
        sender: Seq<char>,
        part_id: u64,
        car_id: u64,
        r: Result<(), ContractError>,
    ) -> bool {
        if sender != prev.car_contract@ {
            r == Err::<(), ContractError>(ContractError::Unauthorized) && *self == *prev
        } else if part_id >= prev.count() {
            r == Err::<(), ContractError>(ContractError::NotFound) && *self == *prev
        } else {
            r == Ok::<(), ContractError>(()) && self.attachment_set(prev, part_id, car_id)
        }
    }

    /// The result of a transfer call from `sender`.
    pub open spec fn transfer_outcome(
        &self,
        prev: &Self,
        sender: Seq<char>,
        from: Seq<char>,
        to: Seq<char>,
        part_id: u64,
        r: Result<(), ContractError>,
    ) -> bool {
        if sender != prev.car_contract@ {
            r == Err::<(), ContractError>(ContractError::Unauthorized) && *self == *prev
        } else if part_id >= prev.count() {
            r == Err::<(), ContractError>(ContractError::NotFound) && *self == *prev
        } else if !prev.owns(from, part_id) {
            r == Err::<(), ContractError>(ContractError::NotOwner) && *self == *prev
        } else if prev.attached_to(part_id) != 0 {
            r == Err::<(), ContractError>(ContractError::AttachedComponent) && *self == *prev
        } else {
            r == Ok::<(), ContractError>(()) && self.transferred(prev, from, to, part_id)
        }
    }

    /// Mints a component to `to`, attached to composite `car_id` when that is
    /// not 0, and returns its id.
    pub fn execute_mint(
        &mut self,
        sender: &String,
        to: String,
        part_type: PartType,
        stat1: u8,
        stat2: u8,
        stat3: u8,
        image_uri: String,
        car_id: u64,
    ) -> (r: Result<u64, ContractError>)
        requires
            old(self).wf(),
            old(self).count() < u64::MAX,
        ensures
            final(self).wf(),
            final(self).mint_outcome(
                old(self),
                sender@,
                to,
                part_type,
                stat1,
                stat2,
                stat3,
                image_uri,
                car_id,
                r,
            ),
    {
        if *sender != self.car_contract {
            return Err(ContractError::Unauthorized);
        }
        if !check_stats(stat1, stat2, stat3) {
            return Err(ContractError::InvalidStat);
        }
        let ghost prev = *self;
        let ghost rec = PartStats { part_type, stat1, stat2, stat3, image_uri };
        let part_id = self.part_stats.len() as u64;
        let k = self.ensure_entry(&to);
        let ghost mid = *self;
        self.part_stats.push(PartStats { part_type, stat1, stat2, stat3, image_uri });
        self.equipped_in_car.push(car_id);
        self.part_owner.push(to);
        let mut e = OwnerIndex::empty(String::new());
        self.owners.set_and_swap(k, &mut e);
        e.parts.push(part_id);
        if car_id != 0 {
            e.equipped.push(part_id);
        } else {
            e.unequipped.push(part_id);
        }
        e.push_typed(part_type, part_id);
        self.owners.set(k, e);
        proof {
            let old_e = mid.owners@[k as int];
            let new_e = self.owners@[k as int];
            let to_v = old_e.owner@;
            assert(mid.entry_wf(old_e));
            assert(!old_e.parts@.contains(part_id));
            assert(!old_e.by_type(part_type).contains(part_id));
            assert(!old_e.equipped@.contains(part_id));
            assert(!old_e.unequipped@.contains(part_id));
            lemma_push_no_duplicates(old_e.parts@, part_id);
            lemma_push_no_duplicates(old_e.by_type(part_type), part_id);
            if car_id != 0 {
                lemma_push_no_duplicates(old_e.equipped@, part_id);
            } else {
                lemma_push_no_duplicates(old_e.unequipped@, part_id);
            }
            assert(new_e.by_type(PartType::Engine) == new_e.engines@);
            assert(new_e.by_type(PartType::Transmission) == new_e.transmissions@);
            assert(new_e.by_type(PartType::Wheels) == new_e.wheels@);
            assert(old_e.by_type(PartType::Engine) == old_e.engines@);
            assert(old_e.by_type(PartType::Transmission) == old_e.transmissions@);
            assert(old_e.by_type(PartType::Wheels) == old_e.wheels@);
            assert(new_e.lists_distinct());
            assert(self.part_owner@[part_id as int]@ == to_v);
            assert forall|id: u64| #[trigger] new_e.parts@.contains(id) <==> self.owns(new_e.owner@, id) by {
                lemma_push_contains(old_e.parts@, part_id, id);
            }
            assert forall|id: u64, t: PartType| #[trigger] new_e.by_type(t).contains(id) <==> (new_e.parts@.contains(id)
                && self.part_stats@[id as int].part_type == t) by {
                lemma_push_contains(old_e.by_type(t), part_id, id);
                lemma_push_contains(old_e.parts@, part_id, id);
            }
            assert forall|id: u64| #[trigger] new_e.equipped@.contains(id) <==> (new_e.parts@.contains(id)
                && self.equipped_in_car@[id as int] != 0) by {
                lemma_push_contains(old_e.equipped@, part_id, id);
                lemma_push_contains(old_e.parts@, part_id, id);
            }
            assert forall|id: u64| #[trigger] new_e.unequipped@.contains(id) <==> (new_e.parts@.contains(id)
                && self.equipped_in_car@[id as int] == 0) by {
                lemma_push_contains(old_e.unequipped@, part_id, id);
                lemma_push_contains(old_e.parts@, part_id, id);
            }
            assert(self.entry_wf(new_e));
            assert forall|o: Seq<char>| #[trigger] self.parts_of(o) == if o == to_v {
                prev.parts_of(o).push(part_id)
            } else {
                prev.parts_of(o)
            } by {
                Self::lemma_replaced_entry_views(&mid, self, k as int, o);
                assert(mid.parts_of(o) == prev.parts_of(o));
            }
            assert forall|o: Seq<char>| #[trigger] self.attached_of(o) == if o == to_v && car_id != 0 {
                prev.attached_of(o).push(part_id)
            } else {
                prev.attached_of(o)
            } by {
                Self::lemma_replaced_entry_views(&mid, self, k as int, o);
                assert(mid.attached_of(o) == prev.attached_of(o));
            }
            assert forall|o: Seq<char>| #[trigger] self.unattached_of(o) == if o == to_v && car_id == 0 {
                prev.unattached_of(o).push(part_id)
            } else {
                prev.unattached_of(o)
            } by {
                Self::lemma_replaced_entry_views(&mid, self, k as int, o);
                assert(mid.unattached_of(o) == prev.unattached_of(o));
            }
            assert forall|o: Seq<char>, t: PartType| #[trigger] self.parts_of_type(o, t) == if o == to_v && t == part_type {
                mid.parts_of_type(o, t).push(part_id)
            } else {
                mid.parts_of_type(o, t)
            } by {
                Self::lemma_replaced_entry_views(&mid, self, k as int, o);
            }
            assert forall|j: int| 0 <= j < self.owners@.len() implies self.entry_wf(#[trigger] self.owners@[j]) by {
                if j != k {
                    let ej = self.owners@[j];
                    assert(ej == mid.owners@[j]);
                    assert(mid.entry_wf(ej));
                    assert(ej.owner@ != to_v);
                    assert forall|id: u64| #[trigger] ej.parts@.contains(id) <==> self.owns(ej.owner@, id) by {
                        if id < part_id {
                            assert(self.part_owner@[id as int] == mid.part_owner@[id as int]);
                        }
                    }
                    assert forall|id: u64, t: PartType| #[trigger] ej.by_type(t).contains(id) <==> (ej.parts@.contains(id)
                        && self.part_stats@[id as int].part_type == t) by {
                        if ej.parts@.contains(id) {
                            assert(self.part_stats@[id as int] == mid.part_stats@[id as int]);
                        }
                    }
                    assert forall|id: u64| #[trigger] ej.equipped@.contains(id) <==> (ej.parts@.contains(id)
                        && self.equipped_in_car@[id as int] != 0) by {
                        if ej.parts@.contains(id) {
                            assert(self.equipped_in_car@[id as int] == mid.equipped_in_car@[id as int]);
                        }
                    }
                    assert forall|id: u64| #[trigger] ej.unequipped@.contains(id) <==> (ej.parts@.contains(id)
                        && self.equipped_in_car@[id as int] == 0) by {
                        if ej.parts@.contains(id) {
                            assert(self.equipped_in_car@[id as int] == mid.equipped_in_car@[id as int]);
                        }
                    }
                }
            }
            assert forall|id: u64| id < self.count() implies self.has_entry(#[trigger] self.part_owner@[id as int]@) by {
                Self::lemma_replaced_entry_views(&mid, self, k as int, self.part_owner@[id as int]@);
                if id < part_id {
                    assert(self.part_owner@[id as int] == mid.part_owner@[id as int]);
                    assert(mid.has_entry(mid.part_owner@[id as int]@));
                } else {
                    assert(self.owners@[k as int].owner@ == to_v);
                }
            }
            assert forall|i: int| 0 <= i < self.count() implies (#[trigger] self.part_stats@[i]).valid() by {
                if i < part_id {
                    assert(self.part_stats@[i] == mid.part_stats@[i]);
                }
            }
            assert(self.wf());
            assert forall|o: Seq<char>, t: PartType| #[trigger] self.parts_of_type(o, t) == if o == to_v && t == rec.part_type {
                prev.parts_of_type(o, t).push(part_id)
            } else {
                prev.parts_of_type(o, t)
            } by {
                assert(mid.parts_of_type(o, t) == prev.parts_of_type(o, t));
            }
            assert(self.minted(&prev, to_v, rec, car_id));
        }
        Ok(part_id)
    }

    /// `self` is `prev` with component `id` attached to composite `car_id`
    /// (detached when `car_id` is 0).
    pub open spec fn attachment_set(&self, prev: &Self, id: u64, car_id: u64) -> bool {
        let owner = prev.part_owner@[id as int]@;
        let was = prev.equipped_in_car@[id as int];
        &&& self.car_contract == prev.car_contract
        &&& self.part_stats == prev.part_stats
        &&& self.part_owner == prev.part_owner
        &&& self.equipped_in_car@ == prev.equipped_in_car@.update(id as int, car_id)
        &&& forall|o: Seq<char>| #[trigger] self.parts_of(o) == prev.parts_of(o)
        &&& forall|o: Seq<char>, t: PartType| #[trigger] self.parts_of_type(o, t) == prev.parts_of_type(o, t)
        &&& forall|o: Seq<char>|
            #[trigger] self.attached_of(o) == if o == owner && was == 0 && car_id != 0 {
                prev.attached_of(o).push(id)
            } else if o == owner && was != 0 && car_id == 0 {
                without(prev.attached_of(o), id)
            } else {
                prev.attached_of(o)
            }
        &&& forall|o: Seq<char>|
            #[trigger] self.unattached_of(o) == if o == owner && was == 0 && car_id != 0 {
                without(prev.unattached_of(o), id)
            } else if o == owner && was != 0 && car_id == 0 {
                prev.unattached_of(o).push(id)
            } else {
                prev.unattached_of(o)
            }
    }

    /// Attaches component `part_id` to composite `car_id`, or detaches it when
    /// `car_id` is 0, moving it between its owner's attached and unattached lists.
    pub fn execute_set_equipped_state(&mut self, sender: &String, part_id: u64, car_id: u64) -> (r:
        Result<(), ContractError>)
        requires
            old(self).wf(),
        ensures
            final(self).wf(),
            final(self).attach_outcome(old(self), sender@, part_id, car_id, r),
    {
        if *sender != self.car_contract {
            return Err(ContractError::Unauthorized);
        }
        if part_id >= self.part_stats.len() as u64 {
            return Err(ContractError::NotFound);
        }
        let idx = part_id as usize;
        let current = self.equipped_in_car[idx];
        let k = match self.find_entry(&self.part_owner[idx]) {
            Some(k) => k,
            None => {
                proof {
                    assert(self.has_entry(self.part_owner@[part_id as int]@));
                }
                return Err(ContractError::NotFound);
            },
        };
        let ghost prev = *self;
        let ghost owner = prev.part_owner@[part_id as int]@;
        self.equipped_in_car.set(idx, car_id);
        let mut e = OwnerIndex::empty(String::new());
        self.owners.set_and_swap(k, &mut e);
        if current == 0 && car_id != 0 {
            remove_value(&mut e.unequipped, part_id);
            e.equipped.push(part_id);
        } else if current != 0 && car_id == 0 {
            remove_value(&mut e.equipped, part_id);
            e.unequipped.push(part_id);
        }
        self.owners.set(k, e);
        proof {
            let old_e = prev.owners@[k as int];
            let new_e = self.owners@[k as int];
            assert(prev.entry_wf(old_e));
            assert(old_e.owner@ == owner);
            assert(old_e.parts@.contains(part_id));
            assert(new_e.by_type(PartType::Engine) == old_e.by_type(PartType::Engine));
            assert(new_e.by_type(PartType::Transmission) == old_e.by_type(PartType::Transmission));
            assert(new_e.by_type(PartType::Wheels) == old_e.by_type(PartType::Wheels));
            if current == 0 && car_id != 0 {
                lemma_push_no_duplicates(old_e.equipped@, part_id);
                lemma_without_no_duplicates(old_e.unequipped@, part_id);
            } else if current != 0 && car_id == 0 {
                lemma_push_no_duplicates(old_e.unequipped@, part_id);
                lemma_without_no_duplicates(old_e.equipped@, part_id);
            }
            assert(new_e.lists_distinct());
            assert forall|id: u64| #[trigger] new_e.equipped@.contains(id) <==> (new_e.parts@.contains(id)
                && self.equipped_in_car@[id as int] != 0) by {
                lemma_push_contains(old_e.equipped@, part_id, id);
                lemma_without_contains(old_e.equipped@, part_id, id);
            }
            assert forall|id: u64| #[trigger] new_e.unequipped@.contains(id) <==> (new_e.parts@.contains(id)
                && self.equipped_in_car@[id as int] == 0) by {
                lemma_push_contains(old_e.unequipped@, part_id, id);
                lemma_without_contains(old_e.unequipped@, part_id, id);
            }
            assert(self.entry_wf(new_e));
            assert forall|j: int| 0 <= j < self.owners@.len() implies self.entry_wf(#[trigger] self.owners@[j]) by {
                if j != k {
                    let ej = self.owners@[j];
                    assert(ej == prev.owners@[j]);
                    assert(prev.entry_wf(ej));
                    assert(ej.owner@ != owner);
                    assert(!ej.parts@.contains(part_id));
                    assert forall|id: u64| #[trigger] ej.equipped@.contains(id) <==> (ej.parts@.contains(id)
                        && self.equipped_in_car@[id as int] != 0) by {
                        if ej.parts@.contains(id) {
                            assert(id != part_id);
                        }
                    }
                    assert forall|id: u64| #[trigger] ej.unequipped@.contains(id) <==> (ej.parts@.contains(id)
                        && self.equipped_in_car@[id as int] == 0) by {
                        if ej.parts@.contains(id) {
                            assert(id != part_id);
                        }
                    }
                }
            }
            assert forall|id: u64| id < self.count() implies self.has_entry(#[trigger] self.part_owner@[id as int]@) by {
                Self::lemma_replaced_entry_views(&prev, self, k as int, self.part_owner@[id as int]@);
                assert(prev.has_entry(prev.part_owner@[id as int]@));
            }
            assert(self.wf());
            assert forall|o: Seq<char>| #[trigger] self.parts_of(o) == prev.parts_of(o) by {
                Self::lemma_replaced_entry_views(&prev, self, k as int, o);
            }
            assert forall|o: Seq<char>, t: PartType| #[trigger] self.parts_of_type(o, t) == prev.parts_of_type(o, t) by {
                Self::lemma_replaced_entry_views(&prev, self, k as int, o);
            }
            assert forall|o: Seq<char>| #[trigger] self.attached_of(o) == if o == owner && current == 0 && car_id != 0 {
                prev.attached_of(o).push(part_id)
            } else if o == owner && current != 0 && car_id == 0 {
                without(prev.attached_of(o), part_id)
            } else {
                prev.attached_of(o)
            } by {
                Self::lemma_replaced_entry_views(&prev, self, k as int, o);
            }
            assert forall|o: Seq<char>| #[trigger] self.unattached_of(o) == if o == owner && current == 0 && car_id != 0 {
                without(prev.unattached_of(o), part_id)
            } else if o == owner && current != 0 && car_id == 0 {
                prev.unattached_of(o).push(part_id)
            } else {
                prev.unattached_of(o)
            } by {
                Self::lemma_replaced_entry_views(&prev, self, k as int, o);
            }
        }
        Ok(())
    }

    /// `self` is `prev` after component `id`, of category `t` and unattached,
    /// moved from owner `from` to owner `to`.
    pub open spec fn transferred(&self, prev: &Self, from: Seq<char>, to: Seq<char>, id: u64) -> bool {
        let t = prev.part_stats@[id as int].part_type;
        &&& self.car_contract == prev.car_contract
        &&& self.part_stats == prev.part_stats
        &&& self.equipped_in_car == prev.equipped_in_car
        &&& self.part_owner@.len() == prev.part_owner@.len()
        &&& forall|i: int| 0 <= i < prev.count() && i != id ==> #[trigger] self.part_owner@[i] == prev.part_owner@[i]
        &&& self.part_owner@[id as int]@ == to
        &&& forall|o: Seq<char>| #[trigger] self.parts_of(o) == moved(prev.parts_of(o), o, from, to, id)
        &&& forall|o: Seq<char>, u: PartType|
            #[trigger] self.parts_of_type(o, u) == if u == t {
                moved(prev.parts_of_type(o, u), o, from, to, id)
            } else {
                prev.parts_of_type(o, u)
            }
        &&& forall|o: Seq<char>| #[trigger] self.attached_of(o) == prev.attached_of(o)
        &&& forall|o: Seq<char>| #[trigger] self.unattached_of(o) == moved(prev.unattached_of(o), o, from, to, id)
    }

    /// Moves unattached component `part_id` from owner `from` to owner `to`,
    /// out of every list of `from` and onto the end of the matching lists of `to`.
    pub fn execute_transfer_part(&mut self, sender: &String, from: &String, to: &String, part_id: u64) -> (r:
        Result<(), ContractError>)
        requires
            old(self).wf(),
        ensures
            final(self).wf(),
            final(self).transfer_outcome(old(self), sender@, from@, to@, part_id, r),
    {
        if *sender != self.car_contract {
            return Err(ContractError::Unauthorized);
        }
        if part_id >= self.part_stats.len() as u64 {
            return Err(ContractError::NotFound);
        }
        let idx = part_id as usize;
        match self.get_part_owner(part_id) {
            Ok(owner) => {
                if *owner != *from {
                    return Err(ContractError::NotOwner);
                }
            },
            Err(e) => {
                return Err(e);
            },
        }
        if self.equipped_in_car[idx] != 0 {
            return Err(ContractError::AttachedComponent);
        }
        let t = self.part_stats[idx].part_type;
        let ghost prev = *self;
        let kt = self.ensure_entry(to);
        let ghost s0 = *self;
        let kf = match self.find_entry(from) {
            Some(k) => k,
            None => {
                proof {
                    assert(self.has_entry(self.part_owner@[part_id as int]@));
                }
                return Err(ContractError::NotFound);
            },
        };
        let mut ef = OwnerIndex::empty(String::new());
        self.owners.set_and_swap(kf, &mut ef);
        remove_value(&mut ef.parts, part_id);
        remove_value(&mut ef.unequipped, part_id);
        ef.remove_typed(t, part_id);
        self.owners.set(kf, ef);
        let ghost s1 = *self;
        let mut et = OwnerIndex::empty(String::new());
        self.owners.set_and_swap(kt, &mut et);
        et.parts.push(part_id);
        et.unequipped.push(part_id);
        et.push_typed(t, part_id);
        self.owners.set(kt, et);
        self.part_owner.set(idx, to.clone());
        proof {
            let from_v = from@;
            let to_v = to@;
            let f0 = s0.owners@[kf as int];
            let f1 = s1.owners@[kf as int];
            let t0 = s1.owners@[kt as int];
            let t1 = self.owners@[kt as int];
            assert(s0.entry_wf(f0));
            assert(s0.entry_wf(s0.owners@[kt as int]));
            assert(f0.owner@ == from_v);
            assert(t1.owner@ == to_v);
            assert(f0.parts@.contains(part_id));
            assert(!f0.equipped@.contains(part_id));
            // the removal leaves lists without `part_id`
            lemma_without_no_duplicates(f0.parts@, part_id);
            lemma_without_no_duplicates(f0.unequipped@, part_id);
            lemma_without_no_duplicates(f0.by_type(t), part_id);
            assert(f1.by_type(PartType::Engine) == if t == PartType::Engine { without(f0.by_type(PartType::Engine), part_id) } else { f0.by_type(PartType::Engine) });
            assert(f1.by_type(PartType::Transmission) == if t == PartType::Transmission { without(f0.by_type(PartType::Transmission), part_id) } else { f0.by_type(PartType::Transmission) });
            assert(f1.by_type(PartType::Wheels) == if t == PartType::Wheels { without(f0.by_type(PartType::Wheels), part_id) } else { f0.by_type(PartType::Wheels) });
            assert(f0.by_type(PartType::Engine) == f0.engines@);
            assert(f0.by_type(PartType::Transmission) == f0.transmissions@);
            assert(f0.by_type(PartType::Wheels) == f0.wheels@);
            assert(f1.lists_distinct());
            assert forall|x: u64, u: PartType| #[trigger] f1.by_type(u).contains(x) <==> (f0.by_type(u).contains(x) && (u == t ==> x != part_id)) by {
                lemma_without_contains(f0.by_type(u), part_id, x);
            }
            assert forall|u: PartType| u != t implies !#[trigger] f0.by_type(u).contains(part_id) by {}
            assert forall|x: u64| #[trigger] f1.parts@.contains(x) <==> (f0.parts@.contains(x) && x != part_id) by {
                lemma_without_contains(f0.parts@, part_id, x);
            }
            assert forall|x: u64| #[trigger] f1.unequipped@.contains(x) <==> (f0.unequipped@.contains(x) && x != part_id) by {
                lemma_without_contains(f0.unequipped@, part_id, x);
            }
            // the entry of `to` before the addition
            assert(t0.owner@ == to_v);
            assert(t0.lists_distinct());
            assert(!t0.parts@.contains(part_id)) by {
                if kt != kf {
                    assert(t0 == s0.owners@[kt as int]);
                    assert(from_v != to_v);
                }
            }
            assert(!t0.by_type(t).contains(part_id)) by {
                if kt != kf {
                    assert(t0 == s0.owners@[kt as int]);
                }
            }
            assert(!t0.unequipped@.contains(part_id)) by {
                if kt != kf {
                    assert(t0 == s0.owners@[kt as int]);
                }
            }
            lemma_push_no_duplicates(t0.parts@, part_id);
            lemma_push_no_duplicates(t0.unequipped@, part_id);
            lemma_push_no_duplicates(t0.by_type(t), part_id);
            assert(t1.by_type(PartType::Engine) == t1.engines@);
            assert(t1.by_type(PartType::Transmission) == t1.transmissions@);
            assert(t1.by_type(PartType::Wheels) == t1.wheels@);
            assert(t0.by_type(PartType::Engine) == t0.engines@);
            assert(t0.by_type(PartType::Transmission) == t0.transmissions@);
            assert(t0.by_type(PartType::Wheels) == t0.wheels@);
            assert(t1.lists_distinct());
            // what the entry of `to` held before the addition
            assert forall|x: u64| #[trigger] t0.parts@.contains(x) <==> (s0.owns(to_v, x) && x != part_id) by {
                if kt != kf {
                    assert(t0 == s0.owners@[kt as int]);
                }
            }
            assert forall|x: u64, u: PartType| #[trigger] t0.by_type(u).contains(x) <==> (t0.parts@.contains(x)
                && self.part_stats@[x as int].part_type == u) by {
                if kt != kf {
                    assert(t0 == s0.owners@[kt as int]);
                } else {
                    assert(f1.by_type(u).contains(x) <==> (f0.by_type(u).contains(x) && (u == t ==> x != part_id)));
                }
            }
            assert forall|x: u64| #[trigger] t0.equipped@.contains(x) <==> (t0.parts@.contains(x)
                && self.equipped_in_car@[x as int] != 0) by {
                if kt != kf {
                    assert(t0 == s0.owners@[kt as int]);
                }
            }
            assert forall|x: u64| #[trigger] t0.unequipped@.contains(x) <==> (t0.parts@.contains(x)
                && self.equipped_in_car@[x as int] == 0) by {
                if kt != kf {
                    assert(t0 == s0.owners@[kt as int]);
                }
            }
            // ownership after the move
            assert forall|o: Seq<char>, x: u64| #[trigger] self.owns(o, x) <==> ((x != part_id && s0.owns(o, x)) || (x
                == part_id && o == to_v)) by {
                if x != part_id && x < self.count() {
                    assert(self.part_owner@[x as int] == s0.part_owner@[x as int]);
                }
            }
            assert(self.entry_wf(t1)) by {
                assert forall|x: u64| #[trigger] t1.parts@.contains(x) <==> self.owns(t1.owner@, x) by {
                    lemma_push_contains(t0.parts@, part_id, x);
                }
                assert forall|x: u64, u: PartType| #[trigger] t1.by_type(u).contains(x) <==> (t1.parts@.contains(x)
                    && self.part_stats@[x as int].part_type == u) by {
                    lemma_push_contains(t0.by_type(u), part_id, x);
                    lemma_push_contains(t0.parts@, part_id, x);
                }
                assert forall|x: u64| #[trigger] t1.equipped@.contains(x) <==> (t1.parts@.contains(x)
                    && self.equipped_in_car@[x as int] != 0) by {
                    lemma_push_contains(t0.parts@, part_id, x);
                }
                assert forall|x: u64| #[trigger] t1.unequipped@.contains(x) <==> (t1.parts@.contains(x)
                    && self.equipped_in_car@[x as int] == 0) by {
                    lemma_push_contains(t0.unequipped@, part_id, x);
                    lemma_push_contains(t0.parts@, part_id, x);
                }
            }
            assert forall|j: int| 0 <= j < self.owners@.len() implies self.entry_wf(#[trigger] self.owners@[j]) by {
                if j == kf && kf != kt {
                    assert(self.owners@[j] == f1);
                    assert(from_v != to_v);
                    assert forall|x: u64| #[trigger] f1.parts@.contains(x) <==> self.owns(f1.owner@, x) by {}
                    assert forall|x: u64, u: PartType| #[trigger] f1.by_type(u).contains(x) <==> (f1.parts@.contains(x)
                        && self.part_stats@[x as int].part_type == u) by {
                        assert(f1.by_type(u).contains(x) <==> (f0.by_type(u).contains(x) && (u == t ==> x != part_id)));
                    }
                    assert forall|x: u64| #[trigger] f1.equipped@.contains(x) <==> (f1.parts@.contains(x)
                        && self.equipped_in_car@[x as int] != 0) by {}
                    assert forall|x: u64| #[trigger] f1.unequipped@.contains(x) <==> (f1.parts@.contains(x)
                        && self.equipped_in_car@[x as int] == 0) by {}
                } else if j != kt {
                    let ej = self.owners@[j];
                    assert(ej == s0.owners@[j]);
                    assert(s0.entry_wf(ej));
                    assert(ej.owner@ != to_v);
                    assert(ej.owner@ != from_v);
                    assert forall|x: u64| #[trigger] ej.parts@.contains(x) <==> self.owns(ej.owner@, x) by {}
                }
            }
            assert forall|j: int, i: int|
                0 <= j < self.owners@.len() && 0 <= i < self.owners@.len()
                    && #[trigger] self.owners@[j].owner@ == #[trigger] self.owners@[i].owner@ implies j == i by {
                assert(s0.owners@[j].owner@ == self.owners@[j].owner@);
                assert(s0.owners@[i].owner@ == self.owners@[i].owner@);
            }
            assert forall|x: u64| x < self.count() implies self.has_entry(#[trigger] self.part_owner@[x as int]@) by {
                if x == part_id {
                    assert(self.owners@[kt as int].owner@ == to_v);
                } else {
                    assert(self.part_owner@[x as int] == s0.part_owner@[x as int]);
                    assert(s0.has_entry(s0.part_owner@[x as int]@));
                    let j = s0.entry_pos(s0.part_owner@[x as int]@);
                    assert(self.owners@[j].owner@ == s0.owners@[j].owner@);
                }
            }
            assert(self.wf());
            assert(f1.parts@ == without(f0.parts@, part_id));
            assert(f1.unequipped@ == without(f0.unequipped@, part_id));
            assert(f1.equipped@ == f0.equipped@);
            assert(t1.parts@ == t0.parts@.push(part_id));
            assert(t1.unequipped@ == t0.unequipped@.push(part_id));
            assert(t1.equipped@ == t0.equipped@);
            assert forall|o: Seq<char>| #[trigger] self.parts_of(o) == moved(prev.parts_of(o), o, from_v, to_v, part_id) by {
                Self::lemma_replaced_entry_views(&s0, &s1, kf as int, o);
                Self::lemma_replaced_entry_views(&s1, self, kt as int, o);
                assert(s0.parts_of(o) == prev.parts_of(o));
            }
            assert forall|o: Seq<char>| #[trigger] self.attached_of(o) == prev.attached_of(o) by {
                Self::lemma_replaced_entry_views(&s0, &s1, kf as int, o);
                Self::lemma_replaced_entry_views(&s1, self, kt as int, o);
                assert(s0.attached_of(o) == prev.attached_of(o));
            }
            assert forall|o: Seq<char>| #[trigger] self.unattached_of(o) == moved(prev.unattached_of(o), o, from_v, to_v, part_id) by {
                Self::lemma_replaced_entry_views(&s0, &s1, kf as int, o);
                Self::lemma_replaced_entry_views(&s1, self, kt as int, o);
                assert(s0.unattached_of(o) == prev.unattached_of(o));
            }
            assert forall|o: Seq<char>, u: PartType| #[trigger] self.parts_of_type(o, u) == if u == t {
                moved(prev.parts_of_type(o, u), o, from_v, to_v, part_id)
            } else {
                prev.parts_of_type(o, u)
            } by {
                Self::lemma_replaced_entry_views(&s0, &s1, kf as int, o);
                Self::lemma_replaced_entry_views(&s1, self, kt as int, o);
                assert(s0.parts_of_type(o, u) == prev.parts_of_type(o, u));
                assert(s1.parts_of_type(o, u) == if o == from_v { f1.by_type(u) } else { s0.parts_of_type(o, u) });
            }
        }
        Ok(())
    }

    /// A fresh registry configured by `msg`.
    pub fn instantiate(msg: InstantiateMsg) -> (r: Self)
        ensures
            r.wf(),
            r.car_contract == msg.car_contract,
            r.count() == 0,
            forall|o: Seq<char>| !(#[trigger] r.has_entry(o)),
    {
        Self::new(msg.car_contract)
    }

    /// Sets the composite registry allowed to make privileged calls.
    pub fn execute_set_car_contract(&mut self, address: String)
        requires
            old(self).wf(),
        ensures
            final(self).wf(),
            *final(self) == (CarPartContract { car_contract: address, ..*old(self) }),
    {
        self.car_contract = address;
    }

    /// Carries out one command from `sender`.
    pub fn execute(&mut self, sender: &String, msg: ExecuteMsg) -> (r: Result<Option<u64>, ContractError>)
        requires
            old(self).wf(),
            old(self).count() < u64::MAX,
        ensures
            final(self).wf(),
            match msg {
                ExecuteMsg::SetCarContract { address } => r == Ok::<Option<u64>, ContractError>(None) && *final(self)
                    == (CarPartContract { car_contract: address, ..*old(self) }),
                ExecuteMsg::Mint { to, part_type, stat1, stat2, stat3, image_uri, car_id } => match r {
                    Ok(Some(id)) => final(self).mint_outcome(
                        old(self),
                        sender@,
                        to,
                        part_type,
                        stat1,
                        stat2,
                        stat3,
                        image_uri,
                        car_id,
                        Ok(id),
                    ),
                    Err(e) => final(self).mint_outcome(
                        old(self),
                        sender@,
                        to,
                        part_type,
                        stat1,
                        stat2,
                        stat3,
                        image_uri,
                        car_id,
                        Err(e),
                    ),
                    Ok(None) => false,
                },
                ExecuteMsg::SetEquippedState { part_id, car_id } => match r {
                    Ok(None) => final(self).attach_outcome(old(self), sender@, part_id, car_id, Ok(())),
                    Err(e) => final(self).attach_outcome(old(self), sender@, part_id, car_id, Err(e)),
                    Ok(Some(_)) => false,
                },
                ExecuteMsg::TransferPart { from, to, part_id } => match r {
                    Ok(None) => final(self).transfer_outcome(old(self), sender@, from@, to@, part_id, Ok(())),
                    Err(e) => final(self).transfer_outcome(old(self), sender@, from@, to@, part_id, Err(e)),
                    Ok(Some(_)) => false,
                },
            },
    {
        match msg {
            ExecuteMsg::SetCarContract { address } => {
                self.execute_set_car_contract(address);
                Ok(None)
            },
            ExecuteMsg::Mint { to, part_type, stat1, stat2, stat3, image_uri, car_id } => {
                match self.execute_mint(sender, to, part_type, stat1, stat2, stat3, image_uri, car_id) {
                    Ok(id) => Ok(Some(id)),
                    Err(e) => Err(e),
                }
            },
            ExecuteMsg::SetEquippedState { part_id, car_id } => {
                match self.execute_set_equipped_state(sender, part_id, car_id) {
                    Ok(()) => Ok(None),
                    Err(e) => Err(e),
                }
            },
            ExecuteMsg::TransferPart { from, to, part_id } => {
                match self.execute_transfer_part(sender, &from, &to, part_id) {
                    Ok(()) => Ok(None),
                    Err(e) => Err(e),
                }
            },
        }
    }

    /// Answers a read.
    pub fn query(&self, msg: &QueryMsg) -> (r: Result<QueryResponse, ContractError>)
        requires
            self.wf(),
        ensures
            match *msg {
                QueryMsg::GetPartStats { part_id } => if part_id < self.count() {
                    r == Ok::<QueryResponse, ContractError>(QueryResponse::PartStats(self.part_stats@[part_id as int]))
                } else {
                    r == Err::<QueryResponse, ContractError>(ContractError::NotFound)
                },
                QueryMsg::GetPartType { part_id } => if part_id < self.count() {
                    r == Ok::<QueryResponse, ContractError>(
                        QueryResponse::PartType(self.part_stats@[part_id as int].part_type),
                    )
                } else {
                    r == Err::<QueryResponse, ContractError>(ContractError::NotFound)
                },
                QueryMsg::IsEquipped { part_id } => r == Ok::<QueryResponse, ContractError>(
                    QueryResponse::IsEquipped(self.attached_to(part_id) != 0),
                ),
                QueryMsg::GetEquippedCar { part_id } => r == Ok::<QueryResponse, ContractError>(
                    QueryResponse::EquippedCar(self.attached_to(part_id)),
                ),
                QueryMsg::GetOwnerParts { owner } => r matches Ok(QueryResponse::PartIds(v)) && v@ == self.parts_of(
                    owner@,
                ),
                QueryMsg::GetOwnerPartsByType { owner, part_type } => r matches Ok(QueryResponse::PartIds(v)) && v@
                    == self.parts_of_type(owner@, part_type),
                QueryMsg::GetOwnerEquippedParts { owner } => r matches Ok(QueryResponse::PartIds(v)) && v@
                    == self.attached_of(owner@),
                QueryMsg::GetOwnerUnequippedParts { owner } => r matches Ok(QueryResponse::PartIds(v)) && v@
                    == self.unattached_of(owner@),
            },
    {
        match msg {
            QueryMsg::GetPartStats { part_id } => match self.query_part_stats(*part_id) {
                Ok(stats) => Ok(QueryResponse::PartStats(stats)),
                Err(e) => Err(e),
            },
            QueryMsg::GetPartType { part_id } => match self.query_part_type(*part_id) {
                Ok(t) => Ok(QueryResponse::PartType(t)),
                Err(e) => Err(e),
            },
            QueryMsg::IsEquipped { part_id } => Ok(QueryResponse::IsEquipped(self.query_is_equipped(*part_id))),
            QueryMsg::GetEquippedCar { part_id } => Ok(QueryResponse::EquippedCar(self.query_equipped_car(*part_id))),
            QueryMsg::GetOwnerParts { owner } => Ok(QueryResponse::PartIds(self.query_owner_parts(owner))),
            QueryMsg::GetOwnerPartsByType { owner, part_type } => Ok(
                QueryResponse::PartIds(self.query_owner_parts_by_type(owner, *part_type)),
            ),
            QueryMsg::GetOwnerEquippedParts { owner } => Ok(QueryResponse::PartIds(self.query_owner_equipped_parts(owner))),
            QueryMsg::GetOwnerUnequippedParts { owner } => Ok(
                QueryResponse::PartIds(self.query_owner_unequipped_parts(owner)),
            ),
        }
    }

    /// The current owner of component `part_id`.
    pub fn get_part_owner(&self, part_id: u64) -> (r: Result<&String, ContractError>)
        requires
            self.wf(),
        ensures
            part_id < self.count() ==> (r matches Ok(o) && o@ == self.part_owner@[part_id as int]@),
            part_id >= self.count() ==> r == Err::<&String, ContractError>(ContractError::NotFound),
    {
        if part_id < self.part_owner.len() as u64 {
            Ok(&self.part_owner[part_id as usize])
        } else {
            Err(ContractError::NotFound)
        }
    }

    /// Records of the component with the given id.
    pub fn query_part_stats(&self, part_id: u64) -> (r: Result<PartStats, ContractError>)
        requires
            self.wf(),
        ensures
            part_id < self.count() ==> r == Ok::<PartStats, ContractError>(
                self.part_stats@[part_id as int],
            ),
            part_id >= self.count() ==> r == Err::<PartStats, ContractError>(ContractError::NotFound),
    {
        if part_id < self.part_stats.len() as u64 {
            Ok(self.part_stats[part_id as usize].clone())
        } else {
            Err(ContractError::NotFound)
        }
    }

    /// Category of the component with the given id.
    pub fn query_part_type(&self, part_id: u64) -> (r: Result<PartType, ContractError>)
        requires
            self.wf(),
        ensures
            part_id < self.count() ==> r == Ok::<PartType, ContractError>(
                self.part_stats@[part_id as int].part_type,
            ),
            part_id >= self.count() ==> r == Err::<PartType, ContractError>(ContractError::NotFound),
    {
        if part_id < self.part_stats.len() as u64 {
            Ok(self.part_stats[part_id as usize].part_type)
        } else {
            Err(ContractError::NotFound)
        }
    }

    /// Whether the component is attached to some composite.
    pub fn query_is_equipped(&self, part_id: u64) -> (r: bool)
        requires
            self.wf(),
        ensures
            r == (self.attached_to(part_id) != 0),
    {
        self.query_equipped_car(part_id) != 0
    }

    /// The composite the component is attached to, 0 when none.
    pub fn query_equipped_car(&self, part_id: u64) -> (r: u64)
        requires
            self.wf(),
        ensures
            r == self.attached_to(part_id),
    {
        if part_id < self.equipped_in_car.len() as u64 {
            self.equipped_in_car[part_id as usize]
        } else {
            0
        }
    }

    /// Every component `owner` holds.
    pub fn query_owner_parts(&self, owner: &String) -> (r: Vec<u64>)
        requires
            self.wf(),
        ensures
            r@ == self.parts_of(owner@),
    {
        match self.find_entry(owner) {
            Some(k) => copy_list(&self.owners[k].parts),
            None => Vec::new(),
        }
    }

    /// The components of one category that `owner` holds.
    pub fn query_owner_parts_by_type(&self, owner: &String, part_type: PartType) -> (r: Vec<u64>)
        requires
            self.wf(),
        ensures
            r@ == self.parts_of_type(owner@, part_type),
    {
        match self.find_entry(owner) {
            Some(k) => match part_type {
                PartType::Engine => copy_list(&self.owners[k].engines),
                PartType::Transmission => copy_list(&self.owners[k].transmissions),
                PartType::Wheels => copy_list(&self.owners[k].wheels),
            },
            None => Vec::new(),
        }
    }

    /// The attached components that `owner` holds.
    pub fn query_owner_equipped_parts(&self, owner: &String) -> (r: Vec<u64>)
        requires
            self.wf(),
        ensures
            r@ == self.attached_of(owner@),
    {
        match self.find_entry(owner) {
            Some(k) => copy_list(&self.owners[k].equipped),
            None => Vec::new(),
        }
    }

    /// The unattached components that `owner` holds.
    pub fn query_owner_unequipped_parts(&self, owner: &String) -> (r: Vec<u64>)
        requires
            self.wf(),
        ensures
            r@ == self.unattached_of(owner@),
    {
        match self.find_entry(owner) {
            Some(k) => copy_list(&self.owners[k].unequipped),
            None => Vec::new(),
        }
    }
}

/// For every owner, the attached and unattached lists hold no repeated id,
/// share no component, and together hold exactly the owner's components.
pub proof fn lemma_owner_lists_partition(c: &CarPartContract, o: Seq<char>)
    requires
        c.wf(),
    ensures
        c.parts_of(o).no_duplicates(),
        c.attached_of(o).no_duplicates(),
        c.unattached_of(o).no_duplicates(),
        forall|id: u64| !(#[trigger] c.attached_of(o).contains(id) && c.unattached_of(o).contains(id)),
        c.attached_of(o).to_set() + c.unattached_of(o).to_set() == c.parts_of(o).to_set(),
{
    if c.has_entry(o) {
        let k = c.entry_pos(o);
        assert(c.entry_wf(c.owners@[k]));
    }
    assert(c.attached_of(o).to_set() + c.unattached_of(o).to_set() =~= c.parts_of(o).to_set());
}

/// Every minted component is held by exactly one owner, and sits in exactly
/// one of that owner's attached and unattached lists.
pub proof fn lemma_component_listed_once(c: &CarPartContract, id: u64)
    requires
        c.wf(),
        id < c.count(),
    ensures
        c.parts_of(c.part_owner@[id as int]@).contains(id),
        forall|o: Seq<char>| #[trigger] c.parts_of(o).contains(id) ==> o == c.part_owner@[id as int]@,
        c.attached_of(c.part_owner@[id as int]@).contains(id) != c.unattached_of(
            c.part_owner@[id as int]@,
        ).contains(id),
{
    let owner = c.part_owner@[id as int]@;
    assert(c.has_entry(owner));
    let k = c.entry_pos(owner);
    assert(c.entry_wf(c.owners@[k]));
    assert forall|o: Seq<char>| #[trigger] c.parts_of(o).contains(id) implies o == owner by {
        if c.has_entry(o) {
            assert(c.entry_wf(c.owners@[c.entry_pos(o)]));
        }
    }
}

/// `s` with `id` taken out when `o` is `from`, then added at the end when `o` is `to`.
pub open spec fn moved(s: Seq<u64>, o: Seq<char>, from: Seq<char>, to: Seq<char>, id: u64) -> Seq<u64> {
    let base = if o == from {
        without(s, id)
    } else {
        s
    };
    if o == to {
        base.push(id)
    } else {
        base
    }
}

/// A copy of the list.
fn copy_list(v: &Vec<u64>) -> (r: Vec<u64>)
    ensures
        r@ == v@,
{
    let mut r: Vec<u64> = Vec::new();
    let mut i: usize = 0;
    while i < v.len()
        invariant
            i <= v@.len(),
            r@ == v@.take(i as int),
        decreases v@.len() - i,
    {
        r.push(v[i]);
        i = i + 1;
        assert(r@ =~= v@.take(i as int));
    }
    assert(v@.take(v@.len() as int) =~= v@);
    r
}

} // verus!
