use vstd::prelude::*;

use crate::saga::{decimal_value, is_u64_numeral, numeral_digits, part_id_from_events, reply_id_text, Event};
use crate::types::{ContractError, PartData, PartStats, PartType, SLOT_COUNT};

verus! {

/// A composite: one slot per category, each holding a component id (0 when empty).
#[derive(Debug, PartialEq)]
pub struct CarComposition {
    pub part_ids: Vec<u64>,
    pub car_image_uri: String,
    pub slot_occupied: Vec<bool>,
}

impl CarComposition {
    /// Both slot sequences have one entry per category, and a slot marked
    /// empty holds 0.
    pub open spec fn wf(&self) -> bool {
        &&& self.part_ids@.len() == SLOT_COUNT
        &&& self.slot_occupied@.len() == SLOT_COUNT
        &&& forall|i: int| 0 <= i < SLOT_COUNT && !#[trigger] self.slot_occupied@[i] ==> self.part_ids@[i] == 0
    }

    /// Equal slot by slot, with the same image.
    pub open spec fn same(&self, other: &CarComposition) -> bool {
        &&& self.part_ids@ == other.part_ids@
        &&& self.car_image_uri == other.car_image_uri
        &&& self.slot_occupied@ == other.slot_occupied@
    }

    /// Slot `i` is the first occupied slot holding `part_id`.
    pub open spec fn holds_at(&self, part_id: u64, i: int) -> bool {
        &&& 0 <= i < self.part_ids@.len()
        &&& self.slot_occupied@[i]
        &&& self.part_ids@[i] == part_id
        &&& forall|j: int| 0 <= j < i ==> !(self.slot_occupied@[j] && #[trigger] self.part_ids@[j] == part_id)
    }

    /// Some occupied slot holds `part_id`.
    pub open spec fn holds(&self, part_id: u64) -> bool {
        exists|i: int| 0 <= i < self.part_ids@.len() && self.slot_occupied@[i] && #[trigger] self.part_ids@[i] == part_id
    }

    /// Position of the first occupied slot that holds `part_id`.
    pub fn find_part(&self, part_id: u64) -> (r: Option<usize>)
        requires
            self.wf(),
        ensures
            r is None <==> !self.holds(part_id),
            r matches Some(i) ==> self.holds_at(part_id, i as int),
    {
        let mut i: usize = 0;
        while i < self.part_ids.len()
            invariant
                self.wf(),
                i <= SLOT_COUNT,
                forall|j: int| 0 <= j < i ==> !(self.slot_occupied@[j] && #[trigger] self.part_ids@[j] == part_id),
            decreases SLOT_COUNT - i,
        {
            if self.slot_occupied[i] && self.part_ids[i] == part_id {
                return Some(i);
            }
            i = i + 1;
        }
        None
    }
}

impl Clone for CarComposition {
    fn clone(&self) -> (r: Self)
        ensures
            r.same(self),
    {
        let part_ids = self.part_ids.clone();
        let slot_occupied = self.slot_occupied.clone();
        proof {
            assert(part_ids@ =~= self.part_ids@);
            assert(slot_occupied@ =~= self.slot_occupied@);
        }
        CarComposition { part_ids, car_image_uri: self.car_image_uri.clone(), slot_occupied }
    }
}

/// The notification the composite registry sends to the component registry:
/// attach `part_id` to composite `car_id`, or detach it when `car_id` is 0.
#[derive(Clone, Copy, Debug, PartialEq, Eq, Structural)]
pub struct SetEquippedState {
    pub part_id: u64,
    pub car_id: u64,
}

/// One mint call to the component registry issued by `execute_mint_car`.
#[derive(Debug, PartialEq)]
pub struct PartMint {
    /// Correlation token: position in the batch plus one.
    pub token: u64,
    pub to: String,
    pub part_type: PartType,
    pub stat1: u8,
    pub stat2: u8,
    pub stat3: u8,
    pub image_uri: String,
    pub car_id: u64,
}

/// A mint call whose reply is still awaited: the reply carrying `token`
/// fills slot `slot_index` of composite `car_id`.
///
/// Tokens are local to one batch (position in the batch plus one), so two
/// batches share tokens 1 to 3. A reply is matched to the most recent record
/// with its token: if two mint sagas were open at once, a reply of the earlier
/// one would fill the later composite. The host runs each batch's replies
/// before any later call, which keeps this from happening.
#[derive(Clone, Copy, Debug, PartialEq, Eq, Structural)]
pub struct PendingSlot {
    pub token: u64,
    pub car_id: u64,
    pub slot_index: u64,
}

/// An amount of one denomination sent along with a call.
#[derive(Debug, PartialEq)]
pub struct Coin {
    pub denom: String,
    pub amount: u128,
}

/// The denomination mint payments are made in.
pub const PAYMENT_DENOM: &'static str = "uxion";

/// Condition of a freshly minted composite.
pub const FULL_CONDITION: u8 = 100;

/// `funds[i]` is a coin of denomination `denom` whose amount covers `price`.
pub open spec fn covering_coin(funds: Seq<Coin>, denom: Seq<char>, price: u128, i: int) -> bool {
    &&& 0 <= i < funds.len()
    &&& funds[i].denom@ == denom
    &&& funds[i].amount >= price
}

/// Some coin of denomination `denom` covers `price`; coins of other
/// denominations are ignored.
pub open spec fn payment_covers(funds: Seq<Coin>, denom: Seq<char>, price: u128) -> bool {
    exists|i: int| #[trigger] covering_coin(funds, denom, price, i)
}

/// Some part in `parts` has category `t`.
pub open spec fn has_category(parts: Seq<PartData>, t: PartType) -> bool {
    exists|i: int| 0 <= i < parts.len() && (#[trigger] parts[i]).part_type == t
}

/// Every category has a part in `parts`.
pub open spec fn covers_all_categories(parts: Seq<PartData>) -> bool {
    &&& has_category(parts, PartType::Engine)
    &&& has_category(parts, PartType::Transmission)
    &&& has_category(parts, PartType::Wheels)
}

/// Every part in `parts` has its stats in range.
pub open spec fn all_parts_valid(parts: Seq<PartData>) -> bool {
    forall|i: int| 0 <= i < parts.len() ==> (#[trigger] parts[i]).valid()
}

/// The mint call issued for `parts[i]` of a batch.
pub open spec fn mint_call(part: PartData, i: int, to: String, car_id: u64) -> PartMint {
    PartMint {
        token: (i + 1) as u64,
        to,
        part_type: part.part_type,
        stat1: part.stat1,
        stat2: part.stat2,
        stat3: part.stat3,
        image_uri: part.image_uri,
        car_id,
    }
}

/// The saga record kept for the mint call of `parts[i]` of a batch.
pub open spec fn pending_for(part: PartData, i: int, car_id: u64) -> PendingSlot {
    PendingSlot { token: (i + 1) as u64, car_id, slot_index: part.part_type.slot_spec() as u64 }
}

/// The composites one owner holds.
#[derive(Debug, PartialEq)]
pub struct OwnerCarsResponse {
    pub car_ids: Vec<u64>,
}

/// Summary of a composite: its image, derived stats and condition.
#[derive(Debug, PartialEq)]
pub struct CompactCarStats {
    pub image_uri: String,
    pub speed: u8,
    pub acceleration: u8,
    pub handling: u8,
    pub drift_factor: u8,
    pub turn_factor: u8,
    pub max_speed: u8,
    pub condition: u8,
}

/// A component as seen from the composite holding it.
#[derive(Debug, PartialEq)]
pub struct PartMetadata {
    pub part_id: u64,
    pub part_type: PartType,
    pub stats: PartStats,
    pub slot_index: u8,
}

/// A composite with the records of its components and the stats derived from them.
#[derive(Debug, PartialEq)]
pub struct FullCarMetadata {
    pub car_id: u64,
    pub car_image_uri: String,
    pub parts: Vec<PartMetadata>,
    pub total_stats: CompactCarStats,
}

/// Full metadata of each composite of one owner.
#[derive(Debug, PartialEq)]
pub struct AllCarMetadataResponse {
    pub cars: Vec<FullCarMetadata>,
}

/// A component whose record the full metadata view needs.
#[derive(Clone, Copy, Debug, PartialEq, Eq, Structural)]
pub struct PartLookup {
    pub slot_index: u8,
    pub part_id: u64,
}

/// What the component registry reports for one component.
#[derive(Debug, PartialEq)]
pub struct PartRecord {
    pub part_type: PartType,
    pub stats: PartStats,
}

/// The metadata entries for `lookups`, the `k`-th completed by `records[k]`.
pub open spec fn metadata_of(lookups: Seq<PartLookup>, records: Seq<PartRecord>) -> Seq<PartMetadata> {
    Seq::new(
        lookups.len(),
        |k: int|
            PartMetadata {
                part_id: lookups[k].part_id,
                part_type: records[k].part_type,
                stats: records[k].stats,
                slot_index: lookups[k].slot_index,
            },
    )
}

/// A transfer of coins to an address.
#[derive(Debug, PartialEq)]
pub struct BankSend {
    pub to_address: String,
    pub amount: Vec<Coin>,
}

/// Sum of the first stat over `parts`.
pub open spec fn total_stat1(parts: Seq<PartMetadata>) -> nat
    decreases parts.len(),
{
    if parts.len() == 0 {
        0
    } else {
        total_stat1(parts.drop_last()) + parts.last().stats.stat1 as nat
    }
}

/// Sum of the second stat over `parts`.
pub open spec fn total_stat2(parts: Seq<PartMetadata>) -> nat
    decreases parts.len(),
{
    if parts.len() == 0 {
        0
    } else {
        total_stat2(parts.drop_last()) + parts.last().stats.stat2 as nat
    }
}

/// Sum of the third stat over `parts`.
pub open spec fn total_stat3(parts: Seq<PartMetadata>) -> nat
    decreases parts.len(),
{
    if parts.len() == 0 {
        0
    } else {
        total_stat3(parts.drop_last()) + parts.last().stats.stat3 as nat
    }
}

/// The stats derived from the components' records: averages over the three
/// slots, two blended factors, and the total speed.
pub open spec fn derived_stats(image: String, parts: Seq<PartMetadata>, condition: u8) -> CompactCarStats {
    let speed = total_stat1(parts);
    let acceleration = total_stat2(parts);
    let handling = total_stat3(parts);
    CompactCarStats {
        image_uri: image,
        speed: (speed / 3) as u8,
        acceleration: (acceleration / 3) as u8,
        handling: (handling / 3) as u8,
        drift_factor: ((handling + acceleration) / 4) as u8,
        turn_factor: ((handling + speed) / 4) as u8,
        max_speed: speed as u8,
        condition,
    }
}

/// The slots the full metadata view reads: occupied ones holding a nonzero id, in slot order.
pub open spec fn lookups_of(car: CarComposition) -> Seq<PartLookup> {
    Seq::new(SLOT_COUNT as nat, |i: int| PartLookup { slot_index: i as u8, part_id: car.part_ids@[i] }).filter(
        |l: PartLookup| l.part_id > 0 && car.slot_occupied@[l.slot_index as int],
    )
}

/// Builds the full metadata view of composite `car_id` from the records of
/// its components, summing their stats.
pub fn assemble_full_car_metadata(car_id: u64, car_image_uri: String, condition: u8, parts: Vec<PartMetadata>) -> (r:
    FullCarMetadata)
    requires
        parts@.len() <= SLOT_COUNT,
        forall|i: int| 0 <= i < parts@.len() ==> (#[trigger] parts@[i]).stats.valid(),
    ensures
        r.car_id == car_id,
        r.car_image_uri == car_image_uri,
        r.parts@ == parts@,
        r.total_stats == derived_stats(car_image_uri, parts@, condition),
{
    let mut speed: u8 = 0;
    let mut acceleration: u8 = 0;
    let mut handling: u8 = 0;
    let mut k: usize = 0;
    while k < parts.len()
        invariant
            k <= parts@.len() <= SLOT_COUNT,
            forall|i: int| 0 <= i < parts@.len() ==> (#[trigger] parts@[i]).stats.valid(),
            speed == total_stat1(parts@.take(k as int)),
            acceleration == total_stat2(parts@.take(k as int)),
            handling == total_stat3(parts@.take(k as int)),
            speed <= 10 * k && acceleration <= 10 * k && handling <= 10 * k,
        decreases parts@.len() - k,
    {
        proof {
            let t = parts@.take(k as int + 1);
            assert(t.drop_last() =~= parts@.take(k as int));
            assert(t.last() == parts@[k as int]);
            assert(parts@[k as int].stats.valid());
        }
        speed = speed + parts[k].stats.stat1;
        acceleration = acceleration + parts[k].stats.stat2;
        handling = handling + parts[k].stats.stat3;
        k = k + 1;
    }
    proof {
        assert(parts@.take(parts@.len() as int) =~= parts@);
    }
    let total_stats = CompactCarStats {
        image_uri: car_image_uri.clone(),
        speed: speed / 3,
        acceleration: acceleration / 3,
        handling: handling / 3,
        drift_factor: (handling + acceleration) / 4,
        turn_factor: (handling + speed) / 4,
        max_speed: speed,
        condition,
    };
    FullCarMetadata { car_id, car_image_uri, parts, total_stats }
}

/// `pending[p]` is the most recent record carrying `token`.
pub open spec fn last_pending_at(pending: Seq<PendingSlot>, token: u64, p: int) -> bool {
    &&& 0 <= p < pending.len()
    &&& pending[p].token == token
    &&& forall|q: int| p < q < pending.len() ==> (#[trigger] pending[q]).token != token
}

/// Whether some coin of denomination `denom` covers `price`.
fn find_payment(funds: &Vec<Coin>, denom: &String, price: u128) -> (r: bool)
    ensures
        r == payment_covers(funds@, denom@, price),
{
    let mut i: usize = 0;
    while i < funds.len()
        invariant
            i <= funds@.len(),
            forall|j: int| 0 <= j < i ==> !#[trigger] covering_coin(funds@, denom@, price, j),
        decreases funds@.len() - i,
    {
        if funds[i].denom == *denom && funds[i].amount >= price {
            proof {
                assert(covering_coin(funds@, denom@, price, i as int));
            }
            return true;
        }
        i = i + 1;
    }
    false
}

/// What the host must do after a command of the composite registry succeeded.
#[derive(Debug, PartialEq)]
pub enum CarAction {
    /// Send these mint calls to the component registry, each replying with its token.
    MintParts(Vec<PartMint>),
    /// Send this notification to the component registry.
    Notify(SetEquippedState),
    /// Send these two notifications to the component registry, in order.
    NotifyPair(SetEquippedState, SetEquippedState),
    /// Nothing is sent.
    Updated,
    /// Read the registry's balance and pass it to `execute_withdraw_funds`.
    PayOutBalance,
}

/// Configuration of a fresh composite registry.
#[derive(Debug, PartialEq)]
pub struct InstantiateMsg {
    pub car_part_contract: String,
    pub mint_price: u128,
}

/// The calls the composite registry accepts.
#[derive(Debug, PartialEq)]
pub enum ExecuteMsg {
    MintCar { car_image_uri: String, parts_data: Vec<PartData> },
    UnequipPart { car_id: u64, part_id: u64 },
    EquipPart { car_id: u64, part_id: u64, slot_index: u64 },
    ReplacePart { car_id: u64, old_part_id: u64, new_part_id: u64 },
    SetWorkshopContract { address: String },
    SetLeaderboardContract { address: String },
    SetMintPrice { price: u128 },
    WithdrawFunds {},
}

/// The reads the composite registry answers.
#[derive(Debug, PartialEq)]
pub enum QueryMsg {
    GetCarComposition { car_id: u64 },
    GetCompactCarStats { car_id: u64 },
    GetFullCarMetadata { car_id: u64 },
    GetLastTokenId {},
    GetMintPrice {},
    GetOwnerCars { owner: String },
    GetPartStats { part_id: u64 },
    GetPartType { part_id: u64 },
    GetAllCarMetadata { owner: String },
}

/// State of the composite registry.
pub struct CarNftContract {
    /// Composite `id` is at position `id - 1`.
    pub cars: Vec<CarComposition>,
    /// Condition of each composite, parallel to `cars`.
    pub car_conditions: Vec<u8>,
    /// Owner of each composite, parallel to `cars`.
    pub car_owner: Vec<String>,
    pub workshop_contract: Option<String>,
    pub leaderboard_contract: Option<String>,
    /// The component registry.
    pub car_part_contract: String,
    pub mint_price: u128,
    pub payment_denom: String,
    /// Mint calls whose replies are still awaited, oldest first.
    pub pending: Vec<PendingSlot>,
}

impl CarNftContract {
    /// The id the next composite will get.
    pub open spec fn next_id(&self) -> nat {
        self.cars@.len() + 1
    }

    pub open spec fn has_car(&self, car_id: u64) -> bool {
        1 <= car_id < self.next_id()
    }

    pub open spec fn car(&self, car_id: u64) -> CarComposition {
        self.cars@[car_id - 1]
    }

    /// The composite's saga is complete: no mint reply for it is awaited.
    pub open spec fn complete(&self, car_id: u64) -> bool {
        forall|p: int| 0 <= p < self.pending@.len() ==> (#[trigger] self.pending@[p]).car_id != car_id
    }

    /// The registry's invariant.
    pub open spec fn wf(&self) -> bool {
        &&& self.car_conditions@.len() == self.cars@.len()
        &&& self.car_owner@.len() == self.cars@.len()
        &&& self.next_id() < u64::MAX
        &&& forall|i: int| 0 <= i < self.cars@.len() ==> (#[trigger] self.cars@[i]).wf()
        &&& forall|i: int| 0 <= i < self.cars@.len() ==> #[trigger] self.car_conditions@[i] <= FULL_CONDITION
        &&& forall|p: int|
            0 <= p < self.pending@.len() ==> {
                &&& self.has_car((#[trigger] self.pending@[p]).car_id)
                &&& self.pending@[p].slot_index < SLOT_COUNT
            }
    }

    /// A fresh registry minting through `car_part_contract` at `mint_price`.
    pub fn new(car_part_contract: String, mint_price: u128) -> (r: Self)
        ensures
            r.wf(),
            r.next_id() == 1,
            r.car_part_contract == car_part_contract,
            r.mint_price == mint_price,
            r.payment_denom@ == PAYMENT_DENOM@,
            r.pending@.len() == 0,
            r.workshop_contract is None,
            r.leaderboard_contract is None,
    {
        CarNftContract {
            cars: Vec::new(),
            car_conditions: Vec::new(),
            car_owner: Vec::new(),
            workshop_contract: None,
            leaderboard_contract: None,
            car_part_contract,
            mint_price,
            payment_denom: PAYMENT_DENOM.to_owned(),
            pending: Vec::new(),
        }
    }

    /// A fresh registry configured by `msg`.
    pub fn instantiate(msg: InstantiateMsg) -> (r: Self)
        ensures
            r.wf(),
            r.next_id() == 1,
            r.car_part_contract == msg.car_part_contract,
            r.mint_price == msg.mint_price,
            r.payment_denom@ == PAYMENT_DENOM@,
            r.pending@.len() == 0,
    {
        Self::new(msg.car_part_contract, msg.mint_price)
    }

    /// Carries out one command from `sender`, who sent `funds` along.
    pub fn execute(&mut self, sender: &String, funds: &Vec<Coin>, msg: ExecuteMsg) -> (r: Result<CarAction, ContractError>)
        requires
            old(self).wf(),
            old(self).next_id() + 1 < u64::MAX,
        ensures
            final(self).wf(),
            match msg {
                ExecuteMsg::MintCar { car_image_uri, parts_data } => match r {
                    Ok(CarAction::MintParts(calls)) => final(self).mint_car_outcome(
                        old(self),
                        *sender,
                        funds@,
                        car_image_uri,
                        parts_data@,
                        Ok(calls),
                    ),
                    Err(e) => final(self).mint_car_outcome(
                        old(self),
                        *sender,
                        funds@,
                        car_image_uri,
                        parts_data@,
                        Err(e),
                    ),
                    _ => false,
                },
                ExecuteMsg::UnequipPart { car_id, part_id } => match r {
                    Ok(CarAction::Notify(n)) => final(self).unequip_outcome(old(self), car_id, part_id, Ok(n)),
                    Err(e) => final(self).unequip_outcome(old(self), car_id, part_id, Err(e)),
                    _ => false,
                },
                ExecuteMsg::EquipPart { car_id, part_id, slot_index } => match r {
                    Ok(CarAction::Notify(n)) => final(self).equip_outcome(old(self), car_id, part_id, slot_index, Ok(n)),
                    Err(e) => final(self).equip_outcome(old(self), car_id, part_id, slot_index, Err(e)),
                    _ => false,
                },
                ExecuteMsg::ReplacePart { car_id, old_part_id, new_part_id } => match r {
                    Ok(CarAction::NotifyPair(a, b)) => final(self).replace_outcome(
                        old(self),
                        car_id,
                        old_part_id,
                        new_part_id,
                        Ok((a, b)),
                    ),
                    Err(e) => final(self).replace_outcome(old(self), car_id, old_part_id, new_part_id, Err(e)),
                    _ => false,
                },
                ExecuteMsg::SetWorkshopContract { address } => r == Ok::<CarAction, ContractError>(CarAction::Updated)
                    && *final(self) == (CarNftContract { workshop_contract: Some(address), ..*old(self) }),
                ExecuteMsg::SetLeaderboardContract { address } => r == Ok::<CarAction, ContractError>(
                    CarAction::Updated,
                ) && *final(self) == (CarNftContract { leaderboard_contract: Some(address), ..*old(self) }),
                ExecuteMsg::SetMintPrice { price } => r == Ok::<CarAction, ContractError>(CarAction::Updated)
                    && *final(self) == (CarNftContract { mint_price: price, ..*old(self) }),
                ExecuteMsg::WithdrawFunds {  } => r == Ok::<CarAction, ContractError>(CarAction::PayOutBalance)
                    && *final(self) == *old(self),
            },
    {
        match msg {
            ExecuteMsg::MintCar { car_image_uri, parts_data } => {
                match self.execute_mint_car(sender, funds, car_image_uri, parts_data) {
                    Ok(calls) => Ok(CarAction::MintParts(calls)),
                    Err(e) => Err(e),
                }
            },
            ExecuteMsg::UnequipPart { car_id, part_id } => match self.execute_unequip_part(car_id, part_id) {
                Ok(n) => Ok(CarAction::Notify(n)),
                Err(e) => Err(e),
            },
            ExecuteMsg::EquipPart { car_id, part_id, slot_index } => {
                match self.execute_equip_part(car_id, part_id, slot_index) {
                    Ok(n) => Ok(CarAction::Notify(n)),
                    Err(e) => Err(e),
                }
            },
            ExecuteMsg::ReplacePart { car_id, old_part_id, new_part_id } => {
                match self.execute_replace_part(car_id, old_part_id, new_part_id) {
                    Ok((a, b)) => Ok(CarAction::NotifyPair(a, b)),
                    Err(e) => Err(e),
                }
            },
            ExecuteMsg::SetWorkshopContract { address } => {
                self.execute_set_workshop_contract(address);
                Ok(CarAction::Updated)
            },
            ExecuteMsg::SetLeaderboardContract { address } => {
                self.execute_set_leaderboard_contract(address);
                Ok(CarAction::Updated)
            },
            ExecuteMsg::SetMintPrice { price } => {
                self.execute_set_mint_price(price);
                Ok(CarAction::Updated)
            },
            ExecuteMsg::WithdrawFunds {  } => Ok(CarAction::PayOutBalance),
        }
    }

    /// The composite with the given id.
    pub fn query_car_composition(&self, car_id: u64) -> (r: Result<CarComposition, ContractError>)
        requires
            self.wf(),
        ensures
            self.has_car(car_id) ==> (r matches Ok(c) && c.same(&self.car(car_id))),
            !self.has_car(car_id) ==> r == Err::<CarComposition, ContractError>(ContractError::NotFound),
    {
        if car_id >= 1 && car_id <= self.cars.len() as u64 {
            Ok(self.cars[(car_id - 1) as usize].clone())
        } else {
            Err(ContractError::NotFound)
        }
    }

    /// The id the next composite will get.
    pub fn query_last_token_id(&self) -> (r: u64)
        requires
            self.wf(),
        ensures
            r == self.next_id(),
    {
        self.cars.len() as u64 + 1
    }

    /// The price of minting a composite.
    pub fn query_mint_price(&self) -> (r: u128)
        ensures
            r == self.mint_price,
    {
        self.mint_price
    }

    /// Sets the price of minting a composite.
    pub fn execute_set_mint_price(&mut self, price: u128)
        ensures
            *final(self) == (CarNftContract { mint_price: price, ..*old(self) }),
    {
        self.mint_price = price;
    }

    /// Records the workshop service's address.
    pub fn execute_set_workshop_contract(&mut self, address: String)
        ensures
            *final(self) == (CarNftContract { workshop_contract: Some(address), ..*old(self) }),
    {
        self.workshop_contract = Some(address);
    }

    /// Records the leaderboard service's address.
    pub fn execute_set_leaderboard_contract(&mut self, address: String)
        ensures
            *final(self) == (CarNftContract { leaderboard_contract: Some(address), ..*old(self) }),
    {
        self.leaderboard_contract = Some(address);
    }

    /// Puts component `part_id` into empty slot `slot_index` of composite
    /// `car_id`, and returns the notification that attaches it.
    pub fn execute_equip_part(&mut self, car_id: u64, part_id: u64, slot_index: u64) -> (r: Result<
        SetEquippedState,
        ContractError,
    >)
        requires
            old(self).wf(),
        ensures
            final(self).wf(),
            final(self).equip_outcome(old(self), car_id, part_id, slot_index, r),
    {
        if car_id < 1 || car_id > self.cars.len() as u64 {
            return Err(ContractError::NotFound);
        }
        let pos = (car_id - 1) as usize;
        if slot_index >= SLOT_COUNT as u64 {
            return Err(ContractError::InvalidSlot);
        }
        let slot = slot_index as usize;
        if self.cars[pos].slot_occupied[slot] {
            return Err(ContractError::SlotOccupied);
        }
        let ghost prev = *self;
        let mut car = CarComposition { part_ids: Vec::new(), car_image_uri: String::new(), slot_occupied: Vec::new() };
        self.cars.set_and_swap(pos, &mut car);
        car.part_ids.set(slot, part_id);
        car.slot_occupied.set(slot, true);
        self.cars.set(pos, car);
        proof {
            assert forall|i: int| 0 <= i < self.cars@.len() implies (#[trigger] self.cars@[i]).wf() by {
                if i != pos {
                    assert(self.cars@[i] == prev.cars@[i]);
                }
            }
        }
        Ok(SetEquippedState { part_id, car_id })
    }

    /// `self` is `prev` with composite `prev.next_id()` added for `owner`,
    /// its slots empty but marked occupied until the replies of `parts` land.
    pub open spec fn car_minted(&self, prev: &Self, owner: String, image: String, parts: Seq<PartData>) -> bool {
        let id = prev.next_id() as u64;
        &&& self.cars@.len() == prev.cars@.len() + 1
        &&& forall|i: int| 0 <= i < prev.cars@.len() ==> #[trigger] self.cars@[i] == prev.cars@[i]
        &&& self.car(id).part_ids@ == seq![0u64, 0u64, 0u64]
        &&& self.car(id).slot_occupied@ == seq![true, true, true]
        &&& self.car(id).car_image_uri == image
        &&& self.car_conditions@ == prev.car_conditions@.push(FULL_CONDITION)
        &&& self.car_owner@ == prev.car_owner@.push(owner)
        &&& self.pending@ == prev.pending@ + Seq::new(parts.len(), |i: int| pending_for(parts[i], i, id))
        &&& self.workshop_contract == prev.workshop_contract
        &&& self.leaderboard_contract == prev.leaderboard_contract
        &&& self.car_part_contract == prev.car_part_contract
        &&& self.mint_price == prev.mint_price
        &&& self.payment_denom == prev.payment_denom
    }

    /// The result of a mint of a composite for `owner` paid with `funds`:
    /// refused on the first check that fails, in this order (payment, number
    /// of parts, stats, categories), otherwise the composite is added and one
    /// mint call per part is returned.
    pub open spec fn mint_car_outcome(
        &self,
        prev: &Self,
        owner: String,
        funds: Seq<Coin>,
        image: String,
        parts: Seq<PartData>,
        r: Result<Vec<PartMint>, ContractError>,
    ) -> bool {
        if !payment_covers(funds, prev.payment_denom@, prev.mint_price) {
            r == Err::<Vec<PartMint>, ContractError>(ContractError::InsufficientPayment) && *self == *prev
        } else if parts.len() > SLOT_COUNT {
            r == Err::<Vec<PartMint>, ContractError>(ContractError::TooManyParts) && *self == *prev
        } else if !all_parts_valid(parts) {
            r == Err::<Vec<PartMint>, ContractError>(ContractError::InvalidStat) && *self == *prev
        } else if !covers_all_categories(parts) {
            r == Err::<Vec<PartMint>, ContractError>(ContractError::MissingRequiredParts) && *self == *prev
        } else {
            &&& (r matches Ok(calls) && calls@ == Seq::new(
                parts.len(),
                |i: int| mint_call(parts[i], i, owner, prev.next_id() as u64),
            ))
            &&& self.car_minted(prev, owner, image, parts)
        }
    }

    /// The result of equipping `part_id` into slot `slot_index` of composite `car_id`.
    pub open spec fn equip_outcome(
        &self,
        prev: &Self,
        car_id: u64,
        part_id: u64,
        slot_index: u64,
        r: Result<SetEquippedState, ContractError>,
    ) -> bool {
        if !prev.has_car(car_id) {
            r == Err::<SetEquippedState, ContractError>(ContractError::NotFound) && *self == *prev
        } else if slot_index >= SLOT_COUNT {
            r == Err::<SetEquippedState, ContractError>(ContractError::InvalidSlot) && *self == *prev
        } else if prev.car(car_id).slot_occupied@[slot_index as int] {
            r == Err::<SetEquippedState, ContractError>(ContractError::SlotOccupied) && *self == *prev
        } else {
            &&& r == Ok::<SetEquippedState, ContractError>(SetEquippedState { part_id, car_id })
            &&& self.slots_replaced(
                prev,
                car_id,
                prev.car(car_id).part_ids@.update(slot_index as int, part_id),
                prev.car(car_id).slot_occupied@.update(slot_index as int, true),
            )
        }
    }

    /// The result of unequipping `part_id` from composite `car_id`.
    pub open spec fn unequip_outcome(
        &self,
        prev: &Self,
        car_id: u64,
        part_id: u64,
        r: Result<SetEquippedState, ContractError>,
    ) -> bool {
        if !prev.has_car(car_id) {
            r == Err::<SetEquippedState, ContractError>(ContractError::NotFound) && *self == *prev
        } else if !prev.car(car_id).holds(part_id) {
            r == Err::<SetEquippedState, ContractError>(ContractError::ComponentNotEquippedHere) && *self == *prev
        } else {
            exists|i: int|
                #[trigger] prev.car(car_id).holds_at(part_id, i) && {
                    &&& r == Ok::<SetEquippedState, ContractError>(SetEquippedState { part_id, car_id: 0 })
                    &&& self.slots_replaced(
                        prev,
                        car_id,
                        prev.car(car_id).part_ids@.update(i, 0),
                        prev.car(car_id).slot_occupied@.update(i, false),
                    )
                }
        }
    }

    /// The result of replacing `old_part_id` by `new_part_id` in composite `car_id`.
    pub open spec fn replace_outcome(
        &self,
        prev: &Self,
        car_id: u64,
        old_part_id: u64,
        new_part_id: u64,
        r: Result<(SetEquippedState, SetEquippedState), ContractError>,
    ) -> bool {
        if !prev.has_car(car_id) {
            r == Err::<(SetEquippedState, SetEquippedState), ContractError>(ContractError::NotFound) && *self == *prev
        } else if !prev.car(car_id).holds(old_part_id) {
            r == Err::<(SetEquippedState, SetEquippedState), ContractError>(ContractError::ComponentNotEquippedHere)
                && *self == *prev
        } else {
            exists|i: int|
                #[trigger] prev.car(car_id).holds_at(old_part_id, i) && self.part_replaced(
                    prev,
                    car_id,
                    old_part_id,
                    new_part_id,
                    i,
                    r,
                )
        }
    }

    /// Mints a composite for `sender` with one component per entry of
    /// `parts_data`, and returns the mint calls to send to the component
    /// registry; their replies fill the composite's slots.
    pub fn execute_mint_car(
        &mut self,
        sender: &String,
        funds: &Vec<Coin>,
        car_image_uri: String,
        parts_data: Vec<PartData>,
    ) -> (r: Result<Vec<PartMint>, ContractError>)
        requires
            old(self).wf(),
            old(self).next_id() + 1 < u64::MAX,
        ensures
            final(self).wf(),
            final(self).mint_car_outcome(old(self), *sender, funds@, car_image_uri, parts_data@, r),
    {
        if !find_payment(funds, &self.payment_denom, self.mint_price) {
            return Err(ContractError::InsufficientPayment);
        }
        if parts_data.len() > SLOT_COUNT {
            return Err(ContractError::TooManyParts);
        }
        let mut has_engine = false;
        let mut has_transmission = false;
        let mut has_wheels = false;
        let mut k: usize = 0;
        while k < parts_data.len()
            invariant
                self.wf(),
                payment_covers(funds@, self.payment_denom@, self.mint_price),
                parts_data@.len() <= SLOT_COUNT,
                k <= parts_data@.len(),
                forall|j: int| 0 <= j < k ==> (#[trigger] parts_data@[j]).valid(),
                has_engine == exists|j: int| 0 <= j < k && (#[trigger] parts_data@[j]).part_type == PartType::Engine,
                has_transmission == exists|j: int|
                    0 <= j < k && (#[trigger] parts_data@[j]).part_type == PartType::Transmission,
                has_wheels == exists|j: int| 0 <= j < k && (#[trigger] parts_data@[j]).part_type == PartType::Wheels,
            decreases parts_data@.len() - k,
        {
            let part = &parts_data[k];
            match part.part_type {
                PartType::Engine => {
                    has_engine = true;
                },
                PartType::Transmission => {
                    has_transmission = true;
                },
                PartType::Wheels => {
                    has_wheels = true;
                },
            }
            if !crate::types::check_stats(part.stat1, part.stat2, part.stat3) {
                return Err(ContractError::InvalidStat);
            }
            k = k + 1;
        }
        if !has_engine || !has_transmission || !has_wheels {
            return Err(ContractError::MissingRequiredParts);
        }
        let ghost prev = *self;
        let car_id = self.cars.len() as u64 + 1;
        let mut calls: Vec<PartMint> = Vec::new();
        let mut k: usize = 0;
        while k < parts_data.len()
            invariant
                k <= parts_data@.len(),
                car_id == prev.next_id(),
                *self == (CarNftContract { pending: self.pending, ..prev }),
                calls@ == Seq::new(k as nat, |i: int| mint_call(parts_data@[i], i, *sender, car_id)),
                self.pending@ == prev.pending@ + Seq::new(k as nat, |i: int| pending_for(parts_data@[i], i, car_id)),
                parts_data@.len() <= SLOT_COUNT,
            decreases parts_data@.len() - k,
        {
            let part = &parts_data[k];
            calls.push(
                PartMint {
                    token: k as u64 + 1,
                    to: sender.clone(),
                    part_type: part.part_type,
                    stat1: part.stat1,
                    stat2: part.stat2,
                    stat3: part.stat3,
                    image_uri: part.image_uri.clone(),
                    car_id,
                },
            );
            self.pending.push(PendingSlot { token: k as u64 + 1, car_id, slot_index: part.part_type.slot() as u64 });
            k = k + 1;
            proof {
                assert(calls@ =~= Seq::new(k as nat, |i: int| mint_call(parts_data@[i], i, *sender, car_id)));
                assert(self.pending@ =~= prev.pending@ + Seq::new(k as nat, |i: int| pending_for(parts_data@[i], i, car_id)));
            }
        }
        let mut part_ids: Vec<u64> = Vec::new();
        part_ids.push(0);
        part_ids.push(0);
        part_ids.push(0);
        let mut slot_occupied: Vec<bool> = Vec::new();
        slot_occupied.push(true);
        slot_occupied.push(true);
        slot_occupied.push(true);
        self.cars.push(CarComposition { part_ids, car_image_uri, slot_occupied });
        self.car_conditions.push(FULL_CONDITION);
        self.car_owner.push(sender.clone());
        proof {
            assert(self.car(car_id).part_ids@ =~= seq![0u64, 0u64, 0u64]);
            assert(self.car(car_id).slot_occupied@ =~= seq![true, true, true]);
            assert forall|i: int| 0 <= i < self.cars@.len() implies (#[trigger] self.cars@[i]).wf() by {
                if i < prev.cars@.len() {
                    assert(self.cars@[i] == prev.cars@[i]);
                }
            }
            assert forall|i: int| 0 <= i < self.cars@.len() implies #[trigger] self.car_conditions@[i] <= FULL_CONDITION by {
                if i < prev.cars@.len() {
                    assert(self.car_conditions@[i] == prev.car_conditions@[i]);
                }
            }
            assert forall|p: int| 0 <= p < self.pending@.len() implies {
                &&& self.has_car((#[trigger] self.pending@[p]).car_id)
                &&& self.pending@[p].slot_index < SLOT_COUNT
            } by {
                if p < prev.pending@.len() {
                    assert(self.pending@[p] == prev.pending@[p]);
                } else {
                    let i = p - prev.pending@.len();
                    assert(self.pending@[p] == pending_for(parts_data@[i], i, car_id));
                }
            }
        }
        Ok(calls)
    }

    /// `self` is `prev` after the reply carrying `token` delivered component
    /// `part_id`: the most recent record for `token` is consumed and its slot
    /// holds `part_id`; with no such record, the reply is refused.
    pub open spec fn slot_filled(&self, prev: &Self, token: u64, part_id: u64, r: Result<PendingSlot, ContractError>) -> bool {
        if exists|p: int| #[trigger] last_pending_at(prev.pending@, token, p) {
            exists|p: int| #[trigger] last_pending_at(prev.pending@, token, p) && {
                let rec = prev.pending@[p];
                let car = prev.car(rec.car_id);
                &&& r == Ok::<PendingSlot, ContractError>(rec)
                &&& self.pending@ == prev.pending@.remove(p)
                &&& self.cars@.len() == prev.cars@.len()
                &&& forall|i: int| 0 <= i < prev.cars@.len() && i != rec.car_id - 1 ==> #[trigger] self.cars@[i] == prev.cars@[i]
                &&& self.car(rec.car_id).part_ids@ == car.part_ids@.update(rec.slot_index as int, part_id)
                &&& self.car(rec.car_id).slot_occupied@ == car.slot_occupied@.update(rec.slot_index as int, true)
                &&& self.car(rec.car_id).car_image_uri == car.car_image_uri
                &&& *self == (CarNftContract { cars: self.cars, pending: self.pending, ..*prev })
            }
        } else {
            r == Err::<PendingSlot, ContractError>(ContractError::NotFound) && *self == *prev
        }
    }

    /// Completes one step of a mint saga: the component `part_id` minted for
    /// the call tagged `token` goes into the slot recorded for that call.
    /// The most recent record with `token` is used; tokens repeat across
    /// batches, so interleaved sagas would be confused (see `PendingSlot`).
    #[verifier::rlimit(30)]
    pub fn fill_pending_slot(&mut self, token: u64, part_id: u64) -> (r: Result<PendingSlot, ContractError>)
        requires
            old(self).wf(),
        ensures
            final(self).wf(),
            final(self).slot_filled(old(self), token, part_id, r),
    {
        let mut p: usize = self.pending.len();
        while p > 0
            invariant
                p <= self.pending@.len(),
                forall|q: int| p <= q < self.pending@.len() ==> (#[trigger] self.pending@[q]).token != token,
            ensures
                p <= self.pending@.len(),
                forall|q: int| p <= q < self.pending@.len() ==> (#[trigger] self.pending@[q]).token != token,
                p == 0 || self.pending@[p - 1].token == token,
            decreases p,
        {
            if self.pending[p - 1].token == token {
                break;
            }
            p = p - 1;
        }
        if p == 0 {
            proof {
                assert forall|q: int| !#[trigger] last_pending_at(self.pending@, token, q) by {}
            }
            return Err(ContractError::NotFound);
        }
        let ghost prev = *self;
        let at = p - 1;
        proof {
            assert(last_pending_at(prev.pending@, token, at as int));
        }
        let rec = self.pending.remove(at);
        let ncars = self.cars.len();
        proof {
            assert(rec == prev.pending@[at as int]);
            assert(prev.has_car(rec.car_id));
            assert(rec.car_id - 1 < self.cars@.len());
            assert(self.cars@.len() == ncars);
        }
        let pos = (rec.car_id - 1) as usize;
        let slot = rec.slot_index as usize;
        proof {
            assert(pos == rec.car_id - 1);
        }
        let mut car = CarComposition { part_ids: Vec::new(), car_image_uri: String::new(), slot_occupied: Vec::new() };
        self.cars.set_and_swap(pos, &mut car);
        car.part_ids.set(slot, part_id);
        car.slot_occupied.set(slot, true);
        self.cars.set(pos, car);
        proof {
            assert forall|i: int| 0 <= i < self.cars@.len() implies (#[trigger] self.cars@[i]).wf() by {
                if i != pos {
                    assert(self.cars@[i] == prev.cars@[i]);
                }
            }
            assert forall|q: int| 0 <= q < self.pending@.len() implies {
                &&& self.has_car((#[trigger] self.pending@[q]).car_id)
                &&& self.pending@[q].slot_index < SLOT_COUNT
            } by {
                if q < at {
                    assert(self.pending@[q] == prev.pending@[q]);
                } else {
                    assert(self.pending@[q] == prev.pending@[q + 1]);
                }
            }
            assert forall|q: int| #[trigger] last_pending_at(prev.pending@, token, q) implies q == at by {
                if q < at {
                    assert(prev.pending@[at as int].token == token);
                }
            }
            let car0 = prev.car(rec.car_id);
            assert(rec == prev.pending@[at as int]);
            assert(self.pending@ == prev.pending@.remove(at as int));
            assert forall|i: int| 0 <= i < prev.cars@.len() && i != rec.car_id - 1 implies #[trigger] self.cars@[i] == prev.cars@[i] by {
                assert(i != pos);
            }
            assert(self.car(rec.car_id).part_ids@ == car0.part_ids@.update(rec.slot_index as int, part_id));
            assert(self.car(rec.car_id).slot_occupied@ == car0.slot_occupied@.update(rec.slot_index as int, true));
            assert(*self == (CarNftContract { cars: self.cars, pending: self.pending, ..prev }));
            assert(last_pending_at(prev.pending@, token, at as int));
        }
        Ok(rec)
    }

    /// Handles the reply to the mint call tagged `token`: reads the minted
    /// component's id from the reply's events and fills the recorded slot.
    pub fn reply(&mut self, token: u64, events: &Vec<Event>) -> (r: Result<PendingSlot, ContractError>)
        requires
            old(self).wf(),
        ensures
            final(self).wf(),
            (forall|text: Seq<char>| #[trigger] reply_id_text(events@, text) ==> !is_u64_numeral(text)) ==> r
                == Err::<PendingSlot, ContractError>(ContractError::MalformedReply) && *final(self) == *old(self),
            forall|text: Seq<char>|
                #[trigger] reply_id_text(events@, text) && is_u64_numeral(text) ==> final(self).slot_filled(
                    old(self),
                    token,
                    decimal_value(numeral_digits(text)) as u64,
                    r,
                ),
    {
        match part_id_from_events(events) {
            Ok(part_id) => {
                let r = self.fill_pending_slot(token, part_id);
                proof {
                    let text = choose|text: Seq<char>| #[trigger] reply_id_text(events@, text) && is_u64_numeral(text)
                        && part_id == decimal_value(numeral_digits(text));
                    assert forall|t: Seq<char>| #[trigger] reply_id_text(events@, t) && is_u64_numeral(t) implies t == text by {
                        crate::saga::lemma_reply_id_text_unique(events@, t, text);
                    }
                }
                r
            },
            Err(e) => Err(e),
        }
    }

    /// Ids of the composites `owner` holds, ascending.
    pub fn query_owner_cars(&self, owner: &String) -> (r: OwnerCarsResponse)
        requires
            self.wf(),
        ensures
            r.car_ids@ == Seq::new(self.cars@.len(), |i: int| (i + 1) as u64).filter(
                |id: u64| self.car_owner@[id - 1]@ == owner@,
            ),
    {
        let ghost all = Seq::new(self.cars@.len(), |i: int| (i + 1) as u64);
        let ghost pred = |id: u64| self.car_owner@[id - 1]@ == owner@;
        let mut car_ids: Vec<u64> = Vec::new();
        let mut i: usize = 0;
        while i < self.car_owner.len()
            invariant
                self.wf(),
                i <= self.cars@.len(),
                all == Seq::new(self.cars@.len(), |i: int| (i + 1) as u64),
                pred == (|id: u64| self.car_owner@[id - 1]@ == owner@),
                car_ids@ == all.take(i as int).filter(pred),
            decreases self.cars@.len() - i,
        {
            proof {
                reveal_with_fuel(Seq::filter, 1);
                assert(all.take(i as int + 1).drop_last() =~= all.take(i as int));
                assert(all.take(i as int + 1).last() == (i + 1) as u64);
            }
            if self.car_owner[i] == *owner {
                car_ids.push(i as u64 + 1);
            }
            i = i + 1;
        }
        proof {
            assert(all.take(self.cars@.len() as int) =~= all);
        }
        OwnerCarsResponse { car_ids }
    }

    /// The compact view of composite `car_id`: its image and condition; the
    /// stat fields are left at 0 (the full metadata view derives them).
    pub fn query_compact_car_stats(&self, car_id: u64) -> (r: Result<CompactCarStats, ContractError>)
        requires
            self.wf(),
        ensures
            !self.has_car(car_id) ==> r == Err::<CompactCarStats, ContractError>(ContractError::NotFound),
            self.has_car(car_id) ==> r == Ok::<CompactCarStats, ContractError>(
                CompactCarStats {
                    image_uri: self.car(car_id).car_image_uri,
                    speed: 0,
                    acceleration: 0,
                    handling: 0,
                    drift_factor: 0,
                    turn_factor: 0,
                    max_speed: 0,
                    condition: self.car_conditions@[car_id - 1],
                },
            ),
    {
        if car_id < 1 || car_id > self.cars.len() as u64 {
            return Err(ContractError::NotFound);
        }
        let pos = (car_id - 1) as usize;
        Ok(
            CompactCarStats {
                image_uri: self.cars[pos].car_image_uri.clone(),
                speed: 0,
                acceleration: 0,
                handling: 0,
                drift_factor: 0,
                turn_factor: 0,
                max_speed: 0,
                condition: self.car_conditions[pos],
            },
        )
    }

    /// The components whose records the full metadata view of composite
    /// `car_id` needs, in slot order.
    pub fn query_part_lookups(&self, car_id: u64) -> (r: Result<Vec<PartLookup>, ContractError>)
        requires
            self.wf(),
        ensures
            !self.has_car(car_id) ==> r == Err::<Vec<PartLookup>, ContractError>(ContractError::NotFound),
            self.has_car(car_id) ==> (r matches Ok(v) && v@ == lookups_of(self.car(car_id))),
    {
        if car_id < 1 || car_id > self.cars.len() as u64 {
            return Err(ContractError::NotFound);
        }
        let car = &self.cars[(car_id - 1) as usize];
        let ghost all = Seq::new(SLOT_COUNT as nat, |i: int| PartLookup { slot_index: i as u8, part_id: car.part_ids@[i] });
        let ghost pred = |l: PartLookup| l.part_id > 0 && car.slot_occupied@[l.slot_index as int];
        let mut out: Vec<PartLookup> = Vec::new();
        let mut i: usize = 0;
        while i < SLOT_COUNT
            invariant
                car.wf(),
                i <= SLOT_COUNT,
                all == Seq::new(SLOT_COUNT as nat, |i: int| PartLookup { slot_index: i as u8, part_id: car.part_ids@[i] }),
                pred == (|l: PartLookup| l.part_id > 0 && car.slot_occupied@[l.slot_index as int]),
                out@ == all.take(i as int).filter(pred),
            decreases SLOT_COUNT - i,
        {
            proof {
                reveal_with_fuel(Seq::filter, 1);
                assert(all.take(i as int + 1).drop_last() =~= all.take(i as int));
                assert(all.take(i as int + 1).last() == all[i as int]);
            }
            if car.part_ids[i] > 0 && car.slot_occupied[i] {
                out.push(PartLookup { slot_index: i as u8, part_id: car.part_ids[i] });
            }
            i = i + 1;
        }
        proof {
            assert(all.take(SLOT_COUNT as int) =~= all);
        }
        Ok(out)
    }

    /// The full metadata view of composite `car_id`. `records[k]` is what the
    /// component registry reports for the `k`-th component that
    /// `query_part_lookups` names; ids, slot indexes and order come from the
    /// composite itself.
    pub fn query_full_car_metadata(&self, car_id: u64, records: Vec<PartRecord>) -> (r: Result<
        FullCarMetadata,
        ContractError,
    >)
        requires
            self.wf(),
            self.has_car(car_id) ==> records@.len() == lookups_of(self.car(car_id)).len(),
            forall|i: int| 0 <= i < records@.len() ==> (#[trigger] records@[i]).stats.valid(),
        ensures
            !self.has_car(car_id) ==> r == Err::<FullCarMetadata, ContractError>(ContractError::NotFound),
            self.has_car(car_id) ==> (r matches Ok(m) && m.car_id == car_id && m.car_image_uri == self.car(
                car_id,
            ).car_image_uri && m.parts@ == metadata_of(lookups_of(self.car(car_id)), records@) && m.total_stats
                == derived_stats(
                self.car(car_id).car_image_uri,
                metadata_of(lookups_of(self.car(car_id)), records@),
                self.car_conditions@[car_id - 1],
            )),
    {
        if car_id < 1 || car_id > self.cars.len() as u64 {
            return Err(ContractError::NotFound);
        }
        let pos = (car_id - 1) as usize;
        let lookups = match self.query_part_lookups(car_id) {
            Ok(l) => l,
            Err(e) => {
                return Err(e);
            },
        };
        proof {
            let car = self.car(car_id);
            let all = Seq::new(SLOT_COUNT as nat, |i: int| PartLookup { slot_index: i as u8, part_id: car.part_ids@[i] });
            all.lemma_filter_len(|l: PartLookup| l.part_id > 0 && car.slot_occupied@[l.slot_index as int]);
        }
        let mut parts: Vec<PartMetadata> = Vec::new();
        let mut k: usize = 0;
        while k < lookups.len()
            invariant
                self.has_car(car_id),
                lookups@ == lookups_of(self.car(car_id)),
                k <= lookups@.len() <= SLOT_COUNT,
                records@.len() == lookups@.len(),
                forall|i: int| 0 <= i < records@.len() ==> (#[trigger] records@[i]).stats.valid(),
                parts@ == metadata_of(lookups@, records@).take(k as int),
            decreases lookups@.len() - k,
        {
            let rec = &records[k];
            parts.push(
                PartMetadata {
                    part_id: lookups[k].part_id,
                    part_type: rec.part_type,
                    stats: rec.stats.clone(),
                    slot_index: lookups[k].slot_index,
                },
            );
            k = k + 1;
            proof {
                assert(parts@ =~= metadata_of(lookups@, records@).take(k as int));
            }
        }
        proof {
            assert(metadata_of(lookups@, records@).take(k as int) =~= metadata_of(lookups@, records@));
        }
        Ok(assemble_full_car_metadata(car_id, self.cars[pos].car_image_uri.clone(), self.car_conditions[pos], parts))
    }

    /// Pays the whole `balance` out to `sender`.
    pub fn execute_withdraw_funds(&self, sender: &String, balance: Vec<Coin>) -> (r: Result<BankSend, ContractError>)
        ensures
            balance@.len() == 0 ==> r == Err::<BankSend, ContractError>(ContractError::NoBalance),
            balance@.len() > 0 ==> r == Ok::<BankSend, ContractError>(BankSend { to_address: *sender, amount: balance }),
    {
        if balance.len() == 0 {
            return Err(ContractError::NoBalance);
        }
        Ok(BankSend { to_address: sender.clone(), amount: balance })
    }

    /// `self` is `prev` with composite `car_id` holding `part_ids` and
    /// `slot_occupied` in place of its old slot sequences.
    pub open spec fn slots_replaced(&self, prev: &Self, car_id: u64, part_ids: Seq<u64>, slot_occupied: Seq<bool>) -> bool {
        &&& self.cars@.len() == prev.cars@.len()
        &&& forall|i: int| 0 <= i < prev.cars@.len() && i != car_id - 1 ==> #[trigger] self.cars@[i] == prev.cars@[i]
        &&& self.car(car_id).part_ids@ == part_ids
        &&& self.car(car_id).slot_occupied@ == slot_occupied
        &&& self.car(car_id).car_image_uri == prev.car(car_id).car_image_uri
        &&& *self == (CarNftContract { cars: self.cars, ..*prev })
    }

    /// Empties the slot of composite `car_id` that holds component `part_id`,
    /// and returns the notification that detaches it.
    pub fn execute_unequip_part(&mut self, car_id: u64, part_id: u64) -> (r: Result<SetEquippedState, ContractError>)
        requires
            old(self).wf(),
        ensures
            final(self).wf(),
            final(self).unequip_outcome(old(self), car_id, part_id, r),
    {
        if car_id < 1 || car_id > self.cars.len() as u64 {
            return Err(ContractError::NotFound);
        }
        let pos = (car_id - 1) as usize;
        let slot = match self.cars[pos].find_part(part_id) {
            Some(i) => i,
            None => {
                return Err(ContractError::ComponentNotEquippedHere);
            },
        };
        let ghost prev = *self;
        let mut car = CarComposition { part_ids: Vec::new(), car_image_uri: String::new(), slot_occupied: Vec::new() };
        self.cars.set_and_swap(pos, &mut car);
        car.part_ids.set(slot, 0);
        car.slot_occupied.set(slot, false);
        self.cars.set(pos, car);
        proof {
            assert forall|i: int| 0 <= i < self.cars@.len() implies (#[trigger] self.cars@[i]).wf() by {
                if i != pos {
                    assert(self.cars@[i] == prev.cars@[i]);
                }
            }
            assert(prev.car(car_id).holds_at(part_id, slot as int));
        }
        Ok(SetEquippedState { part_id, car_id: 0 })
    }

    /// `self` is `prev` with `new_part_id` written into slot `i` of composite
    /// `car_id` (its occupancy unchanged), and `r` holds the notifications that
    /// detach `old_part_id` and attach `new_part_id`, in that order.
    pub open spec fn part_replaced(
        &self,
        prev: &Self,
        car_id: u64,
        old_part_id: u64,
        new_part_id: u64,
        i: int,
        r: Result<(SetEquippedState, SetEquippedState), ContractError>,
    ) -> bool {
        &&& r == Ok::<(SetEquippedState, SetEquippedState), ContractError>(
            (SetEquippedState { part_id: old_part_id, car_id: 0 }, SetEquippedState { part_id: new_part_id, car_id }),
        )
        &&& self.slots_replaced(
            prev,
            car_id,
            prev.car(car_id).part_ids@.update(i, new_part_id),
            prev.car(car_id).slot_occupied@,
        )
    }

    /// Puts component `new_part_id` in the slot of composite `car_id` that
    /// holds `old_part_id`, and returns the notifications that detach the old
    /// component and attach the new one, in that order.
    ///
    /// Known gap, kept on purpose: nothing checks that the new component has
    /// the category of the slot, nor that it is not attached to another
    /// composite already.
    pub fn execute_replace_part(&mut self, car_id: u64, old_part_id: u64, new_part_id: u64) -> (r: Result<
        (SetEquippedState, SetEquippedState),
        ContractError,
    >)
        requires
            old(self).wf(),
        ensures
            final(self).wf(),
            final(self).replace_outcome(old(self), car_id, old_part_id, new_part_id, r),
    {
        if car_id < 1 || car_id > self.cars.len() as u64 {
            return Err(ContractError::NotFound);
        }
        let pos = (car_id - 1) as usize;
        let slot = match self.cars[pos].find_part(old_part_id) {
            Some(i) => i,
            None => {
                return Err(ContractError::ComponentNotEquippedHere);
            },
        };
        let ghost prev = *self;
        let mut car = CarComposition { part_ids: Vec::new(), car_image_uri: String::new(), slot_occupied: Vec::new() };
        self.cars.set_and_swap(pos, &mut car);
        car.part_ids.set(slot, new_part_id);
        self.cars.set(pos, car);
        proof {
            assert forall|i: int| 0 <= i < self.cars@.len() implies (#[trigger] self.cars@[i]).wf() by {
                if i != pos {
                    assert(self.cars@[i] == prev.cars@[i]);
                }
            }
            assert(prev.car(car_id).holds_at(old_part_id, slot as int));
        }
        Ok(
            (
                SetEquippedState { part_id: old_part_id, car_id: 0 },
                SetEquippedState { part_id: new_part_id, car_id },
            ),
        )
    }
}

} // verus!
