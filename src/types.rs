use vstd::prelude::*;

verus! {

/// The three categories of component; each has one fixed slot in a composite.
#[derive(Clone, Copy, Debug, PartialEq, Eq, Structural)]
pub enum PartType {
    Engine,
    Transmission,
    Wheels,
}

/// Number of slots in a composite: one per category.
pub const SLOT_COUNT: usize = 3;

/// Largest value any single stat may take.
pub const MAX_STAT: u8 = 10;

impl PartType {
    /// The slot that components of this category occupy.
    pub open spec fn slot_spec(self) -> nat {
        match self {
            PartType::Engine => 0,
            PartType::Transmission => 1,
            PartType::Wheels => 2,
        }
    }

    /// The slot that components of this category occupy.
    pub fn slot(&self) -> (r: usize)
        ensures
            r == self.slot_spec(),
    {
        match self {
            PartType::Engine => 0,
            PartType::Transmission => 1,
            PartType::Wheels => 2,
        }
    }

    /// The category's display name.
    pub fn name(&self) -> (r: &'static str)
        ensures
            *self == PartType::Engine ==> r@ == "Engine"@,
            *self == PartType::Transmission ==> r@ == "Transmission"@,
            *self == PartType::Wheels ==> r@ == "Wheels"@,
    {
        match self {
            PartType::Engine => "Engine",
            PartType::Transmission => "Transmission",
            PartType::Wheels => "Wheels",
        }
    }
}

/// True when every stat lies in `[0, MAX_STAT]`.
pub open spec fn stats_in_range(stat1: u8, stat2: u8, stat3: u8) -> bool {
    stat1 <= MAX_STAT && stat2 <= MAX_STAT && stat3 <= MAX_STAT
}

/// Checks the stat bound.
pub fn check_stats(stat1: u8, stat2: u8, stat3: u8) -> (r: bool)
    ensures
        r == stats_in_range(stat1, stat2, stat3),
{
    stat1 <= MAX_STAT && stat2 <= MAX_STAT && stat3 <= MAX_STAT
}

/// The stored record of one component.
#[derive(Debug, PartialEq)]
pub struct PartStats {
    pub part_type: PartType,
    pub stat1: u8,
    pub stat2: u8,
    pub stat3: u8,
    pub image_uri: String,
}

impl PartStats {
    pub open spec fn valid(self) -> bool {
        stats_in_range(self.stat1, self.stat2, self.stat3)
    }
}

impl Clone for PartStats {
    fn clone(&self) -> (r: Self)
        ensures
            r == *self,
    {
        PartStats {
            part_type: self.part_type,
            stat1: self.stat1,
            stat2: self.stat2,
            stat3: self.stat3,
            image_uri: self.image_uri.clone(),
        }
    }
}

/// The description of one component to be minted together with a composite.
#[derive(Debug, PartialEq)]
pub struct PartData {
    pub part_type: PartType,
    pub stat1: u8,
    pub stat2: u8,
    pub stat3: u8,
    pub image_uri: String,
}

impl PartData {
    pub open spec fn valid(self) -> bool {
        stats_in_range(self.stat1, self.stat2, self.stat3)
    }
}

impl Clone for PartData {
    fn clone(&self) -> (r: Self)
        ensures
            r == *self,
    {
        PartData {
            part_type: self.part_type,
            stat1: self.stat1,
            stat2: self.stat2,
            stat3: self.stat3,
            image_uri: self.image_uri.clone(),
        }
    }
}

/// Every way a call to either registry can fail.
#[derive(Clone, Copy, Debug, PartialEq, Eq, Structural)]
pub enum ContractError {
    /// The caller is not the peer registry allowed to make this call.
    Unauthorized,
    /// The referenced composite or component does not exist.
    NotFound,
    /// The component is not in any slot of the composite.
    ComponentNotEquippedHere,
    /// A stat exceeds `MAX_STAT`.
    InvalidStat,
    /// More parts than slots were given.
    TooManyParts,
    /// Some category has no part.
    MissingRequiredParts,
    /// The slot index is out of range.
    InvalidSlot,
    /// The slot already holds a component.
    SlotOccupied,
    /// No coin of the payment denomination covers the price.
    InsufficientPayment,
    /// There is nothing to withdraw.
    NoBalance,
    /// A mint reply carried no parseable component id.
    MalformedReply,
    /// The sender named as owner does not own the component.
    NotOwner,
    /// The component is attached to a composite.
    AttachedComponent,
}

impl ContractError {
    /// The human-readable text of the error.
    pub open spec fn message_spec(self) -> Seq<char> {
        match self {
            ContractError::Unauthorized => "Solo el contrato de carros puede mintear partes"@,
            ContractError::NotFound => "No encontrado"@,
            ContractError::ComponentNotEquippedHere => "La parte no está equipada en este carro"@,
            ContractError::InvalidStat => "Los stats deben ser <= 10"@,
            ContractError::TooManyParts => "Demasiadas partes"@,
            ContractError::MissingRequiredParts => "Faltan partes necesarias (motor, transmisión o ruedas)"@,
            ContractError::InvalidSlot => "Índice de slot inválido"@,
            ContractError::SlotOccupied => "El slot ya está ocupado"@,
            ContractError::InsufficientPayment => "Pago insuficiente"@,
            ContractError::NoBalance => "El contrato no tiene fondos para retirar"@,
            ContractError::MalformedReply => "No se pudo obtener el ID de la parte"@,
            ContractError::NotOwner => "No eres el dueño de esta parte"@,
            ContractError::AttachedComponent => "No puedes transferir una parte equipada"@,
        }
    }

    /// The human-readable text of the error.
    pub fn message(&self) -> (r: &'static str)
        ensures
            r@ == self.message_spec(),
    {
        match self {
            ContractError::Unauthorized => "Solo el contrato de carros puede mintear partes",
            ContractError::NotFound => "No encontrado",
            ContractError::ComponentNotEquippedHere => "La parte no está equipada en este carro",
            ContractError::InvalidStat => "Los stats deben ser <= 10",
            ContractError::TooManyParts => "Demasiadas partes",
            ContractError::MissingRequiredParts => "Faltan partes necesarias (motor, transmisión o ruedas)",
            ContractError::InvalidSlot => "Índice de slot inválido",
            ContractError::SlotOccupied => "El slot ya está ocupado",
            ContractError::InsufficientPayment => "Pago insuficiente",
            ContractError::NoBalance => "El contrato no tiene fondos para retirar",
            ContractError::MalformedReply => "No se pudo obtener el ID de la parte",
            ContractError::NotOwner => "No eres el dueño de esta parte",
            ContractError::AttachedComponent => "No puedes transferir una parte equipada",
        }
    }
}

} // verus!
