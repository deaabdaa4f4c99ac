use xion_contracts::car_part::{CarPartContract, ExecuteMsg, InstantiateMsg, QueryMsg, QueryResponse};
use xion_contracts::types::{ContractError, PartStats, PartType};

fn registry() -> CarPartContract {
    CarPartContract::instantiate(InstantiateMsg { car_contract: "car_contract".to_string() })
}

fn car() -> String {
    "car_contract".to_string()
}

fn mint(reg: &mut CarPartContract, to: &str, part_type: PartType, stats: (u8, u8, u8), uri: &str, car_id: u64) -> u64 {
    reg.execute_mint(&car(), to.to_string(), part_type, stats.0, stats.1, stats.2, uri.to_string(), car_id)
        .unwrap()
}

#[test]
fn car_part_proper_initialization() {
    let reg = CarPartContract::instantiate(InstantiateMsg { car_contract: "owner".to_string() });
    assert_eq!("owner", reg.car_contract);
    assert!(reg.query_owner_parts(&"creator".to_string()).is_empty());
    assert_eq!(Err(ContractError::NotFound), reg.query_part_stats(0));
}

#[test]
fn test_mint_part() {
    let mut reg = registry();
    let err = reg
        .execute_mint(
            &"unauthorized".to_string(),
            "owner".to_string(),
            PartType::Engine,
            8,
            7,
            6,
            "engine_uri".to_string(),
            1,
        )
        .unwrap_err();
    assert!(err.message().contains("Solo el contrato de carros puede mintear partes"));

    let id = mint(&mut reg, "owner", PartType::Engine, (8, 7, 6), "engine_uri", 1);
    assert_eq!(0, id);

    let part_stats = reg.query_part_stats(0).unwrap();
    assert_eq!(PartType::Engine, part_stats.part_type);
    assert_eq!(8, part_stats.stat1);
    assert_eq!(7, part_stats.stat2);
    assert_eq!(6, part_stats.stat3);
    assert_eq!("engine_uri", part_stats.image_uri);

    assert!(reg.query_is_equipped(0));
    assert_eq!(1, reg.query_equipped_car(0));
    assert_eq!(vec![0], reg.query_owner_parts(&"owner".to_string()));
    assert_eq!(vec![0], reg.query_owner_parts_by_type(&"owner".to_string(), PartType::Engine));
}

#[test]
fn test_mint_multiple_parts() {
    let mut reg = registry();
    mint(&mut reg, "owner", PartType::Engine, (8, 7, 6), "engine_uri", 1);
    mint(&mut reg, "owner", PartType::Transmission, (5, 6, 7), "transmission_uri", 1);
    mint(&mut reg, "owner", PartType::Wheels, (4, 5, 6), "wheels_uri", 1);

    assert_eq!(vec![0, 1, 2], reg.query_owner_parts(&"owner".to_string()));
    assert_eq!(PartType::Engine, reg.query_part_stats(0).unwrap().part_type);
    assert_eq!(PartType::Transmission, reg.query_part_stats(1).unwrap().part_type);
    assert_eq!(PartType::Wheels, reg.query_part_stats(2).unwrap().part_type);
}

#[test]
fn test_set_equipped_state() {
    let mut reg = registry();
    mint(&mut reg, "owner", PartType::Engine, (8, 7, 6), "engine_uri", 1);
    assert!(reg.query_is_equipped(0));

    reg.execute_set_equipped_state(&car(), 0, 0).unwrap();
    assert!(!reg.query_is_equipped(0));

    reg.execute_set_equipped_state(&car(), 0, 2).unwrap();
    assert_eq!(2, reg.query_equipped_car(0));
}

#[test]
fn test_transfer_part() {
    let mut reg = registry();
    mint(&mut reg, "owner1", PartType::Engine, (8, 7, 6), "engine_uri", 0);

    reg.execute_transfer_part(&car(), &"owner1".to_string(), &"owner2".to_string(), 0).unwrap();

    assert!(reg.query_owner_parts(&"owner1".to_string()).is_empty());
    assert_eq!(vec![0], reg.query_owner_parts(&"owner2".to_string()));
}

#[test]
fn mint_invalid_stat_is_refused_and_changes_nothing() {
    let mut reg = registry();
    let err = reg
        .execute_mint(&car(), "owner".to_string(), PartType::Wheels, 3, 11, 2, "w".to_string(), 0)
        .unwrap_err();
    assert_eq!(ContractError::InvalidStat, err);
    assert_eq!(Err(ContractError::NotFound), reg.query_part_stats(0));
    assert!(reg.query_owner_parts(&"owner".to_string()).is_empty());
    // the bound itself is accepted
    assert_eq!(0, mint(&mut reg, "owner", PartType::Wheels, (10, 10, 10), "w", 0));
}

#[test]
fn mint_attached_goes_to_attached_list_only() {
    let mut reg = registry();
    mint(&mut reg, "owner", PartType::Engine, (1, 2, 3), "e", 5);
    mint(&mut reg, "owner", PartType::Wheels, (1, 2, 3), "w", 0);
    let owner = "owner".to_string();
    assert_eq!(vec![0], reg.query_owner_equipped_parts(&owner));
    assert_eq!(vec![1], reg.query_owner_unequipped_parts(&owner));
    assert_eq!(vec![1], reg.query_owner_parts_by_type(&owner, PartType::Wheels));
    assert!(reg.query_owner_parts_by_type(&owner, PartType::Transmission).is_empty());
}

#[test]
fn attached_and_unattached_lists_partition_owner_components() {
    let mut reg = registry();
    let owner = "owner".to_string();
    mint(&mut reg, "owner", PartType::Engine, (1, 1, 1), "e", 1);
    mint(&mut reg, "owner", PartType::Transmission, (1, 1, 1), "t", 0);
    mint(&mut reg, "owner", PartType::Wheels, (1, 1, 1), "w", 0);
    reg.execute_set_equipped_state(&car(), 1, 4).unwrap();
    reg.execute_set_equipped_state(&car(), 0, 0).unwrap();
    let mut all = reg.query_owner_equipped_parts(&owner);
    all.extend(reg.query_owner_unequipped_parts(&owner));
    all.sort();
    assert_eq!(vec![0, 1, 2], all);
    assert_eq!(vec![1], reg.query_owner_equipped_parts(&owner));
    assert_eq!(vec![2, 0], reg.query_owner_unequipped_parts(&owner));
}

#[test]
fn set_equipped_state_is_idempotent_on_the_lists() {
    let mut reg = registry();
    let owner = "owner".to_string();
    mint(&mut reg, "owner", PartType::Engine, (1, 1, 1), "e", 0);
    reg.execute_set_equipped_state(&car(), 0, 3).unwrap();
    reg.execute_set_equipped_state(&car(), 0, 3).unwrap();
    reg.execute_set_equipped_state(&car(), 0, 7).unwrap();
    assert_eq!(vec![0], reg.query_owner_equipped_parts(&owner));
    assert!(reg.query_owner_unequipped_parts(&owner).is_empty());
    assert_eq!(7, reg.query_equipped_car(0));
    reg.execute_set_equipped_state(&car(), 0, 0).unwrap();
    reg.execute_set_equipped_state(&car(), 0, 0).unwrap();
    assert_eq!(vec![0], reg.query_owner_unequipped_parts(&owner));
    assert!(reg.query_owner_equipped_parts(&owner).is_empty());
}

#[test]
fn set_equipped_state_errors() {
    let mut reg = registry();
    mint(&mut reg, "owner", PartType::Engine, (1, 1, 1), "e", 0);
    assert_eq!(Err(ContractError::Unauthorized), reg.execute_set_equipped_state(&"x".to_string(), 0, 1));
    assert_eq!(Err(ContractError::NotFound), reg.execute_set_equipped_state(&car(), 1, 1));
    assert!(!reg.query_is_equipped(0));
}

#[test]
fn transfer_of_attached_component_fails() {
    let mut reg = registry();
    mint(&mut reg, "owner1", PartType::Engine, (1, 1, 1), "e", 9);
    let err = reg.execute_transfer_part(&car(), &"owner1".to_string(), &"owner2".to_string(), 0);
    assert_eq!(Err(ContractError::AttachedComponent), err);
    assert_eq!(vec![0], reg.query_owner_parts(&"owner1".to_string()));
    assert!(reg.query_owner_parts(&"owner2".to_string()).is_empty());
}

#[test]
fn transfer_moves_all_four_lists() {
    let mut reg = registry();
    let (a, b) = ("a".to_string(), "b".to_string());
    mint(&mut reg, "a", PartType::Transmission, (1, 1, 1), "t", 0);
    mint(&mut reg, "b", PartType::Transmission, (1, 1, 1), "t", 0);
    reg.execute_transfer_part(&car(), &a, &b, 0).unwrap();
    for v in [
        reg.query_owner_parts(&a),
        reg.query_owner_parts_by_type(&a, PartType::Transmission),
        reg.query_owner_unequipped_parts(&a),
        reg.query_owner_equipped_parts(&a),
    ] {
        assert!(v.is_empty());
    }
    assert_eq!(vec![1, 0], reg.query_owner_parts(&b));
    assert_eq!(vec![1, 0], reg.query_owner_parts_by_type(&b, PartType::Transmission));
    assert_eq!(vec![1, 0], reg.query_owner_unequipped_parts(&b));
    assert!(reg.query_owner_equipped_parts(&b).is_empty());
}

#[test]
fn transfer_errors() {
    let mut reg = registry();
    let (a, b) = ("a".to_string(), "b".to_string());
    mint(&mut reg, "a", PartType::Engine, (1, 1, 1), "e", 0);
    assert_eq!(Err(ContractError::Unauthorized), reg.execute_transfer_part(&a, &a, &b, 0));
    assert_eq!(Err(ContractError::NotFound), reg.execute_transfer_part(&car(), &a, &b, 4));
    assert_eq!(Err(ContractError::NotOwner), reg.execute_transfer_part(&car(), &b, &a, 0));
    assert_eq!(vec![0], reg.query_owner_parts(&a));
}

#[test]
fn transfer_to_self_keeps_the_component() {
    let mut reg = registry();
    let a = "a".to_string();
    mint(&mut reg, "a", PartType::Engine, (1, 1, 1), "e", 0);
    mint(&mut reg, "a", PartType::Engine, (1, 1, 1), "e", 0);
    reg.execute_transfer_part(&car(), &a, &a, 0).unwrap();
    assert_eq!(vec![1, 0], reg.query_owner_parts(&a));
    assert_eq!(vec![1, 0], reg.query_owner_unequipped_parts(&a));
}

#[test]
fn set_car_contract_changes_who_may_mint() {
    let mut reg = registry();
    reg.execute_set_car_contract("other".to_string());
    assert_eq!(
        Err(ContractError::Unauthorized),
        reg.execute_mint(&car(), "o".to_string(), PartType::Engine, 1, 1, 1, "e".to_string(), 0)
    );
    assert_eq!(
        Ok(0),
        reg.execute_mint(&"other".to_string(), "o".to_string(), PartType::Engine, 1, 1, 1, "e".to_string(), 0)
    );
}

#[test]
fn unknown_ids_read_as_unattached() {
    let reg = registry();
    assert!(!reg.query_is_equipped(42));
    assert_eq!(0, reg.query_equipped_car(42));
    assert_eq!(Err(ContractError::NotFound), reg.query_part_type(42));
}

#[test]
fn query_dispatch_answers_each_read() {
    let mut reg = registry();
    mint(&mut reg, "o", PartType::Wheels, (4, 5, 6), "w", 2);
    let o = "o".to_string();
    assert_eq!(
        Ok(QueryResponse::PartStats(PartStats {
            part_type: PartType::Wheels,
            stat1: 4,
            stat2: 5,
            stat3: 6,
            image_uri: "w".to_string()
        })),
        reg.query(&QueryMsg::GetPartStats { part_id: 0 })
    );
    assert_eq!(Ok(QueryResponse::PartType(PartType::Wheels)), reg.query(&QueryMsg::GetPartType { part_id: 0 }));
    assert_eq!(Ok(QueryResponse::IsEquipped(true)), reg.query(&QueryMsg::IsEquipped { part_id: 0 }));
    assert_eq!(Ok(QueryResponse::EquippedCar(2)), reg.query(&QueryMsg::GetEquippedCar { part_id: 0 }));
    assert_eq!(Ok(QueryResponse::PartIds(vec![0])), reg.query(&QueryMsg::GetOwnerParts { owner: o.clone() }));
    assert_eq!(
        Ok(QueryResponse::PartIds(vec![])),
        reg.query(&QueryMsg::GetOwnerPartsByType { owner: o.clone(), part_type: PartType::Engine })
    );
    assert_eq!(Ok(QueryResponse::PartIds(vec![0])), reg.query(&QueryMsg::GetOwnerEquippedParts { owner: o.clone() }));
    assert_eq!(Ok(QueryResponse::PartIds(vec![])), reg.query(&QueryMsg::GetOwnerUnequippedParts { owner: o }));
    assert_eq!(Err(ContractError::NotFound), reg.query(&QueryMsg::GetPartStats { part_id: 1 }));
}

#[test]
fn part_type_names() {
    assert_eq!("Engine", PartType::Engine.name());
    assert_eq!("Transmission", PartType::Transmission.name());
    assert_eq!("Wheels", PartType::Wheels.name());
    assert_eq!(2, PartType::Wheels.slot());
}

#[test]
fn part_registry_execute_dispatches_each_command() {
    let mut reg = registry();
    let mint = ExecuteMsg::Mint {
        to: "a".to_string(),
        part_type: PartType::Engine,
        stat1: 1,
        stat2: 2,
        stat3: 3,
        image_uri: "e".to_string(),
        car_id: 0,
    };
    assert_eq!(Err(ContractError::Unauthorized), reg.execute(&"a".to_string(), mint));
    let mint = ExecuteMsg::Mint {
        to: "a".to_string(),
        part_type: PartType::Engine,
        stat1: 1,
        stat2: 2,
        stat3: 3,
        image_uri: "e".to_string(),
        car_id: 0,
    };
    assert_eq!(Ok(Some(0)), reg.execute(&car(), mint));
    assert_eq!(Ok(None), reg.execute(&car(), ExecuteMsg::SetEquippedState { part_id: 0, car_id: 4 }));
    assert_eq!(
        Err(ContractError::AttachedComponent),
        reg.execute(&car(), ExecuteMsg::TransferPart { from: "a".to_string(), to: "b".to_string(), part_id: 0 })
    );
    assert_eq!(Ok(None), reg.execute(&car(), ExecuteMsg::SetEquippedState { part_id: 0, car_id: 0 }));
    assert_eq!(
        Ok(None),
        reg.execute(&car(), ExecuteMsg::TransferPart { from: "a".to_string(), to: "b".to_string(), part_id: 0 })
    );
    assert_eq!(vec![0], reg.query_owner_parts(&"b".to_string()));
    assert_eq!(Ok(None), reg.execute(&car(), ExecuteMsg::SetCarContract { address: "new".to_string() }));
    assert_eq!("new", reg.car_contract);
}
