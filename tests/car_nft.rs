use xion_contracts::car_nft::{
    assemble_full_car_metadata, CarAction, CarNftContract, Coin, ExecuteMsg, InstantiateMsg, PartLookup, PartMetadata,
    PartRecord, SetEquippedState,
};
use xion_contracts::car_part::CarPartContract;
use xion_contracts::saga::{Attribute, Event};
use xion_contracts::types::{ContractError, PartData, PartStats, PartType};

fn registry(price: u128) -> CarNftContract {
    CarNftContract::instantiate(InstantiateMsg { car_part_contract: "car_part_contract".to_string(), mint_price: price })
}

fn coins(amount: u128, denom: &str) -> Vec<Coin> {
    vec![Coin { denom: denom.to_string(), amount }]
}

fn part(part_type: PartType, s: (u8, u8, u8), uri: &str) -> PartData {
    PartData { part_type, stat1: s.0, stat2: s.1, stat3: s.2, image_uri: uri.to_string() }
}

fn full_parts() -> Vec<PartData> {
    vec![
        part(PartType::Engine, (8, 7, 6), "engine_uri"),
        part(PartType::Transmission, (5, 6, 7), "transmission_uri"),
        part(PartType::Wheels, (4, 5, 6), "wheels_uri"),
    ]
}

fn creator() -> String {
    "creator".to_string()
}

fn mint_event(id: &str) -> Vec<Event> {
    vec![Event {
        ty: "wasm".to_string(),
        attributes: vec![Attribute { key: "part_id".to_string(), value: id.to_string() }],
    }]
}

#[test]
fn lib_proper_initialization() {
    let reg = registry(1000000);
    assert_eq!(1000000, reg.query_mint_price());
    assert_eq!(1, reg.query_last_token_id());
    assert_eq!("car_part_contract", reg.car_part_contract);
}

#[test]
fn car_nft_proper_initialization() {
    let reg = registry(10000000);
    assert_eq!(10000000, reg.query_mint_price());
    assert_eq!(Err(ContractError::NotFound), reg.query_car_composition(1));
}

#[test]
fn test_mint_car() {
    let mut reg = registry(1000000);
    let calls = reg
        .execute_mint_car(&creator(), &coins(1000000, "uxion"), "car_uri".to_string(), full_parts())
        .unwrap();
    assert_eq!(3, calls.len());

    let car_comp = reg.query_car_composition(1).unwrap();
    assert_eq!(3, car_comp.part_ids.len());
    assert_eq!(3, car_comp.slot_occupied.len());
    assert_eq!("car_uri", car_comp.car_image_uri);

    let owner_cars = reg.query_owner_cars(&creator());
    assert_eq!(vec![1], owner_cars.car_ids);
}

#[test]
fn test_mint_car_insufficient_payment() {
    let mut reg = registry(1000000);
    let err = reg
        .execute_mint_car(
            &creator(),
            &coins(500000, "uxion"),
            "car_uri".to_string(),
            vec![part(PartType::Engine, (8, 7, 6), "engine_uri")],
        )
        .unwrap_err();
    assert!(err.message().contains("Pago insuficiente"));
}

#[test]
fn test_mint_car_missing_parts() {
    let mut reg = registry(1000000);
    let err = reg
        .execute_mint_car(
            &creator(),
            &coins(1000000, "uxion"),
            "car_uri".to_string(),
            vec![part(PartType::Engine, (8, 7, 6), "engine_uri")],
        )
        .unwrap_err();
    assert!(err.message().contains("Faltan partes necesarias"));
}

#[test]
fn test_equip_unequip_part() {
    let mut reg = registry(1000000);
    reg.execute_mint_car(&creator(), &coins(1000000, "uxion"), "car_uri".to_string(), full_parts()).unwrap();

    reg.execute_unequip_part(1, 0).unwrap();
    let car_comp = reg.query_car_composition(1).unwrap();
    assert_eq!(0, car_comp.part_ids[0]);
    assert!(!car_comp.slot_occupied[0]);

    reg.execute_equip_part(1, 0, 0).unwrap();
    let car_comp = reg.query_car_composition(1).unwrap();
    assert_eq!(0, car_comp.part_ids[0]);
    assert!(car_comp.slot_occupied[0]);
}

#[test]
fn test_replace_part() {
    let mut reg = registry(1000000);
    reg.execute_mint_car(&creator(), &coins(1000000, "uxion"), "car_uri".to_string(), full_parts()).unwrap();

    reg.execute_replace_part(1, 0, 3).unwrap();
    let car_comp = reg.query_car_composition(1).unwrap();
    assert_eq!(3, car_comp.part_ids[0]);
    assert!(car_comp.slot_occupied[0]);
}

#[test]
fn mint_calls_carry_tokens_and_composite_id() {
    let mut reg = registry(10);
    let calls = reg.execute_mint_car(&creator(), &coins(10, "uxion"), "car".to_string(), full_parts()).unwrap();
    let tokens: Vec<u64> = calls.iter().map(|c| c.token).collect();
    assert_eq!(vec![1, 2, 3], tokens);
    assert!(calls.iter().all(|c| c.car_id == 1 && c.to == "creator"));
    assert_eq!(PartType::Transmission, calls[1].part_type);
    assert_eq!((5, 6, 7), (calls[1].stat1, calls[1].stat2, calls[1].stat3));
    assert_eq!("wheels_uri", calls[2].image_uri);
    let car = reg.query_car_composition(1).unwrap();
    assert_eq!(vec![0, 0, 0], car.part_ids);
    assert_eq!(vec![true, true, true], car.slot_occupied);
    assert_eq!(2, reg.query_last_token_id());
}

#[test]
fn replies_fill_slots_in_category_order_whatever_the_arrival_order() {
    let mut reg = registry(10);
    let parts = vec![
        part(PartType::Wheels, (1, 1, 1), "w"),
        part(PartType::Engine, (1, 1, 1), "e"),
        part(PartType::Transmission, (1, 1, 1), "t"),
    ];
    reg.execute_mint_car(&creator(), &coins(10, "uxion"), "car".to_string(), parts).unwrap();
    // wheels were minted as component 7, engine as 8, transmission as 9
    reg.reply(3, &mint_event("9")).unwrap();
    reg.reply(1, &mint_event("7")).unwrap();
    reg.reply(2, &mint_event("8")).unwrap();
    let car = reg.query_car_composition(1).unwrap();
    assert_eq!(vec![8, 9, 7], car.part_ids);
    assert_eq!(vec![true, true, true], car.slot_occupied);
    assert!(reg.pending.is_empty());
    // a reply that matches no awaited call is refused
    assert_eq!(Err(ContractError::NotFound), reg.reply(1, &mint_event("5")));
}

#[test]
fn reply_without_id_is_malformed_and_changes_nothing() {
    let mut reg = registry(10);
    reg.execute_mint_car(&creator(), &coins(10, "uxion"), "car".to_string(), full_parts()).unwrap();
    assert_eq!(Err(ContractError::MalformedReply), reg.reply(1, &vec![]));
    assert_eq!(Err(ContractError::MalformedReply), reg.reply(1, &mint_event("x1")));
    assert_eq!(3, reg.pending.len());
    assert_eq!(vec![0, 0, 0], reg.query_car_composition(1).unwrap().part_ids);
}

#[test]
fn insufficient_payment_leaves_no_trace() {
    let mut reg = registry(1000000);
    let before_pending = reg.pending.len();
    for funds in [coins(999999, "uxion"), coins(5000000, "uatom"), vec![]] {
        let err = reg.execute_mint_car(&creator(), &funds, "car".to_string(), full_parts());
        assert_eq!(Err(ContractError::InsufficientPayment), err);
    }
    assert_eq!(1, reg.query_last_token_id());
    assert_eq!(before_pending, reg.pending.len());
    assert_eq!(Err(ContractError::NotFound), reg.query_car_composition(1));
    assert!(reg.query_owner_cars(&creator()).car_ids.is_empty());
}

#[test]
fn payment_needs_one_covering_coin_of_the_denomination() {
    let mut reg = registry(100);
    let funds = vec![
        Coin { denom: "uatom".to_string(), amount: 1000 },
        Coin { denom: "uxion".to_string(), amount: 100 },
    ];
    assert!(reg.execute_mint_car(&creator(), &funds, "car".to_string(), full_parts()).is_ok());
    let funds = vec![
        Coin { denom: "uxion".to_string(), amount: 99 },
        Coin { denom: "uxion".to_string(), amount: 100 },
    ];
    assert!(reg.execute_mint_car(&creator(), &funds, "car".to_string(), full_parts()).is_ok());
    let funds = vec![
        Coin { denom: "uxion".to_string(), amount: 99 },
        Coin { denom: "uatom".to_string(), amount: 100 },
    ];
    assert_eq!(
        Err(ContractError::InsufficientPayment),
        reg.execute_mint_car(&creator(), &funds, "car".to_string(), full_parts())
    );
    assert_eq!(3, reg.query_last_token_id());
}

#[test]
fn missing_category_leaves_no_composite() {
    let mut reg = registry(1);
    let parts = vec![
        part(PartType::Engine, (1, 1, 1), "e"),
        part(PartType::Engine, (1, 1, 1), "e"),
        part(PartType::Wheels, (1, 1, 1), "w"),
    ];
    assert_eq!(
        Err(ContractError::MissingRequiredParts),
        reg.execute_mint_car(&creator(), &coins(1, "uxion"), "car".to_string(), parts)
    );
    assert_eq!(1, reg.query_last_token_id());
    assert!(reg.pending.is_empty());
}

#[test]
fn too_many_parts_and_invalid_stat() {
    let mut reg = registry(1);
    let mut parts = full_parts();
    parts.push(part(PartType::Engine, (1, 1, 1), "e"));
    assert_eq!(
        Err(ContractError::TooManyParts),
        reg.execute_mint_car(&creator(), &coins(1, "uxion"), "car".to_string(), parts)
    );
    let parts = vec![part(PartType::Engine, (1, 11, 1), "e")];
    assert_eq!(
        Err(ContractError::InvalidStat),
        reg.execute_mint_car(&creator(), &coins(1, "uxion"), "car".to_string(), parts)
    );
    assert_eq!(1, reg.query_last_token_id());
}

#[test]
fn equip_into_occupied_slot_fails_then_other_slot_succeeds() {
    let mut reg = registry(1);
    reg.execute_mint_car(&creator(), &coins(1, "uxion"), "car".to_string(), full_parts()).unwrap();
    reg.reply(1, &mint_event("10")).unwrap();
    reg.reply(2, &mint_event("11")).unwrap();
    reg.reply(3, &mint_event("12")).unwrap();
    reg.execute_unequip_part(1, 12).unwrap();
    let before = reg.query_car_composition(1).unwrap();
    assert_eq!(Err(ContractError::SlotOccupied), reg.execute_equip_part(1, 20, 0));
    assert_eq!(Err(ContractError::SlotOccupied), reg.execute_equip_part(1, 20, 0));
    assert_eq!(before, reg.query_car_composition(1).unwrap());
    assert_eq!(Ok(SetEquippedState { part_id: 20, car_id: 1 }), reg.execute_equip_part(1, 20, 2));
    let car = reg.query_car_composition(1).unwrap();
    assert_eq!(vec![10, 11, 20], car.part_ids);
    assert_eq!(vec![true, true, true], car.slot_occupied);
}

#[test]
fn equip_errors() {
    let mut reg = registry(1);
    assert_eq!(Err(ContractError::NotFound), reg.execute_equip_part(1, 5, 0));
    reg.execute_mint_car(&creator(), &coins(1, "uxion"), "car".to_string(), full_parts()).unwrap();
    assert_eq!(Err(ContractError::InvalidSlot), reg.execute_equip_part(1, 5, 3));
}

#[test]
fn unequip_or_replace_of_absent_component_fails() {
    let mut reg = registry(1);
    reg.execute_mint_car(&creator(), &coins(1, "uxion"), "car".to_string(), full_parts()).unwrap();
    reg.reply(1, &mint_event("10")).unwrap();
    reg.reply(2, &mint_event("11")).unwrap();
    reg.reply(3, &mint_event("12")).unwrap();
    let before = reg.query_car_composition(1).unwrap();
    assert_eq!(Err(ContractError::ComponentNotEquippedHere), reg.execute_unequip_part(1, 99));
    assert_eq!(Err(ContractError::ComponentNotEquippedHere), reg.execute_replace_part(1, 99, 13));
    assert_eq!(Err(ContractError::NotFound), reg.execute_unequip_part(2, 10));
    assert_eq!(before, reg.query_car_composition(1).unwrap());
    assert_eq!(Ok(SetEquippedState { part_id: 11, car_id: 0 }), reg.execute_unequip_part(1, 11));
    assert_eq!(Err(ContractError::ComponentNotEquippedHere), reg.execute_unequip_part(1, 11));
}

#[test]
fn replace_is_reported_by_the_component_registry() {
    let car = "car".to_string();
    let mut parts = CarPartContract::new(car.clone());
    for t in [PartType::Engine, PartType::Transmission, PartType::Wheels] {
        parts.execute_mint(&car, "creator".to_string(), t, 1, 1, 1, "u".to_string(), 1).unwrap();
    }
    let spare =
        parts.execute_mint(&car, "creator".to_string(), PartType::Engine, 2, 2, 2, "u".to_string(), 0).unwrap();
    let mut reg = registry(1);
    reg.execute_mint_car(&creator(), &coins(1, "uxion"), "c".to_string(), full_parts()).unwrap();
    reg.reply(1, &mint_event("0")).unwrap();
    reg.reply(2, &mint_event("1")).unwrap();
    reg.reply(3, &mint_event("2")).unwrap();

    let (detach, attach) = reg.execute_replace_part(1, 0, spare).unwrap();
    assert_eq!(SetEquippedState { part_id: 0, car_id: 0 }, detach);
    assert_eq!(SetEquippedState { part_id: spare, car_id: 1 }, attach);
    parts.execute_set_equipped_state(&car, detach.part_id, detach.car_id).unwrap();
    parts.execute_set_equipped_state(&car, attach.part_id, attach.car_id).unwrap();

    let comp = reg.query_car_composition(1).unwrap();
    assert_eq!(spare, comp.part_ids[0]);
    assert!(comp.slot_occupied[0]);
    assert!(!parts.query_is_equipped(0));
    assert_eq!(1, parts.query_equipped_car(spare));
    assert_eq!(vec![1, 2, 3], parts.query_owner_equipped_parts(&"creator".to_string()));
    assert_eq!(vec![0], parts.query_owner_unequipped_parts(&"creator".to_string()));
}

#[test]
fn owner_cars_lists_only_that_owner() {
    let mut reg = registry(1);
    let other = "other".to_string();
    reg.execute_mint_car(&creator(), &coins(1, "uxion"), "a".to_string(), full_parts()).unwrap();
    reg.execute_mint_car(&other, &coins(1, "uxion"), "b".to_string(), full_parts()).unwrap();
    reg.execute_mint_car(&creator(), &coins(1, "uxion"), "c".to_string(), full_parts()).unwrap();
    assert_eq!(vec![1, 3], reg.query_owner_cars(&creator()).car_ids);
    assert_eq!(vec![2], reg.query_owner_cars(&other).car_ids);
    assert_eq!(4, reg.query_last_token_id());
}

#[test]
fn compact_stats_show_image_and_condition() {
    let mut reg = registry(1);
    reg.execute_mint_car(&creator(), &coins(1, "uxion"), "img".to_string(), full_parts()).unwrap();
    let stats = reg.query_compact_car_stats(1).unwrap();
    assert_eq!("img", stats.image_uri);
    assert_eq!(100, stats.condition);
    assert_eq!(0, stats.speed);
    assert_eq!(Err(ContractError::NotFound), reg.query_compact_car_stats(2));
}

#[test]
fn part_lookups_skip_empty_and_placeholder_slots() {
    let mut reg = registry(1);
    reg.execute_mint_car(&creator(), &coins(1, "uxion"), "img".to_string(), full_parts()).unwrap();
    assert!(reg.query_part_lookups(1).unwrap().is_empty());
    reg.reply(1, &mint_event("4")).unwrap();
    reg.reply(3, &mint_event("6")).unwrap();
    assert_eq!(
        vec![PartLookup { slot_index: 0, part_id: 4 }, PartLookup { slot_index: 2, part_id: 6 }],
        reg.query_part_lookups(1).unwrap()
    );
    assert_eq!(Err(ContractError::NotFound), reg.query_part_lookups(9));
}

fn meta(part_id: u64, part_type: PartType, s: (u8, u8, u8), slot_index: u8) -> PartMetadata {
    PartMetadata {
        part_id,
        part_type,
        stats: PartStats { part_type, stat1: s.0, stat2: s.1, stat3: s.2, image_uri: "u".to_string() },
        slot_index,
    }
}

#[test]
fn full_metadata_derives_stats() {
    let parts = vec![
        meta(1, PartType::Engine, (8, 7, 6), 0),
        meta(2, PartType::Transmission, (5, 6, 7), 1),
        meta(3, PartType::Wheels, (4, 5, 6), 2),
    ];
    let m = assemble_full_car_metadata(1, "img".to_string(), 90, parts);
    // speed 17, acceleration 18, handling 19
    assert_eq!(5, m.total_stats.speed);
    assert_eq!(6, m.total_stats.acceleration);
    assert_eq!(6, m.total_stats.handling);
    assert_eq!(9, m.total_stats.drift_factor);
    assert_eq!(9, m.total_stats.turn_factor);
    assert_eq!(17, m.total_stats.max_speed);
    assert_eq!(90, m.total_stats.condition);
    assert_eq!(3, m.parts.len());
    assert_eq!("img", m.car_image_uri);

    let mut reg = registry(1);
    reg.execute_mint_car(&creator(), &coins(1, "uxion"), "img".to_string(), full_parts()).unwrap();
    reg.reply(3, &mint_event("4")).unwrap();
    let record = PartRecord {
        part_type: PartType::Wheels,
        stats: PartStats { part_type: PartType::Wheels, stat1: 10, stat2: 10, stat3: 10, image_uri: "u".to_string() },
    };
    let m = reg.query_full_car_metadata(1, vec![record]).unwrap();
    assert_eq!(1, m.parts.len());
    assert_eq!(4, m.parts[0].part_id);
    assert_eq!(2, m.parts[0].slot_index);
    assert_eq!(PartType::Wheels, m.parts[0].part_type);
    assert_eq!(3, m.total_stats.speed);
    assert_eq!(5, m.total_stats.drift_factor);
    assert_eq!(10, m.total_stats.max_speed);
    assert_eq!(100, m.total_stats.condition);
    assert_eq!(Err(ContractError::NotFound), reg.query_full_car_metadata(2, vec![]).map(|m| m.car_id));
}

#[test]
fn admin_setters_and_withdraw() {
    let mut reg = registry(1);
    reg.execute_set_mint_price(7);
    assert_eq!(7, reg.query_mint_price());
    reg.execute_set_workshop_contract("ws".to_string());
    reg.execute_set_leaderboard_contract("lb".to_string());
    assert_eq!(Some("ws".to_string()), reg.workshop_contract);
    assert_eq!(Some("lb".to_string()), reg.leaderboard_contract);
    assert_eq!(Err(ContractError::NoBalance), reg.execute_withdraw_funds(&creator(), vec![]).map(|s| s.to_address));
    let send = reg.execute_withdraw_funds(&creator(), coins(5, "uxion")).unwrap();
    assert_eq!("creator", send.to_address);
    assert_eq!(coins(5, "uxion"), send.amount);
}

#[test]
fn car_registry_execute_dispatches_each_command() {
    let mut reg = registry(5);
    let pay = coins(5, "uxion");
    let action = reg
        .execute(&creator(), &pay, ExecuteMsg::MintCar { car_image_uri: "c".to_string(), parts_data: full_parts() })
        .unwrap();
    match action {
        CarAction::MintParts(calls) => assert_eq!(3, calls.len()),
        other => panic!("unexpected {:?}", other),
    }
    reg.reply(1, &mint_event("10")).unwrap();
    assert_eq!(
        Ok(CarAction::Notify(SetEquippedState { part_id: 10, car_id: 0 })),
        reg.execute(&creator(), &vec![], ExecuteMsg::UnequipPart { car_id: 1, part_id: 10 })
    );
    assert_eq!(
        Ok(CarAction::Notify(SetEquippedState { part_id: 10, car_id: 1 })),
        reg.execute(&creator(), &vec![], ExecuteMsg::EquipPart { car_id: 1, part_id: 10, slot_index: 0 })
    );
    assert_eq!(
        Ok(CarAction::NotifyPair(
            SetEquippedState { part_id: 10, car_id: 0 },
            SetEquippedState { part_id: 11, car_id: 1 }
        )),
        reg.execute(&creator(), &vec![], ExecuteMsg::ReplacePart { car_id: 1, old_part_id: 10, new_part_id: 11 })
    );
    assert_eq!(Ok(CarAction::Updated), reg.execute(&creator(), &vec![], ExecuteMsg::SetMintPrice { price: 9 }));
    assert_eq!(9, reg.query_mint_price());
    assert_eq!(
        Ok(CarAction::Updated),
        reg.execute(&creator(), &vec![], ExecuteMsg::SetWorkshopContract { address: "w".to_string() })
    );
    assert_eq!(
        Ok(CarAction::Updated),
        reg.execute(&creator(), &vec![], ExecuteMsg::SetLeaderboardContract { address: "l".to_string() })
    );
    assert_eq!(Ok(CarAction::PayOutBalance), reg.execute(&creator(), &vec![], ExecuteMsg::WithdrawFunds {}));
    assert_eq!(
        Err(ContractError::InsufficientPayment),
        reg.execute(&creator(), &pay, ExecuteMsg::MintCar { car_image_uri: "c".to_string(), parts_data: full_parts() })
    );
}
