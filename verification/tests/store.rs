use ticketing::{Event, Identity, Ticket, TicketError, TicketStore};

fn who(bytes: &[u8]) -> Identity {
    Identity::from_slice(bytes).expect("at most 29 bytes")
}

fn register(store: &mut TicketStore, name: &str, capacity: u64, organizer: &Identity) -> u64 {
    store
        .create_event(
            name.to_string(),
            "An evening of music".to_string(),
            "Town hall".to_string(),
            "2025-06-01".to_string(),
            2500,
            capacity,
            "https://example.org/poster.png".to_string(),
            None,
            organizer,
        )
        .expect("registering never fails")
}

#[test]
fn new_store_is_empty() {
    let store = TicketStore::new();
    assert!(store.get_all_events().is_empty());
    assert_eq!(store.next_event_id(), 1);
    assert_eq!(store.next_ticket_id(), 1);
    assert!(store.get_my_tickets(&who(&[1])).is_empty());
}

#[test]
fn event_ids_start_at_one_and_increase() {
    let organizer = who(&[1]);
    let other = who(&[7, 7]);
    let mut store = TicketStore::new();
    let mut ids = Vec::new();
    for i in 0..20u64 {
        let by = if i % 3 == 0 { &other } else { &organizer };
        ids.push(register(&mut store, "Concert", i, by));
    }
    assert_eq!(ids, (1..=20u64).collect::<Vec<u64>>());
    for pair in ids.windows(2) {
        assert!(pair[0] < pair[1]);
    }
    assert_eq!(store.next_event_id(), 21);
}

#[test]
fn event_ids_are_not_disturbed_by_other_requests() {
    let organizer = who(&[1]);
    let buyer = who(&[2, 3]);
    let mut store = TicketStore::new();
    let first = register(&mut store, "First", 5, &organizer);
    let ticket = store.mint_ticket(first, &buyer, 10).unwrap();
    assert_eq!(store.mint_ticket(99, &buyer, 11), Err(TicketError::EventNotFound));
    assert_eq!(store.validate_ticket(ticket.id, ticket.qr_code.clone(), &organizer), Ok(true));
    let second = register(&mut store, "Second", 5, &organizer);
    assert_eq!((first, second), (1, 2));
}

#[test]
fn created_event_holds_what_was_handed_in() {
    let organizer = who(&[1]);
    let mut store = TicketStore::new();
    let id = store
        .create_event(
            "Concert".to_string(),
            "Strings".to_string(),
            "Town hall".to_string(),
            "not a date at all".to_string(),
            2500,
            300,
            "poster.png".to_string(),
            Some("model.glb".to_string()),
            &organizer,
        )
        .unwrap();
    assert_eq!(id, 1);
    let expected = Event {
        id: 1,
        name: "Concert".to_string(),
        description: "Strings".to_string(),
        venue: "Town hall".to_string(),
        date: "not a date at all".to_string(),
        ticket_price: 2500,
        total_tickets: 300,
        tickets_sold: 0,
        image_url: "poster.png".to_string(),
        ar_model_url: Some("model.glb".to_string()),
        organizer: organizer.clone(),
    };
    assert_eq!(store.get_event(1), Ok(expected));
}

#[test]
fn get_event_fails_for_unknown_id() {
    let organizer = who(&[1]);
    let mut store = TicketStore::new();
    assert_eq!(store.get_event(1), Err(TicketError::EventNotFound));
    register(&mut store, "Concert", 1, &organizer);
    assert!(store.get_event(1).is_ok());
    assert_eq!(store.get_event(0), Err(TicketError::EventNotFound));
    assert_eq!(store.get_event(2), Err(TicketError::EventNotFound));
}

#[test]
fn all_events_come_in_ascending_id_order() {
    let organizer = who(&[1]);
    let mut store = TicketStore::new();
    for name in ["c", "a", "b"] {
        register(&mut store, name, 1, &organizer);
    }
    let all = store.get_all_events();
    let ids: Vec<u64> = all.iter().map(|event| event.id).collect();
    let names: Vec<&str> = all.iter().map(|event| event.name.as_str()).collect();
    assert_eq!(ids, vec![1, 2, 3]);
    assert_eq!(names, vec!["c", "a", "b"]);
}

#[test]
fn mint_on_unknown_event_fails() {
    let mut store = TicketStore::new();
    assert_eq!(store.mint_ticket(1, &who(&[2, 3]), 5), Err(TicketError::EventNotFound));
    assert_eq!(store.next_ticket_id(), 1);
}

#[test]
fn successful_mint_sells_one_and_stores_an_unused_ticket() {
    let organizer = who(&[1]);
    let buyer = who(&[2, 3]);
    let mut store = TicketStore::new();
    let event_id = register(&mut store, "Concert", 3, &organizer);
    let ticket = store.mint_ticket(event_id, &buyer, 1_700_000_000_000_000_000).unwrap();
    assert_eq!(
        ticket,
        Ticket {
            id: 1,
            event_id: 1,
            owner: buyer.clone(),
            purchase_date: 1_700_000_000_000_000_000,
            qr_code: "880ef914c6247d716b95b503327def42d68c70f967594361eea453880795aecb"
                .to_string(),
            is_used: false,
        }
    );
    assert_eq!(store.get_event(event_id).unwrap().tickets_sold, 1);
    assert_eq!(store.get_ticket(1, &buyer), Ok(ticket.clone()));
    assert_eq!(store.get_my_tickets(&buyer), vec![ticket]);
    assert_eq!(store.next_ticket_id(), 2);
}

#[test]
fn each_mint_raises_sold_by_one() {
    let organizer = who(&[1]);
    let buyer = who(&[2, 3]);
    let mut store = TicketStore::new();
    let event_id = register(&mut store, "Concert", 4, &organizer);
    for sold in 1..=4u64 {
        let ticket = store.mint_ticket(event_id, &buyer, sold).unwrap();
        assert_eq!(ticket.id, sold);
        assert!(!ticket.is_used);
        assert_eq!(store.get_event(event_id).unwrap().tickets_sold, sold);
    }
}

#[test]
fn sold_out_event_refuses_and_keeps_sold() {
    let organizer = who(&[1]);
    let buyer = who(&[2, 3]);
    let mut store = TicketStore::new();
    let event_id = register(&mut store, "Concert", 2, &organizer);
    store.mint_ticket(event_id, &buyer, 1).unwrap();
    store.mint_ticket(event_id, &buyer, 2).unwrap();
    for attempt in 0..3u64 {
        assert_eq!(
            store.mint_ticket(event_id, &buyer, 3 + attempt),
            Err(TicketError::NoTicketsAvailable)
        );
        let event = store.get_event(event_id).unwrap();
        assert_eq!((event.tickets_sold, event.total_tickets), (2, 2));
    }
    assert_eq!(store.get_my_tickets(&buyer).len(), 2);
}

#[test]
fn event_without_inventory_never_sells() {
    let organizer = who(&[1]);
    let mut store = TicketStore::new();
    let event_id = register(&mut store, "Closed", 0, &organizer);
    assert_eq!(store.mint_ticket(event_id, &organizer, 1), Err(TicketError::NoTicketsAvailable));
    assert_eq!(store.get_event(event_id).unwrap().tickets_sold, 0);
}

#[test]
fn refused_mint_spends_no_ticket_id() {
    let organizer = who(&[1]);
    let buyer = who(&[2, 3]);
    let mut store = TicketStore::new();
    let small = register(&mut store, "Small", 1, &organizer);
    let large = register(&mut store, "Large", 10, &organizer);
    assert_eq!(store.mint_ticket(small, &buyer, 1).unwrap().id, 1);
    assert_eq!(store.mint_ticket(small, &buyer, 2), Err(TicketError::NoTicketsAvailable));
    assert_eq!(store.mint_ticket(77, &buyer, 3), Err(TicketError::EventNotFound));
    assert_eq!(store.mint_ticket(large, &buyer, 4).unwrap().id, 2);
}

#[test]
fn my_tickets_are_mine_and_in_minting_order() {
    let organizer = who(&[1]);
    let alice = who(&[2, 3]);
    let bob = who(&[9, 9, 9]);
    let mut store = TicketStore::new();
    let first = register(&mut store, "First", 10, &organizer);
    let second = register(&mut store, "Second", 10, &organizer);
    let a1 = store.mint_ticket(second, &alice, 1).unwrap();
    let b1 = store.mint_ticket(first, &bob, 2).unwrap();
    let a2 = store.mint_ticket(first, &alice, 3).unwrap();
    let a3 = store.mint_ticket(second, &alice, 4).unwrap();
    assert_eq!(store.get_my_tickets(&alice), vec![a1, a2, a3]);
    assert_eq!(store.get_my_tickets(&bob), vec![b1]);
    assert!(store.get_my_tickets(&organizer).is_empty());
}

#[test]
fn my_tickets_show_redemption() {
    let organizer = who(&[1]);
    let buyer = who(&[2, 3]);
    let mut store = TicketStore::new();
    let event_id = register(&mut store, "Concert", 2, &organizer);
    let ticket = store.mint_ticket(event_id, &buyer, 1).unwrap();
    store.validate_ticket(ticket.id, ticket.qr_code.clone(), &organizer).unwrap();
    let mine = store.get_my_tickets(&buyer);
    assert_eq!(mine.len(), 1);
    assert!(mine[0].is_used);
}

#[test]
fn ticket_is_shown_to_owner_and_organizer_only() {
    let organizer = who(&[1]);
    let buyer = who(&[2, 3]);
    let stranger = who(&[9, 9, 9]);
    let mut store = TicketStore::new();
    let event_id = register(&mut store, "Concert", 2, &organizer);
    let ticket = store.mint_ticket(event_id, &buyer, 1).unwrap();
    assert_eq!(store.get_ticket(ticket.id, &buyer), Ok(ticket.clone()));
    assert_eq!(store.get_ticket(ticket.id, &organizer), Ok(ticket.clone()));
    assert_eq!(store.get_ticket(ticket.id, &stranger), Err(TicketError::Unauthorized));
    assert_eq!(store.get_ticket(ticket.id, &who(&[])), Err(TicketError::Unauthorized));
}

#[test]
fn organizer_of_another_event_is_a_stranger() {
    let organizer = who(&[1]);
    let rival = who(&[5]);
    let buyer = who(&[2, 3]);
    let mut store = TicketStore::new();
    let event_id = register(&mut store, "Concert", 2, &organizer);
    register(&mut store, "Rival show", 2, &rival);
    let ticket = store.mint_ticket(event_id, &buyer, 1).unwrap();
    assert_eq!(store.get_ticket(ticket.id, &rival), Err(TicketError::Unauthorized));
    assert_eq!(
        store.validate_ticket(ticket.id, ticket.qr_code.clone(), &rival),
        Err(TicketError::Unauthorized)
    );
}

#[test]
fn organizer_sees_a_ticket_they_did_not_buy_and_their_own() {
    let organizer = who(&[1]);
    let buyer = who(&[2, 3]);
    let mut store = TicketStore::new();
    let event_id = register(&mut store, "Concert", 2, &organizer);
    let bought = store.mint_ticket(event_id, &buyer, 1).unwrap();
    let own = store.mint_ticket(event_id, &organizer, 2).unwrap();
    assert_eq!(store.get_ticket(bought.id, &organizer), Ok(bought));
    assert_eq!(store.get_ticket(own.id, &organizer), Ok(own.clone()));
    assert_eq!(store.get_ticket(own.id, &buyer), Err(TicketError::Unauthorized));
}

#[test]
fn get_ticket_fails_for_unknown_id() {
    let organizer = who(&[1]);
    let mut store = TicketStore::new();
    assert_eq!(store.get_ticket(1, &organizer), Err(TicketError::TicketNotFound));
    let event_id = register(&mut store, "Concert", 2, &organizer);
    store.mint_ticket(event_id, &organizer, 1).unwrap();
    assert_eq!(store.get_ticket(0, &organizer), Err(TicketError::TicketNotFound));
    assert_eq!(store.get_ticket(2, &organizer), Err(TicketError::TicketNotFound));
}

#[test]
fn validate_twice_succeeds_then_fails() {
    let organizer = who(&[1]);
    let buyer = who(&[2, 3]);
    let mut store = TicketStore::new();
    let event_id = register(&mut store, "Concert", 2, &organizer);
    let ticket = store.mint_ticket(event_id, &buyer, 1).unwrap();
    assert_eq!(store.validate_ticket(ticket.id, ticket.qr_code.clone(), &organizer), Ok(true));
    assert!(store.get_ticket(ticket.id, &buyer).unwrap().is_used);
    assert_eq!(
        store.validate_ticket(ticket.id, ticket.qr_code.clone(), &organizer),
        Err(TicketError::TicketAlreadyUsed)
    );
    assert!(store.get_ticket(ticket.id, &buyer).unwrap().is_used);
}

#[test]
fn validate_by_non_organizer_is_unauthorized_whatever_else_holds() {
    let organizer = who(&[1]);
    let buyer = who(&[2, 3]);
    let stranger = who(&[9, 9, 9]);
    let mut store = TicketStore::new();
    let event_id = register(&mut store, "Concert", 2, &organizer);
    let ticket = store.mint_ticket(event_id, &buyer, 1).unwrap();
    for caller in [&buyer, &stranger] {
        assert_eq!(
            store.validate_ticket(ticket.id, ticket.qr_code.clone(), caller),
            Err(TicketError::Unauthorized)
        );
        assert_eq!(
            store.validate_ticket(ticket.id, "forged".to_string(), caller),
            Err(TicketError::Unauthorized)
        );
        assert!(!store.get_ticket(ticket.id, &buyer).unwrap().is_used);
    }
    store.validate_ticket(ticket.id, ticket.qr_code.clone(), &organizer).unwrap();
    for caller in [&buyer, &stranger] {
        assert_eq!(
            store.validate_ticket(ticket.id, ticket.qr_code.clone(), caller),
            Err(TicketError::Unauthorized)
        );
        assert_eq!(
            store.validate_ticket(ticket.id, "forged".to_string(), caller),
            Err(TicketError::Unauthorized)
        );
        assert!(store.get_ticket(ticket.id, &buyer).unwrap().is_used);
    }
}

#[test]
fn validate_with_wrong_token_fails_and_keeps_ticket_unused() {
    let organizer = who(&[1]);
    let buyer = who(&[2, 3]);
    let mut store = TicketStore::new();
    let event_id = register(&mut store, "Concert", 2, &organizer);
    let ticket = store.mint_ticket(event_id, &buyer, 1).unwrap();
    let mut almost = ticket.qr_code.clone();
    let last = almost.pop().unwrap();
    almost.push(if last == '0' { '1' } else { '0' });
    let upper = ticket.qr_code.to_uppercase();
    let shorter = ticket.qr_code[..63].to_string();
    for wrong in [String::new(), "forged".to_string(), almost, upper, shorter] {
        if wrong == ticket.qr_code {
            continue;
        }
        assert_eq!(
            store.validate_ticket(ticket.id, wrong, &organizer),
            Err(TicketError::InvalidQRCode)
        );
        assert!(!store.get_ticket(ticket.id, &buyer).unwrap().is_used);
    }
    assert_eq!(store.validate_ticket(ticket.id, ticket.qr_code.clone(), &organizer), Ok(true));
}

#[test]
fn validate_with_token_of_another_ticket_fails() {
    let organizer = who(&[1]);
    let buyer = who(&[2, 3]);
    let mut store = TicketStore::new();
    let event_id = register(&mut store, "Concert", 2, &organizer);
    let first = store.mint_ticket(event_id, &buyer, 1).unwrap();
    let second = store.mint_ticket(event_id, &buyer, 1).unwrap();
    assert_ne!(first.qr_code, second.qr_code);
    assert_eq!(
        store.validate_ticket(first.id, second.qr_code.clone(), &organizer),
        Err(TicketError::InvalidQRCode)
    );
    assert_eq!(store.validate_ticket(second.id, second.qr_code.clone(), &organizer), Ok(true));
    assert!(!store.get_ticket(first.id, &buyer).unwrap().is_used);
}

#[test]
fn already_used_is_reported_before_a_wrong_token() {
    let organizer = who(&[1]);
    let buyer = who(&[2, 3]);
    let mut store = TicketStore::new();
    let event_id = register(&mut store, "Concert", 2, &organizer);
    let ticket = store.mint_ticket(event_id, &buyer, 1).unwrap();
    store.validate_ticket(ticket.id, ticket.qr_code.clone(), &organizer).unwrap();
    assert_eq!(
        store.validate_ticket(ticket.id, "forged".to_string(), &organizer),
        Err(TicketError::TicketAlreadyUsed)
    );
}

#[test]
fn validate_unknown_ticket_fails() {
    let organizer = who(&[1]);
    let mut store = TicketStore::new();
    register(&mut store, "Concert", 2, &organizer);
    assert_eq!(
        store.validate_ticket(1, "anything".to_string(), &organizer),
        Err(TicketError::TicketNotFound)
    );
}

#[test]
fn capacity_one_scenario() {
    let organizer = who(&[1]);
    let buyer = who(&[2, 3]);
    let mut store = TicketStore::new();
    let event_id = register(&mut store, "Concert", 1, &organizer);
    let ticket = store.mint_ticket(event_id, &buyer, 1_700_000_000_000_000_000).unwrap();
    assert_eq!(store.get_event(event_id).unwrap().tickets_sold, 1);
    assert_eq!(
        store.mint_ticket(event_id, &buyer, 1_700_000_000_000_000_001),
        Err(TicketError::NoTicketsAvailable)
    );
    assert_eq!(store.get_event(event_id).unwrap().tickets_sold, 1);
    assert_eq!(store.validate_ticket(ticket.id, ticket.qr_code.clone(), &organizer), Ok(true));
    assert_eq!(
        store.validate_ticket(ticket.id, ticket.qr_code.clone(), &organizer),
        Err(TicketError::TicketAlreadyUsed)
    );
}

#[test]
fn stores_do_not_share_state() {
    let organizer = who(&[1]);
    let mut one = TicketStore::new();
    let mut two = TicketStore::new();
    assert_eq!(register(&mut one, "Here", 1, &organizer), 1);
    assert_eq!(register(&mut two, "There", 1, &organizer), 1);
    one.mint_ticket(1, &organizer, 1).unwrap();
    assert_eq!(two.get_event(1).unwrap().tickets_sold, 0);
    assert_eq!(two.get_ticket(1, &organizer), Err(TicketError::TicketNotFound));
}

#[test]
fn minting_changes_only_the_number_sold() {
    let organizer = who(&[1]);
    let buyer = who(&[2, 3]);
    let mut store = TicketStore::new();
    let event_id = register(&mut store, "Concert", 2, &organizer);
    let before = store.get_event(event_id).unwrap();
    store.mint_ticket(event_id, &buyer, 1).unwrap();
    let after = store.get_event(event_id).unwrap();
    assert_eq!(after, Event { tickets_sold: 1, ..before });
}

#[test]
fn redeeming_changes_only_the_used_flag() {
    let organizer = who(&[1]);
    let buyer = who(&[2, 3]);
    let mut store = TicketStore::new();
    let event_id = register(&mut store, "Concert", 2, &organizer);
    let before = store.mint_ticket(event_id, &buyer, 1).unwrap();
    let event = store.get_event(event_id).unwrap();
    store.validate_ticket(before.id, before.qr_code.clone(), &organizer).unwrap();
    let after = store.get_ticket(before.id, &buyer).unwrap();
    assert_eq!(after, Ticket { is_used: true, ..before });
    assert_eq!(store.get_event(event_id).unwrap(), event);
}
