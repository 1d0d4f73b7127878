use std::collections::HashMap;
use inquirynet::net::inquiry::{
    choose_request_id, new_request_id_rng, retransmission_timeout, round_trip_ms, HandlerRegistry,
    PendingInquiries, TimeoutStep, request_id_from_draw, MAX_RETRANSMISSIONS, REQUEST_ID_MASK,
};
use inquirynet::net::RFC6298BasedRTO;

#[test]
fn request_ids_are_fresh_31_bit_numbers() {
    let mut rng = new_request_id_rng();
    let mut waiting: HashMap<u32, ()> = HashMap::new();
    for _ in 0..1000 {
        let id = choose_request_id(&mut rng, &waiting);
        assert!(id <= REQUEST_ID_MASK);
        assert!(!waiting.contains_key(&id));
        waiting.insert(id, ());
    }
    assert_eq!(waiting.len(), 1000);
}

#[test]
fn retransmissions_back_off_then_give_up() {
    let mut rto = RFC6298BasedRTO::<u32>::new(1, 50);
    inquirynet::net::RetransmissionTimerAlgorithm::add_sample(&mut rto, &9, 0, 10, 0);
    assert_eq!(retransmission_timeout(&rto, &9, 0), Some(120));
    assert_eq!(retransmission_timeout(&rto, &9, 1), Some(240));
    assert_eq!(retransmission_timeout(&rto, &9, 2), Some(480));
    assert_eq!(retransmission_timeout(&rto, &9, MAX_RETRANSMISSIONS), None);
    assert_eq!(retransmission_timeout(&rto, &8, 0), Some(2000));
}

#[test]
fn round_trip_is_elapsed_time() {
    assert_eq!(round_trip_ms(1000, 1250), 250);
    assert_eq!(round_trip_ms(5, 5), 0);
    assert_eq!(round_trip_ms(0, (1u64 << 32) + 7), 7);
}

#[test]
fn handler_registration_is_all_or_nothing() {
    let mut reg: HandlerRegistry<u64, &'static str> = HandlerRegistry::new();
    assert!(reg.register(0, 100, 200, "echo"));
    // the request type is taken
    assert!(!reg.register(1, 100, 300, "other"));
    // the id is taken: the new request type is not kept either
    assert!(!reg.register(0, 101, 300, "other"));
    assert_eq!(reg.request_type_id(&101), None);
    assert_eq!(reg.request_type_id(&100), Some(0));
    assert_eq!(reg.handler(0), Some(&"echo"));
    assert_eq!(reg.handler(1), None);
    assert!(reg.register(1, 101, 300, "other"));
    assert_eq!(reg.request_type_id(&101), Some(1));
    assert_eq!(reg.handler(1), Some(&"other"));
}

#[test]
fn pending_inquiry_leaves_once() {
    let mut rng = new_request_id_rng();
    let mut table: PendingInquiries<u32, &'static str> = PendingInquiries::new();
    let a = table.fresh_id(&mut rng);
    assert!(a <= REQUEST_ID_MASK);
    table.insert(a, 1, "first", 100);
    let b = table.fresh_id(&mut rng);
    assert_ne!(a, b);
    table.insert(b, 2, "second", 200);
    assert_eq!(table.len(), 2);

    assert_eq!(table.count_retransmission(a), Some(0));
    assert_eq!(table.count_retransmission(a), Some(1));
    let p = table.get(a).unwrap();
    assert_eq!((p.entry, p.transmit_time, p.retransmit_count), ("first", 100, 2));

    let taken = table.take(a).unwrap();
    assert_eq!(taken.entry, "first");
    assert_eq!(taken.retransmit_count, 2);
    // taken once: it is gone afterwards
    assert!(table.take(a).is_none());
    assert!(table.get(a).is_none());
    assert_eq!(table.count_retransmission(a), None);
    assert_eq!(table.len(), 1);
    assert_eq!(table.take(b).unwrap().transmit_time, 200);
    assert_eq!(table.len(), 0);
}

#[test]
fn request_id_is_the_masked_draw_when_free() {
    let mut waiting: HashMap<u32, ()> = HashMap::new();
    assert_eq!(request_id_from_draw(0x8000_0005, &waiting), Some(5));
    assert_eq!(request_id_from_draw(0x1234_5678, &waiting), Some(0x1234_5678));
    waiting.insert(5, ());
    assert_eq!(request_id_from_draw(0x8000_0005, &waiting), None);
    assert_eq!(request_id_from_draw(5, &waiting), None);
    assert_eq!(request_id_from_draw(6, &waiting), Some(6));
}

#[test]
fn answer_records_the_round_trip() {
    let mut rng = new_request_id_rng();
    let mut rto = RFC6298BasedRTO::<u32>::new(1, 50);
    let mut table: PendingInquiries<u32, &'static str> = PendingInquiries::new();
    let id = table.fresh_id(&mut rng);
    table.insert(id, 4, "cb", 1000);
    let p = table.answer(&mut rto, id, 1010).unwrap();
    assert_eq!(p.entry, "cb");
    assert_eq!(inquirynet::net::RetransmissionTimerAlgorithm::get_rto(&rto, &4, 0), 60);
    // answered once: a second response finds nothing and records nothing
    assert!(table.answer(&mut rto, id, 5000).is_none());
    assert_eq!(inquirynet::net::RetransmissionTimerAlgorithm::get_rto(&rto, &4, 0), 60);
}

#[test]
fn timeouts_resend_three_times_then_give_up() {
    let rto = RFC6298BasedRTO::<u32>::new(1, 50);
    let mut table: PendingInquiries<u32, &'static str> = PendingInquiries::new();
    table.insert(7, 4, "cb", 0);
    for expected in [2000u32, 4000, 8000] {
        match table.on_timeout(&rto, 7) {
            TimeoutStep::Resend { timeout } => assert_eq!(timeout, expected),
            _ => panic!("expected a resend"),
        }
    }
    match table.on_timeout(&rto, 7) {
        TimeoutStep::GiveUp(p) => assert_eq!(p.entry, "cb"),
        _ => panic!("expected giving up"),
    }
    assert!(matches!(table.on_timeout(&rto, 7), TimeoutStep::Finished));
    assert_eq!(table.len(), 0);
}
