use coin_flip_function::generator::Fault;
use coin_flip_function::pipeline::{
    build_instructions, build_instructions_with_entropy, plan_batch, process_requests, settle, settle_with_entropy, DecodeFault,
    GameRequest, SettlementInstruction, BATCH_TTL_SECS, RESOURCE_BUDGET,
};
use coin_flip_function::uint256::Uint256;

fn num(v: u64) -> Uint256 {
    Uint256::from_u64(v)
}

fn request(game_type: u64, id: u64) -> GameRequest {
    GameRequest {
        game_type: num(game_type),
        contract_address: [0xaa; 20],
        requester_address: [0xbb; 20],
        request_id: num(id),
        request_timestamp: num(1_700_000_000),
    }
}

#[test]
fn coin_flip_record_gives_one_instruction() {
    let records = vec![Ok(request(1, 7))];
    let batch = process_requests(&records, 1_000).unwrap().unwrap();
    assert_eq!(batch.instructions.len(), 1);
    let ins = batch.instructions[0];
    assert_eq!(ins.contract_address, [0xaa; 20]);
    assert_eq!(ins.request_id, num(7));
    let v = ins.outcome.to_u64().unwrap();
    assert!(v == 1 || v == 2);
}

#[test]
fn unknown_game_type_faults_the_whole_run() {
    let records = vec![Ok(request(3, 1)), Ok(request(2, 2))];
    assert_eq!(process_requests(&records, 1_000), Err(Fault::UnknownGameType(num(3))));
    let later = vec![Ok(request(2, 2)), Ok(request(9, 3))];
    assert_eq!(process_requests(&later, 1_000), Err(Fault::UnknownGameType(num(9))));
}

#[test]
fn empty_input_gives_no_batch() {
    let records: Vec<Result<GameRequest, DecodeFault>> = Vec::new();
    assert_eq!(process_requests(&records, 1_000), Ok(None));
}

#[test]
fn undecodable_record_gives_no_batch() {
    let records = vec![Err(DecodeFault)];
    assert_eq!(process_requests(&records, 1_000), Ok(None));
}

#[test]
fn undecodable_records_are_skipped() {
    let records = vec![Err(DecodeFault), Ok(request(2, 5)), Err(DecodeFault), Ok(request(1, 6))];
    let out = build_instructions(&records).unwrap();
    assert_eq!(out.len(), 2);
    assert_eq!(out[0].request_id, num(5));
    assert!((1..=6).contains(&out[0].outcome.to_u64().unwrap()));
    assert_eq!(out[1].request_id, num(6));
    assert!((1..=2).contains(&out[1].outcome.to_u64().unwrap()));
}

#[test]
fn batch_expires_after_time_to_live() {
    let ins = SettlementInstruction {
        contract_address: [1; 20],
        request_id: num(3),
        outcome: num(2),
    };
    let batch = plan_batch(vec![ins], 1_700_000_000).unwrap();
    assert_eq!(BATCH_TTL_SECS, 180);
    assert_eq!(batch.expiration, num(1_700_000_180));
    assert_eq!(batch.resource_budget, num(RESOURCE_BUDGET));
    assert_eq!(batch.resource_budget, num(1_000_000));
    assert_eq!(batch.fee_payer, [0u8; 20]);
    assert_eq!(batch.instructions, vec![ins]);

    let late = plan_batch(vec![ins], u64::MAX).unwrap();
    assert_eq!(late.expiration.limbs, [179, 1, 0, 0]);
    assert_eq!(plan_batch(Vec::new(), 5), None);
}

#[test]
fn settlement_with_fixed_entropy() {
    let mut e = [0u8; 32];
    e[0] = 9;
    let dice = settle_with_entropy(&request(2, 11), &e).unwrap();
    // 1 + 9 % 6
    assert_eq!(dice.outcome, num(4));
    assert_eq!(dice.request_id, num(11));
    let coin = settle_with_entropy(&request(1, 12), &e).unwrap();
    // 1 + 9 % 2
    assert_eq!(coin.outcome, num(2));
    assert_eq!(
        settle_with_entropy(&request(5, 13), &e),
        Err(Fault::UnknownGameType(num(5)))
    );
}

#[test]
fn settle_draws_within_interval() {
    let ins = settle(&request(2, 1)).unwrap();
    assert!((1..=6).contains(&ins.outcome.to_u64().unwrap()));
    assert_eq!(settle(&request(0, 1)), Err(Fault::UnknownGameType(num(0))));
}

fn draw(low: u8) -> [u8; 32] {
    let mut e = [0u8; 32];
    e[0] = low;
    e
}

#[test]
fn draws_are_used_in_order_of_decoded_requests() {
    let records = vec![Ok(request(2, 1)), Ok(request(1, 2)), Ok(request(2, 3))];
    let draws = vec![draw(9), draw(9), draw(4)];
    let out = build_instructions_with_entropy(&records, &draws).unwrap();
    // 1 + 9 % 6, 1 + 9 % 2, 1 + 4 % 6
    let outcomes: Vec<Uint256> = out.iter().map(|i| i.outcome).collect();
    assert_eq!(outcomes, vec![num(4), num(2), num(5)]);
    assert_eq!(out[2].request_id, num(3));
}

#[test]
fn inserted_decode_faults_leave_outcomes_unchanged() {
    let plain = vec![Ok(request(2, 1)), Ok(request(1, 2))];
    let with_faults = vec![
        Err(DecodeFault),
        Ok(request(2, 1)),
        Err(DecodeFault),
        Err(DecodeFault),
        Ok(request(1, 2)),
        Err(DecodeFault),
    ];
    let draws = vec![draw(200), draw(7)];
    assert_eq!(
        build_instructions_with_entropy(&plain, &draws),
        build_instructions_with_entropy(&with_faults, &draws)
    );
}

#[test]
fn missing_draw_is_entropy_fault() {
    let records = vec![Ok(request(2, 1)), Err(DecodeFault), Ok(request(1, 2))];
    assert_eq!(
        build_instructions_with_entropy(&records, &vec![draw(1)]),
        Err(Fault::EntropyUnavailable)
    );
    let only_faults: Vec<Result<GameRequest, DecodeFault>> = vec![Err(DecodeFault)];
    assert_eq!(build_instructions_with_entropy(&only_faults, &Vec::new()), Ok(Vec::new()));
}

#[test]
fn unknown_game_type_before_missing_draw_wins() {
    let records = vec![Ok(request(2, 1)), Ok(request(8, 2)), Ok(request(1, 3))];
    assert_eq!(
        build_instructions_with_entropy(&records, &vec![draw(1)]),
        Err(Fault::UnknownGameType(num(8)))
    );
    assert_eq!(
        build_instructions_with_entropy(&records, &vec![draw(1), draw(2), draw(3)]),
        Err(Fault::UnknownGameType(num(8)))
    );
    let first = vec![Ok(request(3, 1)), Ok(request(2, 2))];
    assert_eq!(
        build_instructions_with_entropy(&first, &Vec::new()),
        Err(Fault::UnknownGameType(num(3)))
    );
    assert_eq!(build_instructions(&first), Err(Fault::UnknownGameType(num(3))));
}
