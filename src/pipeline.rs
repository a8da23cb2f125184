//! Game requests in, one batch of settlement calls out.

use vstd::prelude::*;
use crate::uint256::{Uint256, checked_add};
use crate::generator::{Fault, drawn, generate_from_entropy, generate_randomness,
    lemma_drawn_within};
use crate::entropy::le_value;

verus! {

/// Seconds for which an emitted batch stays valid.
pub const BATCH_TTL_SECS: u64 = 180;

/// Resource budget attached to every emitted batch.
pub const RESOURCE_BUDGET: u64 = 1_000_000;

/// A request to settle one game, as decoded from its parameters.
#[derive(Clone, Copy, Debug, PartialEq, Eq)]
pub struct GameRequest {
    /// 1 for a coin flip, 2 for a dice roll.
    pub game_type: Uint256,
    pub contract_address: [u8; 20],
    pub requester_address: [u8; 20],
    pub request_id: Uint256,
    pub request_timestamp: Uint256,
}

/// The parameters of a request could not be decoded.
#[derive(Clone, Copy, Debug, PartialEq, Eq)]
pub struct DecodeFault;

/// A settlement call to make: the contract to call, the request it settles
/// and the outcome drawn for it.
#[derive(Clone, Copy, Debug, PartialEq, Eq)]
pub struct SettlementInstruction {
    pub contract_address: [u8; 20],
    pub request_id: Uint256,
    pub outcome: Uint256,
}

/// The settlement calls to emit together, with who pays, until when they
/// are valid, and their resource budget.
#[derive(Clone, Debug, PartialEq, Eq)]
pub struct OutgoingBatch {
    pub fee_payer: [u8; 20],
    pub expiration: Uint256,
    pub resource_budget: Uint256,
    pub instructions: Vec<SettlementInstruction>,
}

/// The closed interval of outcomes of a game type: a coin flip gives 1 or
/// 2, a dice roll 1 to 6; other types have none.
pub open spec fn game_interval(game_type: nat) -> Option<(nat, nat)> {
    if game_type == 1 {
        Some((1nat, 2nat))
    } else if game_type == 2 {
        Some((1nat, 6nat))
    } else {
        None
    }
}

/// The requests among the records that were decoded, in their order.
pub open spec fn decoded(records: Seq<Result<GameRequest, DecodeFault>>) -> Seq<GameRequest>
    decreases records.len(),
{
    if records.len() == 0 {
        Seq::empty()
    } else {
        let before = decoded(records.drop_last());
        match records.last() {
            Ok(req) => before.push(req),
            Err(_) => before,
        }
    }
}

/// `ins` settles `req` with the outcome that the entropy `seed` draws.
pub open spec fn settles_with(req: GameRequest, ins: SettlementInstruction, seed: nat) -> bool {
    &&& ins.contract_address == req.contract_address
    &&& ins.request_id == req.request_id
    &&& game_interval(req.game_type.value()) matches Some((lo, hi))
    &&& ins.outcome.value() == drawn(lo, hi, seed)
}

/// `ins` settles `req` with an outcome drawn by some 32 bytes of entropy.
pub open spec fn settles(req: GameRequest, ins: SettlementInstruction) -> bool {
    exists|e: Seq<u8>| e.len() == 32 && settles_with(req, ins, le_value(e))
}

/// A settled outcome lies in the interval of its request's game type: 1 or 2
/// for a coin flip, 1 to 6 for a dice roll.
pub proof fn lemma_settled_outcome_in_interval(req: GameRequest, ins: SettlementInstruction)
    requires
        settles(req, ins),
    ensures
        game_interval(req.game_type.value()) matches Some((lo, hi)) && lo <= ins.outcome.value()
            <= hi,
{
    let e = choose|e: Seq<u8>| e.len() == 32 && settles_with(req, ins, le_value(e));
    let (lo, hi) = game_interval(req.game_type.value()).unwrap();
    lemma_drawn_within(lo, hi, le_value(e));
}

/// The interval of outcomes of a game type.
pub fn get_game_config(game_type: Uint256) -> (r: Result<(Uint256, Uint256), Fault>)
    ensures
        r is Ok <==> (game_type.value() == 1 || game_type.value() == 2),
        game_interval(game_type.value()) matches Some((lo, hi)) ==> (r matches Ok((a, b)) && a.value()
            == lo && b.value() == hi),
        game_interval(game_type.value()) is None ==> r == Err::<(Uint256, Uint256), Fault>(
            Fault::UnknownGameType(game_type),
        ),
{
    match game_type.to_u64() {
        Some(1) => Ok((Uint256::from_u64(1), Uint256::from_u64(2))),
        Some(2) => Ok((Uint256::from_u64(1), Uint256::from_u64(6))),
        _ => Err(Fault::UnknownGameType(game_type)),
    }
}

/// The settlement of a request whose outcome the 32 bytes of `entropy`
/// select.
pub fn settle_with_entropy(request: &GameRequest, entropy: &[u8; 32]) -> (r: Result<
    SettlementInstruction,
    Fault,
>)
    ensures
        game_interval(request.game_type.value()) is Some ==> (r matches Ok(ins) && settles_with(
            *request,
            ins,
            le_value(entropy@),
        )),
        game_interval(request.game_type.value()) is None ==> r == Err::<
            SettlementInstruction,
            Fault,
        >(Fault::UnknownGameType(request.game_type)),
{
    let (lo, hi) = get_game_config(request.game_type)?;
    let outcome = generate_from_entropy(lo, hi, entropy);
    Ok(SettlementInstruction {
        contract_address: request.contract_address,
        request_id: request.request_id,
        outcome,
    })
}

/// The settlement of a request, with an outcome drawn from the enclave's
/// entropy.
pub fn settle(request: &GameRequest) -> (r: Result<SettlementInstruction, Fault>)
    ensures
        game_interval(request.game_type.value()) is None <==> r == Err::<
            SettlementInstruction,
            Fault,
        >(Fault::UnknownGameType(request.game_type)),
        r is Err ==> r == Err::<SettlementInstruction, Fault>(Fault::UnknownGameType(
            request.game_type,
        )) || r == Err::<SettlementInstruction, Fault>(Fault::EntropyUnavailable),
        r matches Ok(ins) ==> settles(*request, ins),
{
    let (lo, hi) = get_game_config(request.game_type)?;
    let outcome = generate_randomness(lo, hi)?;
    Ok(SettlementInstruction {
        contract_address: request.contract_address,
        request_id: request.request_id,
        outcome,
    })
}

proof fn lemma_decoded_step(records: Seq<Result<GameRequest, DecodeFault>>, i: int)
    requires
        0 <= i < records.len(),
    ensures
        decoded(records.take(i + 1)) == match records[i] {
            Ok(req) => decoded(records.take(i)).push(req),
            Err(_) => decoded(records.take(i)),
        },
{
    assert(records.take(i + 1).drop_last() =~= records.take(i));
}

/// The index of the first request whose game type has no interval, or the
/// number of requests where every one has an interval.
pub open spec fn first_unknown(requests: Seq<GameRequest>) -> int
    decreases requests.len(),
{
    if requests.len() == 0 {
        0
    } else {
        let before = first_unknown(requests.drop_last());
        if before < requests.len() - 1 {
            before
        } else if game_interval(requests.last().game_type.value()) is None {
            requests.len() - 1
        } else {
            requests.len() as int
        }
    }
}

/// `first_unknown` is the first index without an interval.
pub proof fn lemma_first_unknown(requests: Seq<GameRequest>)
    ensures
        0 <= first_unknown(requests) <= requests.len(),
        forall|k: int|
            0 <= k < first_unknown(requests) ==> #[trigger] game_interval(
                requests[k].game_type.value(),
            ) is Some,
        first_unknown(requests) < requests.len() ==> game_interval(
            requests[first_unknown(requests)].game_type.value(),
        ) is None,
    decreases requests.len(),
{
    if requests.len() > 0 {
        let before = requests.drop_last();
        lemma_first_unknown(before);
        assert forall|k: int| 0 <= k < before.len() implies before[k] == requests[k] by {}
    }
}

/// Records that failed to decode do not count: inserting one anywhere leaves
/// the decoded requests, and so every settlement, as they were.
pub proof fn lemma_decode_faults_ignored(
    records: Seq<Result<GameRequest, DecodeFault>>,
    k: int,
    fault: DecodeFault,
)
    requires
        0 <= k <= records.len(),
    ensures
        decoded(records.insert(k, Err(fault))) == decoded(records),
    decreases records.len(),
{
    let with = records.insert(k, Err(fault));
    if k == records.len() {
        assert(with.drop_last() =~= records);
    } else {
        let shorter = records.drop_last();
        lemma_decode_faults_ignored(shorter, k, fault);
        assert(with.drop_last() =~= shorter.insert(k, Err(fault)));
        assert(with.last() == records.last());
    }
}

/// Some decoded request names a game type without an interval.
pub open spec fn has_unknown_game(requests: Seq<GameRequest>) -> bool {
    exists|k: int| 0 <= k < requests.len() && #[trigger] game_interval(requests[k].game_type.value()) is None
}

/// One settlement per decoded record, in order; records that failed to
/// decode are skipped. A request with an unknown game type, or a failure of
/// the entropy source, stops the whole batch.
pub fn build_instructions(records: &Vec<Result<GameRequest, DecodeFault>>) -> (r: Result<
    Vec<SettlementInstruction>,
    Fault,
>)
    ensures
        r matches Ok(v) ==> v@.len() == decoded(records@).len() && forall|k: int|
            0 <= k < v@.len() ==> settles(#[trigger] decoded(records@)[k], v@[k]),
        r matches Ok(_) ==> !has_unknown_game(decoded(records@)),
        r is Err ==> decoded(records@).len() > 0,
        r matches Err(Fault::UnknownGameType(g)) ==> first_unknown(decoded(records@)) < decoded(
            records@,
        ).len() && g == decoded(records@)[first_unknown(decoded(records@))].game_type,
        first_unknown(decoded(records@)) < decoded(records@).len() ==> (r == Err::<
            Vec<SettlementInstruction>,
            Fault,
        >(Fault::UnknownGameType(decoded(records@)[first_unknown(decoded(records@))].game_type))
            || (first_unknown(decoded(records@)) > 0 && r == Err::<
            Vec<SettlementInstruction>,
            Fault,
        >(Fault::EntropyUnavailable))),
        r == Err::<Vec<SettlementInstruction>, Fault>(Fault::EntropyUnavailable) ==> first_unknown(
            decoded(records@),
        ) > 0,
        !has_unknown_game(decoded(records@)) ==> (r is Ok || r == Err::<
            Vec<SettlementInstruction>,
            Fault,
        >(Fault::EntropyUnavailable)),
{
    proof {
        lemma_first_unknown(decoded(records@));
    }
    let mut out: Vec<SettlementInstruction> = Vec::new();
    let mut i: usize = 0;
    assert(records@.take(0) =~= Seq::<Result<GameRequest, DecodeFault>>::empty());
    while i < records.len()
        invariant
            i <= records@.len(),
            out@.len() == decoded(records@.take(i as int)).len(),
            forall|k: int|
                0 <= k < out@.len() ==> settles(#[trigger] decoded(records@.take(i as int))[k], out@[k]),
            !has_unknown_game(decoded(records@.take(i as int))),
        decreases records@.len() - i,
    {
        proof {
            lemma_decoded_step(records@, i as int);
        }
        match &records[i] {
            Ok(request) => {
                match settle(request) {
                    Ok(ins) => {
                        out.push(ins);
                    },
                    Err(f) => {
                        proof {
                            let d = decoded(records@.take(i as int + 1));
                            assert(d[d.len() - 1] == *request);
                            lemma_decoded_prefix(records@, i as int + 1);
                            let dd = decoded(records@);
                            let p = out@.len() as int;
                            assert(dd[p] == *request);
                            lemma_decoded_prefix(records@, i as int);
                            assert forall|k: int| 0 <= k < p implies #[trigger] game_interval(
                                dd[k].game_type.value(),
                            ) is Some by {
                                assert(dd[k] == decoded(records@.take(i as int))[k]);
                            }
                            lemma_first_unknown(dd);
                            if game_interval(dd[p].game_type.value()) is None {
                                assert(first_unknown(dd) == p);
                            } else {
                                assert(first_unknown(dd) > p);
                            }
                        }
                        return Err(f);
                    },
                }
            },
            Err(_) => {},
        }
        i += 1;
    }
    assert(records@.take(records@.len() as int) =~= records@);
    Ok(out)
}

/// One settlement per decoded record, in order, the k-th decoded request
/// drawing its outcome from `draws[k]`; records that failed to decode are
/// skipped and use no draw. The first request with an unknown game type
/// stops the batch, and so does a request that finds no draw left.
pub fn build_instructions_with_entropy(
    records: &Vec<Result<GameRequest, DecodeFault>>,
    draws: &Vec<[u8; 32]>,
) -> (r: Result<Vec<SettlementInstruction>, Fault>)
    ensures
        ({
            let d = decoded(records@);
            let j = first_unknown(d);
            let n = draws@.len() as int;
            &&& j < d.len() && j <= n ==> r == Err::<Vec<SettlementInstruction>, Fault>(
                Fault::UnknownGameType(d[j].game_type),
            )
            &&& n < j && n < d.len() ==> r == Err::<Vec<SettlementInstruction>, Fault>(
                Fault::EntropyUnavailable,
            )
            &&& j == d.len() && n >= d.len() ==> (r matches Ok(v) && v@.len() == d.len() && forall|
                k: int,
            |
                0 <= k < d.len() ==> settles_with(
                    #[trigger] d[k],
                    v@[k],
                    le_value(draws@[k]@),
                ))
        }),
{
    proof {
        lemma_first_unknown(decoded(records@));
    }
    let mut out: Vec<SettlementInstruction> = Vec::new();
    let mut i: usize = 0;
    assert(records@.take(0) =~= Seq::<Result<GameRequest, DecodeFault>>::empty());
    while i < records.len()
        invariant
            i <= records@.len(),
            out@.len() == decoded(records@.take(i as int)).len(),
            out@.len() <= draws@.len(),
            forall|k: int|
                0 <= k < out@.len() ==> settles_with(
                    #[trigger] decoded(records@.take(i as int))[k],
                    out@[k],
                    le_value(draws@[k]@),
                ),
            !has_unknown_game(decoded(records@.take(i as int))),
        decreases records@.len() - i,
    {
        proof {
            lemma_decoded_step(records@, i as int);
            lemma_decoded_prefix(records@, i as int);
            lemma_decoded_prefix(records@, i as int + 1);
        }
        match &records[i] {
            Ok(request) => {
                let p = out.len();
                let ghost dd = decoded(records@);
                proof {
                    assert(decoded(records@.take(i as int + 1))[p as int] == *request);
                    assert(dd[p as int] == *request);
                    assert forall|k: int| 0 <= k < p implies #[trigger] game_interval(
                        dd[k].game_type.value(),
                    ) is Some by {
                        assert(dd[k] == decoded(records@.take(i as int))[k]);
                    }
                    lemma_first_unknown(dd);
                    if game_interval(dd[p as int].game_type.value()) is None {
                        assert(first_unknown(dd) == p);
                    } else {
                        assert(first_unknown(dd) > p);
                    }
                }
                if p < draws.len() {
                    let ins = settle_with_entropy(request, &draws[p])?;
                    out.push(ins);
                    proof {
                        let now = decoded(records@.take(i as int + 1));
                        assert forall|k: int| 0 <= k < out@.len() implies settles_with(
                            #[trigger] now[k],
                            out@[k],
                            le_value(draws@[k]@),
                        ) by {
                            if k < p {
                                assert(now[k] == decoded(records@.take(i as int))[k]);
                            }
                        }
                    }
                } else {
                    get_game_config(request.game_type)?;
                    return Err(Fault::EntropyUnavailable);
                }
            },
            Err(_) => {},
        }
        i += 1;
    }
    assert(records@.take(records@.len() as int) =~= records@);
    Ok(out)
}

proof fn lemma_decoded_prefix(records: Seq<Result<GameRequest, DecodeFault>>, n: int)
    requires
        0 <= n <= records.len(),
    ensures
        decoded(records.take(n)).len() <= decoded(records).len(),
        forall|k: int|
            0 <= k < decoded(records.take(n)).len() ==> decoded(records)[k] == #[trigger] decoded(
                records.take(n),
            )[k],
    decreases records.len() - n,
{
    if n < records.len() {
        lemma_decoded_step(records, n);
        lemma_decoded_prefix(records, n + 1);
        assert forall|k: int| 0 <= k < decoded(records.take(n)).len() implies decoded(records)[k]
            == #[trigger] decoded(records.take(n))[k] by {
            assert(decoded(records.take(n + 1))[k] == decoded(records.take(n))[k]);
        }
    } else {
        assert(records.take(n) =~= records);
    }
}

/// The batch to emit for the settlements, built at unix time `now`: none
/// where there is no settlement; else all of them, paid by the zero address,
/// valid until `now` plus the time to live, with the fixed resource budget.
pub fn plan_batch(instructions: Vec<SettlementInstruction>, now: u64) -> (r: Option<OutgoingBatch>)
    ensures
        r is None <==> instructions@.len() == 0,
        r matches Some(b) ==> {
            &&& b.instructions@ == instructions@
            &&& b.fee_payer@ == Seq::new(20, |k: int| 0u8)
            &&& b.expiration.value() == now + BATCH_TTL_SECS
            &&& b.expiration.value() > now
            &&& b.resource_budget.value() == RESOURCE_BUDGET
        },
{
    if instructions.len() == 0 {
        return None;
    }
    let expiration = checked_add(Uint256::from_u64(now), Uint256::from_u64(BATCH_TTL_SECS)).unwrap();
    let fee_payer = [0u8; 20];
    assert(fee_payer@ =~= Seq::new(20, |k: int| 0u8));
    Some(
        OutgoingBatch {
            fee_payer,
            expiration,
            resource_budget: Uint256::from_u64(RESOURCE_BUDGET),
            instructions,
        },
    )
}

/// Settles the decoded records and plans their batch at unix time `now`:
/// no batch where no record was decoded.
pub fn process_requests(records: &Vec<Result<GameRequest, DecodeFault>>, now: u64) -> (r: Result<
    Option<OutgoingBatch>,
    Fault,
>)
    ensures
        decoded(records@).len() == 0 ==> r == Ok::<Option<OutgoingBatch>, Fault>(None),
        r matches Ok(None) ==> decoded(records@).len() == 0,
        r matches Ok(Some(b)) ==> {
            &&& b.instructions@.len() == decoded(records@).len()
            &&& forall|k: int|
                0 <= k < b.instructions@.len() ==> settles(
                    #[trigger] decoded(records@)[k],
                    b.instructions@[k],
                )
            &&& b.fee_payer@ == Seq::new(20, |k: int| 0u8)
            &&& b.expiration.value() == now + BATCH_TTL_SECS
            &&& b.expiration.value() > now
            &&& b.resource_budget.value() == RESOURCE_BUDGET
        },
        r is Ok ==> !has_unknown_game(decoded(records@)),
        r matches Err(Fault::UnknownGameType(g)) ==> first_unknown(decoded(records@)) < decoded(
            records@,
        ).len() && g == decoded(records@)[first_unknown(decoded(records@))].game_type,
        first_unknown(decoded(records@)) < decoded(records@).len() ==> (r == Err::<
            Option<OutgoingBatch>,
            Fault,
        >(Fault::UnknownGameType(decoded(records@)[first_unknown(decoded(records@))].game_type))
            || (first_unknown(decoded(records@)) > 0 && r == Err::<
            Option<OutgoingBatch>,
            Fault,
        >(Fault::EntropyUnavailable))),
        r == Err::<Option<OutgoingBatch>, Fault>(Fault::EntropyUnavailable) ==> first_unknown(
            decoded(records@),
        ) > 0,
        !has_unknown_game(decoded(records@)) ==> (r is Ok || r == Err::<
            Option<OutgoingBatch>,
            Fault,
        >(Fault::EntropyUnavailable)),
{
    let instructions = build_instructions(records)?;
    Ok(plan_batch(instructions, now))
}

} // verus!
