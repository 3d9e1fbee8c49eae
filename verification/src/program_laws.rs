//! What the on-chain program promises as a whole.

use crate::client::{
    buy_ix, initialize_ix, launch_of, sell_ix, sell_via_payout_ix,
};
use crate::error::{ProgramError, E_BAD_PARAMS};
use crate::instruction::{transfer, InstructionView};
use crate::key::Pubkey;
use crate::laws::Market;
use crate::market::{buy_result, curve_after_buy, lemma_gross, lemma_two_shares, sell_gross};
use crate::program::{
    above_rent, buy_outcome, initialize_outcome, initialize_refusal, sell_outcome, trade_curve,
    trade_opening, Account,
};
use crate::program_ids::{SYSTEM_PROGRAM, TOKEN_PROGRAM};
use crate::schedule::{ratio_holds, reference};
use crate::state::{
    curve_bytes, lemma_curve_round_trip, lemma_instruction_round_trip, sent_instruction,
    stored_curve, Curve, CurveInstruction, LaunchCfg, MAX_BACKING_BPS, MIN_BACKING_FLOOR_BPS,
};
use crate::token::stored_supply;
use vstd::prelude::*;

verus! {

// ---------------------------------------------------------------------------
// Launches
// ---------------------------------------------------------------------------

/// An accepted launch stores a curve inside the caps, for the mint it names and
/// with the creators and rates it was given; the market it opens is valid.
pub proof fn law_launch_opens_valid_market(
    program_id: Seq<u8>,
    accounts: Seq<Account>,
    buy_creator: Pubkey,
    sell_creator: Pubkey,
    cfg: LaunchCfg,
    pda: Seq<u8>,
    bump: u8,
    rent: Result<u64, ProgramError>,
    vault: nat,
)
    requires
        initialize_outcome(
            program_id,
            accounts,
            buy_creator,
            sell_creator,
            cfg,
            pda,
            bump,
            rent,
        ) is Ok,
    ensures
        ({
            let curve = initialize_outcome(
                program_id,
                accounts,
                buy_creator,
                sell_creator,
                cfg,
                pda,
                bump,
                rent,
            )->Ok_0.curve;
            &&& curve.cfg() == cfg
            &&& curve.mint == accounts[2].key
            &&& curve.buy_creator == buy_creator
            &&& curve.sell_creator == sell_creator
            &&& curve.cum_vol == 0
            &&& (Market { curve, vault, supply: 0 }).valid()
        }),
{
}

/// A curve that exists cannot be launched again.
pub proof fn law_no_relaunch(
    program_id: Seq<u8>,
    accounts: Seq<Account>,
    buy_creator: Pubkey,
    sell_creator: Pubkey,
    cfg: LaunchCfg,
    pda: Seq<u8>,
    bump: u8,
    rent: Result<u64, ProgramError>,
)
    requires
        accounts.len() >= 2,
        accounts[1].owner@ == program_id || stored_curve(accounts[1].data@) is Some,
    ensures
        initialize_outcome(
            program_id,
            accounts,
            buy_creator,
            sell_creator,
            cfg,
            pda,
            bump,
            rent,
        ) is Err,
{
    if stored_curve(accounts[1].data@) is Some {
        let c = stored_curve(accounts[1].data@)->0;
        assert(curve_bytes(c) == accounts[1].data@);
        assert(accounts[1].data@.len() > 0);
    }
}

/// A launch with a backing below 82.5% or above 99% is refused.
pub proof fn law_backing_is_mandatory(
    program_id: Seq<u8>,
    accounts: Seq<Account>,
    buy_creator: Pubkey,
    sell_creator: Pubkey,
    cfg: LaunchCfg,
    pda: Seq<u8>,
    bump: u8,
    rent: Result<u64, ProgramError>,
)
    requires
        !(MIN_BACKING_FLOOR_BPS <= cfg.min_backing_bps <= MAX_BACKING_BPS),
    ensures
        initialize_outcome(
            program_id,
            accounts,
            buy_creator,
            sell_creator,
            cfg,
            pda,
            bump,
            rent,
        ) is Err,
{
}

// ---------------------------------------------------------------------------
// Trades
// ---------------------------------------------------------------------------

/// Trades on a curve inside the caps can be decided on and settled: no fee takes
/// more than everything, and there is a price and a backing.
pub proof fn law_launched_curves_trade(curve: Curve)
    requires
        curve.well_formed(),
    ensures
        curve.fees_fit(true),
        curve.fees_fit(false),
        curve.price_fp > 0,
        curve.min_backing_bps > 0,
{
}

/// A curve that was stored is the one that the next trade is on.
pub proof fn law_trades_read_what_was_stored(
    program_id: Seq<u8>,
    accounts: Seq<Account>,
    buying: bool,
    amount: u64,
    curve: Curve,
)
    requires
        accounts.len() >= 2,
        accounts[1].data@ == curve_bytes(curve),
    ensures
        trade_opening(program_id, accounts, buying, amount) is Ok ==> trade_opening(
            program_id,
            accounts,
            buying,
            amount,
        ) == Ok::<Curve, ProgramError>(curve),
{
    lemma_curve_round_trip(curve);
}

/// An accepted and settled buy takes the market the step that `after_buy` says.
pub proof fn law_buy_steps_market(
    program_id: Seq<u8>,
    accounts: Seq<Account>,
    lamports: u64,
    min_out: u64,
    expect: Seq<u8>,
    rent: Result<u64, ProgramError>,
)
    requires
        ({
            let order = buy_outcome(program_id, accounts, lamports, min_out, expect, rent);
            &&& order is Ok
            &&& order->Ok_0.curve.fees_fit(true)
            &&& buy_result(
                order->Ok_0.curve,
                order->Ok_0.vault,
                order->Ok_0.supply,
                order->Ok_0.donation,
                order->Ok_0.net as nat,
                min_out as nat,
            ) is Ok
        }),
    ensures
        ({
            let order = buy_outcome(program_id, accounts, lamports, min_out, expect, rent)->Ok_0;
            let (out, price) = buy_result(
                order.curve,
                order.vault,
                order.supply,
                order.donation,
                order.net as nat,
                min_out as nat,
            )->Ok_0;
            let m = Market { curve: order.curve, vault: order.vault, supply: order.supply };
            &&& out >= min_out
            &&& m.after_buy(lamports) == Some(
                Market {
                    curve: curve_after_buy(order.curve, price, order.net as nat),
                    vault: (order.vault + order.donation + order.net) as nat,
                    supply: order.supply + out,
                },
            )
        }),
{
    let order = buy_outcome(program_id, accounts, lamports, min_out, expect, rent)->Ok_0;
    lemma_two_shares(
        lamports as nat,
        order.curve.buy_fee_creator_bps,
        order.curve.buy_fee_floor_bps,
    );
}

/// An accepted sell takes the market the step that `after_sell` says.
pub proof fn law_sell_steps_market(
    program_id: Seq<u8>,
    accounts: Seq<Account>,
    units: u64,
    min_out: u64,
    expect: Seq<u8>,
    rent: Result<u64, ProgramError>,
)
    requires
        sell_outcome(program_id, accounts, units, min_out, expect, rent) is Ok,
    ensures
        ({
            let order = sell_outcome(program_id, accounts, units, min_out, expect, rent)->Ok_0;
            let curve = trade_curve(program_id, accounts, false, units, expect)->Ok_0;
            let vault = above_rent(accounts[1].lamports, rent->Ok_0);
            let supply = stored_supply(accounts[2].data@);
            let m = Market { curve, vault, supply };
            &&& order.to_seller >= min_out
            &&& m.after_sell(units) == Some(
                Market {
                    curve,
                    vault: (vault - order.vault_out) as nat,
                    supply: (supply - units) as nat,
                },
            )
        }),
{
}

/// A curve account that holds its rent holds it after every accepted sell.
pub proof fn law_sell_leaves_rent(
    program_id: Seq<u8>,
    accounts: Seq<Account>,
    units: u64,
    min_out: u64,
    expect: Seq<u8>,
    rent: u64,
)
    requires
        rent <= accounts[1].lamports,
        sell_outcome(program_id, accounts, units, min_out, expect, Ok(rent)) is Ok,
        (trade_curve(program_id, accounts, false, units, expect)->Ok_0).well_formed(),
    ensures
        ({
            let order = sell_outcome(program_id, accounts, units, min_out, expect, Ok(rent))->Ok_0;
            rent <= accounts[1].lamports - order.vault_out
        }),
{
    let curve = trade_curve(program_id, accounts, false, units, expect)->Ok_0;
    let vault = above_rent(accounts[1].lamports, rent);
    let supply = stored_supply(accounts[2].data@);
    let (v, s, u) = (vault, supply, units as nat);
    lemma_gross(v, s, u);
    lemma_two_shares(
        sell_gross(v, s, u),
        curve.sell_fee_creator_bps,
        curve.sell_fee_floor_bps,
    );
}

/// What is sent to the curve account counts as backing.
pub proof fn law_deposits_back(lamports: u64, rent: u64, deposit: u64)
    requires
        rent <= lamports,
        lamports + deposit <= u64::MAX,
    ensures
        above_rent((lamports + deposit) as u64, rent) == above_rent(lamports, rent) + deposit,
{
}

/// No call of an accepted buy takes from the vault: each is a transfer that the
/// buyer alone signs and pays.
pub proof fn law_buyers_pay_buys(
    program_id: Seq<u8>,
    accounts: Seq<Account>,
    lamports: u64,
    min_out: u64,
    expect: Seq<u8>,
    rent: Result<u64, ProgramError>,
)
    requires
        buy_outcome(program_id, accounts, lamports, min_out, expect, rent) is Ok,
    ensures
        ({
            let order = buy_outcome(program_id, accounts, lamports, min_out, expect, rent)->Ok_0;
            forall|i: int|
                0 <= i < order.transfers.len() ==> {
                    let cpi = #[trigger] order.transfers[i];
                    &&& !cpi.signed
                    &&& exists|to: Seq<u8>, amount: u64|
                        cpi.instruction == #[trigger] transfer(accounts[0].key@, to, amount)
                }
        }),
{
}

/// A trade that names another creator than the recorded one is refused.
pub proof fn law_wrong_creator_is_refused(
    program_id: Seq<u8>,
    accounts: Seq<Account>,
    buying: bool,
    amount: u64,
    expect: Seq<u8>,
    curve: Curve,
)
    requires
        accounts.len() >= 5,
        stored_curve(accounts[1].data@) == Some(curve),
        accounts[4].key@ != if buying {
            curve.buy_creator@
        } else {
            curve.sell_creator@
        },
    ensures
        trade_curve(program_id, accounts, buying, amount, expect) is Err,
{
}

// ---------------------------------------------------------------------------
// Builders and handlers
// ---------------------------------------------------------------------------

/// A built launch is received as it was meant.
pub proof fn law_built_launch_is_received(
    program_id: Seq<u8>,
    payer: Seq<u8>,
    buy_creator: Pubkey,
    sell_creator: Pubkey,
    mint: Seq<u8>,
    cfg: LaunchCfg,
    pda: Seq<u8>,
)
    ensures
        sent_instruction(
            initialize_ix(program_id, payer, buy_creator, sell_creator, mint, cfg, pda).data,
        ) == Some(launch_of(buy_creator, sell_creator, cfg)),
{
    lemma_instruction_round_trip(launch_of(buy_creator, sell_creator, cfg));
}

/// A built trade is received as it was meant.
pub proof fn law_built_trade_is_received(
    program_id: Seq<u8>,
    trader: Seq<u8>,
    mint: Seq<u8>,
    creator: Seq<u8>,
    amount: u64,
    min_out: u64,
    pda: Seq<u8>,
    account: Seq<u8>,
    payout: Seq<u8>,
)
    ensures
        sent_instruction(
            buy_ix(program_id, trader, mint, creator, amount, min_out, pda, account).data,
        ) == Some(CurveInstruction::Buy { lamports: amount, min_out }),
        sent_instruction(
            sell_ix(program_id, trader, mint, creator, amount, min_out, pda, account).data,
        ) == Some(CurveInstruction::Sell { units: amount, min_out }),
        sent_instruction(
            sell_via_payout_ix(
                program_id,
                trader,
                mint,
                creator,
                amount,
                min_out,
                pda,
                account,
                payout,
            ).data,
        ) == Some(CurveInstruction::Sell { units: amount, min_out }),
{
    lemma_instruction_round_trip(CurveInstruction::Buy { lamports: amount, min_out });
    lemma_instruction_round_trip(CurveInstruction::Sell { units: amount, min_out });
}

/// The accounts are those that an instruction names, in order and with their
/// signatures.
pub open spec fn delivers(accounts: Seq<Account>, ix: InstructionView) -> bool {
    &&& accounts.len() == ix.accounts.len()
    &&& forall|i: int|
        0 <= i < accounts.len() ==> (#[trigger] accounts[i]).key@ == ix.accounts[i].key
            && accounts[i].is_signer == ix.accounts[i].is_signer
}

/// A built launch passes all checks that come before its curve's address is
/// derived, just where its configuration is inside the caps.
pub proof fn law_built_launch_is_admitted(
    program_id: Seq<u8>,
    accounts: Seq<Account>,
    payer: Seq<u8>,
    buy_creator: Pubkey,
    sell_creator: Pubkey,
    mint: Seq<u8>,
    cfg: LaunchCfg,
    pda: Seq<u8>,
)
    requires
        delivers(
            accounts,
            initialize_ix(program_id, payer, buy_creator, sell_creator, mint, cfg, pda),
        ),
    ensures
        initialize_refusal(accounts, cfg) == if cfg.allowed() {
            None::<ProgramError>
        } else {
            Some(ProgramError::Custom(E_BAD_PARAMS))
        },
        accounts[1].key@ == pda,
        accounts[2].key@ == mint,
{
    assert(accounts[0].is_signer && accounts[3].key@ == SYSTEM_PROGRAM@);
    assert(accounts[1].key@ == pda && accounts[2].key@ == mint);
}

/// The token account is one of the mint.
pub open spec fn holds_mint(data: Seq<u8>, mint: Seq<u8>) -> bool {
    data.len() >= 72 && data.subrange(0, 32) == mint
}

/// A built trade passes all checks of its accounts: what the builders send is
/// what the handlers ask for.
pub proof fn law_built_trade_is_admitted(
    program_id: Seq<u8>,
    accounts: Seq<Account>,
    trader: Seq<u8>,
    curve: Curve,
    amount: u64,
    min_out: u64,
    pda: Seq<u8>,
    account: Seq<u8>,
    payout: Seq<u8>,
    buying: bool,
    paying_out: bool,
)
    requires
        delivers(
            accounts,
            if buying {
                buy_ix(
                    program_id,
                    trader,
                    curve.mint@,
                    curve.buy_creator@,
                    amount,
                    min_out,
                    pda,
                    account,
                )
            } else if paying_out {
                sell_via_payout_ix(
                    program_id,
                    trader,
                    curve.mint@,
                    curve.sell_creator@,
                    amount,
                    min_out,
                    pda,
                    account,
                    payout,
                )
            } else {
                sell_ix(
                    program_id,
                    trader,
                    curve.mint@,
                    curve.sell_creator@,
                    amount,
                    min_out,
                    pda,
                    account,
                )
            },
        ),
        amount > 0,
        accounts[1].owner@ == program_id,
        accounts[1].data@ == curve_bytes(curve),
        holds_mint(accounts[3].data@, curve.mint@),
    ensures
        trade_curve(program_id, accounts, buying, amount, pda) == Ok::<Curve, ProgramError>(curve),
{
    lemma_curve_round_trip(curve);
    assert(accounts[0].is_signer);
    assert(accounts[1].key@ == pda);
    assert(accounts[2].key@ == curve.mint@);
    assert(accounts[5].key@ == TOKEN_PROGRAM@);
    if buying {
        assert(accounts[4].key@ == curve.buy_creator@);
        assert(accounts[6].key@ == SYSTEM_PROGRAM@);
    } else {
        assert(accounts[4].key@ == curve.sell_creator@);
    }
}

/// A valid market at the reference backing or above passes the suite's check of
/// the ratio.
pub proof fn law_ratio_holds(m: Market)
    requires
        m.valid(),
        m.vault <= u64::MAX,
        m.supply <= u64::MAX,
        m.curve.min_backing_bps >= reference().min_backing_bps,
    ensures
        ratio_holds(m.curve.price_fp, m.vault as u64, m.supply as u64),
{
    let (p, b) = (m.curve.price_fp as int, m.curve.min_backing_bps as int);
    assert(p * 9_350 <= p * b) by (nonlinear_arith)
        requires
            p >= 0,
            b >= 9_350,
    ;
}

} // verus!
